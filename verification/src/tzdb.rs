//! The timezone abbreviation index: lowercase abbreviation to the canonical
//! IANA zone name.
//!
//! The index is built once from the full zone catalog, evaluated at the
//! current instant so that DST-dependent abbreviations reflect "now". Keys
//! are unique; on a collision the zone registered last wins — several zones
//! can share an abbreviation at a given instant, and keeping the last one is
//! this library's documented policy, stated exactly by [`spec_register`].

use vstd::prelude::*;
use crate::bytes::{ascii_lower, bytes_eq, lemma_lower_idempotent, spec_lower};
use crate::host::{is_zone_name, now_epoch, zone_abbrev_at, zone_catalog, zone_name};

verus! {

/// One registered abbreviation.
struct TzEntry {
    key: Vec<u8>,
    name: Vec<u8>,
}

/// Mapping from lowercase timezone abbreviation to a canonical zone name,
/// with unique keys.
pub struct TzDb {
    entries: Vec<TzEntry>,
}

impl TzDb {
    /// Keys are pairwise distinct.
    pub closed spec fn wf(self) -> bool {
        forall|i: int, j: int|
            0 <= i < j < self.entries@.len() ==> self.entries@[i].key@ != self.entries@[j].key@
    }

    /// Whether an abbreviation is registered.
    pub closed spec fn contains_abbrev(self, key: Seq<u8>) -> bool {
        exists|i: int| 0 <= i < self.entries@.len() && self.entries@[i].key@ == key
    }

    /// The zone name registered under an abbreviation.
    pub closed spec fn spec_get(self, key: Seq<u8>) -> Option<Seq<u8>> {
        if self.contains_abbrev(key) {
            let i = choose|i: int|
                0 <= i < self.entries@.len() && self.entries@[i].key@ == key;
            Some(self.entries@[i].name@)
        } else {
            None
        }
    }

    /// An empty index.
    pub fn new() -> (db: TzDb)
        ensures
            db.wf(),
            forall|k: Seq<u8>| !db.contains_abbrev(k),
    {
        TzDb { entries: Vec::new() }
    }

    /// Every entry whose key is `key` holds the name `spec_get` names.
    proof fn lemma_get_unique(self, key: Seq<u8>, i: int)
        requires
            self.wf(),
            0 <= i < self.entries@.len(),
            self.entries@[i].key@ == key,
        ensures
            self.spec_get(key) == Some(self.entries@[i].name@),
    {
        let j = choose|j: int|
            0 <= j < self.entries@.len() && self.entries@[j].key@ == key;
        if i < j {
            assert(self.entries@[i].key@ != self.entries@[j].key@);
        } else if j < i {
            assert(self.entries@[j].key@ != self.entries@[i].key@);
        }
    }

    /// Index of the entry holding `key`, if any.
    fn find(&self, key: &[u8]) -> (r: Option<usize>)
        ensures
            match r {
                Some(i) => i < self.entries@.len() && self.entries@[i as int].key@ == key@,
                None => !self.contains_abbrev(key@),
            },
    {
        let mut i: usize = 0;
        while i < self.entries.len()
            invariant
                i <= self.entries@.len(),
                forall|j: int| 0 <= j < i ==> self.entries@[j].key@ != key@,
            decreases self.entries@.len() - i,
        {
            if bytes_eq(self.entries[i].key.as_slice(), key) {
                return Some(i);
            }
            i = i + 1;
        }
        None
    }

    /// Looks an abbreviation up.
    pub fn get(&self, key: &[u8]) -> (r: Option<&Vec<u8>>)
        requires
            self.wf(),
        ensures
            r is Some <==> self.contains_abbrev(key@),
            r matches Some(n) ==> self.spec_get(key@) == Some(n@),
    {
        match self.find(key) {
            Some(i) => {
                proof {
                    self.lemma_get_unique(key@, i as int);
                }
                Some(&self.entries[i].name)
            },
            None => None,
        }
    }

    /// Registers a zone name under an abbreviation; an existing registration
    /// of the same abbreviation is replaced.
    pub fn insert(&mut self, key: Vec<u8>, name: Vec<u8>)
        requires
            old(self).wf(),
        ensures
            final(self).wf(),
            final(self).spec_get(key@) == Some(name@),
            forall|k: Seq<u8>|
                #[trigger] final(self).contains_abbrev(k) <==> (old(self).contains_abbrev(k) || k
                    == key@),
            forall|k: Seq<u8>|
                k != key@ ==> #[trigger] final(self).spec_get(k) == old(self).spec_get(k),
    {
        let ghost pre = *self;
        match self.find(key.as_slice()) {
            Some(i) => {
                self.entries.remove(i);
                proof {
                    assert forall|k: Seq<u8>| #[trigger]
                        self.contains_abbrev(k) implies pre.contains_abbrev(k) by {
                        let j = choose|j: int|
                            0 <= j < self.entries@.len() && self.entries@[j].key@ == k;
                        if j < i {
                            assert(pre.entries@[j].key@ == k);
                        } else {
                            assert(pre.entries@[j + 1].key@ == k);
                        }
                    }
                    assert forall|k: Seq<u8>|
                        k != key@ && #[trigger] pre.contains_abbrev(k) implies self.contains_abbrev(
                        k,
                    ) by {
                        let j = choose|j: int|
                            0 <= j < pre.entries@.len() && pre.entries@[j].key@ == k;
                        if j < i {
                            assert(self.entries@[j].key@ == k);
                        } else {
                            assert(pre.entries@[i as int].key@ == key@);
                            assert(self.entries@[j - 1].key@ == k);
                        }
                    }
                }
            },
            None => {},
        }
        let ghost mid = *self;
        proof {
            assert(forall|j: int|
                0 <= j < mid.entries@.len() ==> #[trigger] mid.entries@[j].key@ != key@) by {
                if exists|j: int|
                    0 <= j < mid.entries@.len() && #[trigger] mid.entries@[j].key@ == key@ {
                    let j = choose|j: int|
                        0 <= j < mid.entries@.len() && #[trigger] mid.entries@[j].key@ == key@;
                    assert(mid.contains_abbrev(key@));
                }
            }
        }
        self.entries.push(TzEntry { key, name });
        proof {
            let n = self.entries@.len() - 1;
            assert(self.entries@[n].key@ == key@);
            assert(self.contains_abbrev(key@));
            self.lemma_get_unique(key@, n);
            assert forall|k: Seq<u8>| #[trigger]
                self.contains_abbrev(k) implies (mid.contains_abbrev(k) || k == key@) by {
                let j = choose|j: int|
                    0 <= j < self.entries@.len() && self.entries@[j].key@ == k;
                if j < n {
                    assert(mid.entries@[j].key@ == k);
                }
            }
            assert forall|k: Seq<u8>|
                k != key@ && #[trigger] self.contains_abbrev(k) implies self.spec_get(k)
                == mid.spec_get(k) by {
                let j = choose|j: int|
                    0 <= j < self.entries@.len() && self.entries@[j].key@ == k;
                assert(j < n);
                assert(mid.entries@[j].key@ == k);
                self.lemma_get_unique(k, j);
                mid.lemma_get_unique(k, j);
            }
            assert forall|k: Seq<u8>|
                k != key@ && #[trigger] mid.contains_abbrev(k) implies self.contains_abbrev(
                k,
            ) by {
                let j = choose|j: int|
                    0 <= j < mid.entries@.len() && mid.entries@[j].key@ == k;
                assert(self.entries@[j].key@ == k);
            }
        }
    }
}

/// The mapping that registering a run of `(abbreviation, zone name)` pairs
/// in order leaves for a key: the last pair with that key wins, and a key no
/// pair holds keeps its earlier binding.
pub open spec fn spec_register(pairs: Seq<(Vec<u8>, Vec<u8>)>, k: Seq<u8>) -> Option<Seq<u8>>
    decreases pairs.len(),
{
    if pairs.len() == 0 {
        None
    } else if pairs.last().0@ == k {
        Some(pairs.last().1@)
    } else {
        spec_register(pairs.drop_last(), k)
    }
}

/// A key that registering binds was bound by one of the pairs.
pub proof fn lemma_register_member(pairs: Seq<(Vec<u8>, Vec<u8>)>, k: Seq<u8>)
    requires
        spec_register(pairs, k) is Some,
    ensures
        exists|j: int|
            0 <= j < pairs.len() && (#[trigger] pairs[j]).0@ == k && pairs[j].1@ == spec_register(
                pairs,
                k,
            )->Some_0,
    decreases pairs.len(),
{
    if pairs.last().0@ == k {
        assert(pairs[pairs.len() - 1].0@ == k);
    } else {
        lemma_register_member(pairs.drop_last(), k);
        let j = choose|j: int|
            0 <= j < pairs.drop_last().len() && (#[trigger] pairs.drop_last()[j]).0@ == k
                && pairs.drop_last()[j].1@ == spec_register(pairs.drop_last(), k)->Some_0;
        assert(pairs[j].0@ == k);
    }
}

/// Registers every pair in order, last writer winning.
pub fn register_all(db: &mut TzDb, pairs: Vec<(Vec<u8>, Vec<u8>)>)
    requires
        old(db).wf(),
    ensures
        final(db).wf(),
        forall|k: Seq<u8>|
            #[trigger] final(db).contains_abbrev(k) <==> (old(db).contains_abbrev(k)
                || spec_register(pairs@, k) is Some),
        forall|k: Seq<u8>|
            #[trigger] final(db).spec_get(k) == (match spec_register(pairs@, k) {
                Some(n) => Some(n),
                None => old(db).spec_get(k),
            }),
{
    let mut rest = pairs;
    let ghost all = rest@;
    let ghost mut done: int = 0;
    while rest.len() > 0
        invariant
            db.wf(),
            0 <= done <= all.len(),
            rest@ =~= all.subrange(done, all.len() as int),
            forall|k: Seq<u8>|
                #[trigger] db.contains_abbrev(k) <==> (old(db).contains_abbrev(k)
                    || spec_register(all.subrange(0, done), k) is Some),
            forall|k: Seq<u8>|
                #[trigger] db.spec_get(k) == (match spec_register(all.subrange(0, done), k) {
                    Some(n) => Some(n),
                    None => old(db).spec_get(k),
                }),
        decreases rest@.len(),
    {
        let p = rest.remove(0);
        let ghost pv = p;
        let (kk, nn) = p;
        db.insert(kk, nn);
        proof {
            assert(all[done] == pv);
            assert forall|k: Seq<u8>| #[trigger]
                spec_register(all.subrange(0, done + 1), k) == (if all[done].0@ == k {
                    Some(all[done].1@)
                } else {
                    spec_register(all.subrange(0, done), k)
                }) by {
                let ext = all.subrange(0, done + 1);
                assert(ext.last() == all[done]);
                assert(ext.drop_last() =~= all.subrange(0, done));
            }
            done = done + 1;
            assert(rest@ =~= all.subrange(done, all.len() as int));
        }
    }
    proof {
        assert(all.subrange(0, all.len() as int) =~= all);
    }
}

/// Builds the abbreviation index from the full IANA catalog: for each zone
/// that has an abbreviation at the current instant, the lowercased
/// abbreviation is registered with the zone's canonical name, later zones
/// replacing earlier ones on a shared abbreviation. Every registered key is
/// lowercase and every registered value is a real zone name.
pub fn build_timezone_db() -> (db: TzDb)
    ensures
        db.wf(),
        forall|k: Seq<u8>| #[trigger] db.contains_abbrev(k) ==> k == spec_lower(k),
        forall|k: Seq<u8>| #[trigger]
            db.contains_abbrev(k) ==> db.spec_get(k) is Some && is_zone_name(
                db.spec_get(k)->Some_0,
            ),
{
    let zones = zone_catalog();
    let now = now_epoch();
    let mut pairs: Vec<(Vec<u8>, Vec<u8>)> = Vec::new();
    let mut i: usize = 0;
    while i < zones.len()
        invariant
            forall|j: int|
                0 <= j < pairs@.len() ==> (#[trigger] pairs@[j]).0@ == spec_lower(pairs@[j].0@)
                    && is_zone_name(pairs@[j].1@),
        decreases zones@.len() - i,
    {
        match zone_abbrev_at(zones[i], now) {
            Some(abbrev) => {
                let key = ascii_lower(abbrev.as_slice());
                proof {
                    lemma_lower_idempotent(abbrev@);
                }
                let name = zone_name(zones[i]);
                pairs.push((key, name));
            },
            None => {},
        }
        i = i + 1;
    }
    let ghost drawn = pairs@;
    let mut db = TzDb::new();
    register_all(&mut db, pairs);
    proof {
        assert forall|k: Seq<u8>| #[trigger]
            db.contains_abbrev(k) implies k == spec_lower(k) && db.spec_get(k) is Some
            && is_zone_name(db.spec_get(k)->Some_0) by {
            lemma_register_member(drawn, k);
            let j = choose|j: int|
                0 <= j < drawn.len() && (#[trigger] drawn[j]).0@ == k && drawn[j].1@
                    == spec_register(drawn, k)->Some_0;
            assert(drawn[j].0@ == spec_lower(drawn[j].0@) && is_zone_name(drawn[j].1@));
        }
    }
    db
}

} // verus!
