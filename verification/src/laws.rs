//! Laws that relate the renderer, the parser and the resolver.

use vstd::prelude::*;
use vstd::arithmetic::div_mod::{
    lemma_div_is_ordered, lemma_fundamental_div_mod, lemma_fundamental_div_mod_converse,
    lemma_mod_bound, lemma_mod_mod, lemma_mod_multiples_basic,
};
use crate::bytes::{digits2_ok, dval, is_digit, is_ws, lemma_trim_of_ws_free, two_digits};
use crate::calendar::Time;
use crate::instant::{
    digit, render2, render_date, render_offset, render_rfc3339, render_time, FixedOffsetInstant,
};
use crate::parse::{
    datetime_matches, four_digits, is_local_token, lemma_render_date_reads_back, naive_at,
    spec_parse_fixed, spec_remainder, spec_split, time_fields_ok,
};
use crate::resolve::spec_numeric_offset;

verus! {

/// Two rendered digits read back as the number they were rendered from.
proof fn lemma_render2_reads_back(n: int)
    requires
        0 <= n <= 99,
    ensures
        render2(n).len() == 2,
        is_digit(render2(n)[0]),
        is_digit(render2(n)[1]),
        dval(render2(n)[0]) * 10 + dval(render2(n)[1]) == n,
{
    lemma_fundamental_div_mod(n, 10);
    assert(render2(n)[0] == digit(n / 10));
    assert(render2(n)[1] == digit(n % 10));
}

/// A rendered time of day reads back as the time it was rendered from.
proof fn lemma_render_time_reads_back(t: Time)
    requires
        t.wf(),
    ensures
        ({
            let rt = render_time(t);
            &&& rt.len() == 8
            &&& digits2_ok(rt, 0) && digits2_ok(rt, 3) && digits2_ok(rt, 6)
            &&& rt[2] == 58 && rt[5] == 58
            &&& two_digits(rt, 0) == t.hour
            &&& two_digits(rt, 3) == t.minute
            &&& two_digits(rt, 6) == t.second
        }),
{
    let rt = render_time(t);
    lemma_render2_reads_back(t.hour as int);
    lemma_render2_reads_back(t.minute as int);
    lemma_render2_reads_back(t.second as int);
    assert(rt[0] == render2(t.hour as int)[0]);
    assert(rt[1] == render2(t.hour as int)[1]);
    assert(rt[2] == 58u8);
    assert(rt[3] == render2(t.minute as int)[0]);
    assert(rt[4] == render2(t.minute as int)[1]);
    assert(rt[5] == 58u8);
    assert(rt[6] == render2(t.second as int)[0]);
    assert(rt[7] == render2(t.second as int)[1]);
}

/// A rendered offset reads back, through the numeric-offset grammar, as the
/// offset it was rendered from, provided the offset has no second
/// component — the representation carries hours and minutes only.
proof fn lemma_render_offset_reads_back(off: int)
    requires
        -86400 < off < 86400,
        off % 60 == 0,
    ensures
        ({
            let ro = render_offset(off);
            &&& ro.len() == 6
            &&& forall|k: int| 0 <= k < 6 ==> !is_ws(ro[k])
            &&& spec_numeric_offset(ro) == Some(off)
        }),
{
    let ro = render_offset(off);
    let a: int = if off >= 0 {
        off
    } else {
        -off
    };
    assert(a % 60 == 0) by {
        lemma_fundamental_div_mod(off, 60);
        if off < 0 {
            lemma_mod_multiples_basic(-(off / 60), 60);
            assert(60 * -(off / 60) == -(60 * (off / 60)));
        }
    }
    assert(a <= 86340) by {
        lemma_fundamental_div_mod(a, 60);
        assert(60 * (a / 60) < 86400);
        assert(a / 60 <= 1439);
    }
    let h = a / 3600;
    let m = (a % 3600) / 60;
    assert(0 <= h <= 23) by {
        lemma_div_is_ordered(a, 86340, 3600);
        vstd::arithmetic::div_mod::lemma_div_pos_is_pos(a, 3600);
    }
    assert(0 <= m <= 59) by {
        lemma_mod_bound(a, 3600);
        lemma_div_is_ordered(a % 3600, 3599, 60);
        vstd::arithmetic::div_mod::lemma_div_pos_is_pos(a % 3600, 60);
    }
    assert(h * 3600 + m * 60 == a) by {
        lemma_fundamental_div_mod(a, 3600);
        lemma_fundamental_div_mod(a % 3600, 60);
        lemma_mod_mod(a, 60, 60);
    }
    lemma_render2_reads_back(h);
    lemma_render2_reads_back(m);
    assert(ro[0] == if off >= 0 {
        43u8
    } else {
        45u8
    });
    assert(ro[1] == render2(h)[0]);
    assert(ro[2] == render2(h)[1]);
    assert(ro[3] == 58u8);
    assert(ro[4] == render2(m)[0]);
    assert(ro[5] == render2(m)[1]);
    assert(two_digits(ro, 1) == h);
    assert(two_digits(ro, 4) == m);
    assert(crate::resolve::is_sign(ro[0]));
    if off >= 0 {
        assert(crate::resolve::sign_val(ro[0]) == 1);
        assert(spec_numeric_offset(ro) == Some(1 * (h * 3600 + m * 60)));
    } else {
        assert(crate::resolve::sign_val(ro[0]) == -1);
        assert(spec_numeric_offset(ro) == Some((-1) * (h * 3600 + m * 60)));
    }
}

/// Round trip: a well-formed instant whose offset is whole minutes, once
/// rendered in the standard offset-qualified representation, parses back to
/// exactly itself — so re-rendering the parse result reproduces the input
/// byte for byte.
pub proof fn lemma_rfc3339_round_trip(i: FixedOffsetInstant)
    requires
        i.wf(),
        i.offset_seconds % 60 == 0,
    ensures
        spec_parse_fixed(render_rfc3339(i)) == Some(i),
{
    let s = render_rfc3339(i);
    let rd = render_date(i.naive.date);
    let rt = render_time(i.naive.time);
    let ro = render_offset(i.offset_seconds as int);
    lemma_render_date_reads_back(i.naive.date);
    lemma_render_time_reads_back(i.naive.time);
    lemma_render_offset_reads_back(i.offset_seconds as int);
    assert(s.len() == 25);
    assert forall|k: int| 0 <= k < 10 implies s[k] == rd[k] by {}
    assert(s[10] == 84u8);
    assert forall|k: int| 0 <= k < 8 implies s[11 + k] == rt[k] by {}
    assert forall|k: int| 0 <= k < 6 implies s[19 + k] == ro[k] by {}
    assert(two_digits(s, 0) == two_digits(rd, 0));
    assert(two_digits(s, 2) == two_digits(rd, 2));
    assert(two_digits(s, 5) == two_digits(rd, 5));
    assert(two_digits(s, 8) == two_digits(rd, 8));
    assert(four_digits(s, 0) == i.naive.date.year);
    assert(crate::parse::date_fields_ok(s));
    assert(two_digits(s, 11) == two_digits(rt, 0));
    assert(two_digits(s, 14) == two_digits(rt, 3));
    assert(two_digits(s, 17) == two_digits(rt, 6));
    assert(time_fields_ok(s, 11));
    assert(datetime_matches(s, 84));
    assert(spec_split(s) == Some(naive_at(s)));
    assert(naive_at(s) == i.naive);
    let tail = s.subrange(19, s.len() as int);
    assert(tail =~= ro);
    lemma_trim_of_ws_free(ro);
    assert(spec_remainder(s) == ro);
    assert(!is_local_token(ro)) by {
        assert(crate::bytes::spec_lower(ro).len() == 6);
    }
    assert(spec_numeric_offset(ro) == Some(i.offset_seconds as int));
    assert(spec_parse_fixed(s) == Some(
        FixedOffsetInstant { naive: i.naive, offset_seconds: i.offset_seconds },
    ));
}

/// An offset-bound instant is determined by its absolute instant and its
/// offset: two well-formed instants that agree on both are equal. The
/// converter's contract pins the result's epoch and offset, so with this
/// law its whole civil reading is pinned too.
pub proof fn lemma_instant_determined(a: FixedOffsetInstant, b: FixedOffsetInstant)
    requires
        a.wf(),
        b.wf(),
        a.epoch_of() == b.epoch_of(),
        a.offset_seconds == b.offset_seconds,
    ensures
        a == b,
{
    let abs = a.naive.abs_seconds();
    assert(b.naive.abs_seconds() == abs);
    lemma_fundamental_div_mod_converse(
        abs,
        86400,
        a.naive.date.spec_day_number(),
        a.naive.time.spec_seconds_of_day(),
    );
    lemma_fundamental_div_mod_converse(
        abs,
        86400,
        b.naive.date.spec_day_number(),
        b.naive.time.spec_seconds_of_day(),
    );
    crate::calendar::lemma_date_injective(a.naive.date, b.naive.date);
    let sod = a.naive.time.spec_seconds_of_day();
    lemma_fundamental_div_mod_converse(
        sod,
        3600,
        a.naive.time.hour as int,
        a.naive.time.minute * 60 + a.naive.time.second,
    );
    lemma_fundamental_div_mod_converse(
        sod,
        3600,
        b.naive.time.hour as int,
        b.naive.time.minute * 60 + b.naive.time.second,
    );
    let rem = a.naive.time.minute * 60 + a.naive.time.second;
    lemma_fundamental_div_mod_converse(
        rem,
        60,
        a.naive.time.minute as int,
        a.naive.time.second as int,
    );
    lemma_fundamental_div_mod_converse(
        rem,
        60,
        b.naive.time.minute as int,
        b.naive.time.second as int,
    );
}

/// Bytes that fold alike agree on everything the numeric-offset grammar
/// reads: digit, sign and colon bytes are left alone by folding, and `Z`
/// folds to `z`.
proof fn lemma_lower_byte_reads_alike(a: u8, b: u8)
    requires
        crate::bytes::lower_byte(a) == crate::bytes::lower_byte(b),
    ensures
        is_digit(a) <==> is_digit(b),
        is_digit(a) ==> a == b,
        crate::resolve::is_sign(a) <==> crate::resolve::is_sign(b),
        crate::resolve::is_sign(a) ==> a == b,
        (a == 58) <==> (b == 58),
        (a == 90 || a == 122) <==> (b == 90 || b == 122),
{
}

/// Two tokens that case-fold alike resolve alike through the numeric-offset
/// grammar. Together with the resolver's contract — which pins an index hit
/// to the offset of the zone registered under the folded token — the whole
/// resolution is invariant under the ASCII case of the token.
pub proof fn lemma_numeric_offset_case_insensitive(t1: Seq<u8>, t2: Seq<u8>)
    requires
        crate::bytes::spec_lower(t1) == crate::bytes::spec_lower(t2),
    ensures
        spec_numeric_offset(t1) == spec_numeric_offset(t2),
{
    let n = t1.len();
    assert(crate::bytes::spec_lower(t1).len() == n);
    assert(t2.len() == n);
    assert forall|i: int| 0 <= i < n implies crate::bytes::lower_byte(t1[i])
        == crate::bytes::lower_byte(t2[i]) by {
        assert(crate::bytes::spec_lower(t1)[i] == crate::bytes::lower_byte(t1[i]));
        assert(crate::bytes::spec_lower(t2)[i] == crate::bytes::lower_byte(t2[i]));
    }
    if n == 1 {
        lemma_lower_byte_reads_alike(t1[0], t2[0]);
    } else if n == 3 {
        lemma_lower_byte_reads_alike(t1[0], t2[0]);
        lemma_lower_byte_reads_alike(t1[1], t2[1]);
        lemma_lower_byte_reads_alike(t1[2], t2[2]);
    } else if n == 5 {
        lemma_lower_byte_reads_alike(t1[0], t2[0]);
        lemma_lower_byte_reads_alike(t1[1], t2[1]);
        lemma_lower_byte_reads_alike(t1[2], t2[2]);
        lemma_lower_byte_reads_alike(t1[3], t2[3]);
        lemma_lower_byte_reads_alike(t1[4], t2[4]);
    } else if n == 6 {
        lemma_lower_byte_reads_alike(t1[0], t2[0]);
        lemma_lower_byte_reads_alike(t1[1], t2[1]);
        lemma_lower_byte_reads_alike(t1[2], t2[2]);
        lemma_lower_byte_reads_alike(t1[3], t2[3]);
        lemma_lower_byte_reads_alike(t1[4], t2[4]);
        lemma_lower_byte_reads_alike(t1[5], t2[5]);
    }
}

/// A matched pattern whose remainder is a numeric-offset token is resolved
/// by the token's digits alone: the result is fixed with no reference to
/// any abbreviation index.
pub proof fn lemma_numeric_remainder_resolves_alone(s: Seq<u8>, o: int)
    requires
        spec_split(s) is Some,
        spec_numeric_offset(spec_remainder(s)) == Some(o),
        !is_local_token(spec_remainder(s)),
    ensures
        spec_parse_fixed(s) == Some(
            FixedOffsetInstant {
                naive: spec_split(s)->Some_0,
                offset_seconds: o as i32,
            },
        ),
{
    assert(spec_remainder(s).len() > 0);
}

} // verus!
