use tzconv::{build_timezone_db, convert, parse, parse_timezone, run, CliError, ResolveError, TzDb};

#[test]
fn convert_datetime_to_utc() {
    let db = build_timezone_db();
    let datetime = parse(&db, "2023-10-22T10:34:16+02:00").unwrap();
    assert_eq!(
        datetime.to_utc().unwrap().to_rfc3339(),
        convert(&datetime, "UTC".as_bytes()).unwrap().to_rfc3339()
    );
}

#[test]
fn convert_utc_to_utc_is_identity() {
    let db = build_timezone_db();
    let datetime = parse(&db, "2023-10-22T10:34:16+00:00").unwrap();
    let converted = convert(&datetime, "UTC".as_bytes()).unwrap();
    assert_eq!("2023-10-22T10:34:16+00:00", converted.to_rfc3339());
}

#[test]
fn convert_into_named_zone() {
    let db = build_timezone_db();
    let datetime = parse(&db, "2023-10-22 10:34:16").unwrap();
    let converted = convert(&datetime, "Asia/Tokyo".as_bytes()).unwrap();
    assert_eq!("2023-10-22 19:34:16 +09:00", converted.to_display());
}

#[test]
fn convert_near_range_edge_fails() {
    let db = build_timezone_db();
    let datetime = parse(&db, "0000-01-01T00:00:00+01:00").unwrap();
    assert!(datetime.to_utc().is_none());
    assert!(convert(&datetime, "UTC".as_bytes()).is_none());
}

#[test]
fn numeric_offset_skips_database() {
    let empty = TzDb::new();
    assert_eq!(Ok(32400), parse_timezone(&empty, 0, "+09:00".as_bytes()));
    assert_eq!(Ok(-34200), parse_timezone(&empty, 0, "-0930".as_bytes()));
    assert_eq!(Ok(0), parse_timezone(&empty, 0, "Z".as_bytes()));
    assert_eq!(
        Err(ResolveError::UnknownTimezone),
        parse_timezone(&empty, 0, "jst".as_bytes())
    );
}

#[test]
fn abbreviation_resolves_through_database() {
    let db = build_timezone_db();
    assert_eq!(Ok(32400), parse_timezone(&db, 1697970856, "JST".as_bytes()));
}

#[test]
fn database_lookup_is_case_insensitive() {
    let db = build_timezone_db();
    assert!(db.get("utc".as_bytes()).is_some());
    assert!(db.get("notazone".as_bytes()).is_none());
    // registered keys are lowercase, so an unfolded lookup misses
    assert!(db.get("UTC".as_bytes()).is_none());
}

#[test]
fn database_maps_abbreviation_to_zone_name() {
    let db = build_timezone_db();
    let name = db.get("jst".as_bytes()).unwrap();
    let zone: Result<chrono_tz::Tz, _> = std::str::from_utf8(name).unwrap().parse();
    assert!(zone.is_ok());
}

#[test]
fn convert_rejects_unknown_zone_name() {
    let db = build_timezone_db();
    let datetime = parse(&db, "2023-10-22 10:34:16").unwrap();
    assert!(convert(&datetime, "Not/AZone".as_bytes()).is_none());
}

#[test]
fn unknown_destination_rejected_before_parse() {
    let db = build_timezone_db();
    assert_eq!(
        Err(CliError::UnknownTimezone),
        run(&db, "2023-10-22 10:34:16", "notazone")
    );
    assert_eq!(
        Err(CliError::UnknownTimezone),
        run(&db, "complete garbage", "notazone")
    );
}

#[test]
fn run_converts_to_destination() {
    let db = build_timezone_db();
    assert_eq!(
        Ok(String::from("2023-10-22 10:34:16 +00:00")),
        run(&db, "2023-10-22 10:34:16", "utc")
    );
}

#[test]
fn run_reports_unparseable_datetime() {
    let db = build_timezone_db();
    assert_eq!(
        Err(CliError::UnrecognizedFormat),
        run(&db, "complete garbage", "utc")
    );
}
