use tzconv::{build_timezone_db, parse, parse_with_today, Date, ParseError, TzDb};

#[test]
fn parse_rfc3339() {
    let db = build_timezone_db();
    let datetime = "2023-10-22T10:34:16+01:00";
    assert_eq!(datetime, parse(&db, datetime).unwrap().to_rfc3339());
}

#[test]
fn parse_timezone_abbreviation() {
    let db = build_timezone_db();
    let datetime = "2023-10-22 10:34:16 jst";
    assert_eq!(
        "2023-10-22 10:34:16 +09:00",
        parse(&db, datetime).unwrap().to_display()
    )
}

#[test]
fn parse_without_timezone() {
    let db = build_timezone_db();
    let datetime = "2023-10-22 10:34:16";
    assert_eq!(
        "2023-10-22T10:34:16+00:00",
        parse(&db, datetime).unwrap().to_rfc3339()
    )
}

#[test]
fn parse_negative_offset_round_trip() {
    let db = build_timezone_db();
    let datetime = "2023-10-22T10:34:16-05:30";
    assert_eq!(datetime, parse(&db, datetime).unwrap().to_rfc3339());
}

#[test]
fn parse_compact_offset_token() {
    let db = build_timezone_db();
    let parsed = parse(&db, "2023-10-22 10:34:16 +0930").unwrap();
    assert_eq!("2023-10-22T10:34:16+09:30", parsed.to_rfc3339());
}

#[test]
fn parse_hour_only_offset_token() {
    let db = build_timezone_db();
    let parsed = parse(&db, "2023-10-22 10:34:16 -09").unwrap();
    assert_eq!("2023-10-22T10:34:16-09:00", parsed.to_rfc3339());
}

#[test]
fn parse_zulu_token() {
    let db = build_timezone_db();
    let parsed = parse(&db, "2023-10-22 10:34:16 z").unwrap();
    assert_eq!("2023-10-22T10:34:16+00:00", parsed.to_rfc3339());
}

#[test]
fn parse_local_token_keeps_reading() {
    let db = build_timezone_db();
    let parsed = parse(&db, "2023-10-22 10:34:16 LOCAL").unwrap();
    assert!(parsed.to_display().starts_with("2023-10-22 10:34:16 "));
}

#[test]
fn parse_unrecognized_input_fails() {
    let db = build_timezone_db();
    assert_eq!(
        Err(ParseError::UnrecognizedFormat),
        parse(&db, "not a datetime")
    );
}

#[test]
fn parse_unknown_timezone_token_fails() {
    let db = build_timezone_db();
    assert_eq!(
        Err(ParseError::UnrecognizedFormat),
        parse(&db, "2023-10-22 10:34:16 notazone")
    );
}

#[test]
fn parse_rejects_bad_calendar_day() {
    let db = build_timezone_db();
    assert_eq!(
        Err(ParseError::UnrecognizedFormat),
        parse(&db, "2023-02-29 00:00:00")
    );
    assert_eq!(
        Err(ParseError::UnrecognizedFormat),
        parse(&db, "2023-13-01 00:00:00")
    );
}

#[test]
fn parse_accepts_leap_day() {
    let db = build_timezone_db();
    assert_eq!(
        "2024-02-29T00:00:00+00:00",
        parse(&db, "2024-02-29 00:00:00").unwrap().to_rfc3339()
    );
}

#[test]
fn parse_rejects_out_of_range_offset_hours() {
    let db = build_timezone_db();
    assert_eq!(
        Err(ParseError::UnrecognizedFormat),
        parse(&db, "2023-10-22 10:34:16 +24:00")
    );
    assert_eq!(
        Err(ParseError::UnrecognizedFormat),
        parse(&db, "2023-10-22 10:34:16 +09:60")
    );
}

#[test]
fn time_only_gets_given_date() {
    let db = build_timezone_db();
    let today = Date { year: 2024, month: 5, day: 6 };
    let parsed = parse_with_today(&db, today, "10:34:16".as_bytes()).unwrap();
    assert_eq!("2024-05-06T10:34:16+00:00", parsed.to_rfc3339());
}

#[test]
fn time_only_with_offset_gets_given_date() {
    let db = build_timezone_db();
    let today = Date { year: 2024, month: 5, day: 6 };
    let parsed = parse_with_today(&db, today, "10:34:16 +02:00".as_bytes()).unwrap();
    assert_eq!("2024-05-06T10:34:16+02:00", parsed.to_rfc3339());
}

#[test]
fn time_only_against_host_date_parses() {
    let db = build_timezone_db();
    let parsed = parse(&db, "10:34:16").unwrap();
    assert!(parsed.to_rfc3339().ends_with("T10:34:16+00:00"));
}

#[test]
fn empty_index_still_parses_numeric_offsets() {
    let db = TzDb::new();
    let parsed = tzconv::parse_datetime(&db, "2023-10-22 10:34:16 +09:00".as_bytes()).unwrap();
    assert_eq!("2023-10-22T10:34:16+09:00", parsed.to_rfc3339());
}

#[test]
fn parse_ignores_surrounding_remainder_whitespace() {
    let db = build_timezone_db();
    assert_eq!(
        "2023-10-22T10:34:16+00:00",
        parse(&db, "2023-10-22 10:34:16   ").unwrap().to_rfc3339()
    );
    assert_eq!(
        "2023-10-22T10:34:16+09:00",
        parse(&db, "2023-10-22T10:34:16   +09:00 ").unwrap().to_rfc3339()
    );
}

#[test]
fn both_separators_accept_abbreviations() {
    let db = build_timezone_db();
    assert_eq!(
        "2023-10-22 10:34:16 +09:00",
        parse(&db, "2023-10-22T10:34:16 jst").unwrap().to_display()
    );
}

#[test]
fn day_number_of_known_dates() {
    let d = Date { year: 2023, month: 10, day: 22 };
    assert_eq!(739180, tzconv::calendar::date_day_number(&d));
    assert_eq!(d, tzconv::calendar::civil_from_day_number(739180));
    let epoch_day = Date { year: 1970, month: 1, day: 1 };
    assert_eq!(719528, tzconv::calendar::date_day_number(&epoch_day));
}

#[test]
fn epoch_seconds_of_known_instants() {
    let db = build_timezone_db();
    assert_eq!(0, parse(&db, "1970-01-01T00:00:00Z").unwrap().to_epoch());
    assert_eq!(
        1697970856,
        parse(&db, "2023-10-22 10:34:16").unwrap().to_epoch()
    );
    assert_eq!(
        1697970856 - 3600,
        parse(&db, "2023-10-22T10:34:16+01:00").unwrap().to_epoch()
    );
}
