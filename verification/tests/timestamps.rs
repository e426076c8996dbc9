use app_store_scraper::error::ScrapeError;
use app_store_scraper::nodes::parse_date;
use app_store_scraper::timestamp::{Timestamp, MAX_SECS, MIN_SECS};

#[test]
fn dates_are_read_as_instants_in_utc() {
    let at = parse_date("2019-07-01T03:04:05-07:00").unwrap();
    assert_eq!(at.secs(), 1561975445);
    assert_eq!(at.nanos(), 0);
    assert_eq!(at.to_rfc3339(), "2019-07-01T10:04:05.000Z");
    assert_eq!(parse_date("2019-07-01T10:04:05Z"), Ok(at));
}

#[test]
fn dates_are_written_to_the_millisecond() {
    let at = parse_date("2018-01-26T18:30:09.453829Z").unwrap();
    assert_eq!(at.nanos(), 453_829_000);
    assert_eq!(at.to_rfc3339(), "2018-01-26T18:30:09.453Z");
}

#[test]
fn leap_seconds_are_read_and_written() {
    let at = parse_date("2016-12-31T23:59:60.5Z").unwrap();
    assert_eq!(at.nanos(), 1_500_000_000);
    assert_eq!(at.to_rfc3339(), "2016-12-31T23:59:60.500Z");
}

#[test]
fn other_texts_are_no_dates() {
    for text in ["", "yesterday", "2019-07-01", "2019-07-01T10:04:05", "2019-13-01T10:04:05Z"].iter() {
        assert_eq!(parse_date(text), Err(ScrapeError::BadDate), "{}", text);
    }
}

#[test]
fn timestamps_are_on_the_calendar() {
    assert!(Timestamp::new(MIN_SECS, 0).is_some());
    assert!(Timestamp::new(MAX_SECS, 999_999_999).is_some());
    assert!(Timestamp::new(MIN_SECS - 1, 0).is_none());
    assert!(Timestamp::new(MAX_SECS + 1, 0).is_none());
    assert!(Timestamp::new(0, 999_999_999).is_some());
    assert!(Timestamp::new(0, 1_000_000_000).is_none());
    assert!(Timestamp::new(59, 1_999_999_999).is_some());
    assert!(Timestamp::new(-1, 1_000_000_000).is_some());
    assert!(Timestamp::new(59, 2_000_000_000).is_none());
    for secs in [MIN_SECS - 1, MIN_SECS, MIN_SECS + 59, -60, -1, 0, 59, 60, MAX_SECS, MAX_SECS + 1].iter() {
        for nanos in [0, 999_999_999, 1_000_000_000, 1_999_999_999, 2_000_000_000].iter() {
            assert_eq!(
                Timestamp::new(*secs, *nanos).is_some(),
                chrono::DateTime::from_timestamp(*secs, *nanos).is_some(),
            );
        }
    }
}

#[test]
fn the_ends_of_the_calendar_are_written() {
    assert_eq!(Timestamp::new(0, 0).unwrap().to_rfc3339(), "1970-01-01T00:00:00.000Z");
    assert_eq!(Timestamp::new(MIN_SECS, 0).unwrap().to_rfc3339(), "-262143-01-01T00:00:00.000Z");
    assert_eq!(
        Timestamp::new(MAX_SECS, 1_999_999_999).unwrap().to_rfc3339(),
        "+262142-12-31T23:59:60.999Z",
    );
}

#[test]
fn instants_are_ordered_by_seconds_then_nanoseconds() {
    let early = Timestamp::new(10, 5).unwrap();
    let late = Timestamp::new(10, 6).unwrap();
    let later = Timestamp::new(11, 0).unwrap();
    assert!(early.is_before(&late));
    assert!(late.is_before(&later));
    assert!(early.is_before(&later));
    assert!(!late.is_before(&early));
    assert!(!early.is_before(&early));
}
