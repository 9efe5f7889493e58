use sitemaps::error::Error;
use sitemaps::w3c_datetime::{CalendarDate, OffsetDateTime, W3CDateTime};

#[test]
fn test_w3c_date_only() -> Result<(), Error> {
    let date_string = "2024-02-27";
    let result = W3CDateTime::new(date_string)?;

    assert_eq!(date_string, result.to_string());

    Ok(())
}

#[test]
fn test_w3c_midnight_utc() -> Result<(), Error> {
    let date_string = "2024-02-27T00:00:00Z";
    let result = W3CDateTime::new(date_string)?;
    let expected = "2024-02-27T00:00:00Z";

    assert_eq!(expected, result.to_string());

    Ok(())
}

#[test]
fn date_fields_are_read() {
    let result = W3CDateTime::new("2004-10-01").unwrap();
    assert_eq!(result, W3CDateTime::Date(CalendarDate { year: 2004, month: 10, day: 1 }));
}

#[test]
fn datetime_fields_are_read() {
    let result = W3CDateTime::new("2004-10-01T18:23:17+00:00").unwrap();
    let expected = OffsetDateTime {
        date: CalendarDate { year: 2004, month: 10, day: 1 },
        hour: 18,
        minute: 23,
        second: 17,
        nanosecond: 0,
        offset_seconds: 0,
    };
    assert_eq!(result, W3CDateTime::DateTime(expected, false, false));
}

#[test]
fn datetime_round_trips_keep_their_shape() {
    for text in [
        "2004-10-01T18:23:17+00:00",
        "2004-10-01T18:23:17Z",
        "2004-10-01T18:23:17.250Z",
        "1999-12-31T23:59:59.999-05:30",
        "2024-02-29T12:00:00+14:00",
    ] {
        let value = W3CDateTime::new(text).unwrap();
        assert_eq!(value.to_string(), text);
    }
}

#[test]
fn negative_offset_is_read() {
    let result = W3CDateTime::new("2020-06-15T08:30:00-05:30").unwrap();
    match result {
        W3CDateTime::DateTime(t, fractional, use_z) => {
            assert_eq!(t.offset_seconds, -(5 * 3600 + 30 * 60));
            assert!(!fractional);
            assert!(!use_z);
        }
        W3CDateTime::Date(_) => panic!("expected a date-time"),
    }
}

#[test]
fn lowercase_z_is_recorded() {
    let result = W3CDateTime::new("2020-06-15T08:30:00z").unwrap();
    assert!(matches!(result, W3CDateTime::DateTime(_, false, true)));
    assert_eq!(result.to_string(), "2020-06-15T08:30:00Z");
}

#[test]
fn malformed_dates_are_rejected() {
    for text in ["2005-13-01", "2005-02-30", "yesterday", "", "2005-01-01T25:00:00Z"] {
        assert_eq!(W3CDateTime::new(text), Err(Error::DateTimeParseError), "{}", text);
    }
}

#[test]
fn leap_day_is_a_date() {
    assert!(W3CDateTime::new("2024-02-29").is_ok());
    assert_eq!(W3CDateTime::new("2023-02-29"), Err(Error::DateTimeParseError));
}

#[test]
fn surrounding_whitespace_is_ignored() {
    assert_eq!(
        W3CDateTime::new(" 2005-01-01\n"),
        Ok(W3CDateTime::Date(CalendarDate { year: 2005, month: 1, day: 1 }))
    );
    assert_eq!(W3CDateTime::new("\t2004-10-01T18:23:17Z ").unwrap().to_string(), "2004-10-01T18:23:17Z");
}

#[test]
fn fractions_are_written_as_milliseconds() {
    let value = W3CDateTime::new("2004-10-01T18:23:17.5Z").unwrap();
    assert_eq!(value.to_string(), "2004-10-01T18:23:17.500Z");
    let negative_zero = W3CDateTime::new("2004-10-01T18:23:17-00:00").unwrap();
    assert_eq!(negative_zero.to_string(), "2004-10-01T18:23:17+00:00");
}
