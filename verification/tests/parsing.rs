use iso8601::Date;
use iso8601::YmdDate;
use iso8601::WeekDate;
use iso8601::OrdinalDate;
use iso8601::LocalTime;
use iso8601::Time;
use iso8601::DateTime;
use iso8601::Valid;
use iso8601::ParseError;
use iso8601::parse;

#[test]
fn sign() {
    assert_eq!(parse::sign(b"-"), Ok((-1, 1)));
    assert_eq!(parse::sign(b"+"), Ok((1, 1)));
    assert_eq!(parse::sign(b""), Err(ParseError::Incomplete));
    assert_eq!(parse::sign(b" "), Err(ParseError::Syntax(0)));
}

#[test]
fn sign_unicode_minus() {
    assert_eq!(parse::sign("\u{2212}".as_bytes()), Ok((-1, 3)));
    assert_eq!(parse::sign("\u{2010}".as_bytes()), Ok((-1, 3)));
    assert_eq!(parse::sign(&[0xE2]), Err(ParseError::Incomplete));
    assert_eq!(parse::sign(&[0xE2, 0x88]), Err(ParseError::Incomplete));
    assert_eq!(parse::sign(&[0xE2, 0x88, 0x00]), Err(ParseError::Syntax(2)));
}

#[test]
fn buf_to_int_accumulates() {
    assert_eq!(parse::buf_to_int(b"0"), 0);
    assert_eq!(parse::buf_to_int(b"00123"), 123);
    assert_eq!(parse::buf_to_int(b"999999999"), 999_999_999);
}

#[test]
fn parse_date_calendar() {
    assert_eq!(
        parse::date(b"1985-04-12"),
        Ok((
            Date::YMD(YmdDate {
                year: 1985,
                month: 4,
                day: 12
            }),
            10
        ))
    );
    assert_eq!(
        parse::date(b"19850412"),
        Ok((
            Date::YMD(YmdDate {
                year: 1985,
                month: 4,
                day: 12
            }),
            8
        ))
    );
    assert_eq!(
        parse::date(b"+1985-04-12"),
        Ok((
            Date::YMD(YmdDate {
                year: 1985,
                month: 4,
                day: 12
            }),
            11
        ))
    );
}

#[test]
fn parse_date_week() {
    assert_eq!(
        parse::date(b"1985-W15-5"),
        Ok((
            Date::Week(WeekDate {
                year: 1985,
                week: 15,
                day: 5
            }),
            10
        ))
    );
    assert_eq!(
        parse::date(b"1985W155"),
        Ok((
            Date::Week(WeekDate {
                year: 1985,
                week: 15,
                day: 5
            }),
            8
        ))
    );
}

#[test]
fn parse_date_ordinal() {
    assert_eq!(
        parse::date(b"1985-102"),
        Ok((
            Date::Ordinal(OrdinalDate {
                year: 1985,
                day: 102
            }),
            8
        ))
    );
}

#[test]
fn parse_date_partial_and_errors() {
    // trailing bytes are left unconsumed
    assert_eq!(
        parse::date(b"1985-04-12T23"),
        Ok((
            Date::YMD(YmdDate {
                year: 1985,
                month: 4,
                day: 12
            }),
            10
        ))
    );
    assert_eq!(parse::date(b"19"), Err(ParseError::Incomplete));
    assert_eq!(parse::date(b""), Err(ParseError::Incomplete));
    assert_eq!(parse::date(b"abcd"), Err(ParseError::Syntax(0)));
    // shape parses, validity is a separate gate
    let (d, n) = parse::date(b"1985-13-41").unwrap();
    assert_eq!(n, 10);
    assert_eq!(
        d,
        Date::YMD(YmdDate {
            year: 1985,
            month: 13,
            day: 41
        })
    );
    assert!(!d.is_valid());
}

#[test]
fn parse_time_leap_second_utc() {
    assert_eq!(
        parse::time(b"23:59:60Z"),
        Ok((
            Time {
                local: LocalTime {
                    hour: 23,
                    minute: 59,
                    second: 60,
                    nanos: 0
                },
                tz_offset: 0
            },
            9
        ))
    );
    let (t, _) = parse::time(b"23:59:60Z").unwrap();
    assert!(t.is_valid());
}

#[test]
fn parse_time_defaults_and_offsets() {
    assert_eq!(
        parse::time_local(b"23"),
        Ok((
            LocalTime {
                hour: 23,
                minute: 0,
                second: 0,
                nanos: 0
            },
            2
        ))
    );
    assert_eq!(
        parse::time_local(b"2359"),
        Ok((
            LocalTime {
                hour: 23,
                minute: 59,
                second: 0,
                nanos: 0
            },
            4
        ))
    );
    assert_eq!(
        parse::time(b"12+0130"),
        Ok((
            Time {
                local: LocalTime {
                    hour: 12,
                    minute: 0,
                    second: 0,
                    nanos: 0
                },
                tz_offset: 90
            },
            7
        ))
    );
    assert_eq!(
        parse::time(b"12-01"),
        Ok((
            Time {
                local: LocalTime {
                    hour: 12,
                    minute: 0,
                    second: 0,
                    nanos: 0
                },
                tz_offset: -60
            },
            5
        ))
    );
    assert_eq!(parse::time_local(b"2"), Err(ParseError::Incomplete));
    assert_eq!(parse::time_local(b"xx"), Err(ParseError::Syntax(0)));
}

#[test]
fn parse_time_fraction_digits() {
    let (t, n) = parse::time_local(b"00:00:00.1234567891").unwrap();
    assert_eq!(n, 19);
    assert_eq!(t.nanos, 123_456_789);
    let (t2, n2) = parse::time_local(b"06:14:00.000777").unwrap();
    assert_eq!(n2, 15);
    assert_eq!(t2.nanos, 777_000);
}

#[test]
fn parse_datetime_full() {
    assert_eq!(
        parse::datetime(b"1985-04-12T23:20:50.52-05:30"),
        Ok((
            DateTime {
                date: Date::YMD(YmdDate {
                    year: 1985,
                    month: 4,
                    day: 12
                }),
                time: Time {
                    local: LocalTime {
                        hour: 23,
                        minute: 20,
                        second: 50,
                        nanos: 520_000_000
                    },
                    tz_offset: -330
                }
            },
            28
        ))
    );
    assert_eq!(
        parse::datetime(b"2018-02-18 01:02:03z"),
        Ok((
            DateTime {
                date: Date::YMD(YmdDate {
                    year: 2018,
                    month: 2,
                    day: 18
                }),
                time: Time {
                    local: LocalTime {
                        hour: 1,
                        minute: 2,
                        second: 3,
                        nanos: 0
                    },
                    tz_offset: 0
                }
            },
            20
        ))
    );
    assert_eq!(parse::datetime(b"1985-04-12"), Err(ParseError::Incomplete));
    assert_eq!(parse::datetime(b"1985-04-12X"), Err(ParseError::Syntax(10)));
}

#[test]
fn strict_wrappers_require_full_consumption() {
    assert_eq!(
        Date::from_str("1985-102"),
        Ok(Date::Ordinal(OrdinalDate {
            year: 1985,
            day: 102
        }))
    );
    assert_eq!(Date::from_str("1985-04-12xyz"), Err(()));
    assert_eq!(
        LocalTime::from_str("23:59:60"),
        Ok(LocalTime {
            hour: 23,
            minute: 59,
            second: 60,
            nanos: 0
        })
    );
    assert_eq!(LocalTime::from_str("23:59:60Z"), Err(()));
    assert_eq!(
        Time::from_str("23:59:60Z"),
        Ok(Time {
            local: LocalTime {
                hour: 23,
                minute: 59,
                second: 60,
                nanos: 0
            },
            tz_offset: 0
        })
    );
    assert_eq!(
        DateTime::from_str("1985-04-12T23:20:50.52-05:30"),
        Ok(DateTime {
            date: Date::YMD(YmdDate {
                year: 1985,
                month: 4,
                day: 12
            }),
            time: Time {
                local: LocalTime {
                    hour: 23,
                    minute: 20,
                    second: 50,
                    nanos: 520_000_000
                },
                tz_offset: -330
            }
        })
    );
    assert_eq!(DateTime::from_str(""), Err(()));
}
