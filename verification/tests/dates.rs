use iso8601::Date;
use iso8601::YmdDate;
use iso8601::WeekDate;
use iso8601::OrdinalDate;
use iso8601::LocalTime;
use iso8601::Time;
use iso8601::DateTime;
use iso8601::Valid;
use iso8601::Year;

#[test]
fn ymd_from_week() {
    assert_eq!(
        YmdDate::from(WeekDate {
            year: 1985,
            week: 15,
            day: 5
        }),
        YmdDate {
            year: 1985,
            month: 4,
            day: 12
        }
    );
}

#[test]
fn ymd_from_ordinal() {
    assert_eq!(
        YmdDate::from(OrdinalDate {
            year: 1985,
            day: 102
        }),
        YmdDate {
            year: 1985,
            month: 4,
            day: 12
        }
    );
}

#[test]
fn week_from_ymd() {
    assert_eq!(
        WeekDate::from(YmdDate {
            year: 1985,
            month: 4,
            day: 12
        }),
        WeekDate {
            year: 1985,
            week: 15,
            day: 5
        }
    );
    assert_eq!(
        WeekDate::from(YmdDate {
            year: 2023,
            month: 2,
            day: 27
        }),
        WeekDate {
            year: 2023,
            week: 9,
            day: 1
        }
    );
}

#[test]
fn week_from_ordinal() {
    assert_eq!(
        WeekDate::from(OrdinalDate {
            year: 1985,
            day: 102
        }),
        WeekDate {
            year: 1985,
            week: 15,
            day: 5
        }
    );
}

#[test]
fn ordinal_from_ymd() {
    assert_eq!(
        OrdinalDate::from(YmdDate {
            year: 1985,
            month: 4,
            day: 12
        }),
        OrdinalDate {
            year: 1985,
            day: 102
        }
    );
}

#[test]
fn ordinal_from_week() {
    assert_eq!(
        OrdinalDate::from(WeekDate {
            year: 1985,
            week: 15,
            day: 5
        }),
        OrdinalDate {
            year: 1985,
            day: 102
        }
    );
}

#[test]
fn valid_date_ymd() {
    assert!(!YmdDate {
        year: 0,
        month: 13,
        day: 1
    }
    .is_valid());
    assert!(!YmdDate {
        year: 0,
        month: 0,
        day: 1
    }
    .is_valid());

    assert!(!YmdDate {
        year: 2018,
        month: 2,
        day: 29
    }
    .is_valid());
}

#[test]
fn valid_date_week() {
    assert!(!WeekDate {
        year: 0,
        week: 0,
        day: 1
    }
    .is_valid());
    assert!(!WeekDate {
        year: 2018,
        week: 53,
        day: 1
    }
    .is_valid());

    assert!(!WeekDate {
        year: 0,
        week: 1,
        day: 0
    }
    .is_valid());
    assert!(!WeekDate {
        year: 0,
        week: 1,
        day: 8
    }
    .is_valid());
}

#[test]
fn valid_date_ordinal() {
    assert!(!OrdinalDate {
        year: 2018,
        day: 366
    }
    .is_valid());
    assert!(OrdinalDate {
        year: 2020,
        day: 366
    }
    .is_valid());
}

#[test]
fn valid_time_local() {
    assert!(!LocalTime {
        hour: 25,
        minute: 0,
        second: 0,
        nanos: 0
    }
    .is_valid());

    assert!(!LocalTime {
        hour: 0,
        minute: 60,
        second: 0,
        nanos: 0
    }
    .is_valid());

    assert!(!LocalTime {
        hour: 0,
        minute: 1,
        second: 61,
        nanos: 0
    }
    .is_valid());

    assert!(!LocalTime {
        hour: 0,
        minute: 1,
        second: 0,
        nanos: 1_000_000_000
    }
    .is_valid());
}

#[test]
fn valid_time() {
    assert!(!Time {
        local: LocalTime {
            hour: 0,
            minute: 1,
            second: 0,
            nanos: 0
        },
        tz_offset: 24 * 60
    }
    .is_valid());
    assert!(!Time {
        local: LocalTime {
            hour: 0,
            minute: 1,
            second: 0,
            nanos: 0
        },
        tz_offset: -24 * 60
    }
    .is_valid());
}

#[test]
fn leap_years() {
    assert!((1600 as i16).is_leap());
    assert!((2000 as i16).is_leap());
    assert!((2020 as i16).is_leap());
    assert!(!(1700 as i16).is_leap());
    assert!(!(1800 as i16).is_leap());
    assert!(!(1900 as i16).is_leap());
    assert!(!(2018 as i16).is_leap());
    assert!(!(2021 as i16).is_leap());
    assert!((2000 as i64).is_leap());
    assert!(!(1900 as u32).is_leap());
}

#[test]
fn week_counts() {
    assert_eq!((2015 as i16).num_weeks(), 53);
    assert_eq!((2018 as i16).num_weeks(), 52);
    assert_eq!((2020 as u64).num_weeks(), 53);
    assert_eq!((2015 as i16).num_days(), 365);
    assert_eq!((2020 as i32).num_days(), 366);
}

#[test]
fn leap_second_and_end_of_day_tolerated() {
    assert!(LocalTime {
        hour: 23,
        minute: 59,
        second: 60,
        nanos: 0
    }
    .is_valid());
    assert!(LocalTime {
        hour: 24,
        minute: 0,
        second: 0,
        nanos: 0
    }
    .is_valid());
    assert!(YmdDate {
        year: 2020,
        month: 2,
        day: 29
    }
    .is_valid());
    assert!(WeekDate {
        year: 2015,
        week: 53,
        day: 1
    }
    .is_valid());
}

#[test]
fn week_conversions_across_year_boundary() {
    assert_eq!(
        WeekDate::from(OrdinalDate { year: 2021, day: 1 }),
        WeekDate {
            year: 2020,
            week: 53,
            day: 5
        }
    );
    assert_eq!(
        OrdinalDate::from(WeekDate {
            year: 2020,
            week: 53,
            day: 5
        }),
        OrdinalDate { year: 2021, day: 1 }
    );
    assert_eq!(
        WeekDate::from(YmdDate {
            year: 2018,
            month: 12,
            day: 31
        }),
        WeekDate {
            year: 2019,
            week: 1,
            day: 1
        }
    );
    assert_eq!(
        YmdDate::from(WeekDate {
            year: 2019,
            week: 1,
            day: 1
        }),
        YmdDate {
            year: 2018,
            month: 12,
            day: 31
        }
    );
}

#[test]
fn date_sum_type_conversions() {
    let d = Date::Week(WeekDate {
        year: 1985,
        week: 15,
        day: 5,
    });
    assert_eq!(
        YmdDate::from(d),
        YmdDate {
            year: 1985,
            month: 4,
            day: 12
        }
    );
    assert_eq!(
        OrdinalDate::from(d),
        OrdinalDate {
            year: 1985,
            day: 102
        }
    );
    assert_eq!(
        WeekDate::from(d),
        WeekDate {
            year: 1985,
            week: 15,
            day: 5
        }
    );
    assert!(d.is_valid());
    assert!(!Date::YMD(YmdDate {
        year: 2018,
        month: 2,
        day: 29
    })
    .is_valid());
}

#[test]
fn round_trip_sweeps() {
    for y in [2015i16, 2018, 2020, 2021] {
        let nd = y.num_days();
        for d in 1..=nd {
            let o = OrdinalDate { year: y, day: d };
            assert!(o.is_valid());
            let w = WeekDate::from(o);
            assert!(w.is_valid());
            assert_eq!(OrdinalDate::from(w), o);
            let md = YmdDate::from(o);
            assert!(md.is_valid());
            assert_eq!(OrdinalDate::from(md), o);
            assert_eq!(YmdDate::from(WeekDate::from(md)), md);
        }
        let nw = y.num_weeks();
        for wk in 1..=nw {
            for wd in 1..=7u8 {
                let w = WeekDate {
                    year: y,
                    week: wk,
                    day: wd,
                };
                assert!(w.is_valid());
                assert_eq!(WeekDate::from(OrdinalDate::from(w)), w);
                assert_eq!(WeekDate::from(YmdDate::from(w)), w);
            }
        }
    }
}

#[test]
fn is_valid_is_idempotent() {
    let d = YmdDate {
        year: 2020,
        month: 2,
        day: 29,
    };
    let first = d.is_valid();
    let second = d.is_valid();
    assert_eq!(first, second);
    assert_eq!(
        d,
        YmdDate {
            year: 2020,
            month: 2,
            day: 29
        }
    );
    let t = DateTime {
        date: Date::YMD(d),
        time: Time {
            local: LocalTime {
                hour: 23,
                minute: 59,
                second: 60,
                nanos: 1,
            },
            tz_offset: -330,
        },
    };
    assert_eq!(t.is_valid(), t.is_valid());
    assert!(t.is_valid());
}
