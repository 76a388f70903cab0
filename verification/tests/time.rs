use chrono::{DateTime, Utc};
use lean_ctx::time::Timestamp;

fn at(secs: i64, nanos: u32) -> Timestamp {
    Timestamp::new(secs, nanos).expect("an instant")
}

#[test]
fn instants_are_those_of_the_calendar() {
    let cases = [
        (0i64, 0u32),
        (-1, 999_999_999),
        (59, 1_500_000_000),
        (-1, 1_000_000_000),
        (60, 1_000_000_000),
        (119, 1_999_999_999),
        (119, 2_000_000_000),
        (8_210_266_876_799, 1_999_999_999),
        (8_210_266_876_800, 0),
        (-8_334_601_228_800, 0),
        (-8_334_601_228_801, 0),
        (i64::MAX, 0),
        (i64::MIN, 0),
    ];
    for (secs, nanos) in cases {
        let known: Option<DateTime<Utc>> = DateTime::from_timestamp(secs, nanos);
        let ours = Timestamp::new(secs, nanos);
        assert_eq!(ours.is_some(), known.is_some(), "{secs} {nanos}");
        if let Some(t) = ours {
            assert_eq!((t.secs(), t.nanos()), (secs, nanos));
        }
    }
}

#[test]
fn seconds_between_instants_are_rounded_towards_zero() {
    assert_eq!(at(10, 0).seconds_since(&at(3, 0)), 7);
    assert_eq!(at(10, 0).seconds_since(&at(3, 1)), 6);
    assert_eq!(at(3, 1).seconds_since(&at(10, 0)), -6);
    assert_eq!(at(3, 0).seconds_since(&at(10, 0)), -7);
    assert_eq!(at(-5, 500_000_000).seconds_since(&at(-5, 600_000_000)), 0);
    assert_eq!(
        at(8_210_266_876_799, 0).seconds_since(&at(-8_334_601_228_800, 0)),
        16_544_868_105_599
    );
}

fn model(now: (i64, u32), then: (i64, u32)) -> i64 {
    let day = |t: (i64, u32)| t.0.rem_euclid(86_400);
    let mut n = (now.0 - then.0) as i128 * 1_000_000_000 + now.1 as i128 - then.1 as i128;
    if day(now) > day(then) && then.1 >= 1_000_000_000 {
        n += 1_000_000_000;
    } else if day(now) < day(then) && now.1 >= 1_000_000_000 {
        n -= 1_000_000_000;
    }
    (n / 1_000_000_000) as i64
}

#[test]
fn leap_seconds_count_where_they_stand() {
    let instants = [
        (59i64, 0u32),
        (59, 999_999_999),
        (59, 1_000_000_000),
        (59, 1_700_000_000),
        (60, 0),
        (60, 300_000_000),
        (86_399, 1_999_999_999),
        (86_400, 0),
        (86_459, 1_000_000_001),
        (-1, 1_250_000_000),
        (-86_341, 1_250_000_000),
        (1_760_000_000, 5),
    ];
    for now in instants {
        for then in instants {
            assert_eq!(
                at(now.0, now.1).seconds_since(&at(then.0, then.1)),
                model(now, then),
                "{now:?} {then:?}"
            );
        }
    }
}
