use whatcable::clock::{days_to_ymd, utc_timestamp};

#[test]
fn epoch_day() {
    assert_eq!(days_to_ymd(0), (1970, 1, 1));
    assert_eq!(days_to_ymd(-1), (1969, 12, 31));
    assert_eq!(days_to_ymd(59), (1970, 3, 1));
    assert_eq!(days_to_ymd(365), (1971, 1, 1));
}

#[test]
fn leap_days() {
    assert_eq!(days_to_ymd(11_016), (2000, 2, 29));
    assert_eq!(days_to_ymd(11_017), (2000, 3, 1));
    assert_eq!(days_to_ymd(19_723), (2024, 1, 1));
    assert_eq!(days_to_ymd(19_782), (2024, 2, 29));
    // 2100 is not a leap year.
    assert_eq!(days_to_ymd(47_541), (2100, 3, 1));
    assert_eq!(days_to_ymd(47_540), (2100, 2, 28));
}

#[test]
fn before_the_common_era() {
    assert_eq!(days_to_ymd(-719_528), (0, 1, 1));
    assert_eq!(days_to_ymd(-719_529), (-1, 12, 31));
    assert_eq!(days_to_ymd(-719_468), (0, 3, 1));
    assert_eq!(days_to_ymd(-719_469), (0, 2, 29));
}

#[test]
fn distinct_days_give_distinct_dates() {
    let mut prev = days_to_ymd(-800);
    for d in -799..800 {
        let cur = days_to_ymd(d);
        assert!(cur > prev);
        prev = cur;
    }
}

#[test]
fn timestamps() {
    assert_eq!(utc_timestamp(0), "1970-01-01 00:00:00 UTC");
    assert_eq!(utc_timestamp(1_700_000_000), "2023-11-14 22:13:20 UTC");
    assert_eq!(utc_timestamp(951_782_399), "2000-02-28 23:59:59 UTC");
    assert_eq!(utc_timestamp(253_402_300_799), "9999-12-31 23:59:59 UTC");
    assert_eq!(utc_timestamp(253_402_300_800), "10000-01-01 00:00:00 UTC");
}
