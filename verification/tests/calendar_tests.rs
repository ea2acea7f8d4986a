use limen::calendar::{civil_from_days, date_string_from_secs};

#[test]
fn epoch_and_known_dates() {
    assert_eq!(civil_from_days(0), (1970, 1, 1));
    assert_eq!(civil_from_days(31), (1970, 2, 1));
    assert_eq!(civil_from_days(365), (1971, 1, 1));
    assert_eq!(civil_from_days(10957), (2000, 1, 1));
    assert_eq!(civil_from_days(11016), (2000, 2, 29));
    assert_eq!(civil_from_days(19782), (2024, 2, 29));
    assert_eq!(civil_from_days(19783), (2024, 3, 1));
    assert_eq!(civil_from_days(47540), (2100, 2, 28));
    assert_eq!(civil_from_days(47541), (2100, 3, 1));
}

#[test]
fn date_strings() {
    assert_eq!(date_string_from_secs(0), "1970-01-01");
    assert_eq!(date_string_from_secs(1_709_251_199), "2024-02-29");
    assert_eq!(date_string_from_secs(1_709_251_200), "2024-03-01");
    assert_eq!(date_string_from_secs(u64::MAX).len() > 10, true);
}

#[test]
fn dates_before_1970() {
    assert_eq!(civil_from_days(-1), (1969, 12, 31));
    assert_eq!(civil_from_days(-25509), (1900, 2, 28));
    assert_eq!(civil_from_days(-25508), (1900, 3, 1));
    assert_eq!(civil_from_days(-135081), (1600, 2, 29));
    assert_eq!(civil_from_days(-719162), (1, 1, 1));
    assert_eq!(civil_from_days(-719468), (0, 3, 1));
    assert_eq!(civil_from_days(-719469), (0, 2, 29));
    assert_eq!(civil_from_days(-1_157_759), (-1200, 3, 1));
}

#[test]
fn far_past_day_number() {
    assert_eq!(civil_from_days(-(1i64 << 40)), (-3_010_358_620, 1, 18));
}
