use toolkit_logic::pak::time::{civil_date_from_unix_days, format_filetime, timestamp_label, PakTimestamp};

#[test]
fn popcap_filetime_is_presented_as_utc_calendar_time() {
    assert_eq!(
        format_filetime(116_444_736_000_000_000).as_deref(),
        Some("1970-01-01 00:00:00")
    );
}

#[test]
fn filetime_epoch_and_later_instants() {
    assert_eq!(format_filetime(0).as_deref(), Some("1601-01-01 00:00:00"));
    // 2000-02-29 12:34:56 UTC is 951827696 seconds after the Unix epoch.
    let ticks = (951_827_696u64 + 11_644_473_600) * 10_000_000 + 9_999_999;
    assert_eq!(format_filetime(ticks).as_deref(), Some("2000-02-29 12:34:56"));
}

#[test]
fn civil_dates_cover_leap_rules_and_negative_days() {
    assert_eq!(civil_date_from_unix_days(0), Some((1970, 1, 1)));
    assert_eq!(civil_date_from_unix_days(-1), Some((1969, 12, 31)));
    assert_eq!(civil_date_from_unix_days(11_016), Some((2000, 2, 29)));
    assert_eq!(civil_date_from_unix_days(47_541), Some((2100, 3, 1)));
    assert_eq!(civil_date_from_unix_days(-719_468), Some((0, 3, 1)));
    assert_eq!(civil_date_from_unix_days(i64::MAX), None);
}

#[test]
fn timestamp_labels_for_every_kind() {
    assert_eq!(timestamp_label(PakTimestamp::Unset), "\u{2014}");
    // 2021-06-15 13:45:30 in MS-DOS words.
    let date = ((2021 - 1980) << 9) | (6 << 5) | 15;
    let time = (13 << 11) | (45 << 5) | 15;
    assert_eq!(
        timestamp_label(PakTimestamp::ZipMsDos { date, time }),
        "2021-06-15 13:45:30"
    );
    assert_eq!(
        timestamp_label(PakTimestamp::PopCap(116_444_736_000_000_000)),
        "1970-01-01 00:00:00"
    );
}
