use zippy_openctp::bridge::{
    blocking_kind, call_result, check_capsule_name, metrics_entries, BlockingKind, SinkFailure,
    NATIVE_SOURCE_SINK_CAPSULE_NAME,
};
use zippy_openctp::calendar::{civil_from_days, days_from_civil, leap_year, month_length};
use zippy_openctp::clock::{
    current_exchange_date_yyyymmdd, current_unix_time_ns, default_seed, exchange_date_from_secs,
    exchange_date_yyyymmdd, localtime_ns_from, sample_localtime_ns, seed_from_nanos,
    unix_time_ns_from, MonotonicClock,
};
use zippy_openctp::descriptor::{descriptor_row_capacity, row_capacity_from};
use zippy_openctp::text::{
    decimal_text, digits_number, joined2, joined3, joined5, same, same_ignoring_case,
    signed_decimal_text, signed_zero_filled_text, trim, zero_filled_text,
};
use zippy_openctp::{OpenCtpSourceMetrics, RuntimeError, SourceError};

#[test]
fn numbers_are_written_in_decimal() {
    assert_eq!(decimal_text(0), "0");
    assert_eq!(decimal_text(u64::MAX), "18446744073709551615");
    assert_eq!(zero_filled_text(7, 2), "07");
    assert_eq!(zero_filled_text(123, 2), "123");
    assert_eq!(signed_decimal_text(i64::MIN), "-9223372036854775808");
    assert_eq!(signed_zero_filled_text(-3, 4), "-003");
    assert_eq!(signed_zero_filled_text(26, 4), "0026");
}

#[test]
fn digits_are_read_as_numbers() {
    assert_eq!(digits_number("ab0123", 2, 6), Some(123));
    assert_eq!(digits_number("ab0123", 1, 6), None);
}

#[test]
fn texts_are_compared_and_joined() {
    assert_eq!(trim(" \u{2003}x y\n"), "x y");
    assert_eq!(trim(" \t "), "");
    assert!(same("a", "a"));
    assert!(!same("a", "A"));
    assert!(same_ignoring_case("Ok", "oK"));
    assert!(!same_ignoring_case("\u{e9}", "\u{c9}"));
    assert_eq!(joined2("a", "b"), "ab");
    assert_eq!(joined3("a", "b", "c"), "abc");
    assert_eq!(joined5("a", "b", "c", "d", "e"), "abcde");
}

#[test]
fn days_and_dates_are_inverse() {
    assert_eq!(days_from_civil(1970, 1, 1), Some(0));
    assert_eq!(days_from_civil(2026, 4, 8), Some(20_551));
    assert_eq!(days_from_civil(2026, 2, 29), None);
    assert_eq!(days_from_civil(2026, 0, 1), None);
    assert_eq!(civil_from_days(20_551), (2026, 4, 8));
    assert_eq!(civil_from_days(-1), (1969, 12, 31));
    assert_eq!(civil_from_days(-719_468), (0, 3, 1));
    assert_eq!(civil_from_days(11_016), (2000, 2, 29));
    let mut date = (1999, 12, 25);
    for offset in 0..800 {
        let days = days_from_civil(1999, 12, 25).unwrap() + offset;
        assert_eq!(civil_from_days(days), date);
        let (year, month, day) = date;
        date = if day < month_length(year as u32, month) {
            (year, month, day + 1)
        } else if month < 12 {
            (year, month + 1, 1)
        } else {
            (year + 1, 1, 1)
        };
    }
    assert!(leap_year(2000) && leap_year(2024) && !leap_year(1900) && !leap_year(2026));
}

#[test]
fn exchange_dates_change_at_sixteen_hours_utc() {
    assert_eq!(exchange_date_yyyymmdd(0), "19700101");
    assert_eq!(exchange_date_yyyymmdd(57_599), "19700101");
    assert_eq!(exchange_date_yyyymmdd(57_600), "19700102");
    assert_eq!(exchange_date_yyyymmdd(-28_801), "19691231");
    assert_eq!(exchange_date_yyyymmdd(1_775_611_800), "20260408");
    assert_eq!(exchange_date_from_secs(None), "19700101");
    assert_eq!(exchange_date_from_secs(Some(1_775_611_800)), "20260408");
    let today = current_exchange_date_yyyymmdd();
    assert!(today.as_str() > "20240101" && today.len() == 8);
}

#[test]
fn clock_readings_are_checked() {
    assert_eq!(localtime_ns_from(Ok(5)).unwrap(), 5);
    assert!(matches!(
        localtime_ns_from(Ok(i64::MAX as u128 + 1)),
        Err(SourceError::Clock(_))
    ));
    assert!(matches!(
        localtime_ns_from(Err("behind".to_string())),
        Err(SourceError::Clock(reason)) if reason == "behind"
    ));
    assert_eq!(unix_time_ns_from(Ok(5)).unwrap(), 5);
    assert_eq!(unix_time_ns_from(Ok(i64::MAX as u128)).unwrap(), i64::MAX);
    assert!(matches!(
        unix_time_ns_from(Ok(i64::MAX as u128 + 1)),
        Err(RuntimeError::Io { .. })
    ));
    assert!(matches!(
        unix_time_ns_from(Err("behind".to_string())),
        Err(RuntimeError::Io { reason }) if reason == "behind"
    ));
    assert!(sample_localtime_ns().unwrap() > 1_700_000_000_000_000_000);
    assert!(current_unix_time_ns().unwrap() > 1_700_000_000_000_000_000);
    let clock = MonotonicClock::start();
    assert!(clock.now().nanos <= clock.now().nanos);
}

#[test]
fn seeds_are_never_zero() {
    assert_eq!(seed_from_nanos(None), 1);
    assert_eq!(seed_from_nanos(Some(0)), 1);
    assert_eq!(seed_from_nanos(Some(1 << 64)), 1);
    assert_eq!(seed_from_nanos(Some((1 << 64) + 9)), 9);
    assert!(default_seed() > 1);
}

#[test]
fn descriptors_name_their_row_capacity() {
    assert_eq!(descriptor_row_capacity("{\"row_capacity\": 64, \"x\": []}"), Ok(64));
    let missing = "segment descriptor is missing row_capacity".to_string();
    for text in ["{}", "[]", "3", "{\"row_capacity\": -1}", "{\"row_capacity\": \"64\"}"] {
        assert_eq!(descriptor_row_capacity(text), Err(missing.clone()), "{text}");
    }
    let reason = descriptor_row_capacity("{").unwrap_err();
    assert_ne!(reason, missing);
    assert!(reason.contains("EOF"));
    assert_eq!(row_capacity_from(Ok(None)), Err(missing));
    assert_eq!(row_capacity_from(Ok(Some(7))), Ok(7));
    assert_eq!(row_capacity_from(Err("x".to_string())), Err("x".to_string()));
}

#[test]
fn native_sinks_are_checked() {
    assert_eq!(check_capsule_name(Some(NATIVE_SOURCE_SINK_CAPSULE_NAME)), Ok(()));
    assert_eq!(
        check_capsule_name(None),
        Err("native source sink capsule has no valid name".to_string())
    );
    assert_eq!(
        check_capsule_name(Some("other")),
        Err("unexpected native source sink capsule name [other]".to_string())
    );
    assert_eq!(call_result("flush", 0), Ok(()));
    assert_eq!(
        call_result("flush", -2),
        Err(RuntimeError::io("native source sink call failed kind=[flush] code=[-2]"))
    );
}

#[test]
fn failures_on_the_way_to_a_sink_have_texts() {
    for (failure, text) in [
        (SinkFailure::StreamName, "native source sink stream name contains nul error=[x]"),
        (SinkFailure::OpenIpc, "native source sink failed to open ipc writer error=[x]"),
        (SinkFailure::WriteIpc, "native source sink failed to write ipc batch error=[x]"),
        (SinkFailure::FinishIpc, "native source sink failed to finish ipc stream error=[x]"),
        (SinkFailure::Python, "python source bridge failed error=[x]"),
    ] {
        assert_eq!(failure.with_error("x"), RuntimeError::io(text));
    }
}

#[test]
fn python_sees_six_counters() {
    let mut metrics = OpenCtpSourceMetrics::default();
    metrics.record_ticks_received(9);
    metrics.record_normalize_failure();
    let entries = metrics_entries(&metrics);
    assert_eq!(entries.len(), 6);
    assert_eq!(entries[0], ("ticks_received_total", 9));
    assert!(entries.iter().all(|entry| entry.0 != "normalize_failures_total"));
}

#[test]
fn blocking_calls_have_names() {
    assert_eq!(blocking_kind("join"), Ok(BlockingKind::Join));
    assert_eq!(blocking_kind("stop"), Ok(BlockingKind::Stop));
    assert_eq!(blocking_kind("Join"), Err("blocking_kind must be 'join' or 'stop'"));
}
