use zippy_openctp::normalize::{
    compose_exchange_timestamp_ns, normalize_tick, NormalizeError, RawTickSnapshot,
};

fn raw_tick(action_day: &str, update_time: &str, update_millisec: i32) -> RawTickSnapshot<f64> {
    RawTickSnapshot {
        instrument_id: "IF2506".to_string(),
        exchange_id: "CFFEX".to_string(),
        trading_day: "20260408".to_string(),
        action_day: action_day.to_string(),
        update_time: update_time.to_string(),
        update_millisec,
        last_price: 3912.4,
        volume: 1234,
        turnover: 987654.0,
        open_interest: 56789.0,
        bid_price_1: 3912.2,
        bid_volume_1: 10,
        ask_price_1: 3912.6,
        ask_volume_1: 8,
    }
}

#[test]
fn normalize_tick_maps_raw_values_into_schema_row() {
    let raw = RawTickSnapshot {
        instrument_id: "IF2506".to_string(),
        exchange_id: "CFFEX".to_string(),
        trading_day: "".to_string(),
        action_day: "20260408".to_string(),
        update_time: "09:30:00".to_string(),
        update_millisec: 500,
        last_price: 3912.4,
        volume: 1234,
        turnover: 987654.0,
        open_interest: 56789.0,
        bid_price_1: 3912.2,
        bid_volume_1: 10,
        ask_price_1: 3912.6,
        ask_volume_1: 8,
    };

    let row = normalize_tick(&raw).expect("normalize_tick should succeed");

    assert_eq!(row.instrument_id, "IF2506");
    assert_eq!(row.exchange_id.as_deref(), Some("CFFEX"));
    assert_eq!(row.trading_day, None);
    assert_eq!(row.action_day.as_deref(), Some("20260408"));
    assert_eq!(row.dt_ns, 1_775_611_800_500_000_000);
    assert_eq!(row.last_price, Some(3912.4));
    assert_eq!(row.volume, Some(1234));
    assert_eq!(row.turnover, Some(987654.0));
    assert_eq!(row.open_interest, Some(56789.0));
    assert_eq!(row.bid_price_1, Some(3912.2));
    assert_eq!(row.bid_volume_1, Some(10));
    assert_eq!(row.ask_price_1, Some(3912.6));
    assert_eq!(row.ask_volume_1, Some(8));
    assert_eq!(row.localtime_ns, 0);
    assert_eq!(row.source_emit_ns, 0);
}

#[test]
fn normalize_tick_rejects_missing_action_day_after_trimming() {
    let raw = RawTickSnapshot {
        instrument_id: "IF2506".to_string(),
        exchange_id: "CFFEX".to_string(),
        trading_day: "20260408".to_string(),
        action_day: "   ".to_string(),
        update_time: "09:30:00".to_string(),
        update_millisec: 500,
        last_price: 3912.4,
        volume: 1234,
        turnover: 987654.0,
        open_interest: 56789.0,
        bid_price_1: 3912.2,
        bid_volume_1: 10,
        ask_price_1: 3912.6,
        ask_volume_1: 8,
    };

    let error = normalize_tick(&raw).expect_err("blank action_day must fail");
    assert_eq!(error, NormalizeError::InvalidDate);
}

#[test]
fn normalize_tick_rejects_non_fixed_width_update_time() {
    let raw = RawTickSnapshot {
        instrument_id: "IF2506".to_string(),
        exchange_id: "CFFEX".to_string(),
        trading_day: "20260408".to_string(),
        action_day: "20260408".to_string(),
        update_time: "9:30:00".to_string(),
        update_millisec: 500,
        last_price: 3912.4,
        volume: 1234,
        turnover: 987654.0,
        open_interest: 56789.0,
        bid_price_1: 3912.2,
        bid_volume_1: 10,
        ask_price_1: 3912.6,
        ask_volume_1: 8,
    };

    let error = normalize_tick(&raw).expect_err("non fixed-width update_time must fail");
    assert_eq!(error, NormalizeError::InvalidTime);
}

#[test]
fn texts_lose_the_white_space_around_them() {
    let mut raw = raw_tick(" 20260408\t", "\n09:30:00 ", 0);
    raw.instrument_id = "  rb2510\u{3000}".to_string();
    raw.exchange_id = "\u{a0} \r\n".to_string();
    let row = normalize_tick(&raw).unwrap();
    assert_eq!(row.instrument_id, "rb2510");
    assert_eq!(row.exchange_id, None);
    assert_eq!(row.action_day.as_deref(), Some("20260408"));
    assert_eq!(row.dt_ns, 1_775_611_800_000_000_000);
}

#[test]
fn dates_that_are_not_in_the_calendar_are_refused() {
    for day in [
        "20260229", "20261301", "20260001", "20260100", "20260431", "2026040", "202604080", "2026-4-8",
        "2026040x", "19000229",
    ] {
        let error = normalize_tick(&raw_tick(day, "09:30:00", 0)).unwrap_err();
        assert_eq!(error, NormalizeError::InvalidDate, "{day}");
    }
    assert!(normalize_tick(&raw_tick("20000229", "09:30:00", 0)).is_ok());
    assert!(normalize_tick(&raw_tick("20240229", "09:30:00", 0)).is_ok());
}

#[test]
fn times_that_are_not_of_a_day_are_refused() {
    for (time, millisec) in [
        ("24:00:00", 0),
        ("09:60:00", 0),
        ("09:30:60", 0),
        ("09-30-00", 0),
        ("09:30:0x", 0),
        ("09:30:00", -1),
        ("09:30:00", 1_000),
        ("", 0),
    ] {
        let error = normalize_tick(&raw_tick("20260408", time, millisec)).unwrap_err();
        assert_eq!(error, NormalizeError::InvalidTime, "{time} {millisec}");
    }
    assert!(normalize_tick(&raw_tick("20260408", "23:59:59", 999)).is_ok());
}

#[test]
fn dates_beyond_the_range_of_a_timestamp_are_refused() {
    assert_eq!(
        compose_exchange_timestamp_ns("22620412", "07:47:16", 854),
        Ok(9_223_372_036_854_000_000)
    );
    assert_eq!(
        compose_exchange_timestamp_ns("22620412", "07:47:16", 855),
        Err(NormalizeError::InvalidDate)
    );
    assert_eq!(
        compose_exchange_timestamp_ns("99991231", "00:00:00", 0),
        Err(NormalizeError::InvalidDate)
    );
    assert_eq!(
        compose_exchange_timestamp_ns("00010101", "00:00:00", 0),
        Err(NormalizeError::InvalidDate)
    );
}

#[test]
fn exchange_time_is_eight_hours_ahead_of_utc() {
    assert_eq!(compose_exchange_timestamp_ns("19700101", "08:00:00", 0), Ok(0));
    assert_eq!(
        compose_exchange_timestamp_ns("19700101", "00:00:00", 0),
        Ok(-28_800_000_000_000)
    );
    assert_eq!(
        compose_exchange_timestamp_ns("20000301", "00:00:00", 1),
        Ok(951_840_000_001_000_000)
    );
}

#[test]
fn errors_have_texts() {
    assert_eq!(NormalizeError::InvalidDate.message(), "invalid action day");
    assert_eq!(NormalizeError::InvalidTime.message(), "invalid update time");
}
