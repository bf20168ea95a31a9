use zippy_openctp::clock::{Moment, Span};
use zippy_openctp::errors::{map_source_error, RuntimeError, SourceError};
use zippy_openctp::source::{
    contains_text, debug_enabled, evaluate_subscription_results, OpenCtpMarketDataSourceConfig,
    OpenCtpSourceStatus, ReconnectState, ReconnectUpdate, SubscriptionOutcome,
};
use zippy_openctp::{Ctp2rsMdDriver, NormalizeError, OpenCtpSourceMetrics};

fn strings(items: &[&str]) -> Vec<String> {
    items.iter().map(|item| item.to_string()).collect()
}

fn sample_config() -> OpenCtpMarketDataSourceConfig {
    OpenCtpMarketDataSourceConfig::new(
        "tcp://127.0.0.1:12345".to_string(),
        "9999".to_string(),
        "000001".to_string(),
        "secret".to_string(),
        vec!["IF2506".to_string()],
        ".cache/openctp/md".to_string(),
    )
}

#[test]
fn source_config_defaults_to_single_tick_publish() {
    let config = OpenCtpMarketDataSourceConfig::new(
        "tcp://127.0.0.1:12345".to_string(),
        "9999".to_string(),
        "000001".to_string(),
        "secret".to_string(),
        vec!["IF2506".to_string()],
        ".cache/openctp/md".to_string(),
    );

    assert_eq!(config.password, "secret");
    assert!(config.reconnect);
    assert_eq!(config.login_timeout_sec, 10);
    assert_eq!(config.rows_per_batch, 1);
    assert_eq!(config.flush_interval_ms, 0);
}

#[test]
fn source_metrics_snapshot_defaults_to_zero_counters() {
    let metrics = OpenCtpSourceMetrics::default();

    assert_eq!(metrics.ticks_received_total, 0);
    assert_eq!(metrics.ticks_emitted_total, 0);
    assert_eq!(metrics.batches_emitted_total, 0);
    assert_eq!(metrics.reconnects_total, 0);
    assert_eq!(metrics.login_failures_total, 0);
    assert_eq!(metrics.subscribe_failures_total, 0);
}

#[test]
fn source_config_debug_redacts_password() {
    let config = OpenCtpMarketDataSourceConfig::new(
        "tcp://127.0.0.1:12345".to_string(),
        "9999".to_string(),
        "000001".to_string(),
        "secret".to_string(),
        vec!["IF2506".to_string()],
        ".cache/openctp/md".to_string(),
    );

    let rendered = config.debug_text();

    assert!(rendered.contains("***redacted***"));
    assert!(!rendered.contains("secret"));
}

#[test]
fn debug_text_shows_every_field_but_the_password() {
    let mut config = sample_config();
    config.instruments = strings(&["IF\"2506", "IH2506"]);
    config.reconnect = false;
    assert_eq!(
        config.debug_text(),
        "OpenCtpMarketDataSourceConfig { front: \"tcp://127.0.0.1:12345\", broker_id: \"9999\", \
         user_id: \"000001\", password: \"***redacted***\", instruments: [\"IF\\\"2506\", \
         \"IH2506\"], flow_path: \".cache/openctp/md\", reconnect: false, login_timeout_sec: 10 }"
    );
    let before = config.debug_text();
    config.password = "another".to_string();
    assert_eq!(config.debug_text(), before);
}

#[test]
fn source_status_starts_created_and_metrics_are_zeroed() {
    assert_eq!(OpenCtpSourceStatus::Created.as_str(), "created");

    let metrics = OpenCtpSourceMetrics::default();
    assert_eq!(metrics.ticks_received_total, 0);
    assert_eq!(metrics.subscribe_failures_total, 0);
}

#[test]
fn statuses_have_different_names() {
    let names: Vec<&str> = [
        OpenCtpSourceStatus::Created,
        OpenCtpSourceStatus::Connecting,
        OpenCtpSourceStatus::Running,
        OpenCtpSourceStatus::Degraded,
        OpenCtpSourceStatus::Stopped,
        OpenCtpSourceStatus::Failed,
    ]
    .into_iter()
    .map(OpenCtpSourceStatus::as_str)
    .collect();
    assert_eq!(
        names,
        vec!["created", "connecting", "running", "degraded", "stopped", "failed"]
    );
}

#[test]
fn ctp_driver_keeps_static_subscription_config() {
    let config = OpenCtpMarketDataSourceConfig::new(
        "tcp://127.0.0.1:12345".to_string(),
        "9999".to_string(),
        "000001".to_string(),
        "secret".to_string(),
        vec!["IF2506".to_string(), "IH2506".to_string()],
        ".cache/openctp/md".to_string(),
    );

    let driver = Ctp2rsMdDriver::new(config.clone());

    assert_eq!(driver.instruments(), config.instruments.as_slice());
    assert!(driver.config() == &config);
}

#[test]
fn evaluate_subscription_results_marks_partial_success_as_degraded() {
    let outcome = evaluate_subscription_results(
        &["IF2506".to_string(), "IH2506".to_string()],
        &["IF2506".to_string()],
    );

    assert_eq!(
        outcome,
        SubscriptionOutcome {
            succeeded_instruments: vec!["IF2506".to_string()],
            failed_instruments: vec!["IH2506".to_string()],
            subscribe_failures_total: 1,
            status: OpenCtpSourceStatus::Degraded,
        }
    );
}

#[test]
fn metrics_count_partial_subscription_failures() {
    let mut metrics = OpenCtpSourceMetrics::default();
    let outcome = evaluate_subscription_results(
        &["IF2506".to_string(), "IH2506".to_string()],
        &["IF2506".to_string()],
    );

    metrics.subscribe_failures_total += outcome.subscribe_failures_total;

    assert_eq!(metrics.subscribe_failures_total, 1);
}

#[test]
fn outcomes_keep_order_and_repetition_of_the_request() {
    let requested = strings(&["b", "a", "b", "c"]);
    let outcome = evaluate_subscription_results(&requested, &strings(&["b", "x"]));
    assert_eq!(outcome.succeeded_instruments, strings(&["b", "b"]));
    assert_eq!(outcome.failed_instruments, strings(&["a", "c"]));
    assert_eq!(outcome.subscribe_failures_total, 2);

    let all = evaluate_subscription_results(&requested, &requested);
    assert_eq!(all.status, OpenCtpSourceStatus::Running);
    assert_eq!(all.succeeded_instruments, requested);

    let none = evaluate_subscription_results(&[], &requested);
    assert_eq!(none.status, OpenCtpSourceStatus::Running);
    assert_eq!(none.subscribe_failures_total, 0);

    assert!(contains_text(&requested, "c"));
    assert!(!contains_text(&requested, "C"));
}

#[test]
fn reconnect_state_marks_degraded_then_running_after_reconnect() {
    let start = Moment { nanos: 1_000 };
    let mut state = ReconnectState::new(Span::from_secs(3));

    state.mark_disconnected_at(start);
    assert_eq!(state.status(), OpenCtpSourceStatus::Degraded);
    assert_eq!(state.reconnects_total(), 0);
    assert!(!state.ready_to_reconnect_at(start.after(Span::from_secs(2))));
    assert!(state.ready_to_reconnect_at(start.after(Span::from_secs(3))));

    state.mark_reconnected();
    assert_eq!(state.status(), OpenCtpSourceStatus::Running);
    assert_eq!(state.reconnects_total(), 1);
}

#[test]
fn remaining_wait_shrinks_to_nothing() {
    let start = Moment { nanos: 5_000_000_000 };
    let mut state = ReconnectState::new(Span::from_millis(100));
    assert!(state.ready_to_reconnect_at(start));
    assert!(state.remaining_until_reconnect_at(start).is_zero());
    assert_eq!(state.reconnect_interval(), Span::from_millis(100));

    state.mark_disconnected_at(start);
    assert_eq!(state.remaining_until_reconnect_at(start), Span::from_millis(100));
    let later = start.after(Span::from_millis(40));
    assert_eq!(state.remaining_until_reconnect_at(later), Span::from_millis(60));
    let earlier = Moment { nanos: 0 };
    assert_eq!(state.remaining_until_reconnect_at(earlier), Span::from_millis(100));
    let due = start.after(Span::from_millis(101));
    assert!(state.remaining_until_reconnect_at(due).is_zero());
    assert_eq!(
        state.snapshot(),
        ReconnectUpdate {
            reconnects_total: 0,
            status: OpenCtpSourceStatus::Degraded,
        }
    );
}

#[test]
fn debug_setting_is_read_loosely() {
    for value in ["1", "true", " YES ", "oN", "True\n"] {
        assert!(debug_enabled(Some(value)), "{value}");
    }
    for value in ["", "0", "off", "y", "tru", "yes please"] {
        assert!(!debug_enabled(Some(value)), "{value}");
    }
    assert!(!debug_enabled(None));
}

#[test]
fn source_errors_have_texts() {
    let cases = vec![
        (
            SourceError::from(NormalizeError::InvalidDate),
            "normalize tick failed: invalid action day".to_string(),
        ),
        (
            SourceError::Clock("late".to_string()),
            "sample localtime_ns failed: late".to_string(),
        ),
        (
            SourceError::Segment("full"),
            "segment ingress failed: full".to_string(),
        ),
    ];
    for (error, text) in cases {
        assert_eq!(error.message(), text);
        assert_eq!(map_source_error(error), RuntimeError::Io { reason: text });
    }
    let arrow = arrow::error::ArrowError::SchemaError("odd".to_string());
    let shown = arrow.to_string();
    assert_eq!(
        SourceError::from(arrow).message(),
        format!("build record batch failed: {shown}")
    );
}

#[test]
fn metrics_record_what_happened() {
    let mut metrics = OpenCtpSourceMetrics::default();
    metrics.record_ticks_received(3);
    metrics.record_normalize_failure();
    metrics.record_data_emission(2);
    metrics.record_subscribe_failures(4);
    metrics.record_reconnects(7);
    assert_eq!(
        metrics,
        OpenCtpSourceMetrics {
            ticks_received_total: 3,
            ticks_emitted_total: 2,
            batches_emitted_total: 1,
            normalize_failures_total: 1,
            reconnects_total: 7,
            login_failures_total: 0,
            subscribe_failures_total: 4,
        }
    );
}
