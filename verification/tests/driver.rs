use crossbeam_channel::unbounded;
use zippy_openctp::channel::Outbox;
use zippy_openctp::clock::{Moment, Span};
use zippy_openctp::driver_ctp::{
    api_build_failure, choose_dynlib, conclude_driver, encode_failure, error_answered,
    flow_path_failure, front_disconnected, raw_tick_from_depth_market_data,
    reconnect_gate_for_front_connected, rsp_info_error_reason, subscription_answered,
    user_login_answered, DepthQuote, DynlibLocation, PendingSubscription, RspInfo,
};
use zippy_openctp::live_driver::{LiveDriver, LiveMdControlEvent, LiveReply, LiveStep};
use zippy_openctp::source::{
    MdDriverEvent, OpenCtpMarketDataSourceConfig, OpenCtpSourceStatus, ReconnectState,
    ReconnectUpdate, SubscriptionOutcome,
};
use zippy_openctp::{Ctp2rsMdDriver, RuntimeError};

type Event = MdDriverEvent<f64>;

fn io(reason: &str) -> RuntimeError {
    RuntimeError::Io {
        reason: reason.to_string(),
    }
}

fn control(event: LiveMdControlEvent, now: Moment) -> LiveReply {
    LiveReply::Control {
        event,
        now,
        stopping: false,
    }
}

fn response(request_id: i32, instrument: &str, is_last: bool) -> LiveMdControlEvent {
    LiveMdControlEvent::SubscriptionResponse {
        request_id,
        instrument_id: Some(instrument.to_string()),
        succeeded: true,
        is_last,
    }
}

#[test]
fn pending_subscription_ignores_delayed_completed_request_id_after_reset() {
    let mut pending = PendingSubscription::new(&["IF2506".to_string(), "IH2506".to_string()]);

    pending.observe(101, Some("IF2506".to_string()), true);
    let first = pending
        .finish_and_reset(101)
        .expect("active request should produce subscription outcome");
    assert_eq!(
        first,
        SubscriptionOutcome {
            succeeded_instruments: vec!["IF2506".to_string()],
            failed_instruments: vec!["IH2506".to_string()],
            subscribe_failures_total: 1,
            status: OpenCtpSourceStatus::Degraded,
        }
    );

    pending.observe(202, Some("IH2506".to_string()), true);
    pending.observe(101, Some("IF2506".to_string()), true);
    assert!(
        pending.finish_and_reset(101).is_none(),
        "completed old request_id must not emit a new outcome"
    );

    let second = pending
        .finish_and_reset(202)
        .expect("new request should remain isolated from delayed old responses");
    assert_eq!(
        second,
        SubscriptionOutcome {
            succeeded_instruments: vec!["IH2506".to_string()],
            failed_instruments: vec!["IF2506".to_string()],
            subscribe_failures_total: 1,
            status: OpenCtpSourceStatus::Degraded,
        }
    );
}

#[test]
fn a_new_round_seals_the_one_before() {
    let mut pending = PendingSubscription::new(&["a".to_string()]);
    pending.observe(1, Some("a".to_string()), true);
    pending.reset();
    assert!(pending.finish_and_reset(1).is_none());
    pending.observe(2, Some("a".to_string()), false);
    pending.observe(2, None, true);
    pending.observe(3, Some("a".to_string()), true);
    let outcome = pending.finish_and_reset(2).unwrap();
    assert!(outcome.succeeded_instruments.is_empty());
    assert_eq!(outcome.status, OpenCtpSourceStatus::Degraded);
    pending.observe(3, Some("a".to_string()), true);
    pending.observe(3, Some("a".to_string()), true);
    let outcome = pending.finish_and_reset(3).unwrap();
    assert_eq!(outcome.succeeded_instruments, vec!["a".to_string()]);
    assert_eq!(outcome.status, OpenCtpSourceStatus::Running);
}

#[test]
fn reconnect_gate_waits_until_interval_before_recovering() {
    let start = Moment { nanos: 9_000 };
    let mut reconnect_state = ReconnectState::new(Span::from_secs(3));
    reconnect_state.mark_disconnected_at(start);

    let reconnect_gate =
        reconnect_gate_for_front_connected(&reconnect_state, start.after(Span::from_secs(1)))
            .expect("degraded source should produce reconnect gate");

    assert_eq!(reconnect_gate.sleep_for, Span::from_secs(2));
    assert_eq!(reconnect_state.reconnects_total(), 0);
    assert_eq!(reconnect_state.status(), OpenCtpSourceStatus::Degraded);

    reconnect_state.mark_reconnected();
    assert_eq!(reconnect_state.reconnects_total(), 1);
    assert_eq!(reconnect_state.status(), OpenCtpSourceStatus::Running);
}

#[test]
fn ctp_driver_start_fails_when_md_dynlib_path_is_not_configured() {
    let config = OpenCtpMarketDataSourceConfig::new(
        "tcp://127.0.0.1:12345".to_string(),
        "9999".to_string(),
        "000001".to_string(),
        "secret".to_string(),
        vec!["IF2506".to_string()],
        ".cache/openctp/md".to_string(),
    );
    let _driver = Ctp2rsMdDriver::new(config);

    let error = match choose_dynlib::<String>(None, None) {
        Ok(_) => panic!("driver start should fail when md dynlib path is not configured"),
        Err(error) => error,
    };

    let RuntimeError::Io { reason } = error else {
        panic!("expected an io error");
    };
    assert!(reason.contains("openctp md dynlib path is not configured"));
}

#[test]
fn dynlib_file_comes_before_directory() {
    assert_eq!(choose_dynlib(Some("f"), Some("d")), Ok(DynlibLocation::File("f")));
    assert_eq!(choose_dynlib(None, Some("d")), Ok(DynlibLocation::Directory("d")));
}

#[test]
fn live_driver_logs_in_subscribes_and_reports_the_outcome() {
    let (tx, rx) = unbounded::<Event>();
    let mut outbox = Outbox::new(tx);
    let now = Moment { nanos: 0 };
    let driver = LiveDriver::new(&["IF2506".to_string(), "IH2506".to_string()]);

    let reply = control(LiveMdControlEvent::FrontConnected, now);
    assert!(driver.accepts(&reply));
    assert!(!driver.accepts(&LiveReply::Sent(0)));
    let (driver, step) = driver.advance(reply, &mut outbox);
    assert!(matches!(step, LiveStep::Login));
    let (driver, step) = driver.advance(LiveReply::Sent(0), &mut outbox);
    assert!(matches!(step, LiveStep::Wait));
    let (driver, step) =
        driver.advance(control(LiveMdControlEvent::UserLoginSucceeded, now), &mut outbox);
    assert!(matches!(step, LiveStep::Subscribe));
    let (driver, step) = driver.advance(LiveReply::Sent(0), &mut outbox);
    assert!(matches!(step, LiveStep::Wait));
    let (driver, _) = driver.advance(control(response(5, "IF2506", false), now), &mut outbox);
    assert!(rx.is_empty());
    let (driver, _) = driver.advance(control(response(5, "IH2506", true), now), &mut outbox);
    let MdDriverEvent::SubscriptionOutcome(outcome) = rx.try_recv().unwrap() else {
        panic!("expected an outcome");
    };
    assert_eq!(outcome.status, OpenCtpSourceStatus::Running);
    assert_eq!(outcome.subscribe_failures_total, 0);

    let (driver, _) = driver.advance(control(response(5, "IH2506", true), now), &mut outbox);
    assert!(rx.is_empty());
    let (_, step) = driver.advance(LiveReply::StopAsked, &mut outbox);
    assert!(matches!(step, LiveStep::Release { mark_stopping: true }));
    assert!(rx.is_empty());
}

#[test]
fn live_driver_waits_before_it_mends_a_disconnect() {
    let (tx, rx) = unbounded::<Event>();
    let mut outbox = Outbox::new(tx);
    let start = Moment { nanos: 1_000_000_000 };
    let driver = LiveDriver::new(&["IF2506".to_string(), "IH2506".to_string()]);

    let (driver, step) =
        driver.advance(control(LiveMdControlEvent::FrontDisconnected(8193), start), &mut outbox);
    assert!(matches!(step, LiveStep::Wait));
    assert!(
        rx.try_recv().unwrap()
            == Event::ReconnectUpdate(ReconnectUpdate {
                reconnects_total: 0,
                status: OpenCtpSourceStatus::Degraded,
            })
    );

    let back = start.after(Span::from_secs(1));
    let (driver, step) =
        driver.advance(control(LiveMdControlEvent::FrontConnected, back), &mut outbox);
    assert!(matches!(step, LiveStep::Sleep(span) if span == Span::from_secs(2)));
    let (driver, step) = driver.advance(LiveReply::Woken { stopping: false }, &mut outbox);
    assert!(matches!(step, LiveStep::Login));
    let (driver, _) = driver.advance(LiveReply::Sent(0), &mut outbox);
    let (driver, _) =
        driver.advance(control(LiveMdControlEvent::UserLoginSucceeded, back), &mut outbox);
    let (driver, _) = driver.advance(LiveReply::Sent(0), &mut outbox);
    let (driver, _) = driver.advance(control(response(6, "IF2506", true), back), &mut outbox);
    assert!(
        rx.try_recv().unwrap()
            == Event::ReconnectUpdate(ReconnectUpdate {
                reconnects_total: 1,
                status: OpenCtpSourceStatus::Degraded,
            })
    );
    assert!(matches!(rx.try_recv().unwrap(), MdDriverEvent::SubscriptionOutcome(_)));

    let (driver, _) = driver.advance(control(response(7, "IF2506", true), back), &mut outbox);
    assert!(matches!(rx.try_recv().unwrap(), MdDriverEvent::SubscriptionOutcome(_)));
    assert!(rx.is_empty());

    let late = start.after(Span::from_secs(60));
    let (_, step) = driver.advance(control(LiveMdControlEvent::FrontConnected, late), &mut outbox);
    assert!(matches!(step, LiveStep::Login));
}

#[test]
fn live_driver_gives_up_with_the_reason_it_tells() {
    let now = Moment { nanos: 0 };
    let cases: Vec<(Vec<LiveReply>, &str, bool)> = vec![
        (
            vec![control(LiveMdControlEvent::FrontConnected, now), LiveReply::Sent(-3)],
            "ctp md req_user_login failed code=[-3]",
            true,
        ),
        (
            vec![control(LiveMdControlEvent::UserLoginSucceeded, now), LiveReply::Sent(12)],
            "ctp md subscribe_market_data failed code=[12]",
            false,
        ),
        (
            vec![control(LiveMdControlEvent::LoginFailed("denied".to_string()), now)],
            "denied",
            true,
        ),
        (
            vec![control(LiveMdControlEvent::DriverError("broken".to_string()), now)],
            "broken",
            false,
        ),
    ];
    for (replies, reason, at_login) in cases {
        let (tx, rx) = unbounded::<Event>();
        let mut outbox = Outbox::new(tx);
        let mut driver = LiveDriver::new(&["IF2506".to_string()]);
        let mut last = LiveStep::Wait;
        for reply in replies {
            assert!(driver.accepts(&reply));
            let (next, step) = driver.advance(reply, &mut outbox);
            driver = next;
            last = step;
        }
        assert!(matches!(last, LiveStep::Finish(Err(error)) if error == io(reason)));
        let told = if at_login {
            Event::LoginFailed(reason.to_string())
        } else {
            Event::Error(reason.to_string())
        };
        assert!(rx.try_recv().unwrap() == told);
        assert!(rx.is_empty());
    }
}

#[test]
fn live_driver_ends_without_a_notice_where_none_is_due() {
    let now = Moment { nanos: 0 };
    let start = || LiveDriver::new(&["IF2506".to_string()]);
    let connect = || control(LiveMdControlEvent::FrontConnected, now);

    let (driver, notices, _) = start().decide::<f64>(connect());
    assert!(notices.is_empty());
    let (_, notices, step) = driver.decide::<f64>(LiveReply::ApiMissing);
    assert!(notices.is_empty());
    assert!(matches!(step, LiveStep::Finish(Err(error))
        if error == io("ctp md api not available after front connected")));

    let (driver, _, _) =
        start().decide::<f64>(control(LiveMdControlEvent::UserLoginSucceeded, now));
    let (_, _, step) = driver.decide::<f64>(LiveReply::ApiMissing);
    assert!(matches!(step, LiveStep::Finish(Err(error))
        if error == io("ctp md api not available after login")));

    let (driver, _, _) =
        start().decide::<f64>(control(LiveMdControlEvent::UserLoginSucceeded, now));
    let (_, _, step) = driver.decide::<f64>(LiveReply::Failed(io("no")));
    assert!(matches!(step, LiveStep::Finish(Err(error)) if error == io("no")));

    let (_, _, step) = start().decide::<f64>(LiveReply::ControlClosed);
    assert!(matches!(step, LiveStep::Finish(Err(RuntimeError::ChannelReceive))));

    let (_, notices, step) = start().decide::<f64>(LiveReply::Control {
        event: LiveMdControlEvent::DriverError("late".to_string()),
        now,
        stopping: true,
    });
    assert!(notices.is_empty());
    assert!(matches!(step, LiveStep::Finish(Ok(()))));

    let (_, _, step) = start().decide::<f64>(LiveReply::Control {
        event: LiveMdControlEvent::FrontConnected,
        now,
        stopping: true,
    });
    assert!(matches!(step, LiveStep::Release { mark_stopping: false }));
}

#[test]
fn live_driver_leaves_where_the_source_is_gone() {
    let (tx, rx) = unbounded::<Event>();
    drop(rx);
    let mut outbox = Outbox::new(tx);
    let (_, step) = LiveDriver::new(&[]).advance(
        control(LiveMdControlEvent::FrontDisconnected(1), Moment { nanos: 0 }),
        &mut outbox,
    );
    assert!(matches!(step, LiveStep::Finish(Err(RuntimeError::ChannelSend))));
}

#[test]
fn driver_end_tells_of_a_stop_and_of_a_bad_join() {
    let (tx, rx) = unbounded::<Event>();
    let mut outbox = Outbox::new(tx);
    assert_eq!(
        conclude_driver(Ok(()), -1, false, &mut outbox),
        Err(io("ctp md api join returned non-zero [-1]"))
    );
    assert_eq!(conclude_driver(Ok(()), 0, false, &mut outbox), Ok(()));
    assert_eq!(conclude_driver(Err(io("x")), -1, false, &mut outbox), Err(io("x")));
    assert!(rx.is_empty());
    assert_eq!(conclude_driver(Ok(()), -1, true, &mut outbox), Ok(()));
    assert!(rx.try_recv().unwrap() == Event::Stop);
    drop(rx);
    assert_eq!(
        conclude_driver(Ok(()), 0, true, &mut outbox),
        Err(RuntimeError::ChannelSend)
    );
}

#[test]
fn callbacks_tell_the_loop_what_it_has_to_know() {
    let good = Some(RspInfo {
        error_id: 0,
        message: Some("fine".to_string()),
    });
    let bad = Some(RspInfo {
        error_id: -7,
        message: Some("bad".to_string()),
    });
    let unreadable = Some(RspInfo {
        error_id: 3,
        message: None,
    });
    let reason = "ctp md rsp error error_id=[-7] message=[bad]".to_string();

    assert_eq!(rsp_info_error_reason(&None), None);
    assert_eq!(rsp_info_error_reason(&good), None);
    assert_eq!(rsp_info_error_reason(&bad), Some(reason.clone()));
    assert_eq!(
        rsp_info_error_reason(&unreadable).unwrap(),
        "ctp md rsp error error_id=[3] message=[failed to decode rsp error message]"
    );

    assert_eq!(user_login_answered(&bad, false), None);
    assert_eq!(
        user_login_answered(&good, true),
        Some(LiveMdControlEvent::UserLoginSucceeded)
    );
    assert_eq!(
        user_login_answered(&bad, true),
        Some(LiveMdControlEvent::LoginFailed(reason.clone()))
    );

    assert_eq!(error_answered(&bad, false, false), None);
    assert_eq!(error_answered(&bad, true, true), None);
    assert_eq!(
        error_answered(&bad, true, false),
        Some(LiveMdControlEvent::DriverError(reason))
    );
    assert_eq!(
        error_answered(&None, true, false),
        Some(LiveMdControlEvent::DriverError(
            "ctp md rsp error without detailed info".to_string()
        ))
    );

    assert_eq!(front_disconnected(9, true), None);
    assert_eq!(
        front_disconnected(9, false),
        Some(LiveMdControlEvent::FrontDisconnected(9))
    );
    assert_eq!(
        subscription_answered(4, None, &bad, true),
        LiveMdControlEvent::SubscriptionResponse {
            request_id: 4,
            instrument_id: None,
            succeeded: false,
            is_last: true,
        }
    );
}

fn quote() -> DepthQuote<f64> {
    DepthQuote {
        instrument_id: Ok("rb2510".to_string()),
        exchange_id: Ok("SHFE".to_string()),
        trading_day: Ok("20260408".to_string()),
        action_day: Ok("20260408".to_string()),
        update_time: Ok("09:30:00".to_string()),
        update_millisec: 500,
        last_price: 4123.5,
        volume: i32::MAX,
        turnover: 1.0,
        open_interest: 2.0,
        bid_price_1: 4123.0,
        bid_volume_1: 5,
        ask_price_1: 4124.0,
        ask_volume_1: -6,
    }
}

#[test]
fn depth_quotes_become_raw_ticks() {
    let tick = raw_tick_from_depth_market_data(quote()).unwrap();
    assert_eq!(tick.instrument_id, "rb2510");
    assert_eq!(tick.volume, 2_147_483_647);
    assert_eq!(tick.ask_volume_1, -6);
    assert_eq!(tick.last_price, 4123.5);

    let mut unreadable = quote();
    unreadable.action_day = Err("odd byte".to_string());
    unreadable.update_time = Err("later".to_string());
    assert_eq!(
        raw_tick_from_depth_market_data(unreadable).unwrap_err(),
        io("failed to decode ctp text field: odd byte")
    );
}

#[test]
fn failures_of_the_start_have_texts() {
    assert_eq!(
        flow_path_failure("/tmp/x", "denied"),
        io("failed to create md flow path path=[/tmp/x] error=[denied]")
    );
    assert_eq!(api_build_failure("gone"), io("failed to build ctp md api: gone"));
    assert_eq!(
        encode_failure("I\u{1}F", "nul"),
        io("failed to encode instrument for subscribe instrument=[I\u{1}F] error=[nul]")
    );
}
