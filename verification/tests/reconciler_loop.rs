use netloc::ip::IpAddress;
use netloc::reconciler::Action;
use netloc::reconciler::Error;
use netloc::reconciler::Event;
use netloc::reconciler::Reconciler;
use netloc::reporter::Data;
use netloc::reporter::Reporter;
use netloc::resolution::ResolutionError;
use netloc::stdout::Stdout;

fn v4(a: u8, b: u8, c: u8, d: u8) -> IpAddress {
    IpAddress::V4 { a, b, c, d }
}

type E = String;

fn expect_report(action: Action<E>, index: usize, ip: &str) {
    match action {
        Action::Report(i, Data { ip: text }) => {
            assert_eq!(i, index);
            assert_eq!(text, ip);
        }
        other => panic!("expected a report action, got another: {:?}", describe(&other)),
    }
}

fn describe(action: &Action<E>) -> &'static str {
    match action {
        Action::Wait(_) => "wait",
        Action::Resolve => "resolve",
        Action::Report(_, _) => "report",
        Action::Stop(_) => "stop",
    }
}

#[test]
fn scenario_first_resolution_reports_to_all_in_order() {
    let mut rec = Reconciler::new(600_000, 2);
    assert!(matches!(rec.first_action::<E>(), Action::Wait(600_000)));
    assert!(matches!(rec.step::<E>(Event::DelayElapsed), Action::Resolve));
    let action = rec.step::<E>(Event::Resolved(Ok(v4(198, 51, 100, 1))));
    expect_report(action, 0, "198.51.100.1");
    let action = rec.step::<E>(Event::Reported(Ok(())));
    expect_report(action, 1, "198.51.100.1");
    assert!(matches!(rec.step::<E>(Event::Reported(Ok(()))), Action::Wait(600_000)));
}

#[test]
fn scenario_unchanged_address_skips_reporters() {
    let mut rec = Reconciler::new(1000, 1);
    assert!(matches!(rec.step::<E>(Event::DelayElapsed), Action::Resolve));
    let action = rec.step::<E>(Event::Resolved(Ok(v4(198, 51, 100, 1))));
    expect_report(action, 0, "198.51.100.1");
    assert!(matches!(rec.step::<E>(Event::Reported(Ok(()))), Action::Wait(1000)));
    // Second cycle: the same address comes back; no reporter is invoked.
    assert!(matches!(rec.step::<E>(Event::DelayElapsed), Action::Resolve));
    let action = rec.step::<E>(Event::Resolved(Ok(v4(198, 51, 100, 1))));
    assert!(matches!(action, Action::Wait(1000)));
}

#[test]
fn scenario_changed_address_reports_new_address_only() {
    let mut rec = Reconciler::new(1000, 2);
    assert!(matches!(rec.step::<E>(Event::DelayElapsed), Action::Resolve));
    expect_report(rec.step::<E>(Event::Resolved(Ok(v4(198, 51, 100, 1)))), 0, "198.51.100.1");
    expect_report(rec.step::<E>(Event::Reported(Ok(()))), 1, "198.51.100.1");
    assert!(matches!(rec.step::<E>(Event::Reported(Ok(()))), Action::Wait(1000)));
    // Second cycle: a different address comes back.
    assert!(matches!(rec.step::<E>(Event::DelayElapsed), Action::Resolve));
    expect_report(rec.step::<E>(Event::Resolved(Ok(v4(198, 51, 100, 2)))), 0, "198.51.100.2");
    expect_report(rec.step::<E>(Event::Reported(Ok(()))), 1, "198.51.100.2");
    assert!(matches!(rec.step::<E>(Event::Reported(Ok(()))), Action::Wait(1000)));
    assert_eq!(rec.current_ip.current(), Some(v4(198, 51, 100, 2)));
}

#[test]
fn scenario_first_reporter_failure_stops_the_loop() {
    let mut rec = Reconciler::new(1000, 2);
    assert!(matches!(rec.step::<E>(Event::DelayElapsed), Action::Resolve));
    expect_report(rec.step::<E>(Event::Resolved(Ok(v4(198, 51, 100, 1)))), 0, "198.51.100.1");
    // The first reporter fails: the loop stops; the second reporter is
    // never named in any further action.
    let action = rec.step::<E>(Event::Reported(Err("destination refused".to_string())));
    match action {
        Action::Stop(Error::Reporting(e)) => assert_eq!(e, "destination refused"),
        other => panic!("expected the loop to stop, got {:?}", describe(&other)),
    }
}

#[test]
fn resolution_failure_stops_the_loop() {
    let mut rec = Reconciler::new(1000, 1);
    assert!(matches!(rec.step::<E>(Event::DelayElapsed), Action::Resolve));
    let action =
        rec.step::<E>(Event::Resolved(Err(ResolutionError::ErrorStatus { status: 503 })));
    match action {
        Action::Stop(Error::IpResolution(ResolutionError::ErrorStatus { status })) => {
            assert_eq!(status, 503)
        }
        other => panic!("expected the loop to stop, got {:?}", describe(&other)),
    }
}

#[test]
fn transport_failure_stops_the_loop() {
    let mut rec = Reconciler::new(1000, 1);
    assert!(matches!(rec.step::<E>(Event::DelayElapsed), Action::Resolve));
    let failure = ResolutionError::Transport { detail: "connection reset".to_string() };
    let action = rec.step::<E>(Event::Resolved(Err(failure)));
    match action {
        Action::Stop(Error::IpResolution(ResolutionError::Transport { detail })) => {
            assert_eq!(detail, "connection reset")
        }
        other => panic!("expected the loop to stop, got {:?}", describe(&other)),
    }
}

#[test]
fn no_reporters_means_no_report_actions() {
    let mut rec = Reconciler::new(1000, 0);
    assert!(matches!(rec.step::<E>(Event::DelayElapsed), Action::Resolve));
    assert!(matches!(
        rec.step::<E>(Event::Resolved(Ok(v4(198, 51, 100, 1)))),
        Action::Wait(1000)
    ));
}

#[test]
fn stdout_reporter_accepts_payload() {
    let reporter = Stdout;
    let outcome = reporter.report(&Data { ip: "198.51.100.1".to_string() });
    assert!(outcome.is_ok());
}
