use datafusion_distributed::address::Url;
use datafusion_distributed::console::{
    build_connector, connector_from, seed_address, seed_url, Action, Args, Event, Phase, Rounds,
};
use datafusion_distributed::endpoint::TrustRoots;

fn args(worker_origin: Option<&str>, ca_cert: Option<&str>) -> Args {
    Args {
        seed: "9001".to_string(),
        worker_origin: worker_origin.map(|url| Url::parse(url).expect("valid URL")),
        ca_cert: ca_cert.map(|path| path.to_string()),
        poll_interval: 1000,
        connect_timeout: None,
    }
}

#[test]
fn bare_seed_port_keeps_legacy_cli_compatibility() {
    assert_eq!(seed_address("9001"), "localhost:9001");
    assert_eq!(seed_address("127.0.0.1:9001"), "127.0.0.1:9001");
}

#[test]
fn ca_certificate_requires_worker_origin() {
    let args = args(None, Some("unused.pem"));
    let error = build_connector(&args, |_| panic!("nothing is to be read"))
        .expect_err("CA without origin must be rejected");
    assert!(error.contains("--worker-origin"));
}

#[test]
fn seeds_that_are_no_ports_stay_as_they_are() {
    assert_eq!(seed_address("65535"), "localhost:65535");
    assert_eq!(seed_address("65536"), "65536");
    assert_eq!(seed_address("+80"), "localhost:80");
    assert_eq!(seed_address("0080"), "localhost:80");
    assert_eq!(seed_address("-1"), "-1");
    assert_eq!(seed_address("+"), "+");
    assert_eq!(seed_address(""), "");
    assert_eq!(seed_address(" 80"), " 80");
    assert_eq!(seed_address(&seed_address("9001")), "localhost:9001");
}

#[test]
fn the_seed_is_dialed_like_a_worker() {
    let plain = build_connector(&args(None, None), |_| Ok(Vec::new())).expect("a connector");
    let url = seed_url(&plain, "9001").expect("a URL");
    assert_eq!(url.as_str(), "http://localhost:9001/");

    let named = build_connector(&args(Some("https://workers.example.com"), None), |_| {
        Ok(Vec::new())
    })
    .expect("a connector");
    let url = seed_url(&named, "9001").expect("a URL");
    assert_eq!(url.as_str(), "https://localhost:9001/");
    assert!(seed_url(&plain, "not a url").is_err());
}

#[test]
fn the_ca_certificate_is_read_and_used() {
    let args = args(Some("https://workers.example.com"), Some("ca.pem"));
    let connector = build_connector(&args, |path| Ok(path.into_bytes())).expect("a connector");
    let target = Url::parse("http://10.0.0.1:9001").expect("valid URL");
    let tls = connector.settings(&target).tls.expect("TLS");
    assert!(matches!(&tls.roots, TrustRoots::Ca(ca) if ca.pem == b"ca.pem"));
}

#[test]
fn a_ca_certificate_that_cannot_be_read_is_an_error() {
    let args = args(Some("https://workers.example.com"), Some("ca.pem"));
    let error = build_connector(&args, |_| Err("no such file".to_string()))
        .expect_err("an unreadable CA must be rejected");
    assert_eq!(error, "failed to read CA certificate ca.pem: no such file");
}

#[test]
fn an_unusable_origin_is_an_error() {
    let error = build_connector(&args(Some("grpc://workers.example.com"), None), |_| {
        Ok(Vec::new())
    })
    .expect_err("an origin with that scheme must be rejected");
    assert_eq!(
        error,
        "worker origin must be http or https, got `grpc` in grpc://workers.example.com"
    );
    let error = connector_from(
        &args(Some("http://workers.example.com"), Some("ca.pem")),
        Ok(b"pem".to_vec()),
    )
    .expect_err("a CA for plaintext must be rejected");
    assert_eq!(error, "a CA certificate requires an https worker origin");
}

#[test]
fn the_connect_timeout_can_be_set() {
    let target = Url::parse("http://10.0.0.1:9001").expect("valid URL");
    let mut args = args(None, None);
    let connector = connector_from(&args, Ok(Vec::new())).expect("a connector");
    assert_eq!(connector.settings(&target).connect_timeout, 1000);
    args.connect_timeout = Some(5);
    let connector = connector_from(&args, Ok(Vec::new())).expect("a connector");
    assert_eq!(connector.settings(&target).connect_timeout, 5);
}

#[test]
fn a_round_goes_through_its_phases() {
    let mut rounds = Rounds::new(1000, 0);
    assert_eq!(rounds.action(), Action::ReadClock);
    assert_eq!(rounds.on_event(Event::Time(999_999_999)), Action::Draw);
    assert_eq!(rounds.on_event(Event::Drawn), Action::AwaitInput(16));
    assert_eq!(rounds.on_event(Event::InputReady(false)), Action::AskToQuit);
    assert_eq!(rounds.on_event(Event::QuitAsked(false)), Action::ReadClock);

    assert_eq!(rounds.on_event(Event::Time(1_000_000_000)), Action::Tick);
    assert_eq!(rounds.on_event(Event::Ticked(1_500_000_000)), Action::Draw);
    assert_eq!(rounds.last_poll, 1_500_000_000);
    assert_eq!(rounds.on_event(Event::Drawn), Action::AwaitInput(16));
    assert_eq!(rounds.on_event(Event::InputReady(true)), Action::ReadInput);
    assert_eq!(rounds.on_event(Event::Read { is_key: true }), Action::HandleKey);
    assert_eq!(rounds.on_event(Event::KeyHandled), Action::AskToQuit);
    assert_eq!(rounds.on_event(Event::QuitAsked(true)), Action::Stop);
    assert_eq!(rounds.on_event(Event::Time(9_000_000_000)), Action::Stop);
}

#[test]
fn ticks_keep_their_distance() {
    let mut rounds = Rounds::new(10, 5);
    let mut ticks: Vec<u128> = Vec::new();
    let mut now: u128 = 5;
    while now < 100_000_000 {
        if rounds.on_event(Event::Time(now)) == Action::Tick {
            ticks.push(now);
            rounds.on_event(Event::Ticked(now));
        }
        rounds.on_event(Event::Drawn);
        rounds.on_event(Event::InputReady(false));
        rounds.on_event(Event::QuitAsked(false));
        now += 3_000_000;
    }
    assert_eq!(ticks.len(), 8);
    assert!(ticks.windows(2).all(|pair| pair[1] - pair[0] >= 10_000_000));
}

#[test]
fn other_input_than_keys_is_let_go() {
    let mut rounds = Rounds { poll_interval: 1, last_poll: 0, phase: Phase::Reading };
    assert_eq!(rounds.on_event(Event::Read { is_key: false }), Action::AskToQuit);
}

#[test]
fn a_failing_terminal_ends_the_console() {
    for phase in [Phase::Drawing, Phase::Waiting, Phase::Reading] {
        let mut rounds = Rounds { poll_interval: 1, last_poll: 0, phase };
        assert_eq!(rounds.on_event(Event::TerminalFailed), Action::Fail);
        assert_eq!(rounds.on_event(Event::Time(1)), Action::Fail);
    }
}

#[test]
fn unexpected_events_change_nothing() {
    let mut rounds = Rounds::new(1, 0);
    assert_eq!(rounds.on_event(Event::Drawn), Action::ReadClock);
    assert_eq!(rounds.on_event(Event::TerminalFailed), Action::ReadClock);
    assert_eq!(rounds, Rounds::new(1, 0));
}

#[test]
fn without_an_interval_every_round_ticks() {
    let mut rounds = Rounds::new(0, 7);
    assert_eq!(rounds.on_event(Event::Time(7)), Action::Tick);
}
