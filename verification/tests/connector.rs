use datafusion_distributed::address::{Host, ParseError, Url};
use datafusion_distributed::connector::{
    dial_target, needs_scheme, parse_reported, ConnectError, LogicalOrigin, WorkerConnector,
    DEFAULT_CONNECT_TIMEOUT,
};
use datafusion_distributed::endpoint::{
    build_endpoint, Certificate, EndpointSettings, TlsSettings, TrustRoots,
};
use std::time::Duration;

fn origin(url: &str) -> LogicalOrigin {
    LogicalOrigin::new(Url::parse(url).expect("valid origin URL"), None).expect("usable origin")
}

fn logical(url: &str) -> WorkerConnector {
    WorkerConnector::default().with_origin(origin(url))
}

fn worker_url(connector: &WorkerConnector, reported: &str) -> String {
    let url = connector.worker_url(reported).expect("a worker URL");
    url.as_str().to_string()
}

#[test]
fn worker_url_keeps_a_reported_url_as_is() {
    let connector = WorkerConnector::default();
    let url = connector.worker_url("http://10.0.0.1:9001").expect("a worker URL");
    assert_eq!(url.as_str(), "http://10.0.0.1:9001/");
}

#[test]
fn worker_url_rejects_a_value_that_is_not_a_url() {
    let connector = WorkerConnector::default();
    assert!(connector.worker_url("not a url").is_err());
}

#[test]
fn worker_url_reads_a_bare_authority_as_a_host_and_port() {
    let connector = WorkerConnector::default();
    // Without the authority fallback this reads as the scheme `localhost`.
    assert_eq!(worker_url(&connector, "localhost:9001"), "http://localhost:9001/");
    assert_eq!(worker_url(&connector, "10.0.0.1:9001"), "http://10.0.0.1:9001/");
}

#[test]
fn worker_url_moves_a_report_onto_the_logical_scheme() {
    let connector = logical("https://workers.example.com");
    assert_eq!(
        worker_url(&connector, "http://worker-3.internal:9001"),
        "https://worker-3.internal:9001/"
    );
}

#[test]
fn worker_url_takes_the_logical_port_when_the_worker_states_none() {
    let connector = logical("https://workers.example.com:8443");
    assert_eq!(
        worker_url(&connector, "worker-3.internal"),
        "https://worker-3.internal:8443/"
    );
    // A default port for the reported scheme cannot be told apart from no port, so it takes the
    // logical port too.
    assert_eq!(
        worker_url(&connector, "http://worker-3.internal:80"),
        "https://worker-3.internal:8443/"
    );
}

#[test]
fn worker_url_keeps_a_port_the_worker_states_explicitly() {
    let connector = logical("https://workers.example.com:8443");
    assert_eq!(
        worker_url(&connector, "http://worker-3.internal:9001"),
        "https://worker-3.internal:9001/"
    );
}

#[test]
fn worker_url_defaults_to_the_logical_schemes_port() {
    // The origin states no port, so https' own default is what the workers get. A scheme's default
    // port is written as no port at all, so the dial target is what to assert on.
    let connector = logical("https://workers.example.com");
    let url = connector.worker_url("worker-3.internal").expect("a worker URL");
    assert_eq!(url.as_str(), "https://worker-3.internal/");
    assert_eq!(
        dial_target(&url).expect("expected a dialable address"),
        ("worker-3.internal".to_string(), 443)
    );
}

#[test]
fn worker_url_handles_ipv4_and_ipv6_literals() {
    let connector = logical("https://workers.example.com:8443");

    assert_eq!(worker_url(&connector, "http://10.0.0.1:9001"), "https://10.0.0.1:9001/");
    assert_eq!(worker_url(&connector, "10.0.0.1"), "https://10.0.0.1:8443/");
    // IPv6 literals stay bracketed in URL form, whether reported as a URL or an authority.
    assert_eq!(
        worker_url(&connector, "http://[2001:db8::1]:9001"),
        "https://[2001:db8::1]:9001/"
    );
    assert_eq!(worker_url(&connector, "[::1]:9001"), "https://[::1]:9001/");
    assert_eq!(worker_url(&connector, "[::1]"), "https://[::1]:8443/");
}

#[test]
fn logical_origin_rejects_a_scheme_it_cannot_dial() {
    let url = Url::parse("grpc://workers.example.com").expect("valid URL");
    assert!(LogicalOrigin::new(url, None).is_err());
}

#[test]
fn logical_origin_rejects_ca_for_plaintext() {
    let url = Url::parse("http://workers.example.com").expect("valid URL");
    let ca = Certificate::from_pem(b"not parsed until a TLS connection is attempted");
    assert!(LogicalOrigin::new(url, Some(ca)).is_err());
}

#[test]
fn dial_target_unbrackets_ipv6_and_fills_in_the_default_port() {
    let (host, port) = dial_target(&Url::parse("https://[2001:db8::1]:9001").expect("valid URL"))
        .expect("expected a dialable address");
    assert_eq!((host.as_str(), port), ("2001:db8::1", 9001));

    let (host, port) = dial_target(&Url::parse("https://workers.example.com").expect("valid URL"))
        .expect("expected an address");
    assert_eq!((host.as_str(), port), ("workers.example.com", 443));
}

#[test]
fn hosts_to_dial_have_no_brackets() {
    for target in ["http://[::1]", "http://[::ffff:10.0.0.1]:1", "grpc://[2001:db8::1]:2"] {
        let target = Url::parse(target).expect("valid URL");
        let (host, _) = dial_target(&target).expect("an address");
        assert!(!host.contains('[') && !host.contains(']'));
    }
}

#[test]
fn origins_are_refused_with_a_reason() {
    let grpc = Url::parse("grpc://workers.example.com").expect("valid URL");
    assert_eq!(
        LogicalOrigin::new(grpc, None).err().as_deref(),
        Some("worker origin must be http or https, got `grpc` in grpc://workers.example.com")
    );

    let plain = Url::parse("http://workers.example.com").expect("valid URL");
    let ca = Certificate::from_pem(b"pem");
    assert_eq!(
        LogicalOrigin::new(plain, Some(ca)).err().as_deref(),
        Some("a CA certificate requires an https worker origin")
    );
}

#[test]
fn urls_are_taken_apart() {
    let url = Url::parse("HTTPS://[2001:DB8::1]:9001/a?b").expect("valid URL");
    assert_eq!(url.as_str(), "https://[2001:db8::1]:9001/a?b");
    assert_eq!(url.scheme(), "https");
    assert!(matches!(url.host(), Some(Host::Ipv6(address)) if address == "2001:db8::1"));
    assert_eq!(url.host_str(), Some("[2001:db8::1]"));
    assert_eq!(url.port(), Some(9001));
    assert_eq!(url.port_or_known_default(), Some(9001));

    let url = Url::parse("http://10.0.0.1:80").expect("valid URL");
    assert!(matches!(url.host(), Some(Host::Ipv4(address)) if address == "10.0.0.1"));
    assert_eq!(url.port(), None);
    assert_eq!(url.port_or_known_default(), Some(80));

    let url = Url::parse("mailto:someone@example.com").expect("valid URL");
    assert!(!url.has_host() && url.host().is_none() && url.host_str().is_none());
    assert_eq!(url.port_or_known_default(), None);
    let url = Url::parse("http://Workers.Example.COM").expect("valid URL");
    assert!(matches!(url.host(), Some(Host::Domain(name)) if name == "workers.example.com"));

    assert_eq!(Url::parse("ws://h").expect("valid URL").port_or_known_default(), Some(80));
    assert_eq!(Url::parse("wss://h").expect("valid URL").port_or_known_default(), Some(443));
    assert_eq!(Url::parse("ftp://h").expect("valid URL").port_or_known_default(), Some(21));
}

#[test]
fn texts_that_are_no_urls_say_why() {
    assert!(matches!(Url::parse("http://"), Err(ParseError::EmptyHost)));
    assert!(matches!(Url::parse("10.0.0.1:9001"), Err(ParseError::RelativeUrlWithoutBase)));
    match Url::parse("http://host:notaport") {
        Err(ParseError::Other(reason)) => assert_eq!(reason, "invalid port number"),
        _ => panic!("expected a described reason"),
    }
    for (text, message) in [
        ("http://", "empty host"),
        ("10.0.0.1:9001", "relative URL without a base"),
        ("http://host:notaport", "invalid port number"),
    ] {
        let error = Url::parse(text).expect_err("not a URL");
        assert_eq!(error.message(), message);
    }
}

#[test]
fn only_a_missing_authority_is_read_again() {
    assert!(needs_scheme(&Url::parse("localhost:9001")));
    assert!(needs_scheme(&Url::parse("[::1]:9001")));
    assert!(!needs_scheme(&Url::parse("http://localhost:9001")));
    assert!(!needs_scheme(&Url::parse("http://")));
    assert!(!needs_scheme(&Url::parse("http://host:notaport")));

    let url = parse_reported("localhost:9001", "https").expect("a URL");
    assert_eq!(url.as_str(), "https://localhost:9001/");
    assert!(matches!(parse_reported("http://", "https"), Err(ParseError::EmptyHost)));
}

#[test]
fn a_bare_authority_reads_like_a_full_url() {
    let connector = logical("https://workers.example.com:8443");
    assert_eq!(
        worker_url(&connector, "worker-3.internal:9001"),
        worker_url(&connector, "https://worker-3.internal:9001")
    );
}

#[test]
fn a_moved_report_keeps_its_host_and_port() {
    let connector = logical("https://workers.example.com:8443");
    let reported = Url::parse("http://[::1]:9001/path").expect("valid URL");
    assert_eq!(
        connector.moved_report(&reported).as_deref(),
        Some("https://[::1]:9001")
    );
    let silent = Url::parse("http://worker").expect("valid URL");
    assert_eq!(
        connector.moved_report(&silent).as_deref(),
        Some("https://worker:8443")
    );
    let hostless = Url::parse("mailto:someone@example.com").expect("valid URL");
    assert_eq!(connector.moved_report(&hostless), None);
    assert_eq!(WorkerConnector::default().moved_report(&silent), None);
}

#[test]
fn the_origin_names_workers_and_the_target_is_dialed() {
    let origin = origin("https://workers.example.com:8443");
    let connector = WorkerConnector::new(250).with_origin(origin);

    for target in ["http://10.0.0.1:9001", "https://[::1]:7"] {
        let target = Url::parse(target).expect("valid URL");
        let dial = connector.connect(&target).expect("a dialable target");
        assert_eq!(
            (dial.host, dial.port),
            dial_target(&target).expect("expected a dialable address")
        );
        assert_eq!(dial.endpoint.uri().to_string(), "https://workers.example.com:8443/");
        assert_eq!(dial.endpoint.get_connect_timeout(), Some(Duration::from_millis(250)));
    }
}

#[test]
fn the_origin_speaks_for_every_worker() {
    let url = Url::parse("https://workers.example.com:8443").expect("valid URL");
    let ca = Certificate::from_pem(b"pem");
    let origin = LogicalOrigin::new(url, Some(ca)).expect("usable origin");
    let connector = WorkerConnector::new(250).with_origin(origin);

    for target in ["http://10.0.0.1:9001", "https://[::1]:7"] {
        let settings = connector.settings(&Url::parse(target).expect("valid URL"));
        assert_eq!(settings.uri, "https://workers.example.com:8443/");
        assert_eq!(settings.connect_timeout, 250);
        let tls = settings.tls.expect("TLS");
        assert_eq!(tls.domain_name.as_deref(), Some("workers.example.com"));
        assert!(matches!(&tls.roots, TrustRoots::Ca(ca) if ca.pem == b"pem"));
    }
}

#[test]
fn without_an_origin_the_target_names_itself() {
    let connector = WorkerConnector::default();

    let plain = Url::parse("http://10.0.0.1:9001").expect("valid URL");
    let settings = connector.settings(&plain);
    assert_eq!(settings.uri, "http://10.0.0.1:9001/");
    assert_eq!(settings.connect_timeout, DEFAULT_CONNECT_TIMEOUT);
    assert!(settings.tls.is_none());
    let endpoint = connector.endpoint(&plain).expect("an endpoint");
    assert_eq!(endpoint.uri().to_string(), "http://10.0.0.1:9001/");
    assert_eq!(endpoint.get_connect_timeout(), Some(Duration::from_secs(1)));

    // Without an origin everything is in the clear, whatever the target says.
    let secure = Url::parse("https://worker.example.com").expect("valid URL");
    assert!(connector.settings(&secure).tls.is_none());
    let endpoint = connector.endpoint(&secure).expect("an endpoint");
    assert_eq!(endpoint.uri().to_string(), "https://worker.example.com/");
}

#[test]
fn the_scheme_of_the_origin_turns_tls_on() {
    let target = Url::parse("https://worker.example.com").expect("valid URL");
    assert!(logical("http://workers.example.com").settings(&target).tls.is_none());

    let tls = logical("https://10.0.0.1").settings(&target).tls.expect("TLS");
    // An IP address is no name for SNI.
    assert_eq!(tls.domain_name, None);
    assert!(matches!(tls.roots, TrustRoots::Enabled));
}

#[test]
fn normalizing_a_worker_url_again_changes_nothing() {
    for (connector, reported) in [
        (WorkerConnector::default(), "localhost:9001"),
        (WorkerConnector::default(), "grpc://worker/path"),
        (logical("https://workers.example.com"), "worker-3.internal"),
        (logical("https://workers.example.com"), "http://worker-3.internal:443"),
        (logical("https://workers.example.com:8443"), "[::1]"),
        (logical("http://workers.example.com:8080"), "10.0.0.1:9001"),
        // A scheme that is not one of the web's leaves its host as it is.
        (logical("https://workers.example.com:8443"), "grpc://WORKER:7"),
    ] {
        let once = worker_url(&connector, reported);
        assert_eq!(worker_url(&connector, &once), once);
    }
    // An origin that states a port takes a URL without one for one on that port.
    let connector = logical("https://workers.example.com:8443");
    let once = worker_url(&connector, "http://worker:443");
    assert_eq!(once, "https://worker/");
    assert_eq!(worker_url(&connector, &once), "https://worker:8443/");
}

#[test]
fn a_url_with_a_very_long_label_is_not_read_back() {
    let label: String = (0..1000u32)
        .map(|i| char::from_u32(0x20000 + 40 * i).expect("a character"))
        .collect();
    let connector = WorkerConnector::default();
    let once = worker_url(&connector, &label);
    assert!(once.starts_with("http://xn--") && once.len() > 2000);
    assert!(connector.worker_url(&once).is_err());
}

#[test]
fn connecting_needs_a_host_and_a_port() {
    let connector = WorkerConnector::default();
    for (target, message) in [
        ("grpc://worker", "worker address grpc://worker has no host and port to dial"),
        ("mailto:someone", "worker address mailto:someone has no host and port to dial"),
    ] {
        match connector.connect(&Url::parse(target).expect("valid URL")) {
            Err(ConnectError::NoAddress(text)) => assert_eq!(text, message),
            _ => panic!("expected an error"),
        }
    }
}

#[test]
fn connecting_needs_a_name_that_is_a_uri() {
    // A URI has a largest length, and a URL has none.
    let target = Url::parse(&format!("http://worker/{}", "a".repeat(70_000))).expect("valid URL");
    let connector = WorkerConnector::default();
    let error = connector.endpoint(&target).expect_err("no URI");
    assert_eq!(error.to_string(), "invalid URI");
    match connector.connect(&target) {
        Err(ConnectError::Endpoint(error)) => assert_eq!(error.to_string(), "invalid URI"),
        _ => panic!("expected an error"),
    }
}

#[test]
fn endpoints_are_set_up_as_asked() {
    let settings = |domain_name: Option<&str>, roots: TrustRoots| EndpointSettings {
        uri: "https://[::1]:8443".to_string(),
        connect_timeout: 20,
        tls: Some(TlsSettings { domain_name: domain_name.map(|name| name.to_string()), roots }),
    };
    let endpoint = build_endpoint(settings(Some("workers.example.com"), TrustRoots::Enabled))
        .expect("an endpoint");
    assert_eq!(endpoint.get_connect_timeout(), Some(Duration::from_millis(20)));
    assert!(build_endpoint(settings(None, TrustRoots::Enabled)).is_ok());
    // The name and the CA are looked into when TLS is set up.
    let error = build_endpoint(settings(Some("not a name"), TrustRoots::Enabled))
        .expect_err("no name for SNI");
    assert_eq!(error.to_string(), "transport error");
    let broken = b"-----BEGIN CERTIFICATE-----\n!\n-----END CERTIFICATE-----\n";
    let ca = TrustRoots::Ca(Certificate::from_pem(broken));
    assert!(build_endpoint(settings(None, ca)).is_err());
    // What holds no certificate at all is no CA that is broken.
    let ca = TrustRoots::Ca(Certificate::from_pem(b"pem"));
    assert!(build_endpoint(settings(None, ca)).is_ok());
    // A socket in the file system has no TLS.
    let socket = EndpointSettings {
        uri: "unix:/tmp/socket".to_string(),
        ..settings(Some("workers.example.com"), TrustRoots::Enabled)
    };
    assert!(build_endpoint(socket).is_err());
}

#[test]
fn copies_of_a_connector_agree() {
    let url = Url::parse("https://workers.example.com").expect("valid URL");
    let ca = Certificate::from_pem(b"pem");
    let connector = WorkerConnector::new(7)
        .with_origin(LogicalOrigin::new(url, Some(ca)).expect("usable origin"));
    let copy = connector.clone();
    let target = Url::parse("http://10.0.0.1:9001").expect("valid URL");
    let settings = copy.settings(&target);
    assert_eq!(settings.uri, connector.settings(&target).uri);
    assert_eq!(settings.connect_timeout, 7);
    assert!(matches!(settings.tls.expect("TLS").roots, TrustRoots::Ca(_)));
}
