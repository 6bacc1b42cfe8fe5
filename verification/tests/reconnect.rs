use rustls::pki_types::PrivateKeyDer;
use vedavid_connector::enrol::{EnrolError, Identity};
use vedavid_connector::reconnect::{Event, Step, Tunnel};
use vedavid_connector::startup::{build, env_or, read_token, relay_server_name};

fn identity() -> Identity {
    Identity {
        chain: vec![vec![1]],
        key: PrivateKeyDer::Pkcs8(vec![2].into()),
        roots: vec![],
        spiffe_id: "spiffe://x".to_string(),
        relay_endpoints: vec![],
    }
}

fn failed(step: Step) -> (u64, EnrolError) {
    match step {
        Step::Sleep { wait, because: Some(e) } => (wait.as_secs(), e),
        _ => panic!("expected a failure"),
    }
}

fn enrolled() -> Tunnel {
    let mut t = Tunnel::new("/token");
    assert!(matches!(t.begin(), Step::ReadToken));
    let step = t.on(Event::TokenRead(Ok("secret\n".to_string())));
    assert!(matches!(step, Step::Enrol(token) if token == "secret"));
    assert!(matches!(t.on(Event::Enrolled(Ok(identity()))), Step::Dial));
    assert_eq!(t.identity.as_ref().unwrap().spiffe_id, "spiffe://x");
    t
}

#[test]
fn a_tunnel_that_the_relay_closes_is_dialled_again_without_enrolling() {
    let mut t = enrolled();
    assert!(matches!(t.on(Event::Dialled(Ok(()))), Step::Serve));
    match t.advance(Event::Served(Ok(())), 5) {
        Step::Sleep { wait, because: None } => {
            assert_eq!((wait.as_secs(), wait.subsec_millis()), (1, 5))
        }
        _ => panic!("expected a wait"),
    }
    assert!(matches!(t.on(Event::Waited), Step::Dial));
}

#[test]
fn only_a_transport_failure_costs_the_identity() {
    let mut t = enrolled();
    let refused = || EnrolError::Dial { addr: "r".to_string(), source: "x".to_string() };
    assert_eq!(failed(t.on(Event::Dialled(Err(refused())))), (2, refused()));
    assert!(t.identity.is_some());
    assert!(matches!(t.on(Event::Waited), Step::Dial));

    let broken = failed(t.on(Event::Served(Err("reset".to_string()))));
    assert_eq!(broken, (4, EnrolError::Transport("reset".to_string())));
    assert!(t.identity.is_none());
    assert!(matches!(t.on(Event::Waited), Step::ReadToken));
}

#[test]
fn failures_in_a_row_are_counted_and_a_served_tunnel_starts_over() {
    let mut t = Tunnel::new("/token");
    for secs in [2, 4, 8, 16, 30, 30] {
        let (wait, e) = failed(t.on(Event::TokenRead(Err("gone".to_string()))));
        assert_eq!(wait, secs);
        assert_eq!(e, EnrolError::Token("reading /token: gone".to_string()));
    }
    assert_eq!(t.attempt, 6);
    t.on(Event::Served(Ok(())));
    assert_eq!(t.attempt, 0);
    t.attempt = u32::MAX;
    failed(t.on(Event::Enrolled(Err(EnrolError::Refused("no".to_string())))));
    assert_eq!(t.attempt, u32::MAX);
}

#[test]
fn a_token_is_trimmed_and_must_not_be_empty() {
    assert_eq!(read_token("/t", Ok("abc\n".to_string())).unwrap(), "abc");
    assert_eq!(read_token("/t", Ok("abc".to_string())).unwrap(), "abc");
    assert_eq!(
        read_token("/t", Ok(" \n".to_string())).unwrap_err(),
        EnrolError::Token("/t is empty".to_string())
    );
    assert_eq!(
        read_token("/t", Err("denied".to_string())).unwrap_err(),
        EnrolError::Token("reading /t: denied".to_string())
    );
}

#[test]
fn settings_have_defaults() {
    assert_eq!(env_or(None, "d"), "d");
    assert_eq!(env_or(Some("v".to_string()), "d"), "v");
    assert_eq!(relay_server_name(None, "relay.example:8443"), "relay.example");
    assert_eq!(relay_server_name(None, "[::1]:8443"), "::1");
    assert_eq!(relay_server_name(None, "[fe80::1]"), "fe80::1");
    assert_eq!(relay_server_name(None, "::1:8443"), "::1");
    assert_eq!(relay_server_name(None, "relay"), "relay");
    assert_eq!(relay_server_name(None, ""), "");
    assert_eq!(relay_server_name(Some("other".to_string()), "relay:1"), "other");
}

#[test]
fn a_build_names_its_platform() {
    let b = build("0.1.0", None, "linux", "x86_64");
    assert_eq!(b.version, "0.1.0");
    assert_eq!(b.git_sha, "unknown");
    assert_eq!(b.platform, "linux/x86_64");
    assert_eq!(b.k8s_version, "");
    assert_eq!(build("1", Some("abc"), "o", "a").git_sha, "abc");
}
