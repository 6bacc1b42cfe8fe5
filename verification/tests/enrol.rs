use rustls::pki_types::PrivateKeyDer;
use vedavid_connector::enrol::{
    alpn_protocols, certificate_request, client_auth, client_config, enroll_request, identity_for,
    identity_of, key_outcome, new_key, offering_http2, relay_name, request_params, trust,
    trust_roots, Bootstrap, EnrolError, Identity,
};
use vedavid_connector::pb::{ConnectorBuild, EnrollResponse};

fn certificate(name: &str) -> (String, Vec<u8>) {
    let key = rcgen::KeyPair::generate().unwrap();
    let params = rcgen::CertificateParams::new(vec![name.to_string()]).unwrap();
    let cert = params.self_signed(&key).unwrap();
    (cert.pem(), cert.der().to_vec())
}

fn issued(chain: Vec<Vec<u8>>) -> EnrollResponse {
    EnrollResponse {
        cert_chain_der: chain,
        trust_bundle_der: vec![vec![9]],
        spiffe_id: "spiffe://x/y".to_string(),
        relay_endpoints: vec!["r:1".to_string()],
    }
}

fn identity(roots: Vec<Vec<u8>>) -> Identity {
    Identity {
        chain: vec![vec![1, 2], vec![3]],
        key: PrivateKeyDer::Sec1(vec![7, 8].into()),
        roots,
        spiffe_id: String::new(),
        relay_endpoints: vec![],
    }
}

#[test]
fn the_request_names_no_subject_and_no_alternative_names() {
    let params = request_params().ok().unwrap();
    assert!(params.subject_alt_names.is_empty());
    assert_eq!(params.distinguished_name.iter().count(), 0);
}

#[test]
fn a_certificate_request_is_signed_for_the_key() {
    let key = new_key().ok().unwrap();
    let der = certificate_request(&key).ok().unwrap();
    let spki = rcgen::PublicKeyData::subject_public_key_info(&key);
    assert!(der.windows(spki.len()).any(|w| w == spki.as_slice()));
    assert_ne!(new_key().ok().unwrap().serialize_der(), key.serialize_der());
}

fn after_header(der: &[u8]) -> &[u8] {
    assert_eq!(der[0], 0x30);
    let skip = if der[1] < 128 { 2 } else { 2 + (der[1] as usize - 128) };
    &der[skip..]
}

#[test]
fn a_certificate_request_says_nothing_but_the_key() {
    let key = new_key().ok().unwrap();
    let der = certificate_request(&key).ok().unwrap();
    let mut said = vec![0x02, 0x01, 0x00, 0x30, 0x00];
    said.extend(rcgen::PublicKeyData::subject_public_key_info(&key));
    said.extend([0xa0, 0x00]);
    assert_eq!(der[1], 0x81);
    assert_eq!(der[2] as usize, der.len() - 3, "nothing follows the request");
    let info = after_header(&der);
    assert_eq!(info[1] as usize, said.len());
    assert!(after_header(info).starts_with(&said));
    let rest = &after_header(info)[said.len()..];
    let ecdsa_with_sha256 =
        [0x30, 0x0a, 0x06, 0x08, 0x2a, 0x86, 0x48, 0xce, 0x3d, 0x04, 0x03, 0x02];
    assert!(rest.starts_with(&ecdsa_with_sha256));
    let signature = &rest[ecdsa_with_sha256.len()..];
    assert_eq!((signature[0], signature[2]), (0x03, 0x00));
    assert_eq!(signature[1] as usize, signature.len() - 2);
    assert!(signature.len() - 3 <= 72);
}

#[test]
fn a_new_key_is_on_the_curve_p256() {
    let key = new_key().ok().unwrap();
    let document = key.serialize_der();
    let start = [
        0x02, 0x01, 0x00, 0x30, 0x13, 0x06, 0x07, 0x2a, 0x86, 0x48, 0xce, 0x3d, 0x02, 0x01, 0x06,
        0x08, 0x2a, 0x86, 0x48, 0xce, 0x3d, 0x03, 0x01, 0x07,
    ];
    assert!(after_header(&document).starts_with(&start));
    assert!(key.is_compatible(&rcgen::PKCS_ECDSA_P256_SHA256));
}

#[test]
fn what_cannot_be_made_without_a_key_is_a_key_error() {
    assert_eq!(key_outcome(Ok(7)), Ok(7));
    assert_eq!(
        key_outcome::<u8>(Err("no entropy".to_string())),
        Err(EnrolError::Key("no entropy".to_string()))
    );
}

#[test]
fn the_relay_is_asked_with_the_token_and_the_request() {
    let build = ConnectorBuild {
        version: "1".to_string(),
        git_sha: "2".to_string(),
        platform: "3".to_string(),
        k8s_version: "4".to_string(),
    };
    let b = Bootstrap {
        relay_addr: "r:1",
        server_name: "r",
        roots_pem: "",
        token: "t",
        build,
    };
    let r = enroll_request(b, vec![5, 6]);
    assert_eq!(r.enrollment_token, "t");
    assert_eq!(r.csr_der, vec![5, 6]);
    assert_eq!(r.build.unwrap().git_sha, "2");
}

#[test]
fn an_identity_keeps_the_key_that_was_generated() {
    let key = new_key().ok().unwrap();
    let id = identity_for(issued(vec![vec![1]]), &key).ok().unwrap();
    assert_eq!(id.key, PrivateKeyDer::Pkcs8(key.serialize_der().into()));
    assert_eq!(id.chain, vec![vec![1]]);
    assert_eq!(id.roots, vec![vec![9]]);
    assert_eq!(id.spiffe_id, "spiffe://x/y");
    assert_eq!(id.relay_endpoints, vec!["r:1"]);
    assert_eq!(id.key_clone(), id.key);
}

#[test]
fn an_answer_without_a_certificate_is_unusable() {
    let key = new_key().ok().unwrap();
    let e = identity_for(issued(vec![]), &key).err().unwrap();
    assert_eq!(e, EnrolError::Unusable("no certificate was returned".to_string()));
}

#[test]
fn the_format_of_a_key_is_told_by_its_first_bytes() {
    let read = |der: &[u8]| identity_of(issued(vec![vec![1]]), der.to_vec()).map(|i| i.key);
    let pkcs8 = vec![0x30, 0x06, 0x02, 0x01, 0x07, 0x30];
    assert_eq!(read(&pkcs8).ok(), Some(PrivateKeyDer::Pkcs8(pkcs8.into())));
    let pkcs1 = vec![0x30, 0x03, 0x02, 0x01, 0x00];
    assert_eq!(read(&pkcs1).ok(), Some(PrivateKeyDer::Pkcs1(pkcs1.into())));
    let sec1 = vec![0x30, 0x81, 0x03, 0x02, 0x01, 0x01];
    assert_eq!(read(&sec1).ok(), Some(PrivateKeyDer::Sec1(sec1.into())));
    let unknown = EnrolError::Key("unknown or invalid key format".to_string());
    for der in [&[][..], &[0x30], &[0x31, 0x00], &[0x30, 0xff], &[0x30, 0x03, 0x02, 0x01, 0x02]] {
        assert_eq!(read(der).err().unwrap(), unknown);
    }
}

#[test]
fn roots_come_from_the_text_and_then_from_the_identity() {
    let (a, a_der) = certificate("a.example");
    let (b, _) = certificate("b.example");
    let (_, c_der) = certificate("c.example");
    let pem = format!("{}junk\n{}", a, b);
    assert_eq!(trust_roots(&pem, None).ok().unwrap().len(), 2);

    let id = identity(vec![vec![0, 1], c_der.clone()]);
    let store = trust_roots(&pem, Some(&id)).ok().unwrap();
    assert_eq!(store.len(), 3, "a root of the identity that is none is passed over");
    let mut alone = rustls::RootCertStore::empty();
    alone.add(rustls::pki_types::CertificateDer::from(a_der)).unwrap();
    alone.add(rustls::pki_types::CertificateDer::from(c_der)).unwrap();
    assert_eq!(store.roots[0], alone.roots[0]);
    assert_eq!(store.roots[2], alone.roots[1]);

    assert!(trust_roots("no certificates here", None).ok().unwrap().is_empty());
}

#[test]
fn a_root_in_the_text_that_is_none_is_an_error() {
    let (a, _) = certificate("a.example");
    let bad = "-----BEGIN CERTIFICATE-----\nAAAA\n-----END CERTIFICATE-----\n";
    let torn = "-----BEGIN CERTIFICATE-----\nAAAA\n";
    let e = trust_roots(&format!("{}{}{}", a, bad, torn), None).err().unwrap();
    let mut store = rustls::RootCertStore::empty();
    let why = store
        .add(rustls::pki_types::CertificateDer::from(vec![0, 0, 0]))
        .unwrap_err()
        .to_string();
    assert_eq!(e, EnrolError::Trust(why));

    let e = trust_roots(&format!("{}{}", a, torn), None).err().unwrap();
    assert_eq!(
        e,
        EnrolError::Trust("section end \"CERTIFICATE\" missing".to_string())
    );
}

#[test]
fn sections_are_trusted_in_turn() {
    let (_, a) = certificate("a.example");
    let sections = vec![Ok(a.clone()), Err("first".to_string()), Err("second".to_string())];
    assert_eq!(trust(sections, None).err().unwrap(), EnrolError::Trust("first".to_string()));
    assert_eq!(trust(vec![Ok(a)], None).ok().unwrap().len(), 1);
}

#[test]
fn a_server_name_is_a_dns_name_or_an_address() {
    let name = relay_name("relay.example").ok().unwrap();
    assert_eq!(name.to_str(), "relay.example");
    assert_eq!(relay_name("10.0.0.1").ok().unwrap().to_str(), "10.0.0.1");
    assert_eq!(
        relay_name("not a name").err().unwrap(),
        EnrolError::Trust("not a name is not a valid server name".to_string())
    );
}

#[test]
fn the_certificate_is_presented_once_there_is_one() {
    assert!(client_auth(None).is_none());
    let (chain, key) = client_auth(Some(&identity(vec![]))).unwrap();
    assert_eq!(chain, vec![vec![1, 2], vec![3]]);
    assert_eq!(key, PrivateKeyDer::Sec1(vec![7, 8].into()));
    assert_eq!(alpn_protocols(), vec![b"h2".to_vec()]);
}

#[test]
fn the_relay_is_dialled_with_the_certificate_and_offered_http2() {
    let (root, _) = certificate("relay.example");
    let config = client_config(&root, None).unwrap();
    assert_eq!(config.alpn_protocols, vec![b"h2".to_vec()]);
    assert!(!config.client_auth_cert_resolver.has_certs());
    let mut silent = config;
    silent.alpn_protocols = vec![b"http/1.1".to_vec()];
    assert_eq!(offering_http2(Ok(silent)).unwrap().alpn_protocols, vec![b"h2".to_vec()]);

    let key = new_key().ok().unwrap();
    let params = rcgen::CertificateParams::new(vec!["me.example".to_string()]).unwrap();
    let own = params.self_signed(&key).unwrap().der().to_vec();
    let id = identity_for(issued(vec![own.clone()]), &key).ok().unwrap();
    let config = client_config(&root, Some(&id)).unwrap();
    assert_eq!(config.alpn_protocols, vec![b"h2".to_vec()]);
    let schemes = [rustls::SignatureScheme::ECDSA_NISTP256_SHA256];
    let shown = config.client_auth_cert_resolver.resolve(&[], &schemes).unwrap();
    assert_eq!(shown.cert.len(), 1);
    assert_eq!(shown.cert[0].to_vec(), own);
}

#[test]
fn a_certificate_that_will_not_do_is_a_trust_error() {
    let (root, _) = certificate("relay.example");
    let (_, other) = certificate("other.example");
    let key = new_key().ok().unwrap();
    let id = identity_for(issued(vec![other]), &key).ok().unwrap();
    assert!(matches!(client_config(&root, Some(&id)), Err(EnrolError::Trust(_))));
    let id = identity(vec![]);
    assert!(matches!(client_config(&root, Some(&id)), Err(EnrolError::Trust(_))));

    let torn = "-----BEGIN CERTIFICATE-----\nAAAA\n";
    assert_eq!(
        client_config(torn, None).err().unwrap(),
        EnrolError::Trust("section end \"CERTIFICATE\" missing".to_string())
    );
    assert_eq!(
        offering_http2(Err("bad".to_string())).err().unwrap(),
        EnrolError::Trust("bad".to_string())
    );
}

#[test]
fn errors_say_what_went_wrong() {
    let s = |t: &str| t.to_string();
    for (e, words) in [
        (EnrolError::Key(s("x")), "generating a key: x"),
        (EnrolError::Token(s("x")), "no enrolment token: x"),
        (EnrolError::Trust(s("x")), "trusting the relay: x"),
        (EnrolError::Dial { addr: s("r:1"), source: s("x") }, "reaching r:1: x"),
        (EnrolError::Refused(s("x")), "the relay refused: x"),
        (EnrolError::Unusable(s("x")), "the relay's answer was unusable: x"),
        (EnrolError::Transport(s("x")), "x"),
    ] {
        assert_eq!(e.describe(), words);
    }
}
