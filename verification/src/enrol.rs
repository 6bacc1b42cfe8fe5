//! Getting a certificate. The private key is generated here and never leaves
//! this process.

use crate::pb::{ConnectorBuild, EnrollRequest, EnrollResponse};
use crate::text;
use vstd::prelude::*;

verus! {

/// Declares `rcgen::KeyPair`, a private key with its public one.
#[verifier::external_type_specification]
#[verifier::external_body]
pub struct ExKeyPair(rcgen::KeyPair);

/// Declares `rcgen::CertificateParams`, what a certificate is asked for with.
#[verifier::external_type_specification]
#[verifier::external_body]
pub struct ExCertificateParams(rcgen::CertificateParams);

/// Declares `rcgen::DistinguishedName`, the attributes of a subject.
#[verifier::external_type_specification]
#[verifier::external_body]
pub struct ExDistinguishedName(rcgen::DistinguishedName);

/// Declares `rustls::RootCertStore`, the roots that vouch for a server.
#[verifier::external_type_specification]
#[verifier::external_body]
pub struct ExRootCertStore(rustls::RootCertStore);

/// Declares `rustls::pki_types::ServerName`, the name that a server's
/// certificate must have.
#[verifier::external_type_specification]
#[verifier::external_body]
pub struct ExServerName<'a>(rustls::pki_types::ServerName<'a>);

/// Declares `rustls::pki_types::PrivateKeyDer`, a private key in one of three
/// formats.
#[verifier::external_type_specification]
#[verifier::external_body]
pub struct ExPrivateKeyDer<'a>(rustls::pki_types::PrivateKeyDer<'a>);

/// Declares `rustls::ClientConfig`, how a server is dialled.
#[verifier::external_type_specification]
#[verifier::external_body]
pub struct ExClientConfig(rustls::ClientConfig);

/// How many subject alternative names a certificate is asked for with.
pub uninterp spec fn alternative_names(params: rcgen::CertificateParams) -> nat;

/// How many attributes the subject has that a certificate is asked for with.
pub uninterp spec fn subject_attributes(params: rcgen::CertificateParams) -> nat;

/// How many extensions a request with the parameters asks for.
pub uninterp spec fn asked_extensions(params: rcgen::CertificateParams) -> nat;

/// How many attributes a distinguished name has.
pub uninterp spec fn attributes(name: rcgen::DistinguishedName) -> nat;

/// The PKCS#8 document of a key pair.
pub uninterp spec fn key_document(key: rcgen::KeyPair) -> Seq<u8>;

/// The public key of a key pair, with its algorithm: what
/// `rcgen::PublicKeyData::subject_public_key_info` hands out.
pub uninterp spec fn public_key(key: rcgen::KeyPair) -> Seq<u8>;

/// The trust anchor of a certificate: its subject, its public key, and its name
/// constraints. Or why it is not one.
pub uninterp spec fn trust_anchor(der: Seq<u8>) -> Result<
    (Seq<u8>, Seq<u8>, Option<Seq<u8>>),
    Seq<char>,
>;

/// The trust anchors that a store holds, in the order in which they were added.
pub uninterp spec fn anchors(store: rustls::RootCertStore) -> Seq<
    (Seq<u8>, Seq<u8>, Option<Seq<u8>>),
>;

/// The certificates in a PEM text, in their order, and among them why a section
/// is unreadable.
pub uninterp spec fn pem_sections(pem: Seq<char>) -> Seq<Result<Seq<u8>, Seq<char>>>;

/// The server name that a text stands for, if it is one.
pub uninterp spec fn server_name_of(name: Seq<char>) -> Option<
    rustls::pki_types::ServerName<'static>,
>;

/// What follows the tag and the length of a DER sequence, where `der` begins with
/// them.
pub open spec fn sequence_body(der: Seq<u8>) -> Option<Seq<u8>> {
    let skip: int = if der[1] < 128 {
        2
    } else {
        2 + (der[1] - 128)
    };
    if der.len() < 2 || der[0] != 0x30 || der.len() < skip {
        None
    } else {
        Some(der.skip(skip))
    }
}

/// How the body of a PKCS#8 document for a key on the curve P-256 begins: with
/// version zero, and with the algorithm, which is an elliptic curve key on that
/// curve.
pub open spec fn p256_start() -> Seq<u8> {
    seq![
        0x02, 0x01, 0x00,
        0x30, 0x13,
        0x06, 0x07, 0x2a, 0x86, 0x48, 0xce, 0x3d, 0x02, 0x01,
        0x06, 0x08, 0x2a, 0x86, 0x48, 0xce, 0x3d, 0x03, 0x01, 0x07,
    ]
}

/// Whether a PKCS#8 document is one for a key on the curve P-256.
pub open spec fn p256_document(der: Seq<u8>) -> bool {
    sequence_body(der) matches Some(body) && p256_start().is_prefix_of(body)
}

/// The format of a private key, and its bytes in that format.
pub uninterp spec fn private_key(key: rustls::pki_types::PrivateKeyDer<'static>) -> (
    KeyFormat,
    Seq<u8>,
);

/// The trust anchors that vouch for a server that is dialled.
pub uninterp spec fn vouching(config: rustls::ClientConfig) -> Seq<
    (Seq<u8>, Seq<u8>, Option<Seq<u8>>),
>;

/// The certificate chain and the private key that a server which asks for them
/// is presented with, if any.
pub uninterp spec fn presented(config: rustls::ClientConfig) -> Option<
    (Seq<Seq<u8>>, (KeyFormat, Seq<u8>)),
>;

/// The application protocols that a server is offered.
pub uninterp spec fn offered(config: rustls::ClientConfig) -> Seq<Seq<u8>>;

/// `rcgen::KeyPair::generate` makes a new key pair on the curve P-256, or says
/// why it cannot. It draws on chance, so nothing is claimed of which, nor of when
/// it can.
#[verifier::external_body]
fn generate() -> (r: Result<rcgen::KeyPair, String>)
    ensures
        r matches Ok(key) ==> p256_document(key_document(key)),
{
    rcgen::KeyPair::generate().map_err(|e| e.to_string())
}

/// `rcgen::KeyPair::serialize_der` hands out the PKCS#8 document of a key pair.
pub assume_specification[ rcgen::KeyPair::serialize_der ](key: &rcgen::KeyPair) -> (r: Vec<u8>)
    ensures
        r@ == key_document(*key),
;

/// `rcgen::CertificateParams::new` makes parameters with the given subject
/// alternative names, one for each, if each is an address or a DNS name. Its
/// other settings are defaults; they put an attribute into the subject, and they
/// ask for no extension.
#[verifier::external_body]
fn params_with(names: Vec<String>) -> (r: Result<rcgen::CertificateParams, String>)
    ensures
        r matches Ok(p) ==> alternative_names(p) == names@.len(),
        r matches Ok(p) ==> (names@.len() == 0 ==> asked_extensions(p) == 0),
        names@.len() == 0 ==> r is Ok,
{
    rcgen::CertificateParams::new(names).map_err(|e| e.to_string())
}

/// `rcgen::DistinguishedName::new` makes a name without attributes.
pub assume_specification[ rcgen::DistinguishedName::new ]() -> (r: rcgen::DistinguishedName)
    ensures
        attributes(r) == 0,
;

/// Sets the field `distinguished_name` of `rcgen::CertificateParams`, which is
/// the subject; every other field stays as it is.
#[verifier::external_body]
fn set_subject(params: &mut rcgen::CertificateParams, name: rcgen::DistinguishedName)
    ensures
        subject_attributes(*final(params)) == attributes(name),
        alternative_names(*final(params)) == alternative_names(*old(params)),
        asked_extensions(*final(params)) == asked_extensions(*old(params)),
{
    params.distinguished_name = name;
}

/// What a request says that asks for nothing but a certificate for a public key:
/// version zero, a subject without attributes, the key, and no extensions.
pub open spec fn anonymous_request(public_key: Seq<u8>) -> Seq<u8> {
    seq![0x02u8, 0x01, 0x00] + seq![0x30u8, 0x00] + public_key + seq![0xa0u8, 0x00]
}

/// A number in base 256, its largest digit first.
pub open spec fn big_endian(n: nat) -> Seq<u8>
    decreases n,
{
    if n == 0 {
        Seq::empty()
    } else {
        big_endian(n / 256).push((n % 256) as u8)
    }
}

/// A length in DER: itself where it takes seven bits, and else how many bytes it
/// takes, and those.
pub open spec fn der_length(n: nat) -> Seq<u8> {
    if n < 128 {
        seq![n as u8]
    } else {
        seq![(128 + big_endian(n).len()) as u8] + big_endian(n)
    }
}

/// A value in DER: its tag, its length and its body.
pub open spec fn der_value(tag: u8, body: Seq<u8>) -> Seq<u8> {
    seq![tag] + der_length(body.len()) + body
}

/// A signed request in DER: a sequence of what it says, the algorithm of the
/// signature, and the signature, which is a bit string of whole bytes.
pub open spec fn signed_request(info: Seq<u8>, algorithm: Seq<u8>, signature: Seq<u8>) -> Seq<u8> {
    der_value(
        0x30,
        der_value(0x30, info) + algorithm + der_value(0x03, seq![0x00u8] + signature),
    )
}

/// The algorithm of a signature with a key on the curve P-256: ECDSA with
/// SHA-256.
pub open spec fn p256_signing() -> Seq<u8> {
    seq![0x30, 0x0a, 0x06, 0x08, 0x2a, 0x86, 0x48, 0xce, 0x3d, 0x04, 0x03, 0x02]
}

/// Whether a signed request is for a public key and holds nothing besides: it
/// says the key, and then there is only the signature, which for a key on the
/// curve P-256 takes at most 72 bytes.
pub open spec fn request_for(der: Seq<u8>, public_key: Seq<u8>, p256: bool) -> bool {
    exists|algorithm: Seq<u8>, signature: Seq<u8>|
        {
            &&& der == #[trigger] signed_request(
                anonymous_request(public_key),
                algorithm,
                signature,
            )
            &&& p256 ==> algorithm == p256_signing() && signature.len() <= 72
        }
}

/// `rcgen::CertificateParams::serialize_request` signs a request with the key
/// and hands out its DER, or says why it cannot. With parameters that hold no
/// subject and ask for no extension, the request says nothing but the key. The
/// signature draws on chance, so nothing is claimed of its bytes, nor of when it
/// can be made.
#[verifier::external_body]
fn serialize_request(params: &rcgen::CertificateParams, key: &rcgen::KeyPair) -> (r: Result<
    Vec<u8>,
    String,
>)
    requires
        subject_attributes(*params) == 0,
        asked_extensions(*params) == 0,
    ensures
        r matches Ok(der) ==> request_for(
            der@,
            public_key(*key),
            p256_document(key_document(*key)),
        ),
{
    params.serialize_request(key).map(|csr| csr.der().to_vec()).map_err(|e| e.to_string())
}

/// `rustls::RootCertStore::empty` makes a store that holds nothing.
pub assume_specification[ rustls::RootCertStore::empty ]() -> (r: rustls::RootCertStore)
    ensures
        anchors(r) == Seq::<(Seq<u8>, Seq<u8>, Option<Seq<u8>>)>::empty(),
;

/// `rustls::RootCertStore::add` adds the trust anchor of a certificate at the
/// end, or leaves the store as it is and says why the certificate is not one.
#[verifier::external_body]
fn add_root(store: &mut rustls::RootCertStore, der: &Vec<u8>) -> (r: Result<(), String>)
    ensures
        match trust_anchor(der@) {
            Ok(anchor) => r is Ok && anchors(*final(store)) == anchors(*old(store)).push(anchor),
            Err(why) => (r matches Err(e) && e@ == why) && anchors(*final(store)) == anchors(
                *old(store),
            ),
        },
{
    store.add(rustls::pki_types::CertificateDer::from(der.as_slice())).map_err(|e| e.to_string())
}

/// What some PEM sections hold.
pub open spec fn section_models(sections: Seq<Result<Vec<u8>, String>>) -> Seq<
    Result<Seq<u8>, Seq<char>>,
> {
    sections.map_values(
        |s: Result<Vec<u8>, String>|
            match s {
                Ok(der) => Ok::<Seq<u8>, Seq<char>>(der@),
                Err(why) => Err::<Seq<u8>, Seq<char>>(why@),
            },
    )
}

/// `rustls_pemfile::certs` reads the certificates out of a PEM text. What it
/// finds is a function of the text.
#[verifier::external_body]
fn pem_certs(pem: &str) -> (r: Vec<Result<Vec<u8>, String>>)
    ensures
        section_models(r@) == pem_sections(pem@),
{
    rustls_pemfile::certs(&mut pem.as_bytes()).map(
        |c| c.map(|der| der.to_vec()).map_err(|e| e.to_string()),
    ).collect()
}

/// `ServerName::try_from` makes a server name of a text that is a DNS name or an
/// address, and nothing of another. What it makes is a function of the text.
#[verifier::external_body]
fn parse_server_name(name: String) -> (r: Option<rustls::pki_types::ServerName<'static>>)
    ensures
        r == server_name_of(name@),
{
    rustls::pki_types::ServerName::try_from(name).ok()
}

/// The format of a private key.
#[derive(Clone, Copy, Debug, PartialEq, Eq, Structural)]
pub enum KeyFormat {
    Pkcs1,
    Sec1,
    Pkcs8,
}

/// The format that a private key's first bytes tell: a version and then a
/// sequence, or a version of zero, or a version of one.
pub open spec fn key_format(der: Seq<u8>) -> Option<KeyFormat> {
    match sequence_body(der) {
        None => None,
        Some(body) => if body.len() >= 4 && body[0] == 0x02 && body[1] == 0x01 && body[3] == 0x30 {
            Some(KeyFormat::Pkcs8)
        } else if body.len() >= 3 && body[0] == 0x02 && body[1] == 0x01 && body[2] == 0x00 {
            Some(KeyFormat::Pkcs1)
        } else if body.len() >= 3 && body[0] == 0x02 && body[1] == 0x01 && body[2] == 0x01 {
            Some(KeyFormat::Sec1)
        } else {
            None
        },
    }
}

/// A PKCS#8 document for a key on the curve P-256 is told by its first bytes.
proof fn lemma_p256_format(der: Seq<u8>)
    requires
        p256_document(der),
    ensures
        key_format(der) == Some(KeyFormat::Pkcs8),
{
    let body = sequence_body(der)->0;
    let start = p256_start();
    assert(body.subrange(0, start.len() as int) == start);
    assert(body[0] == start[0] && body[1] == start[1] && body[3] == start[3]);
}

/// `PrivateKeyDer::try_from` tells the format of a private key by its first
/// bytes and keeps all of them, or says that it knows no such format.
#[verifier::external_body]
fn parse_key(der: Vec<u8>) -> (r: Result<rustls::pki_types::PrivateKeyDer<'static>, String>)
    ensures
        match key_format(der@) {
            Some(format) => r matches Ok(key) && private_key(key) == (format, der@),
            None => r matches Err(why) && why@ == "unknown or invalid key format"@,
        },
{
    rustls::pki_types::PrivateKeyDer::try_from(der).map_err(|e| e.to_owned())
}

/// `PrivateKeyDer::clone_key` makes another copy of a private key.
#[verifier::external_body]
fn copy_key(key: &rustls::pki_types::PrivateKeyDer<'static>) -> (r:
    rustls::pki_types::PrivateKeyDer<'static>)
    ensures
        private_key(r) == private_key(*key),
{
    key.clone_key()
}

/// Why there is no certificate, or no connection.
#[derive(Debug, PartialEq, Eq)]
pub enum EnrolError {
    Key(String),
    Token(String),
    Trust(String),
    Dial { addr: String, source: String },
    Refused(String),
    Unusable(String),
    Transport(String),
}

/// The words of an error.
pub open spec fn words_of(e: EnrolError) -> Seq<char> {
    match e {
        EnrolError::Key(why) => "generating a key: "@ + why@,
        EnrolError::Token(why) => "no enrolment token: "@ + why@,
        EnrolError::Trust(why) => "trusting the relay: "@ + why@,
        EnrolError::Dial { addr, source } => "reaching "@ + addr@ + ": "@ + source@,
        EnrolError::Refused(why) => "the relay refused: "@ + why@,
        EnrolError::Unusable(why) => "the relay's answer was unusable: "@ + why@,
        EnrolError::Transport(why) => why@,
    }
}

impl EnrolError {
    /// The error in words.
    pub fn describe(&self) -> (r: String)
        ensures
            r@ == words_of(*self),
    {
        match self {
            EnrolError::Key(why) => text::join("generating a key: ", why.as_str()),
            EnrolError::Token(why) => text::join("no enrolment token: ", why.as_str()),
            EnrolError::Trust(why) => text::join("trusting the relay: ", why.as_str()),
            EnrolError::Dial { addr, source } => {
                let mut out = text::join("reaching ", addr.as_str());
                out.append(": ");
                out.append(source.as_str());
                out
            },
            EnrolError::Refused(why) => text::join("the relay refused: ", why.as_str()),
            EnrolError::Unusable(why) => text::join(
                "the relay's answer was unusable: ",
                why.as_str(),
            ),
            EnrolError::Transport(why) => why.clone(),
        }
    }
}

/// A certificate and the key it belongs to, plus the roots to trust from now on.
pub struct Identity {
    pub chain: Vec<Vec<u8>>,
    pub key: rustls::pki_types::PrivateKeyDer<'static>,
    pub roots: Vec<Vec<u8>>,
    pub spiffe_id: String,
    pub relay_endpoints: Vec<String>,
}

impl Identity {
    /// Another copy of the key.
    pub fn key_clone(&self) -> (r: rustls::pki_types::PrivateKeyDer<'static>)
        ensures
            private_key(r) == private_key(self.key),
    {
        copy_key(&self.key)
    }
}

/// What is known before there is an identity.
pub struct Bootstrap<'a> {
    pub relay_addr: &'a str,
    pub server_name: &'a str,
    /// The roots that vouch for the relay before enrolment has happened.
    pub roots_pem: &'a str,
    pub token: &'a str,
    pub build: ConnectorBuild,
}

/// What follows from whether something for which a key is needed could be made.
pub fn key_outcome<T>(made: Result<T, String>) -> (r: Result<T, EnrolError>)
    ensures
        r == match made {
            Ok(value) => Ok::<T, EnrolError>(value),
            Err(why) => Err::<T, EnrolError>(EnrolError::Key(why)),
        },
{
    match made {
        Ok(value) => Ok(value),
        Err(why) => Err(EnrolError::Key(why)),
    }
}

/// A new private key, on the curve P-256. Its document is one that an identity
/// can be made with.
pub fn new_key() -> (r: Result<rcgen::KeyPair, EnrolError>)
    ensures
        r matches Ok(key) ==> p256_document(key_document(key)) && key_format(key_document(key))
            == Some(KeyFormat::Pkcs8),
        r matches Err(e) ==> e is Key,
{
    let made = generate();
    proof {
        if made is Ok {
            lemma_p256_format(key_document(made->Ok_0));
        }
    }
    key_outcome(made)
}

/// What a certificate is asked for with: no subject, no subject alternative
/// names, and no extension at all. The connector does not know which identity it
/// will be given.
pub fn request_params() -> (r: Result<rcgen::CertificateParams, EnrolError>)
    ensures
        r matches Ok(p) && alternative_names(p) == 0 && subject_attributes(p) == 0
            && asked_extensions(p) == 0,
{
    match key_outcome(params_with(Vec::new())) {
        Ok(mut params) => {
            set_subject(&mut params, rcgen::DistinguishedName::new());
            Ok(params)
        },
        Err(e) => Err(e),
    }
}

/// A signed request for a certificate for `key`, in DER. It names no identity:
/// what it says is the public key, and nothing follows but the signature.
pub fn certificate_request(key: &rcgen::KeyPair) -> (r: Result<Vec<u8>, EnrolError>)
    ensures
        r matches Ok(der) ==> request_for(
            der@,
            public_key(*key),
            p256_document(key_document(*key)),
        ),
        r matches Err(e) ==> e is Key,
{
    match request_params() {
        Ok(params) => key_outcome(serialize_request(&params, key)),
        Err(e) => Err(e),
    }
}

/// What the relay is asked.
pub fn enroll_request(b: Bootstrap<'_>, csr_der: Vec<u8>) -> (r: EnrollRequest)
    ensures
        r.enrollment_token@ == b.token@,
        r.csr_der == csr_der,
        r.build == Some(b.build),
{
    EnrollRequest { enrollment_token: b.token.to_owned(), csr_der, build: Some(b.build) }
}

/// The identity that the relay issued, with the key of which `key_der` is the
/// document.
pub fn identity_of(issued: EnrollResponse, key_der: Vec<u8>) -> (r: Result<Identity, EnrolError>)
    ensures
        issued.cert_chain_der@.len() == 0 ==> (r matches Err(EnrolError::Unusable(why)) && why@
            == "no certificate was returned"@),
        issued.cert_chain_der@.len() > 0 && key_format(key_der@) is None ==> (r matches Err(
            EnrolError::Key(why),
        ) && why@ == "unknown or invalid key format"@),
        issued.cert_chain_der@.len() > 0 ==> (key_format(key_der@) matches Some(format) ==> {
            &&& r matches Ok(id)
            &&& id.chain == issued.cert_chain_der
            &&& private_key(id.key) == (format, key_der@)
            &&& id.roots == issued.trust_bundle_der
            &&& id.spiffe_id == issued.spiffe_id
            &&& id.relay_endpoints == issued.relay_endpoints
        }),
{
    if issued.cert_chain_der.len() == 0 {
        return Err(EnrolError::Unusable("no certificate was returned".to_owned()));
    }
    let key = match parse_key(key_der) {
        Ok(key) => key,
        Err(why) => {
            return Err(EnrolError::Key(why));
        },
    };
    Ok(
        Identity {
            chain: issued.cert_chain_der,
            key,
            roots: issued.trust_bundle_der,
            spiffe_id: issued.spiffe_id,
            relay_endpoints: issued.relay_endpoints,
        },
    )
}

/// The identity that the relay issued for a key.
pub fn identity_for(issued: EnrollResponse, key: &rcgen::KeyPair) -> (r: Result<
    Identity,
    EnrolError,
>)
    ensures
        r is Ok <==> issued.cert_chain_der@.len() > 0 && key_format(key_document(*key)) is Some,
        r matches Ok(id) ==> {
            &&& id.chain == issued.cert_chain_der
            &&& private_key(id.key).1 == key_document(*key)
            &&& Some(private_key(id.key).0) == key_format(key_document(*key))
            &&& id.roots == issued.trust_bundle_der
            &&& id.spiffe_id == issued.spiffe_id
            &&& id.relay_endpoints == issued.relay_endpoints
        },
        r matches Err(e) ==> (if issued.cert_chain_der@.len() == 0 {
            e matches EnrolError::Unusable(why) && why@ == "no certificate was returned"@
        } else {
            e matches EnrolError::Key(why) && why@ == "unknown or invalid key format"@
        }),
{
    identity_of(issued, key.serialize_der())
}

/// The trust anchors of some PEM sections, all of them, or why the first section
/// that is not one is not.
pub open spec fn anchors_of(sections: Seq<Result<Seq<u8>, Seq<char>>>) -> Result<
    Seq<(Seq<u8>, Seq<u8>, Option<Seq<u8>>)>,
    Seq<char>,
>
    decreases sections.len(),
{
    if sections.len() == 0 {
        Ok(Seq::empty())
    } else {
        match anchors_of(sections.drop_last()) {
            Err(why) => Err(why),
            Ok(before) => match sections.last() {
                Err(why) => Err(why),
                Ok(der) => match trust_anchor(der) {
                    Err(why) => Err(why),
                    Ok(anchor) => Ok(before.push(anchor)),
                },
            },
        }
    }
}

/// The trust anchors of those certificates that are one.
pub open spec fn parsable_anchors(ders: Seq<Seq<u8>>) -> Seq<
    (Seq<u8>, Seq<u8>, Option<Seq<u8>>),
>
    decreases ders.len(),
{
    if ders.len() == 0 {
        Seq::empty()
    } else {
        let before = parsable_anchors(ders.drop_last());
        match trust_anchor(ders.last()) {
            Ok(anchor) => before.push(anchor),
            Err(_) => before,
        }
    }
}

/// The bytes of some certificates.
pub open spec fn der_bytes(ders: Seq<Vec<u8>>) -> Seq<Seq<u8>> {
    ders.map_values(|d: Vec<u8>| d@)
}

/// The roots that an identity brings along.
pub open spec fn identity_roots(identity: Option<&Identity>) -> Seq<Seq<u8>> {
    match identity {
        Some(id) => der_bytes(id.roots@),
        None => Seq::empty(),
    }
}

/// Where a prefix of the sections fails, all of them fail, for the same reason.
proof fn lemma_first_failure(sections: Seq<Result<Seq<u8>, Seq<char>>>, n: int)
    requires
        0 <= n <= sections.len(),
        anchors_of(sections.take(n)) is Err,
    ensures
        anchors_of(sections) == anchors_of(sections.take(n)),
    decreases sections.len() - n,
{
    if n == sections.len() {
        assert(sections.take(n) == sections);
    } else {
        assert(sections.take(n + 1).drop_last() == sections.take(n));
        lemma_first_failure(sections, n + 1);
    }
}

/// The roots to trust: every certificate of `sections`, each of which must be
/// one, and those of an identity that are.
pub fn trust(sections: Vec<Result<Vec<u8>, String>>, identity: Option<&Identity>) -> (r: Result<
    rustls::RootCertStore,
    EnrolError,
>)
    ensures
        match anchors_of(section_models(sections@)) {
            Ok(given) => r matches Ok(store) && anchors(store) == given + parsable_anchors(
                identity_roots(identity),
            ),
            Err(why) => r matches Err(EnrolError::Trust(e)) && e@ == why,
        },
{
    let mut store = rustls::RootCertStore::empty();
    let ghost all = section_models(sections@);
    assert(all.take(0) == Seq::<Result<Seq<u8>, Seq<char>>>::empty());
    for section in it: sections
        invariant
            it.seq() == sections@,
            all == section_models(sections@),
            anchors_of(all.take(it.index())) == Ok::<
                Seq<(Seq<u8>, Seq<u8>, Option<Seq<u8>>)>,
                Seq<char>,
            >(anchors(store)),
    {
        let ghost at = it.index();
        assert(all.take(at + 1).drop_last() == all.take(at));
        assert(all.take(at + 1).last() == all[at]);
        match section {
            Ok(der) => {
                assert(all[at] == Ok::<Seq<u8>, Seq<char>>(der@));
                match add_root(&mut store, &der) {
                    Ok(_) => {},
                    Err(why) => {
                        proof {
                            lemma_first_failure(all, at + 1);
                        }
                        return Err(EnrolError::Trust(why));
                    },
                }
            },
            Err(why) => {
                assert(all[at] == Err::<Seq<u8>, Seq<char>>(why@));
                proof {
                    lemma_first_failure(all, at + 1);
                }
                return Err(EnrolError::Trust(why));
            },
        }
    }
    assert(all.take(all.len() as int) == all);
    let ghost given = anchors(store);
    let ghost own = identity_roots(identity);
    if let Some(id) = identity {
        let n: usize = id.roots.len();
        let mut i: usize = 0;
        assert(own.take(0) == Seq::<Seq<u8>>::empty());
        assert(given + parsable_anchors(own.take(0)) == given);
        while i < n
            invariant
                i <= n,
                n == id.roots@.len(),
                own == der_bytes(id.roots@),
                anchors(store) == given + parsable_anchors(own.take(i as int)),
            decreases n - i,
        {
            assert(own.take(i + 1).drop_last() == own.take(i as int));
            assert(own.take(i + 1).last() == id.roots@[i as int]@);
            let ghost before = anchors(store);
            let _ = add_root(&mut store, &id.roots[i]);
            assert(anchors(store) == given + parsable_anchors(own.take(i + 1)));
            i = i + 1;
        }
        assert(own.take(n as int) == own);
    } else {
        assert(given + parsable_anchors(own) == given);
    }
    Ok(store)
}

/// The roots to trust when the relay is dialled: those of a PEM text, and those
/// that the identity brought along.
pub fn trust_roots(roots_pem: &str, identity: Option<&Identity>) -> (r: Result<
    rustls::RootCertStore,
    EnrolError,
>)
    ensures
        match anchors_of(pem_sections(roots_pem@)) {
            Ok(given) => r matches Ok(store) && anchors(store) == given + parsable_anchors(
                identity_roots(identity),
            ),
            Err(why) => r matches Err(EnrolError::Trust(e)) && e@ == why,
        },
{
    trust(pem_certs(roots_pem), identity)
}

/// What follows from whether a text is a server name.
pub fn checked_name(
    parsed: Option<rustls::pki_types::ServerName<'static>>,
    server_name: &str,
) -> (r: Result<rustls::pki_types::ServerName<'static>, EnrolError>)
    ensures
        match parsed {
            Some(name) => r == Ok::<rustls::pki_types::ServerName<'static>, EnrolError>(name),
            None => r matches Err(EnrolError::Trust(why)) && why@ == server_name@
                + " is not a valid server name"@,
        },
{
    match parsed {
        Some(name) => Ok(name),
        None => Err(EnrolError::Trust(text::join(server_name, " is not a valid server name"))),
    }
}

/// The name that the relay's certificate must have.
pub fn relay_name(server_name: &str) -> (r: Result<
    rustls::pki_types::ServerName<'static>,
    EnrolError,
>)
    ensures
        match server_name_of(server_name@) {
            Some(name) => r == Ok::<rustls::pki_types::ServerName<'static>, EnrolError>(name),
            None => r matches Err(EnrolError::Trust(why)) && why@ == server_name@
                + " is not a valid server name"@,
        },
{
    checked_name(parse_server_name(server_name.to_owned()), server_name)
}

/// The one application protocol that is offered, HTTP/2.
pub fn alpn_protocols() -> (r: Vec<Vec<u8>>)
    ensures
        der_bytes(r@) == seq![seq![0x68u8, 0x32u8]],
{
    let mut h2: Vec<u8> = Vec::new();
    h2.push(0x68);
    h2.push(0x32);
    let mut out: Vec<Vec<u8>> = Vec::new();
    out.push(h2);
    assert(h2@ == seq![0x68u8, 0x32u8]);
    out
}

/// What is presented to the relay: the certificate and its key, once there is
/// one.
pub open spec fn credentials(identity: Option<&Identity>) -> Option<
    (Seq<Seq<u8>>, (KeyFormat, Seq<u8>)),
> {
    match identity {
        Some(id) => Some((der_bytes(id.chain@), private_key(id.key))),
        None => None,
    }
}

/// What is presented to the relay: the certificate and its key, once there is
/// one.
pub fn client_auth(identity: Option<&Identity>) -> (r: Option<
    (Vec<Vec<u8>>, rustls::pki_types::PrivateKeyDer<'static>),
>)
    ensures
        match r {
            Some(auth) => credentials(identity) == Some(
                (der_bytes(auth.0@), private_key(auth.1)),
            ),
            None => credentials(identity) is None,
        },
{
    match identity {
        Some(id) => {
            let mut chain: Vec<Vec<u8>> = Vec::new();
            let n: usize = id.chain.len();
            let mut i: usize = 0;
            while i < n
                invariant
                    i <= n,
                    n == id.chain@.len(),
                    der_bytes(chain@) == der_bytes(id.chain@).take(i as int),
                decreases n - i,
            {
                let der = id.chain[i].clone();
                assert(der@ == id.chain@[i as int]@);
                let ghost before = chain@;
                assert(der_bytes(before.push(der)) == der_bytes(before).push(der@));
                chain.push(der);
                assert(der_bytes(id.chain@).take(i + 1) == der_bytes(id.chain@).take(
                    i as int,
                ).push(der@));
                i = i + 1;
            }
            assert(der_bytes(id.chain@).take(n as int) == der_bytes(id.chain@));
            Some((chain, id.key_clone()))
        },
        None => None,
    }
}

/// `rustls::ClientConfig::builder_with_provider`, with ring's cryptography and
/// the default versions of TLS, and then `with_root_certificates` and
/// `with_no_client_auth`: servers are checked against the roots and presented
/// with nothing. ring supports both default versions, so this does not fail.
#[verifier::external_body]
fn config_without_certificate(roots: rustls::RootCertStore) -> (r: Result<
    rustls::ClientConfig,
    String,
>)
    ensures
        r is Ok,
        r matches Ok(config) ==> vouching(config) == anchors(roots) && presented(config) is None,
{
    let provider = std::sync::Arc::new(rustls::crypto::ring::default_provider());
    rustls::ClientConfig::builder_with_provider(provider).with_safe_default_protocol_versions().map(
        |b| b.with_root_certificates(roots).with_no_client_auth(),
    ).map_err(|e| e.to_string())
}

/// The same, with `with_client_auth_cert`: servers are checked against the roots
/// and presented with the chain and the key, or it says why those will not do.
/// When they will is not claimed: reading the key draws on chance.
#[verifier::external_body]
fn config_with_certificate(
    roots: rustls::RootCertStore,
    chain: Vec<Vec<u8>>,
    key: rustls::pki_types::PrivateKeyDer<'static>,
) -> (r: Result<rustls::ClientConfig, String>)
    ensures
        r matches Ok(config) ==> vouching(config) == anchors(roots) && presented(config) == Some(
            (der_bytes(chain@), private_key(key)),
        ),
{
    let provider = std::sync::Arc::new(rustls::crypto::ring::default_provider());
    let chain = chain.into_iter().map(rustls::pki_types::CertificateDer::from).collect();
    rustls::ClientConfig::builder_with_provider(provider).with_safe_default_protocol_versions()
        .and_then(|b| b.with_root_certificates(roots).with_client_auth_cert(chain, key))
        .map_err(|e| e.to_string())
}

/// Sets the field `alpn_protocols` of `rustls::ClientConfig`, which is what a
/// server is offered; every other field stays as it is.
#[verifier::external_body]
fn set_offer(config: &mut rustls::ClientConfig, protocols: Vec<Vec<u8>>)
    ensures
        offered(*final(config)) == der_bytes(protocols@),
        vouching(*final(config)) == vouching(*old(config)),
        presented(*final(config)) == presented(*old(config)),
{
    config.alpn_protocols = protocols;
}

/// What follows from whether a way to dial the relay could be set up: where it
/// could, the relay is offered HTTP/2 as well.
pub fn offering_http2(made: Result<rustls::ClientConfig, String>) -> (r: Result<
    rustls::ClientConfig,
    EnrolError,
>)
    ensures
        match made {
            Ok(config) => {
                &&& r matches Ok(o)
                &&& vouching(o) == vouching(config)
                &&& presented(o) == presented(config)
                &&& offered(o) == seq![seq![0x68u8, 0x32u8]]
            },
            Err(why) => r == Err::<rustls::ClientConfig, EnrolError>(EnrolError::Trust(why)),
        },
{
    match made {
        Ok(mut config) => {
            set_offer(&mut config, alpn_protocols());
            Ok(config)
        },
        Err(why) => Err(EnrolError::Trust(why)),
    }
}

/// How the relay is dialled: which roots vouch for it, what it is presented
/// with, and that it is offered HTTP/2. Without an identity only the roots can
/// fail.
pub fn client_config(roots_pem: &str, identity: Option<&Identity>) -> (r: Result<
    rustls::ClientConfig,
    EnrolError,
>)
    ensures
        match anchors_of(pem_sections(roots_pem@)) {
            Ok(given) => {
                &&& r matches Ok(config) ==> {
                    &&& vouching(config) == given + parsable_anchors(identity_roots(identity))
                    &&& presented(config) == credentials(identity)
                    &&& offered(config) == seq![seq![0x68u8, 0x32u8]]
                }
                &&& r matches Err(e) ==> e is Trust
                &&& identity is None ==> r is Ok
            },
            Err(why) => r matches Err(EnrolError::Trust(e)) && e@ == why,
        },
{
    let roots = match trust_roots(roots_pem, identity) {
        Ok(roots) => roots,
        Err(e) => {
            return Err(e);
        },
    };
    offering_http2(
        match client_auth(identity) {
            Some((chain, key)) => config_with_certificate(roots, chain, key),
            None => config_without_certificate(roots),
        },
    )
}

} // verus!
