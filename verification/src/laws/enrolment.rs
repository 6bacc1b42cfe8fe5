//! Laws of enrolment: what the relay is asked and shown, what is kept of its
//! answer, and who vouches for it.

use crate::enrol;
use crate::enrol::{Bootstrap, EnrolError, Identity, KeyFormat};
use crate::pb::{EnrollRequest, EnrollResponse};
use vstd::prelude::*;

verus! {

/// An error says what failed and why.
pub proof fn law_an_error_says_what_failed(e: &EnrolError, r: String)
    requires
        call_ensures(EnrolError::describe, (e,), r),
    ensures
        *e matches EnrolError::Key(why) ==> r@ == "generating a key: "@ + why@,
        *e matches EnrolError::Token(why) ==> r@ == "no enrolment token: "@ + why@,
        *e matches EnrolError::Trust(why) ==> r@ == "trusting the relay: "@ + why@,
        *e matches EnrolError::Dial { addr, source } ==> r@ == "reaching "@ + addr@ + ": "@
            + source@,
        *e matches EnrolError::Refused(why) ==> r@ == "the relay refused: "@ + why@,
        *e matches EnrolError::Unusable(why) ==> r@ == "the relay's answer was unusable: "@ + why@,
        *e matches EnrolError::Transport(why) ==> r@ == why@,
{
}

/// A new key is told by its document to be one on the curve P-256, in the format
/// that an identity can be made with; only the making of it can fail.
pub proof fn law_a_new_key_can_be_used(r: Result<rcgen::KeyPair, EnrolError>)
    requires
        call_ensures(enrol::new_key, (), r),
    ensures
        r matches Ok(key) ==> enrol::key_format(enrol::key_document(key)) == Some(
            KeyFormat::Pkcs8,
        ),
        r matches Err(e) ==> e is Key,
{
}

/// What is made with a key is handed on, and why it is not is a key error.
pub proof fn law_a_key_failure_keeps_its_reason<T>(
    made: Result<T, String>,
    r: Result<T, EnrolError>,
)
    requires
        call_ensures(enrol::key_outcome::<T>, (made,), r),
    ensures
        made matches Ok(value) ==> (r matches Ok(v) && v == value),
        made matches Err(why) ==> (r matches Err(EnrolError::Key(w)) && w@ == why@),
{
}

/// A certificate is asked for without a subject, names or extensions.
pub proof fn law_no_identity_is_asked_for(r: Result<rcgen::CertificateParams, EnrolError>)
    requires
        call_ensures(enrol::request_params, (), r),
    ensures
        r matches Ok(p) && enrol::subject_attributes(p) == 0 && enrol::alternative_names(p) == 0
            && enrol::asked_extensions(p) == 0,
{
}

/// Whether the public key stands in a request at `at`: between a subject that is
/// empty and extensions of which there are none. For a key on the curve P-256 at
/// most 87 bytes follow, which are the algorithm and the signature.
pub open spec fn holds_key_at(der: Seq<u8>, public_key: Seq<u8>, p256: bool, at: int) -> bool {
    &&& 5 <= at
    &&& at + public_key.len() + 2 <= der.len()
    &&& der.subrange(at, at + public_key.len()) == public_key
    &&& der[at - 5] == 0x02 && der[at - 4] == 0x01 && der[at - 3] == 0x00
    &&& der[at - 2] == 0x30 && der[at - 1] == 0x00
    &&& der[at + public_key.len()] == 0xa0 && der[at + public_key.len() + 1] == 0x00
    &&& p256 ==> der.len() - (at + public_key.len() + 2) <= 87
}

/// A request is for the public key of the key, and names no identity. After the
/// key there is no room for anything but the signature.
pub proof fn law_a_request_is_for_the_key(key: &rcgen::KeyPair, r: Result<Vec<u8>, EnrolError>)
    requires
        call_ensures(enrol::certificate_request, (key,), r),
    ensures
        r matches Ok(der) ==> exists|at: int|
            #[trigger] holds_key_at(
                der@,
                enrol::public_key(*key),
                enrol::p256_document(enrol::key_document(*key)),
                at,
            ),
        r matches Err(e) ==> e is Key,
{
    if let Ok(der) = r {
        let public_key = enrol::public_key(*key);
        let p256 = enrol::p256_document(enrol::key_document(*key));
        let info = enrol::anonymous_request(public_key);
        let (algorithm, signature) = choose|algorithm: Seq<u8>, signature: Seq<u8>|
            {
                &&& der@ == #[trigger] enrol::signed_request(info, algorithm, signature)
                &&& p256 ==> algorithm == enrol::p256_signing() && signature.len() <= 72
            };
        let at = lemma_request_holds_key(public_key, p256, algorithm, signature);
        assert(holds_key_at(der@, public_key, p256, at));
    }
}

/// A signed request is some bytes, what it says, and the algorithm with the
/// signature.
proof fn lemma_signed_request(info: Seq<u8>, algorithm: Seq<u8>, signature: Seq<u8>) -> (head: Seq<
    u8,
>)
    ensures
        enrol::signed_request(info, algorithm, signature) == head + info + (algorithm
            + enrol::der_value(0x03, seq![0x00u8] + signature)),
{
    let bits = enrol::der_value(0x03, seq![0x00u8] + signature);
    let body = enrol::der_value(0x30, info) + algorithm + bits;
    let head = seq![0x30u8] + enrol::der_length(body.len()) + (seq![0x30u8] + enrol::der_length(
        info.len(),
    ));
    assert(enrol::signed_request(info, algorithm, signature) == head + info + (algorithm + bits));
    head
}

proof fn lemma_request_holds_key(
    public_key: Seq<u8>,
    p256: bool,
    algorithm: Seq<u8>,
    signature: Seq<u8>,
) -> (at: int)
    requires
        p256 ==> algorithm == enrol::p256_signing() && signature.len() <= 72,
    ensures
        holds_key_at(
            enrol::signed_request(enrol::anonymous_request(public_key), algorithm, signature),
            public_key,
            p256,
            at,
        ),
{
    let info = enrol::anonymous_request(public_key);
    let bits = enrol::der_value(0x03, seq![0x00u8] + signature);
    let der = enrol::signed_request(info, algorithm, signature);
    let head = lemma_signed_request(info, algorithm, signature);
    let at = head.len() as int + 5;
    let n = public_key.len() as int;
    assert(info.len() == n + 7);
    assert(der.subrange(head.len() as int, head.len() + n + 7) == info);
    assert(info.subrange(5, 5 + n) == public_key);
    assert(der.subrange(at, at + n) == info.subrange(5, 5 + n));
    assert(info[0] == 0x02 && info[1] == 0x01 && info[2] == 0x00 && info[3] == 0x30 && info[4]
        == 0x00);
    assert(info[5 + n] == 0xa0 && info[6 + n] == 0x00);
    if p256 {
        assert(enrol::p256_signing().len() == 12);
        assert(bits.len() == 3 + signature.len());
    }
    at
}

/// The relay is asked with the token, the request and the build.
pub proof fn law_the_relay_is_asked_with_all_it_needs(
    b: Bootstrap<'_>,
    csr_der: Vec<u8>,
    r: EnrollRequest,
)
    requires
        call_ensures(enrol::enroll_request, (b, csr_der), r),
    ensures
        r.enrollment_token@ == b.token@,
        r.csr_der@ == csr_der@,
        r.build matches Some(build) && build.version@ == b.build.version@ && build.git_sha@
            == b.build.git_sha@ && build.platform@ == b.build.platform@ && build.k8s_version@
            == b.build.k8s_version@,
{
}

/// Whether an identity is what the relay issued, with a key of these bytes.
pub open spec fn keeps(id: Identity, issued: EnrollResponse, key_der: Seq<u8>) -> bool {
    &&& id.chain@ == issued.cert_chain_der@
    &&& id.roots@ == issued.trust_bundle_der@
    &&& id.spiffe_id@ == issued.spiffe_id@
    &&& id.relay_endpoints@ == issued.relay_endpoints@
    &&& enrol::private_key(id.key).1 == key_der
}

/// An identity keeps all that the relay issued, and the key. An answer without a
/// certificate is unusable, and a key of an unknown format is a key error.
pub proof fn law_an_identity_keeps_what_was_issued(
    issued: EnrollResponse,
    key_der: Vec<u8>,
    r: Result<Identity, EnrolError>,
    key: &rcgen::KeyPair,
    for_key: Result<Identity, EnrolError>,
)
    requires
        call_ensures(enrol::identity_of, (issued, key_der), r),
        call_ensures(enrol::identity_for, (issued, key), for_key),
    ensures
        issued.cert_chain_der@.len() == 0 ==> (r matches Err(EnrolError::Unusable(w)) && w@
            == "no certificate was returned"@),
        issued.cert_chain_der@.len() == 0 ==> (for_key matches Err(EnrolError::Unusable(w)) && w@
            == "no certificate was returned"@),
        issued.cert_chain_der@.len() > 0 ==> match r {
            Ok(id) => keeps(id, issued, key_der@) && enrol::key_format(key_der@) == Some(
                enrol::private_key(id.key).0,
            ),
            Err(e) => enrol::key_format(key_der@) is None && (e matches EnrolError::Key(w) && w@
                == "unknown or invalid key format"@),
        },
        issued.cert_chain_der@.len() > 0 ==> match for_key {
            Ok(id) => keeps(id, issued, enrol::key_document(*key)) && enrol::key_format(
                enrol::key_document(*key),
            ) == Some(enrol::private_key(id.key).0),
            Err(e) => enrol::key_format(enrol::key_document(*key)) is None && (
            e matches EnrolError::Key(w) && w@ == "unknown or invalid key format"@),
        },
{
}

/// The format of a key is told by what follows the length of its sequence, which
/// takes one byte or says how many follow it.
pub proof fn law_key_formats_are_told_by_their_first_bytes(der: Seq<u8>, skip: int)
    requires
        der.len() >= 2,
        skip == 2 && der[1] < 0x80 || skip == 2 + der[1] - 0x80 && der[1] >= 0x80,
    ensures
        der[0] != 0x30 ==> enrol::key_format(der) is None,
        der.len() < skip + 3 ==> enrol::key_format(der) is None,
        der[0] == 0x30 && der.len() >= skip + 3 ==> {
            &&& der[skip] != 0x02 || der[skip + 1] != 0x01 ==> enrol::key_format(der) is None
            &&& der[skip] == 0x02 && der[skip + 1] == 0x01 ==> {
                let nested = der.len() >= skip + 4 && der[skip + 3] == 0x30;
                &&& nested ==> enrol::key_format(der) == Some(KeyFormat::Pkcs8)
                &&& !nested && der[skip + 2] == 0x00 ==> enrol::key_format(der) == Some(
                    KeyFormat::Pkcs1,
                )
                &&& !nested && der[skip + 2] == 0x01 ==> enrol::key_format(der) == Some(
                    KeyFormat::Sec1,
                )
                &&& !nested && der[skip + 2] > 0x01 ==> enrol::key_format(der) is None
            }
        },
{
    if der[0] == 0x30 && der.len() >= skip {
        let body = der.skip(skip);
        assert(enrol::sequence_body(der) == Some(body));
        assert(forall|i: int| 0 <= i < body.len() ==> (#[trigger] body[i]) == der[skip + i]);
        if body.len() >= 3 {
            assert(body[0] == der[skip] && body[1] == der[skip + 1] && body[2] == der[skip + 2]);
        }
    }
}

/// A copy of the key of an identity is the key.
pub proof fn law_a_copied_key_is_the_key(
    id: &Identity,
    r: rustls::pki_types::PrivateKeyDer<'static>,
)
    requires
        call_ensures(Identity::key_clone, (id,), r),
    ensures
        enrol::private_key(r) == enrol::private_key(id.key),
{
}

/// The first failure among sections is at `k`: those before it are certificates
/// that vouch, and this one is none, for the reason `why`.
pub open spec fn fails_first_at(
    sections: Seq<Result<Vec<u8>, String>>,
    k: int,
    why: Seq<char>,
) -> bool {
    &&& 0 <= k < sections.len()
    &&& forall|i: int|
        0 <= i < k ==> ((#[trigger] sections[i]) matches Ok(der) && enrol::trust_anchor(der@) is Ok)
    &&& match sections[k] {
        Ok(der) => enrol::trust_anchor(der@) == Err::<
            (Seq<u8>, Seq<u8>, Option<Seq<u8>>),
            Seq<char>,
        >(why),
        Err(e) => e@ == why,
    }
}

proof fn lemma_anchors(sections: Seq<Result<Vec<u8>, String>>)
    ensures
        match enrol::anchors_of(enrol::section_models(sections)) {
            Ok(given) => {
                &&& given.len() == sections.len()
                &&& forall|i: int|
                    0 <= i < sections.len() ==> ((#[trigger] sections[i]) matches Ok(der)
                        && enrol::trust_anchor(der@) == Ok::<
                        (Seq<u8>, Seq<u8>, Option<Seq<u8>>),
                        Seq<char>,
                    >(given[i]))
            },
            Err(why) => exists|k: int| #[trigger] fails_first_at(sections, k, why),
        },
    decreases sections.len(),
{
    let models = enrol::section_models(sections);
    assert(models.len() == sections.len());
    if sections.len() > 0 {
        let rest = sections.drop_last();
        let last = sections.len() - 1;
        lemma_anchors(rest);
        assert(models.drop_last() == enrol::section_models(rest));
        match enrol::anchors_of(models.drop_last()) {
            Err(why) => {
                let k = choose|k: int| #[trigger] fails_first_at(rest, k, why);
                assert forall|i: int| 0 <= i < k implies ((#[trigger] sections[i]) matches Ok(der)
                    && enrol::trust_anchor(der@) is Ok) by {
                    assert(rest[i] == sections[i]);
                }
                assert(rest[k] == sections[k]);
                assert(fails_first_at(sections, k, why));
            },
            Ok(before) => {
                assert forall|i: int| 0 <= i < last implies ((#[trigger] sections[i]) matches Ok(
                    der,
                ) && enrol::trust_anchor(der@) == Ok::<
                    (Seq<u8>, Seq<u8>, Option<Seq<u8>>),
                    Seq<char>,
                >(before[i])) by {
                    assert(rest[i] == sections[i]);
                }
                match enrol::anchors_of(models) {
                    Err(why) => {
                        assert(fails_first_at(sections, last, why));
                    },
                    Ok(given) => {
                        assert(given == before.push(given[last]));
                    },
                }
            },
        }
    }
}

/// Every certificate that is given vouches for the relay, in their order, and
/// without an identity no other does. Where one of them is none, nothing is
/// trusted, for the reason of the first.
pub proof fn law_every_root_that_is_given_vouches(
    sections: Vec<Result<Vec<u8>, String>>,
    identity: Option<&Identity>,
    r: Result<rustls::RootCertStore, EnrolError>,
)
    requires
        call_ensures(enrol::trust, (sections, identity), r),
    ensures
        match r {
            Ok(store) => {
                &&& enrol::anchors(store).len() >= sections@.len()
                &&& identity is None ==> enrol::anchors(store).len() == sections@.len()
                &&& forall|i: int|
                    0 <= i < sections@.len() ==> ((#[trigger] sections@[i]) matches Ok(der)
                        && enrol::trust_anchor(der@) == Ok::<
                        (Seq<u8>, Seq<u8>, Option<Seq<u8>>),
                        Seq<char>,
                    >(enrol::anchors(store)[i]))
            },
            Err(e) => {
                &&& e matches EnrolError::Trust(why)
                &&& exists|k: int| #[trigger] fails_first_at(sections@, k, why@)
            },
        },
{
    lemma_anchors(sections@);
}

/// A root that the identity has besides vouches as well, after the others, where
/// it can; where it cannot, it changes nothing. An identity without roots adds
/// none.
pub proof fn law_the_roots_of_an_identity_vouch_where_they_can(
    sections: Vec<Result<Vec<u8>, String>>,
    without: &Identity,
    with: &Identity,
    root: Vec<u8>,
    of_none: Result<rustls::RootCertStore, EnrolError>,
    of_without: Result<rustls::RootCertStore, EnrolError>,
    of_with: Result<rustls::RootCertStore, EnrolError>,
)
    requires
        call_ensures(enrol::trust, (sections, None), of_none),
        call_ensures(enrol::trust, (sections, Some(without)), of_without),
        call_ensures(enrol::trust, (sections, Some(with)), of_with),
        with.roots@ == without.roots@.push(root),
    ensures
        of_none is Ok <==> of_without is Ok,
        of_without is Ok <==> of_with is Ok,
        of_none is Ok && without.roots@.len() == 0 ==> enrol::anchors(of_without->Ok_0)
            == enrol::anchors(of_none->Ok_0),
        of_without is Ok ==> match enrol::trust_anchor(root@) {
            Ok(anchor) => enrol::anchors(of_with->Ok_0) == enrol::anchors(of_without->Ok_0).push(
                anchor,
            ),
            Err(_) => enrol::anchors(of_with->Ok_0) == enrol::anchors(of_without->Ok_0),
        },
{
    let (fewer, more) = (enrol::der_bytes(without.roots@), enrol::der_bytes(with.roots@));
    assert(more.drop_last() == fewer);
    assert(more.last() == root@);
    let given = enrol::anchors_of(enrol::section_models(sections@));
    if given is Ok {
        let g = given->Ok_0;
        let before = enrol::parsable_anchors(fewer);
        assert(enrol::parsable_anchors(more) == match enrol::trust_anchor(root@) {
            Ok(anchor) => before.push(anchor),
            Err(_) => before,
        });
        if let Ok(anchor) = enrol::trust_anchor(root@) {
            assert(g + before.push(anchor) == (g + before).push(anchor));
        }
        assert(enrol::identity_roots(None) == Seq::<Seq<u8>>::empty());
        assert(enrol::parsable_anchors(Seq::<Seq<u8>>::empty()).len() == 0);
        assert(enrol::anchors(of_none->Ok_0) == g + enrol::parsable_anchors(
            Seq::<Seq<u8>>::empty(),
        ));
        if without.roots@.len() == 0 {
            assert(fewer == Seq::<Seq<u8>>::empty());
        }
    }
}

/// The roots of a text are those of its sections.
pub proof fn law_the_roots_of_a_text_are_those_of_its_sections(
    roots_pem: &str,
    sections: Vec<Result<Vec<u8>, String>>,
    identity: Option<&Identity>,
    of_text: Result<rustls::RootCertStore, EnrolError>,
    of_sections: Result<rustls::RootCertStore, EnrolError>,
)
    requires
        enrol::section_models(sections@) == enrol::pem_sections(roots_pem@),
        call_ensures(enrol::trust_roots, (roots_pem, identity), of_text),
        call_ensures(enrol::trust, (sections, identity), of_sections),
    ensures
        match of_sections {
            Ok(store) => of_text matches Ok(s) && enrol::anchors(s) == enrol::anchors(store),
            Err(e) => {
                &&& e matches EnrolError::Trust(why)
                &&& of_text matches Err(EnrolError::Trust(w))
                &&& w@ == why@
            },
        },
{
}

/// The name of the relay is the one that the text stands for; a text that stands
/// for none is an error that says the text.
pub proof fn law_a_name_that_is_none_is_said(
    parsed: Option<rustls::pki_types::ServerName<'static>>,
    server_name: &str,
    r: Result<rustls::pki_types::ServerName<'static>, EnrolError>,
    of_text: Result<rustls::pki_types::ServerName<'static>, EnrolError>,
)
    requires
        call_ensures(enrol::checked_name, (parsed, server_name), r),
        call_ensures(enrol::relay_name, (server_name,), of_text),
    ensures
        parsed matches Some(name) ==> (r matches Ok(n) && n == name),
        parsed is None ==> (r matches Err(EnrolError::Trust(w)) && w@ == server_name@
            + " is not a valid server name"@),
        enrol::server_name_of(server_name@) matches Some(name) ==> (of_text matches Ok(n) && n
            == name),
        enrol::server_name_of(server_name@) is None ==> (of_text matches Err(EnrolError::Trust(w))
            && w@ == server_name@ + " is not a valid server name"@),
{
}

/// The relay is shown the whole chain, in its order, and the key; nothing without
/// an identity. It is offered HTTP/2 and nothing else.
pub proof fn law_the_relay_is_shown_the_chain_and_the_key(
    identity: Option<&Identity>,
    r: Option<(Vec<Vec<u8>>, rustls::pki_types::PrivateKeyDer<'static>)>,
    protocols: Vec<Vec<u8>>,
)
    requires
        call_ensures(enrol::client_auth, (identity,), r),
        call_ensures(enrol::alpn_protocols, (), protocols),
    ensures
        identity is None ==> r is None,
        identity matches Some(id) ==> {
            &&& r matches Some(shown)
            &&& shown.0@.len() == id.chain@.len()
            &&& forall|i: int| 0 <= i < id.chain@.len() ==> (#[trigger] shown.0@[i])@ == id.chain@[i]@
            &&& enrol::private_key(shown.1) == enrol::private_key(id.key)
        },
        protocols@.len() == 1,
        protocols@[0]@ == seq![0x68u8, 0x32u8],
{
    assert(enrol::der_bytes(protocols@).len() == protocols@.len());
    assert(enrol::der_bytes(protocols@)[0] == protocols@[0]@);
    if let Some(id) = identity {
        let shown = r->Some_0.0@;
        assert(enrol::der_bytes(shown) == enrol::der_bytes(id.chain@));
        assert(enrol::der_bytes(shown).len() == shown.len());
        assert(enrol::der_bytes(id.chain@).len() == id.chain@.len());
        assert forall|i: int| 0 <= i < id.chain@.len() implies (#[trigger] shown[i])@
            == id.chain@[i]@ by {
            assert(enrol::der_bytes(shown)[i] == shown[i]@);
            assert(enrol::der_bytes(id.chain@)[i] == id.chain@[i]@);
        }
    }
}

/// The relay is dialled with the roots that are trusted, the chain and the key of
/// the identity, and HTTP/2. Roots that are not trusted are the only reason not
/// to dial it without an identity, and every reason is one of trust.
pub proof fn law_the_relay_is_dialled_with_what_is_trusted(
    roots_pem: &str,
    identity: Option<&Identity>,
    r: Result<rustls::ClientConfig, EnrolError>,
    roots: Result<rustls::RootCertStore, EnrolError>,
)
    requires
        call_ensures(enrol::client_config, (roots_pem, identity), r),
        call_ensures(enrol::trust_roots, (roots_pem, identity), roots),
    ensures
        roots matches Err(e) ==> {
            &&& e matches EnrolError::Trust(why)
            &&& r matches Err(EnrolError::Trust(w))
            &&& w@ == why@
        },
        roots is Ok && identity is None ==> r is Ok,
        r matches Err(e) ==> e is Trust,
        r matches Ok(config) ==> {
            &&& roots matches Ok(store)
            &&& enrol::vouching(config) == enrol::anchors(store)
            &&& enrol::offered(config) == seq![seq![0x68u8, 0x32u8]]
            &&& match identity {
                None => enrol::presented(config) is None,
                Some(id) => {
                    &&& enrol::presented(config) matches Some(shown)
                    &&& shown.0.len() == id.chain@.len()
                    &&& forall|i: int|
                        0 <= i < id.chain@.len() ==> (#[trigger] shown.0[i]) == id.chain@[i]@
                    &&& shown.1 == enrol::private_key(id.key)
                },
            }
        },
{
    if let Some(id) = identity {
        assert(enrol::der_bytes(id.chain@).len() == id.chain@.len());
    }
}

/// A way to dial the relay keeps its roots and what it presents, and offers
/// HTTP/2; why there is none is told.
pub proof fn law_offering_http2_changes_nothing_else(
    made: Result<rustls::ClientConfig, String>,
    r: Result<rustls::ClientConfig, EnrolError>,
)
    requires
        call_ensures(enrol::offering_http2, (made,), r),
    ensures
        made matches Ok(config) ==> {
            &&& r matches Ok(o)
            &&& enrol::vouching(o) == enrol::vouching(config)
            &&& enrol::presented(o) == enrol::presented(config)
            &&& enrol::offered(o) == seq![seq![0x68u8, 0x32u8]]
        },
        made matches Err(why) ==> (r matches Err(EnrolError::Trust(w)) && w@ == why@),
{
}

} // verus!
