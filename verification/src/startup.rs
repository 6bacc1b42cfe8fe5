//! What the connector starts with: its settings, its token and its build.

use crate::enrol::EnrolError;
use crate::pb::{BuildModel, ConnectorBuild};
use crate::text;
use vstd::prelude::*;

verus! {

/// Where the connector listens when it has no relay to dial and is not told.
pub const DEFAULT_LISTEN: &'static str = "127.0.0.1:50051";

/// Where Prometheus is taken to be when the connector is not told.
pub const DEFAULT_PROMETHEUS: &'static str = "http://127.0.0.1:9090";

/// A setting, or its default where it is not set.
pub open spec fn setting(value: Option<String>, default: Seq<char>) -> Seq<char> {
    match value {
        Some(v) => v@,
        None => default,
    }
}

/// A setting, or its default where it is not set.
pub fn env_or(value: Option<String>, default: &str) -> (r: String)
    ensures
        r@ == setting(value, default@),
{
    match value {
        Some(v) => v,
        None => default.to_owned(),
    }
}

/// The host in an address: what stands in the brackets where the address begins
/// with one, and else what stands before the port.
pub open spec fn host_of(addr: Seq<char>) -> Seq<char> {
    if addr.len() > 0 && addr[0] == '[' {
        text::before(addr.drop_first(), ']')
    } else {
        text::before_last(addr, ':')
    }
}

/// The host in an address.
pub fn host(addr: &str) -> (r: String)
    ensures
        r@ == host_of(addr@),
{
    let chars = text::chars_of(addr);
    let n: usize = chars.len();
    if n > 0 && chars[0] == '[' {
        let rest = text::slice(addr, 1, n);
        assert(rest@ == addr@.drop_first());
        text::up_to(rest.as_str(), ']')
    } else {
        text::up_to_last(addr, ':')
    }
}

/// The name checked against the relay's certificate: the one that is set, or
/// the host in the relay's address.
pub fn relay_server_name(value: Option<String>, relay: &str) -> (r: String)
    ensures
        r@ == setting(value, host_of(relay@)),
{
    let default = host(relay);
    env_or(value, default.as_str())
}

/// What this is a build of. The Kubernetes version is not known, whether or not
/// the connector runs in a cluster.
pub fn build(version: &str, git_sha: Option<&str>, os: &str, arch: &str) -> (r: ConnectorBuild)
    ensures
        r@ == (BuildModel {
            version: version@,
            git_sha: match git_sha {
                Some(sha) => sha@,
                None => "unknown"@,
            },
            platform: os@ + "/"@ + arch@,
            k8s_version: Seq::empty(),
        }),
{
    let mut platform = text::join(os, "/");
    platform.append(arch);
    ConnectorBuild {
        version: version.to_owned(),
        git_sha: match git_sha {
            Some(sha) => sha.to_owned(),
            None => "unknown".to_owned(),
        },
        platform,
        k8s_version: String::new(),
    }
}

/// The token in a token file: its text without white space around it, which must
/// be some; or why there is none.
pub open spec fn token_of(path: Seq<char>, contents: Result<String, String>) -> Result<
    Seq<char>,
    Seq<char>,
> {
    match contents {
        Err(why) => Err("reading "@ + path + ": "@ + why@),
        Ok(file) => if text::trimmed(file@).len() == 0 {
            Err(path + " is empty"@)
        } else {
            Ok(text::trimmed(file@))
        },
    }
}

/// A trailing newline is the usual shape of a mounted secret.
pub fn read_token(path: &str, contents: Result<String, String>) -> (r: Result<String, EnrolError>)
    ensures
        match token_of(path@, contents) {
            Ok(token) => r matches Ok(t) && t@ == token,
            Err(why) => r matches Err(EnrolError::Token(e)) && e@ == why,
        },
{
    match contents {
        Err(why) => {
            let mut e = text::join("reading ", path);
            e.append(": ");
            e.append(why.as_str());
            Err(EnrolError::Token(e))
        },
        Ok(file) => {
            let token = text::trim(file.as_str());
            if token.as_str().is_empty() {
                Err(EnrolError::Token(text::join(path, " is empty")))
            } else {
                Ok(token)
            }
        },
    }
}

/// White space around a token does not matter: with a newline at its end, a file
/// holds the same token.
pub proof fn law_a_trailing_newline_is_trimmed(
    path: Seq<char>,
    plain: String,
    with_newline: String,
)
    requires
        with_newline@ == plain@.push('\n'),
    ensures
        token_of(path, Ok(with_newline)) == token_of(path, Ok(plain)),
{
    let ws = |c: char| text::white_space(c);
    lemma_newline(plain@, ws);
}

/// A newline at the end is trimmed with the rest of the white space there.
proof fn lemma_newline(s: Seq<char>, ws: spec_fn(char) -> bool)
    requires
        ws('\n'),
    ensures
        text::strip_end(text::strip_start(s.push('\n'), ws), ws) == text::strip_end(
            text::strip_start(s, ws),
            ws,
        ),
    decreases s.len(),
{
    let t = s.push('\n');
    if s.len() > 0 && ws(s[0]) {
        assert(t.drop_first() == s.drop_first().push('\n'));
        lemma_newline(s.drop_first(), ws);
    } else if s.len() > 0 {
        assert(t.drop_last() == s);
    } else {
        assert(t.drop_first() == s);
    }
}

} // verus!
