//! Laws of the tunnel: what follows each event, how long a wait is, and what the
//! connector starts with.

use crate::enrol::EnrolError;
use crate::laws::texts;
use crate::pb::ConnectorBuild;
use crate::reconnect::{Event, Step, Tunnel};
use crate::startup;
use crate::text;
use crate::tunnel;
use crate::tunnel::Wait;
use vstd::arithmetic::power2;
use vstd::prelude::*;

verus! {

/// How many seconds the pause is after so many failures in a row: one, two, four,
/// eight, sixteen, and half a minute for every later one.
pub open spec fn pause(failures: u32) -> int {
    if failures >= 5 {
        30
    } else {
        power2::pow2(failures as nat) as int
    }
}

/// Whether a wait takes the pause after so many failures, and the jitter.
pub open spec fn takes(wait: Wait, failures: u32, jitter_ms: u32) -> bool {
    wait.millis < 1000 && wait.secs * 1000 + wait.millis == pause(failures) * 1000 + jitter_ms
}

proof fn lemma_pause(failures: u32)
    ensures
        tunnel::wait_secs(failures) == pause(failures),
{
    tunnel::law_backoff_grows_to_a_ceiling(failures, failures);
}

/// A wait is the pause after so many failures, and the jitter on top of it.
pub proof fn law_a_wait_is_the_pause_and_the_jitter(failures: u32, jitter_ms: u32, r: Wait)
    requires
        call_ensures(tunnel::backoff_with, (failures, jitter_ms), r),
    ensures
        takes(r, failures, jitter_ms),
{
    lemma_pause(failures);
}

/// One more failure doubles the pause, up to half a minute. The first one takes a
/// second.
pub proof fn law_one_more_failure_doubles_the_pause(
    failures: u32,
    jitter_ms: u32,
    first: Wait,
    before: Wait,
    after: Wait,
)
    requires
        failures < u32::MAX,
        call_ensures(tunnel::backoff_with, (0u32, jitter_ms), first),
        call_ensures(tunnel::backoff_with, (failures, jitter_ms), before),
        call_ensures(tunnel::backoff_with, ((failures + 1) as u32, jitter_ms), after),
    ensures
        ({
            let own = |w: Wait| w.secs * 1000 + w.millis - jitter_ms;
            &&& own(first) == 1000
            &&& own(after) == (if 2 * own(before) < 30_000 {
                2 * own(before)
            } else {
                30_000
            })
        }),
{
    power2::lemma2_to64();
    lemma_pause(0);
    lemma_pause(failures);
    lemma_pause((failures + 1) as u32);
    power2::lemma_pow2_unfold((failures + 1) as nat);
    if failures >= 4 {
        assert(pause((failures + 1) as u32) == 30);
        assert(pause(failures) >= 16);
    } else {
        crate::double::lemma_power_grows(failures as nat, 3);
    }
}

/// The jitter is what the nanoseconds of the clock leave over thousands; none is
/// taken from a clock that shows a time before the epoch.
pub proof fn law_jitter_is_what_the_nanoseconds_leave(
    nanos: u32,
    of_nanos: u32,
    reading: std::time::SystemTime,
    of_reading: u32,
)
    requires
        call_ensures(tunnel::jitter_of, (nanos,), of_nanos),
        call_ensures(tunnel::jitter_at, (reading,), of_reading),
    ensures
        of_nanos < 1000,
        (nanos - of_nanos) % 1000 == 0,
        of_reading < 1000,
        tunnel::nanos_since_epoch(reading) >= 0 ==> (tunnel::nanos_since_epoch(reading)
            - of_reading) % 1000 == 0,
        tunnel::nanos_since_epoch(reading) < 0 ==> of_reading == 0,
{
}

/// A wait from the clock is the pause, and less than a second.
pub proof fn law_a_wait_from_the_clock_is_the_pause(
    failures: u32,
    jitter_ms: u32,
    r: Wait,
    secs: u64,
    millis: u32,
)
    requires
        call_ensures(tunnel::rand_ms, (), jitter_ms),
        call_ensures(tunnel::backoff, (failures,), r),
        call_ensures(Wait::as_secs, (&r,), secs),
        call_ensures(Wait::subsec_millis, (&r,), millis),
    ensures
        jitter_ms < 1000,
        secs == pause(failures),
        millis < 1000,
        secs == r.secs,
        millis == r.millis,
{
    lemma_pause(failures);
}

/// Whether an attempt was given up: one more has failed, as far as is counted,
/// and a wait follows that says why.
pub open spec fn gave_up(
    before: Tunnel,
    after: Tunnel,
    jitter_ms: u32,
    step: Step,
    why: EnrolError,
) -> bool {
    &&& after.attempt == (if before.attempt == u32::MAX {
        u32::MAX as int
    } else {
        before.attempt + 1
    })
    &&& step matches Step::Sleep { wait, because: Some(e) }
    &&& e == why
    &&& takes(wait, after.attempt, jitter_ms)
}

/// Whether an error is a transport error.
pub open spec fn broke_transport(e: EnrolError) -> bool {
    e matches EnrolError::Transport(_)
}

/// What becomes of a tunnel at an event, and what is to be done next.
pub open spec fn becomes(
    before: Tunnel,
    event: Event,
    jitter_ms: u32,
    after: Tunnel,
    step: Step,
) -> bool {
    &&& after.token_file@ == before.token_file@
    &&& match event {
        // A token file that cannot be read, or holds nothing, ends the attempt.
        Event::TokenRead(Err(why)) => {
            &&& step matches Step::Sleep { because: Some(e), .. }
            &&& e matches EnrolError::Token(w)
            &&& w@ == "reading "@ + before.token_file@ + ": "@ + why@
            &&& gave_up(before, after, jitter_ms, step, e)
            &&& after.identity == before.identity
        },
        Event::TokenRead(Ok(file)) => {
            &&& after.identity == before.identity
            &&& {
                ||| {
                    &&& step matches Step::Enrol(token)
                    &&& token@.len() > 0
                    &&& texts::is_trim_of(token@, file@)
                    &&& after.attempt == before.attempt
                }
                ||| {
                    &&& step matches Step::Sleep { because: Some(e), .. }
                    &&& e matches EnrolError::Token(w)
                    &&& w@ == before.token_file@ + " is empty"@
                    &&& texts::is_trim_of(Seq::empty(), file@)
                    &&& gave_up(before, after, jitter_ms, step, e)
                }
            }
        },
        // An identity that is issued is held, and dialled with.
        Event::Enrolled(Ok(id)) => {
            &&& after.identity == Some(id)
            &&& after.attempt == before.attempt
            &&& step is Dial
        },
        // A failure ends the attempt, and one of the transport costs the identity.
        Event::Enrolled(Err(e)) => {
            &&& gave_up(before, after, jitter_ms, step, e)
            &&& broke_transport(e) ==> after.identity is None
            &&& !broke_transport(e) ==> after.identity == before.identity
        },
        Event::Dialled(Err(e)) => {
            &&& gave_up(before, after, jitter_ms, step, e)
            &&& broke_transport(e) ==> after.identity is None
            &&& !broke_transport(e) ==> after.identity == before.identity
        },
        Event::Served(Err(why)) => {
            &&& step matches Step::Sleep { because: Some(e), .. }
            &&& e matches EnrolError::Transport(w)
            &&& w@ == why@
            &&& gave_up(before, after, jitter_ms, step, e)
            &&& after.identity is None
        },
        // A connection is served over.
        Event::Dialled(Ok(_)) => {
            &&& after.identity == before.identity
            &&& after.attempt == before.attempt
            &&& step is Serve
        },
        // A tunnel that the relay closed starts the count over.
        Event::Served(Ok(_)) => {
            &&& after.identity == before.identity
            &&& after.attempt == 0
            &&& step matches Step::Sleep { wait, because: None }
            &&& takes(wait, 0, jitter_ms)
        },
        // After a wait the relay is dialled, or enrolled with first.
        Event::Waited => {
            &&& after.identity == before.identity
            &&& after.attempt == before.attempt
            &&& before.identity is None ==> step is ReadToken
            &&& before.identity is Some ==> step is Dial
        },
    }
}

/// At every event a tunnel becomes what it should.
pub proof fn law_every_event_is_answered()
    ensures
        forall|t: &mut Tunnel, event: Event, jitter_ms: u32, step: Step|
            #[trigger]
            call_ensures(Tunnel::advance, (t, event, jitter_ms), step) ==> becomes(
                *t,
                event,
                jitter_ms,
                *final(t),
                step,
            ),
{
    assert forall|t: &mut Tunnel, event: Event, jitter_ms: u32, step: Step|
        #[trigger]
        call_ensures(Tunnel::advance, (t, event, jitter_ms), step) implies becomes(
        *t,
        event,
        jitter_ms,
        *final(t),
        step,
    ) by {
        lemma_becomes(*t, event, jitter_ms, *final(t), step);
    }
}

proof fn lemma_becomes(before: Tunnel, event: Event, jitter_ms: u32, after: Tunnel, step: Step)
    requires
        after.token_file == before.token_file,
        after.attempt == crate::reconnect::attempt_after(before, event),
        after.identity == crate::reconnect::identity_after(before, event),
        crate::reconnect::follows(before, event, jitter_ms, step),
    ensures
        becomes(before, event, jitter_ms, after, step),
{
    lemma_pause(after.attempt);
    lemma_pause(0);
    if let Event::TokenRead(Ok(file)) = event {
        texts::lemma_trimmed(file@);
        if text::trimmed(file@).len() == 0 {
            assert(text::trimmed(file@) == Seq::<char>::empty());
        }
    }
}

/// The same with a jitter from the clock, which is less than a second.
pub proof fn law_every_event_is_answered_with_jitter()
    ensures
        forall|t: &mut Tunnel, event: Event, step: Step|
            #[trigger]
            call_ensures(Tunnel::on, (t, event), step) ==> exists|jitter_ms: u32|
                jitter_ms < 1000 && #[trigger] becomes(*t, event, jitter_ms, *final(t), step),
{
    assert forall|t: &mut Tunnel, event: Event, step: Step|
        #[trigger] call_ensures(Tunnel::on, (t, event), step) implies exists|jitter_ms: u32|
        jitter_ms < 1000 && #[trigger] becomes(*t, event, jitter_ms, *final(t), step) by {
        let reading = choose|reading: std::time::SystemTime|
            crate::reconnect::follows(
                *t,
                event,
                tunnel::jitter_in(#[trigger] tunnel::nanos_since_epoch(reading)),
                step,
            );
        let jitter_ms = tunnel::jitter_in(tunnel::nanos_since_epoch(reading));
        lemma_becomes(*t, event, jitter_ms, *final(t), step);
        assert(jitter_ms < 1000 && becomes(*t, event, jitter_ms, *final(t), step));
    }
}

/// A new tunnel holds no identity and has not failed, so it begins by reading the
/// token; one with an identity begins by dialling.
pub proof fn law_a_tunnel_begins_with_what_it_needs(
    token_file: &str,
    new: Tunnel,
    t: &Tunnel,
    first: Step,
    next: Step,
)
    requires
        call_ensures(Tunnel::new, (token_file,), new),
        call_ensures(Tunnel::begin, (&new,), first),
        call_ensures(Tunnel::begin, (t,), next),
    ensures
        new.token_file@ == token_file@,
        new.identity is None,
        new.attempt == 0,
        first is ReadToken,
        t.identity is None ==> next is ReadToken,
        t.identity is Some ==> next is Dial,
{
}

/// A setting that is made is taken as it is, and else the default is.
pub proof fn law_a_setting_wins_over_its_default(value: Option<String>, default: &str, r: String)
    requires
        call_ensures(startup::env_or, (value, default), r),
    ensures
        value matches Some(v) ==> r@ == v@,
        value is None ==> r@ == default@,
{
}

/// The host of an address with a port is what stands before the port, that of an
/// address without one is the address, and that of an address in brackets is
/// what stands in them.
pub proof fn law_the_host_is_found_in_its_address(
    addr: &str,
    host: Seq<char>,
    port: Seq<char>,
    r: String,
)
    requires
        call_ensures(startup::host, (addr,), r),
    ensures
        addr@ == host + ":"@ + port && !port.contains(':') && !(host.len() > 0 && host[0] == '[')
            ==> r@ == host,
        addr@ == host && !host.contains(':') && !(host.len() > 0 && host[0] == '[') ==> r@ == host,
        addr@ == "["@ + host + "]"@ + port && !host.contains(']') ==> r@ == host,
{
    reveal_strlit(":");
    reveal_strlit("[");
    reveal_strlit("]");
    let s = addr@;
    texts::lemma_before_last(s, ':');
    if s == host + ":"@ + port && !port.contains(':') && !(host.len() > 0 && host[0] == '[') {
        let n = host.len() as int;
        assert(s[n] == ':');
        if host.len() > 0 {
            assert(s[0] == host[0]);
        }
        let kept = text::before_last(s, ':');
        assert(s.contains(':'));
        if kept.len() > n {
            assert(s[kept.len() as int] == port[kept.len() - n - 1]);
            assert(port.contains(':'));
        }
        assert(kept == host);
    }
    if s == host && !host.contains(':') {
        let kept = text::before_last(s, ':');
        if kept.len() < s.len() {
            assert(host.contains(s[kept.len() as int]));
        }
        assert(kept == s);
    }
    if s == "["@ + host + "]"@ + port && !host.contains(']') {
        let rest = s.drop_first();
        let kept = text::before(rest, ']');
        texts::lemma_before(rest, ']');
        let n = host.len() as int;
        assert(s[0] == '[');
        assert(rest == host + "]"@ + port);
        assert(rest[n] == ']');
        if kept.len() < n {
            assert(rest[kept.len() as int] == host[kept.len() as int]);
            assert(host.contains(']'));
        }
        if kept.len() > n {
            assert(kept[n] == rest[n]);
            assert(kept.contains(']'));
        }
        assert(kept == host);
    }
}

/// The name checked against the relay's certificate is the one that is set, and
/// else the host in the relay's address.
pub proof fn law_the_relay_is_checked_by_its_host(
    value: Option<String>,
    relay: &str,
    host: String,
    r: String,
)
    requires
        call_ensures(startup::relay_server_name, (value, relay), r),
        call_ensures(startup::host, (relay,), host),
    ensures
        value matches Some(v) ==> r@ == v@,
        value is None ==> r@ == host@,
{
}

/// The token is what the file holds, without white space around it; a file that
/// cannot be read, or holds nothing else, is an error that names it.
pub proof fn law_the_token_is_what_the_file_holds(
    path: &str,
    contents: Result<String, String>,
    r: Result<String, EnrolError>,
)
    requires
        call_ensures(startup::read_token, (path, contents), r),
    ensures
        contents matches Err(why) ==> (r matches Err(EnrolError::Token(w)) && w@ == "reading "@
            + path@ + ": "@ + why@),
        contents matches Ok(file) ==> match r {
            Ok(token) => token@.len() > 0 && texts::is_trim_of(token@, file@),
            Err(e) => {
                &&& e matches EnrolError::Token(w)
                &&& w@ == path@ + " is empty"@
                &&& texts::is_trim_of(Seq::empty(), file@)
            },
        },
{
    if let Ok(file) = contents {
        texts::lemma_trimmed(file@);
        if text::trimmed(file@).len() == 0 {
            assert(text::trimmed(file@) == Seq::<char>::empty());
        }
    }
}

/// A build says its version, its revision where it is known, and its platform.
pub proof fn law_a_build_says_what_it_is(
    version: &str,
    git_sha: Option<&str>,
    os: &str,
    arch: &str,
    r: ConnectorBuild,
)
    requires
        call_ensures(startup::build, (version, git_sha, os, arch), r),
    ensures
        r.version@ == version@,
        git_sha matches Some(sha) ==> r.git_sha@ == sha@,
        git_sha is None ==> r.git_sha@ == "unknown"@,
        r.platform@ == os@ + "/"@ + arch@,
        r.k8s_version@.len() == 0,
{
}

/// Without settings the connector listens on the loopback interface, and takes
/// Prometheus to be there too.
pub proof fn law_defaults_stay_on_the_machine()
    ensures
        startup::DEFAULT_LISTEN@ == "127.0.0.1:50051"@,
        startup::DEFAULT_PROMETHEUS@ == "http://127.0.0.1:9090"@,
{
}

} // verus!
