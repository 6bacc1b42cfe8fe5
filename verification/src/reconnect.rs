//! Enrol, dial, serve, repeat. A disconnection is routine: every relay deploy
//! causes one.

use crate::enrol::{EnrolError, Identity};
use crate::startup;
use crate::tunnel;
use crate::tunnel::Wait;
use vstd::prelude::*;

verus! {

/// What is to be done next.
pub enum Step {
    /// Read the token file.
    ReadToken,
    /// Ask the relay for an identity, with this token.
    Enrol(String),
    /// Dial the relay, with the identity that is held.
    Dial,
    /// Serve queries over the connection that was opened.
    Serve,
    /// Wait, after a tunnel that the relay closed or after a failure.
    Sleep { wait: Wait, because: Option<EnrolError> },
}

/// What became of a step.
pub enum Event {
    /// What the token file holds, or why it could not be read.
    TokenRead(Result<String, String>),
    /// What the relay issued, or why it issued nothing.
    Enrolled(Result<Identity, EnrolError>),
    /// Whether there is a connection.
    Dialled(Result<(), EnrolError>),
    /// That the relay closed the tunnel, or what broke it.
    Served(Result<(), String>),
    /// That the wait is over.
    Waited,
}

/// Why an event fails the attempt that it belongs to, where it does.
pub open spec fn failure(token_file: Seq<char>, event: Event) -> Option<FailureModel> {
    match event {
        Event::TokenRead(contents) => match startup::token_of(token_file, contents) {
            Err(why) => Some(FailureModel::NoToken(why)),
            Ok(_) => None,
        },
        Event::Enrolled(Err(e)) => Some(FailureModel::Given(e)),
        Event::Dialled(Err(e)) => Some(FailureModel::Given(e)),
        Event::Served(Err(why)) => Some(FailureModel::Broken(why@)),
        _ => None,
    }
}

/// A failure: there was no token, or the error that the event brought, or the
/// tunnel broke.
pub enum FailureModel {
    NoToken(Seq<char>),
    Given(EnrolError),
    Broken(Seq<char>),
}

/// Whether a failure is one of the transport itself.
pub open spec fn of_transport(f: FailureModel) -> bool {
    match f {
        FailureModel::NoToken(_) => false,
        FailureModel::Given(e) => e is Transport,
        FailureModel::Broken(_) => true,
    }
}

/// Whether an error is the one that a failure stands for.
pub open spec fn is_failure(e: EnrolError, f: FailureModel) -> bool {
    match f {
        FailureModel::NoToken(why) => e matches EnrolError::Token(w) && w@ == why,
        FailureModel::Given(given) => e == given,
        FailureModel::Broken(why) => e matches EnrolError::Transport(w) && w@ == why,
    }
}

/// The tunnel to the relay: the identity that is held, if any, and how many
/// attempts have failed in a row.
pub struct Tunnel {
    pub token_file: String,
    pub identity: Option<Identity>,
    pub attempt: u32,
}

/// The number after `n`, as far as there is one.
pub open spec fn one_more(n: u32) -> u32 {
    if n < u32::MAX {
        (n + 1) as u32
    } else {
        n
    }
}

/// How many attempts have failed in a row after an event.
pub open spec fn attempt_after(t: Tunnel, event: Event) -> u32 {
    if failure(t.token_file@, event) is Some {
        one_more(t.attempt)
    } else if event is Served {
        0
    } else {
        t.attempt
    }
}

/// The identity that is held after an event. Only a transport failure
/// invalidates the one held.
pub open spec fn identity_after(t: Tunnel, event: Event) -> Option<Identity> {
    match failure(t.token_file@, event) {
        Some(f) => if of_transport(f) {
            None
        } else {
            t.identity
        },
        None => match event {
            Event::Enrolled(Ok(id)) => Some(id),
            _ => t.identity,
        },
    }
}

/// Whether `step` is what is to be done after an event.
pub open spec fn follows(t: Tunnel, event: Event, jitter_ms: u32, step: Step) -> bool {
    match failure(t.token_file@, event) {
        Some(f) => {
            &&& step matches Step::Sleep { wait, because: Some(e) }
            &&& wait.total_ms() == tunnel::wait_secs(attempt_after(t, event)) * 1000 + jitter_ms
            &&& wait.millis < 1000
            &&& is_failure(e, f)
        },
        None => match event {
            Event::TokenRead(contents) => {
                &&& step matches Step::Enrol(token)
                &&& Ok::<Seq<char>, Seq<char>>(token@) == startup::token_of(
                    t.token_file@,
                    contents,
                )
            },
            Event::Enrolled(_) => step is Dial,
            Event::Dialled(_) => step is Serve,
            Event::Served(_) => {
                &&& step matches Step::Sleep { wait, because: None }
                &&& wait.total_ms() == tunnel::wait_secs(0) * 1000 + jitter_ms
                &&& wait.millis < 1000
            },
            Event::Waited => step == first_step(t),
        },
    }
}

/// What an attempt begins with.
pub open spec fn first_step(t: Tunnel) -> Step {
    if t.identity is None {
        Step::ReadToken
    } else {
        Step::Dial
    }
}

impl Tunnel {
    /// A tunnel that has not been tried yet.
    pub fn new(token_file: &str) -> (r: Tunnel)
        ensures
            r.token_file@ == token_file@,
            r.identity is None,
            r.attempt == 0,
    {
        Tunnel { token_file: token_file.to_owned(), identity: None, attempt: 0 }
    }

    /// Begins an attempt: with the identity that is held, or by getting one. The
    /// token is read per attempt, so a rotated one is picked up without a
    /// restart.
    pub fn begin(&self) -> (r: Step)
        ensures
            r == first_step(*self),
    {
        if self.identity.is_none() {
            Step::ReadToken
        } else {
            Step::Dial
        }
    }

    /// Gives an attempt up.
    fn fail(&mut self, e: EnrolError, jitter_ms: u32) -> (r: Step)
        ensures
            final(self).token_file == old(self).token_file,
            final(self).attempt == one_more(old(self).attempt),
            final(self).identity == (if e is Transport {
                None::<Identity>
            } else {
                old(self).identity
            }),
            r matches Step::Sleep { wait, because: Some(b) } && b == e && wait.total_ms()
                == tunnel::wait_secs(final(self).attempt) * 1000 + jitter_ms && wait.millis < 1000,
    {
        if self.attempt < u32::MAX {
            self.attempt = self.attempt + 1;
        }
        if let EnrolError::Transport(_) = &e {
            self.identity = None;
        }
        let wait = tunnel::backoff_with(self.attempt, jitter_ms);
        Step::Sleep { wait, because: Some(e) }
    }

    /// Takes note of an event, and says what is to be done next. A wait is
    /// stretched by `jitter_ms`.
    pub fn advance(&mut self, event: Event, jitter_ms: u32) -> (r: Step)
        ensures
            final(self).token_file == old(self).token_file,
            final(self).attempt == attempt_after(*old(self), event),
            final(self).identity == identity_after(*old(self), event),
            follows(*old(self), event, jitter_ms, r),
    {
        match event {
            Event::TokenRead(contents) => {
                match startup::read_token(self.token_file.as_str(), contents) {
                    Ok(token) => Step::Enrol(token),
                    Err(e) => self.fail(e, jitter_ms),
                }
            },
            Event::Enrolled(Ok(id)) => {
                self.identity = Some(id);
                Step::Dial
            },
            Event::Enrolled(Err(e)) => self.fail(e, jitter_ms),
            Event::Dialled(Ok(_)) => Step::Serve,
            Event::Dialled(Err(e)) => self.fail(e, jitter_ms),
            Event::Served(Ok(_)) => {
                self.attempt = 0;
                let wait = tunnel::backoff_with(0, jitter_ms);
                Step::Sleep { wait, because: None }
            },
            Event::Served(Err(why)) => self.fail(EnrolError::Transport(why), jitter_ms),
            Event::Waited => self.begin(),
        }
    }

    /// Takes note of an event, and says what is to be done next. A wait is
    /// stretched by less than a second, from the clock.
    pub fn on(&mut self, event: Event) -> (r: Step)
        ensures
            final(self).token_file == old(self).token_file,
            final(self).attempt == attempt_after(*old(self), event),
            final(self).identity == identity_after(*old(self), event),
            exists|reading: std::time::SystemTime|
                follows(
                    *old(self),
                    event,
                    tunnel::jitter_in(#[trigger] tunnel::nanos_since_epoch(reading)),
                    r,
                ),
    {
        let jitter_ms: u32 = tunnel::rand_ms();
        self.advance(event, jitter_ms)
    }
}

/// An identity, once held, is kept through every event but a failure of the
/// transport and the issue of another: a relay that closes the tunnel, refuses,
/// or cannot be dialled does not cause another enrolment.
pub proof fn law_only_transport_failures_cost_the_identity(t: Tunnel, event: Event, id: Identity)
    requires
        t.identity == Some(id),
        !(event is Enrolled && event->Enrolled_0 is Ok),
        failure(t.token_file@, event) matches Some(f) ==> !of_transport(f),
    ensures
        identity_after(t, event) == Some(id),
{
}

/// Whatever an event belongs to, a transport error that it brings costs the
/// identity, and one more attempt has failed; any other error leaves the
/// identity as it was.
pub proof fn law_a_transport_error_costs_the_identity(t: Tunnel, event: Event, e: EnrolError)
    ensures
        event == Event::Dialled(Err(e)) || event == Event::Enrolled(Err(e)) ==> {
            &&& e matches EnrolError::Transport(_) ==> identity_after(t, event) is None
            &&& !(e matches EnrolError::Transport(_)) ==> identity_after(t, event) == t.identity
            &&& t.attempt < u32::MAX ==> attempt_after(t, event) == t.attempt + 1
        },
        event matches Event::Served(Err(_)) ==> identity_after(t, event) is None && (t.attempt
            < u32::MAX ==> attempt_after(t, event) == t.attempt + 1),
{
}

/// After a transport failure the next attempt enrols again; an attempt with an
/// identity dials at once.
pub proof fn law_enrolment_follows_transport_failure(t: Tunnel, event: Event, next: Tunnel)
    requires
        next.identity == identity_after(t, event),
    ensures
        (failure(t.token_file@, event) matches Some(f) && of_transport(f)) ==> first_step(next)
            is ReadToken,
        next.identity is Some ==> first_step(next) is Dial,
{
}

/// Every wait lies between one second and the ceiling and its jitter, and a
/// tunnel that the relay closed is dialled again after the shortest one.
pub proof fn law_waits_are_bounded(t: Tunnel, event: Event, jitter_ms: u32, step: Step)
    requires
        follows(t, event, jitter_ms, step),
        jitter_ms < 1000,
    ensures
        step matches Step::Sleep { wait, .. } ==> 1000 <= wait.total_ms() < (tunnel::CEILING_SECS
            + 1) * 1000,
        (step is Sleep && event matches Event::Served(Ok(_))) ==> step->wait.total_ms() == 1000
            + jitter_ms,
{
    tunnel::law_backoff_grows_to_a_ceiling(attempt_after(t, event), attempt_after(t, event));
    tunnel::law_backoff_grows_to_a_ceiling(0, 0);
    vstd::arithmetic::power2::lemma2_to64();
}

/// The relay is asked for an identity only right after the token file was read,
/// with the token that it held then.
pub proof fn law_the_token_is_read_for_each_enrolment(
    t: Tunnel,
    event: Event,
    jitter_ms: u32,
    step: Step,
)
    requires
        follows(t, event, jitter_ms, step),
        step is Enrol,
    ensures
        event matches Event::TokenRead(contents) && startup::token_of(t.token_file@, contents)
            == Ok::<Seq<char>, Seq<char>>(step->Enrol_0@),
{
}

} // verus!
