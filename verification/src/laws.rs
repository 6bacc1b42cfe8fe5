//! What the library promises: laws of its functions, stated of what goes in and
//! what comes out.
//!
//! A law that takes the result of a function requires `call_ensures` of the
//! function, its arguments and that result: it holds of whatever a call returns.

pub mod answers;
pub mod enrolment;
pub mod reconnecting;
pub mod replies;
pub mod requests;
pub mod texts;
pub mod times;
