//! The verified half of a connector that answers PromQL queries from inside a
//! cluster, over a connection that it dials out.

pub mod convert;
pub mod double;
pub mod enrol;
pub mod labels;
pub mod laws;
pub mod pb;
pub mod prom;
pub mod reconnect;
pub mod service;
pub mod startup;
pub mod text;
pub mod tunnel;
