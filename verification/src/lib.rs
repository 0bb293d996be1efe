//! A library for waiting until a set of filesystem paths exist.
//!
//! The pieces that make decisions are here, stated and checked:
//! canonicalizing an input path against the working directory
//! ([`paths`]), turning a probe's result into the single message a
//! waiter emits ([`waiter`]), counting outcomes until every requested
//! path has resolved ([`coordinator`]), and building the reported
//! lines ([`report`]). The blocking existence probe, the channel, the
//! threads and the command line live in the surrounding program.

pub mod coordinator;
pub mod paths;
pub mod report;
pub mod waiter;
