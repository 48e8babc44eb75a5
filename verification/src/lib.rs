//! A deferred-action registry: named, zero-argument units of work are
//! registered under small integer keys, listed as a text menu, and invoked on
//! demand, with every failure value normalized into one displayable text
//! channel.
//!
//! - [`display`] gives failure values of unrelated types a common capability:
//!   a textual rendering.
//! - [`script`] wraps a deferred computation and its description into a
//!   [`script::Script`], normalizing its outcome into one channel.
//! - [`manager`] keeps scripts under integer keys, renders the selection menu
//!   and invokes one script on demand.
//! - [`changelog`] computes new changelog contents for the one maintenance
//!   script the surrounding driver registers.

pub mod changelog;
pub mod display;
pub mod manager;
pub mod script;
