//! A verified core for routing bot updates to handler chains.
//!
//! A dispatcher holds handler chains in registration order. Each chain pairs a
//! matcher, an ordered alternation of branches of guards, with an action. For
//! one update the dispatcher owes at most one action: the main action of the
//! first chain with a branch that accepts, or the fallback of a chain that
//! has one and no such branch, whichever chain comes first.
//!
//! The library holds guards, actions and the error handler as values of the
//! host's own types. A host whose values are functions calls `dispatch_one`,
//! which evaluates, runs and routes. A host whose guards answer after a wait
//! drives the dispatch itself with `begin` and `resume`: it evaluates the
//! guard it is asked about, hands the answer back, and in the end runs the
//! action that the decision names.

pub mod types;
pub mod bot;
pub mod dummies;
pub mod narrowing;
pub mod matcher;
pub mod updates;
pub mod injection;
pub mod chain;
pub mod semantics;
pub mod laws;
pub mod dispatcher;
