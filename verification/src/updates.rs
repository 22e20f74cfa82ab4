//! Where a matcher starts: the kind of update it is for.

use vstd::prelude::*;
use crate::matcher::{BranchView, Guard, Matcher};
use crate::narrowing::Filter;

verus! {

/// A matcher for every update.
pub fn any<G>() -> (matcher: Matcher<G>)
    ensures
        matcher@ == seq![BranchView { filter: Filter::Any, guards: Seq::<Guard<G>>::empty() }],
{
    Matcher::new(Filter::Any)
}

/// A matcher for message updates.
pub fn message<G>() -> (matcher: Matcher<G>)
    ensures
        matcher@ == seq![BranchView { filter: Filter::Message, guards: Seq::<Guard<G>>::empty() }],
{
    Matcher::new(Filter::Message)
}

/// A matcher for callback-query updates.
pub fn callback_query<G>() -> (matcher: Matcher<G>)
    ensures
        matcher@ == seq![
            BranchView { filter: Filter::CallbackQuery, guards: Seq::<Guard<G>>::empty() },
        ],
{
    Matcher::new(Filter::CallbackQuery)
}

} // verus!
