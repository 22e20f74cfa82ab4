//! The handle of the bot session a dispatcher works for.

use vstd::prelude::*;

verus! {

/// A bot session. The dispatcher keeps it only to hand it to actions that ask
/// for the session context; it never talks to the network through it.
#[derive(Clone, Debug, PartialEq, Eq)]
pub struct Bot {
    token: String,
}

/// Collects what a bot session is made from.
#[derive(Clone, Debug)]
pub struct BotBuilder {
    token: Option<String>,
}

impl Bot {
    /// The characters of the session token.
    pub closed spec fn token_view(&self) -> Seq<char> {
        self.token@
    }

    /// A builder that has no token yet.
    pub fn builder() -> (builder: BotBuilder)
        ensures
            builder.token_view() is None,
    {
        BotBuilder { token: None }
    }

    /// The session token.
    pub fn token(&self) -> (token: &str)
        ensures
            token@ == self.token_view(),
    {
        self.token.as_str()
    }
}

impl BotBuilder {
    /// The characters of the token given so far.
    pub closed spec fn token_view(&self) -> Option<Seq<char>> {
        match self.token {
            Some(t) => Some(t@),
            None => None,
        }
    }

    /// Sets the token; a later call replaces an earlier one.
    pub fn token(self, token: &str) -> (builder: BotBuilder)
        ensures
            builder.token_view() == Some(token@),
    {
        BotBuilder { token: Some(token.to_owned()) }
    }

    /// Builds the session. A builder that was given no token yields a session
    /// with the empty token.
    pub fn build(self) -> (bot: Bot)
        ensures
            bot.token_view() == match self.token_view() {
                Some(t) => t,
                None => Seq::<char>::empty(),
            },
    {
        match self.token {
            Some(token) => Bot { token },
            None => Bot { token: String::new() },
        }
    }
}

} // verus!
