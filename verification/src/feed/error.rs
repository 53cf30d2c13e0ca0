//! Errors of the simulated feed.

use vstd::prelude::*;
use vstd::string::*;

verus! {

/// What can go wrong with the feed.
#[derive(Debug)]
pub enum FeedSimError {
    /// The configuration is not valid (zero rate, depth out of range).
    Config(String),
    /// The background generator could not be started.
    Spawn(String),
    /// The generator has stopped and the buffer is fully drained.
    Disconnected,
}

impl FeedSimError {
    /// The error in words.
    pub open spec fn words(self) -> Seq<char> {
        match self {
            FeedSimError::Config(reason) => "invalid feed-sim config: "@ + reason@,
            FeedSimError::Spawn(reason) => "failed to spawn feed-sim generator: "@ + reason@,
            FeedSimError::Disconnected => "feed-sim upstream disconnected"@,
        }
    }

    /// The error in words.
    pub fn message(&self) -> (text: String)
        ensures
            text@ == self.words(),
    {
        match self {
            FeedSimError::Config(reason) => "invalid feed-sim config: ".to_owned().concat(reason.as_str()),
            FeedSimError::Spawn(reason) => "failed to spawn feed-sim generator: ".to_owned().concat(reason.as_str()),
            FeedSimError::Disconnected => "feed-sim upstream disconnected".to_owned(),
        }
    }
}

/// An error says what kind it is, and its reason.
pub proof fn law_error_says_its_reason(error: FeedSimError, text: String)
    requires
        call_ensures(FeedSimError::message, (&error,), text),
    ensures
        text@ == match error {
            FeedSimError::Config(reason) => "invalid feed-sim config: "@ + reason@,
            FeedSimError::Spawn(reason) => "failed to spawn feed-sim generator: "@ + reason@,
            FeedSimError::Disconnected => "feed-sim upstream disconnected"@,
        },
{
}

} // verus!
