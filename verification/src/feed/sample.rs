//! Samples handed out by the feed.

use vstd::prelude::*;

use crate::types::BookMessage;

verus! {

/// An owned book that was received from the feed. It derefs to the book.
pub struct FeedSample {
    inner: BookMessage,
}

impl FeedSample {
    /// The book.
    pub closed spec fn view(&self) -> BookMessage {
        self.inner
    }

    /// A sample of a book.
    pub(crate) fn new(msg: BookMessage) -> (sample: FeedSample)
        ensures
            sample@ == msg,
    {
        FeedSample { inner: msg }
    }

    /// The book itself.
    pub fn into_inner(self) -> (msg: BookMessage)
        ensures
            msg == self@,
    {
        self.inner
    }
}

impl core::ops::Deref for FeedSample {
    type Target = BookMessage;

    fn deref(&self) -> (msg: &BookMessage)
        ensures
            *msg == self@,
    {
        &self.inner
    }
}

impl AsRef<BookMessage> for FeedSample {
    fn as_ref(&self) -> (msg: &BookMessage)
        ensures
            *msg == self@,
    {
        &self.inner
    }
}

/// A sample is its book, lent or given.
pub proof fn law_sample_is_its_book(
    sample: FeedSample,
    lent: &BookMessage,
    given: BookMessage,
)
    requires
        call_ensures(<FeedSample as core::ops::Deref>::deref, (&sample,), lent),
        call_ensures(FeedSample::into_inner, (sample,), given),
    ensures
        *lent == sample@,
        given == sample@,
{
}

} // verus!
