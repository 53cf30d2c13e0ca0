//! The table of latest books, one per instrument.

use dashmap::DashMap;
use vstd::prelude::*;

use crate::table::{books_in, count_books, find_book, insert_book, new_books, no_books};
use crate::types::{BookMessage, Figi};

verus! {

/// Latest book per FIGI.
pub struct Snapshot {
    inner: DashMap<[u8; 12], BookMessage>,
}

impl Snapshot {
    /// The latest book of each instrument, by the bytes of its FIGI.
    pub closed spec fn view(&self) -> Map<Seq<u8>, BookMessage> {
        books_in(self.inner)
    }

    /// Finitely many instruments have a book.
    pub open spec fn wf(&self) -> bool {
        self@.dom().finite()
    }

    /// A table without any book.
    pub fn new() -> (snapshot: Snapshot)
        ensures
            snapshot.wf(),
            snapshot@ == Map::<Seq<u8>, BookMessage>::empty(),
    {
        let inner = new_books();
        assert(books_in(inner) =~= Map::<Seq<u8>, BookMessage>::empty());
        Snapshot { inner }
    }

    /// Makes `msg` the book of its instrument, in place of whatever was there.
    ///
    /// A message is a complete snapshot, so nothing of an earlier one is kept.
    pub fn put(&mut self, msg: BookMessage)
        requires
            old(self).wf(),
        ensures
            final(self).wf(),
            final(self)@.len() == old(self)@.len() + if old(self)@.contains_key(msg.figi.0@) {
                0int
            } else {
                1
            },
            final(self)@ == old(self)@.insert(msg.figi.0@, msg),
    {
        insert_book(&mut self.inner, msg.figi.0, msg);
    }

    /// The latest book of `figi`; `None` when there has not been any yet.
    pub fn get(&self, figi: &Figi) -> (book: Option<BookMessage>)
        ensures
            book is Some <==> self@.contains_key(figi.0@),
            book is Some ==> book->Some_0 == self@[figi.0@],
    {
        find_book(&self.inner, &figi.0)
    }

    /// The number of instruments that have a book.
    pub fn len(&self) -> (count: usize)
        ensures
            count == self@.len(),
    {
        count_books(&self.inner)
    }

    /// Whether no instrument has a book.
    pub fn is_empty(&self) -> (empty: bool)
        ensures
            empty <==> self@ == Map::<Seq<u8>, BookMessage>::empty(),
    {
        let empty = no_books(&self.inner);
        assert(empty ==> self@ =~= Map::<Seq<u8>, BookMessage>::empty());
        empty
    }
}

/// What was stored last is what is found: right after a book was stored, its instrument has
/// just this book, every field of it, and any other instrument has what it had before.
pub proof fn law_stored_book_is_found(
    snapshot: &mut Snapshot,
    msg: BookMessage,
    figi: Figi,
    before: Option<BookMessage>,
    after: Option<BookMessage>,
)
    requires
        old(snapshot).wf(),
        call_ensures(Snapshot::get, (&*old(snapshot), &figi), before),
        call_ensures(Snapshot::put, (snapshot, msg), ()),
        call_ensures(Snapshot::get, (&*final(snapshot), &figi), after),
    ensures
        figi.0@ == msg.figi.0@ ==> after == Some(msg),
        figi.0@ != msg.figi.0@ ==> after == before,
{
}

/// A new table finds nothing and counts nothing.
pub proof fn law_new_table_is_empty(snapshot: Snapshot, figi: Figi, found: Option<BookMessage>, count: usize, empty: bool)
    requires
        call_ensures(Snapshot::new, (), snapshot),
        call_ensures(Snapshot::get, (&snapshot, &figi), found),
        call_ensures(Snapshot::len, (&snapshot,), count),
        call_ensures(Snapshot::is_empty, (&snapshot,), empty),
    ensures
        snapshot.wf(),
        found is None,
        count == 0,
        empty,
{
}

/// Storing a book adds one to the count exactly when its instrument had none; afterwards the
/// table is not empty.
pub proof fn law_count_is_of_instruments(
    snapshot: &mut Snapshot,
    msg: BookMessage,
    had: Option<BookMessage>,
    before: usize,
    after: usize,
    empty: bool,
)
    requires
        old(snapshot).wf(),
        call_ensures(Snapshot::get, (&*old(snapshot), &msg.figi), had),
        call_ensures(Snapshot::len, (&*old(snapshot),), before),
        call_ensures(Snapshot::put, (snapshot, msg), ()),
        call_ensures(Snapshot::len, (&*final(snapshot),), after),
        call_ensures(Snapshot::is_empty, (&*final(snapshot),), empty),
    ensures
        after == before + if had is None {
            1int
        } else {
            0
        },
        !empty,
{
    if empty {
        assert(final(snapshot)@.contains_key(msg.figi.0@));
    }
}

} // verus!
