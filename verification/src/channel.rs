//! The channels of `tokio` that the bus is built on, with what their methods do.
//!
//! A channel is described by the history of its sending half, to which every send
//! adds, and by a position in that history for each receiving half.

use tokio::sync::{broadcast, mpsc};
use vstd::prelude::*;

use crate::types::BookMessage;

verus! {

/// `tokio::sync::broadcast::Sender`, the sending half of a broadcast channel.
#[verifier::external_type_specification]
#[verifier::external_body]
#[verifier::reject_recursive_types(T)]
pub struct ExBroadcastSender<T>(broadcast::Sender<T>);

/// `tokio::sync::broadcast::Receiver`, one receiving half of a broadcast channel.
#[verifier::external_type_specification]
#[verifier::external_body]
#[verifier::reject_recursive_types(T)]
pub struct ExBroadcastReceiver<T>(broadcast::Receiver<T>);

/// `tokio::sync::mpsc::Sender`, the sending half of a bounded queue.
#[verifier::external_type_specification]
#[verifier::external_body]
#[verifier::reject_recursive_types(T)]
pub struct ExQueueSender<T>(mpsc::Sender<T>);

/// `tokio::sync::mpsc::Receiver`, the receiving half of a bounded queue.
#[verifier::external_type_specification]
#[verifier::external_body]
#[verifier::reject_recursive_types(T)]
pub struct ExQueueReceiver<T>(mpsc::Receiver<T>);

/// The least power of two that is not below `capacity`.
pub open spec fn ring_size(capacity: nat) -> nat
    decreases capacity,
{
    if capacity <= 1 {
        1
    } else {
        2 * ring_size((capacity + 1) / 2)
    }
}

/// A ring has room for the capacity, and for less than twice as much.
pub proof fn lemma_ring_size(capacity: nat)
    ensures
        ring_size(capacity) >= capacity,
        ring_size(capacity) >= 1,
        capacity > 0 ==> ring_size(capacity) < 2 * capacity,
    decreases capacity,
{
    if capacity > 1 {
        lemma_ring_size((capacity + 1) / 2);
    }
}

/// Every book that was handed to a broadcast channel, in order.
pub uninterp spec fn topic_sent(tx: broadcast::Sender<BookMessage>) -> Seq<BookMessage>;

/// How many books a broadcast channel retains.
pub uninterp spec fn topic_ring(tx: broadcast::Sender<BookMessage>) -> nat;

/// How far a receiver of a broadcast channel has come in the books handed to it.
pub uninterp spec fn topic_read(rx: broadcast::Receiver<BookMessage>) -> nat;

/// Whether `rx` belongs to the broadcast channel of `tx`.
pub uninterp spec fn topic_hears(rx: broadcast::Receiver<BookMessage>, tx: broadcast::Sender<BookMessage>) -> bool;

/// Calls `tokio::sync::broadcast::channel` and keeps the sending half. The claim:
/// nothing was handed to the channel yet, and it retains as many books as the least
/// power of two that is not below `capacity`. The call panics on a capacity of zero or
/// above half of the range of `usize`, which `requires` leaves out.
#[verifier::external_body]
pub(crate) fn new_topic(capacity: usize) -> (tx: broadcast::Sender<BookMessage>)
    requires
        0 < capacity <= usize::MAX / 2,
    ensures
        topic_sent(tx).len() == 0,
        topic_ring(tx) == ring_size(capacity as nat),
{
    broadcast::channel(capacity).0
}

/// Calls `tokio::sync::broadcast::Sender::send`. The claim: the book is now the last one
/// handed to the channel, how much the channel retains is as before, and the channel
/// has the same receivers. Without a receiver the call gives the book back, which
/// nobody can tell from a book that was sent: a receiver only ever sees what is handed
/// over after its own start.
#[verifier::external_body]
pub(crate) fn send_to_topic(tx: &mut broadcast::Sender<BookMessage>, book: BookMessage)
    ensures
        topic_sent(*final(tx)) == topic_sent(*old(tx)).push(book),
        topic_ring(*final(tx)) == topic_ring(*old(tx)),
        forall|rx: broadcast::Receiver<BookMessage>|
            topic_hears(rx, *old(tx)) ==> #[trigger] topic_hears(rx, *final(tx)),
{
    let _ = tx.send(book);
}

/// Calls `tokio::sync::broadcast::Sender::subscribe`. The claim: the new receiver
/// belongs to the channel and starts behind everything that was handed over so far.
/// The call panics when a quarter of the range of `usize` receivers of one channel are
/// alive: at 12 bytes or more each they do not fit in memory.
#[verifier::external_body]
pub(crate) fn listen_to_topic(tx: &broadcast::Sender<BookMessage>) -> (rx: broadcast::Receiver<BookMessage>)
    ensures
        topic_hears(rx, *tx),
        topic_read(rx) == topic_sent(*tx).len(),
{
    tx.subscribe()
}

/// What a receiver of a broadcast channel finds.
pub enum Heard {
    /// The next book.
    Book(BookMessage),
    /// No book yet.
    Nothing,
    /// That many books were overwritten before they were read.
    Missed(u64),
    /// The channel has ended.
    Closed,
}

/// What a receiver finds that has read `read` of the books `sent` to a channel that
/// retains `ring` of them.
pub open spec fn found_at(sent: Seq<BookMessage>, ring: nat, read: nat) -> Heard {
    if sent.len() <= read {
        Heard::Nothing
    } else if sent.len() - read > ring {
        Heard::Missed((sent.len() - read - ring) as u64)
    } else {
        Heard::Book(sent[read as int])
    }
}

/// How many books a receiver has read or missed after such a find.
pub open spec fn read_after(sent: Seq<BookMessage>, ring: nat, read: nat) -> nat {
    if sent.len() <= read {
        read
    } else if sent.len() - read > ring {
        (sent.len() - ring) as nat
    } else {
        read + 1
    }
}

/// Calls `tokio::sync::broadcast::Receiver::try_recv`. The claim: a receiver that is up
/// to date finds nothing; one that is further behind than the channel retains is told
/// how many books it missed and put in front of the oldest retained one; any other
/// gets the next book. The channel of a sender that is at hand has not ended. Places in
/// the channel are counted in 64 bits, so `requires` leaves out a receiver that is so
/// far behind that they come round.
#[verifier::external_body]
pub(crate) fn hear(rx: &mut broadcast::Receiver<BookMessage>, tx: &broadcast::Sender<BookMessage>) -> (heard: Heard)
    requires
        topic_hears(*old(rx), *tx),
        topic_read(*old(rx)) <= topic_sent(*tx).len(),
        topic_sent(*tx).len() + topic_ring(*tx) <= topic_read(*old(rx)) + u64::MAX,
    ensures
        heard == found_at(topic_sent(*tx), topic_ring(*tx), topic_read(*old(rx))),
        topic_read(*final(rx)) == read_after(topic_sent(*tx), topic_ring(*tx), topic_read(*old(rx))),
        topic_hears(*final(rx), *tx),
{
    let _ = tx;
    match rx.try_recv() {
        Ok(book) => Heard::Book(book),
        Err(broadcast::error::TryRecvError::Empty) => Heard::Nothing,
        Err(broadcast::error::TryRecvError::Lagged(missed)) => Heard::Missed(missed),
        Err(broadcast::error::TryRecvError::Closed) => Heard::Closed,
    }
}

/// Every book that a bounded queue accepted, in order.
pub uninterp spec fn queue_sent(tx: mpsc::Sender<BookMessage>) -> Seq<BookMessage>;

/// How many books a bounded queue has room for.
pub uninterp spec fn queue_limit(tx: mpsc::Sender<BookMessage>) -> nat;

/// How many books were taken out of a bounded queue.
pub uninterp spec fn queue_taken(rx: mpsc::Receiver<BookMessage>) -> nat;

/// Whether `rx` and `tx` are the two halves of one bounded queue.
pub uninterp spec fn queue_joins(rx: mpsc::Receiver<BookMessage>, tx: mpsc::Sender<BookMessage>) -> bool;

/// Calls `tokio::sync::mpsc::channel`. The claim: the two halves belong together, the
/// queue is empty and has room for `limit` books. The call panics on a limit of zero or
/// above an eighth of the range of `usize`, which `requires` leaves out.
#[verifier::external_body]
pub(crate) fn new_queue(limit: usize) -> (halves: (mpsc::Sender<BookMessage>, mpsc::Receiver<BookMessage>))
    requires
        0 < limit <= usize::MAX / 8,
    ensures
        queue_joins(halves.1, halves.0),
        queue_sent(halves.0).len() == 0,
        queue_taken(halves.1) == 0,
        queue_limit(halves.0) == limit,
{
    mpsc::channel(limit)
}

/// What becomes of a book that is offered to a bounded queue.
pub enum Offered {
    /// It is in the queue.
    Accepted,
    /// There was no room for it.
    Full,
    /// The receiving half is gone.
    Closed,
}

/// Calls `tokio::sync::mpsc::Sender::try_send`. The claim: a queue with room for one
/// more accepts the book, a full one does not change; the receiving half at hand keeps
/// the queue open.
#[verifier::external_body]
pub(crate) fn offer(tx: &mut mpsc::Sender<BookMessage>, rx: &mpsc::Receiver<BookMessage>, book: BookMessage) -> (offered: Offered)
    requires
        queue_joins(*rx, *old(tx)),
        queue_taken(*rx) <= queue_sent(*old(tx)).len(),
    ensures
        offered == if queue_sent(*old(tx)).len() - queue_taken(*rx) < queue_limit(*old(tx)) {
            Offered::Accepted
        } else {
            Offered::Full
        },
        queue_sent(*final(tx)) == if offered is Accepted {
            queue_sent(*old(tx)).push(book)
        } else {
            queue_sent(*old(tx))
        },
        queue_limit(*final(tx)) == queue_limit(*old(tx)),
        queue_joins(*rx, *final(tx)),
{
    let _ = rx;
    match tx.try_send(book) {
        Ok(()) => Offered::Accepted,
        Err(mpsc::error::TrySendError::Full(_)) => Offered::Full,
        Err(mpsc::error::TrySendError::Closed(_)) => Offered::Closed,
    }
}

/// Calls `tokio::sync::mpsc::Receiver::try_recv`. The claim: it takes the oldest book
/// that is still in the queue; there is none exactly when all were taken.
#[verifier::external_body]
pub(crate) fn take(rx: &mut mpsc::Receiver<BookMessage>, tx: &mpsc::Sender<BookMessage>) -> (book: Option<BookMessage>)
    requires
        queue_joins(*old(rx), *tx),
        queue_taken(*old(rx)) <= queue_sent(*tx).len(),
    ensures
        book is Some <==> queue_taken(*old(rx)) < queue_sent(*tx).len(),
        book is Some ==> book->Some_0 == queue_sent(*tx)[queue_taken(*old(rx)) as int],
        queue_taken(*final(rx)) == if book is Some {
            queue_taken(*old(rx)) + 1
        } else {
            queue_taken(*old(rx))
        },
        queue_joins(*final(rx), *tx),
{
    let _ = tx;
    rx.try_recv().ok()
}

} // verus!
