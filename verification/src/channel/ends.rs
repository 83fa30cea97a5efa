//! The two ends of a bounded channel. Only the calls of the channel crate
//! below make an end or change what is known of it.

use vstd::prelude::*;

use crate::metrics::frame_drop_reason;

verus! {

/// One handle on the sending half of a bounded channel.
#[verifier::external_body]
#[verifier::reject_recursive_types(T)]
struct Handle<T: 'static> {
    tx: crossfire::MTx<crossfire::mpsc::Array<T>>,
}

/// The receiving half of a bounded channel.
#[verifier::external_body]
#[verifier::reject_recursive_types(T)]
pub struct Drain<T: 'static> {
    pub rx: crossfire::AsyncRx<crossfire::mpsc::Array<T>>,
}

/// One bounded channel: what tells it from another, and how many items it
/// holds.
pub struct Lane {
    pub id: int,
    pub capacity: nat,
}

/// What came of one offer.
#[derive(Debug, Clone, Copy, PartialEq, Eq, Structural)]
pub enum SendOutcome {
    /// The channel took the item.
    Taken,
    /// The channel had no slot.
    Full,
    /// The receiver is gone.
    Gone,
}

/// Sending half of a bounded channel. Its model is the channel it feeds and
/// everything offered through this very sender, with what came of it; what
/// other senders of the channel put in, and what the receiver took out, is not
/// this sender's to know.
#[verifier::reject_recursive_types(T)]
pub struct Sender<T: 'static> {
    handle: Handle<T>,
    lane: Ghost<Lane>,
    offers: Ghost<Seq<(T, SendOutcome)>>,
}

/// Receiving half of a bounded channel, drained by an async task.
#[verifier::reject_recursive_types(T)]
pub struct Receiver<T: 'static> {
    pub drain: Drain<T>,
    lane: Ghost<Lane>,
}

/// The items that were taken, of items offered in order.
pub open spec fn taken_items<T>(offers: Seq<(T, SendOutcome)>) -> Seq<T>
    decreases offers.len(),
{
    if offers.len() == 0 {
        Seq::empty()
    } else if offers.last().1 is Taken {
        taken_items(offers.drop_last()).push(offers.last().0)
    } else {
        taken_items(offers.drop_last())
    }
}

/// Capacities stay below this.
pub const CAPACITY_LIMIT: usize = 0x8000_0000;

/// Items a channel asked to hold `capacity` of them holds: at least one.
pub open spec fn slots(capacity: usize) -> nat {
    if capacity == 0 {
        1
    } else {
        capacity as nat
    }
}

/// A refused item, handed back.
pub enum SendRefusal<T> {
    Full(T),
    Disconnected(T),
}

impl<T> SendRefusal<T> {
    pub open spec fn spec_item(self) -> T {
        match self {
            SendRefusal::Full(item) => item,
            SendRefusal::Disconnected(item) => item,
        }
    }

    /// The reason label of the refusal.
    pub open spec fn spec_reason(self) -> Seq<char> {
        match self {
            SendRefusal::Full(_) => frame_drop_reason::FULL@,
            SendRefusal::Disconnected(_) => frame_drop_reason::DISCONNECTED@,
        }
    }
}

/// What came of an offer, read off its result.
pub open spec fn outcome_of<T>(result: Result<(), SendRefusal<T>>) -> SendOutcome {
    match result {
        Ok(_) => SendOutcome::Taken,
        Err(SendRefusal::Full(_)) => SendOutcome::Full,
        Err(SendRefusal::Disconnected(_)) => SendOutcome::Gone,
    }
}

/// Calls `crossfire::MTx::try_send`, which offers the channel the item and
/// never blocks: the sender's offers grow by this one. A refused item comes back
/// as it was handed in, as full where the queue had no slot, as disconnected
/// where the receiver is gone. Which of the three outcomes comes depends on the
/// queue's other users.
#[verifier::external_body]
pub(crate) fn offer<T: 'static>(sender: &mut Sender<T>, item: T) -> (outcome: Result<(), SendRefusal<T>>)
    ensures
        *final(sender) == old(sender).offered(item, outcome_of(outcome)),
        outcome matches Err(refusal) ==> refusal.spec_item() == item,
{
    sender.handle.tx.try_send(item).map_err(|error| match error {
        crossfire::TrySendError::Full(item) => SendRefusal::Full(item),
        crossfire::TrySendError::Disconnected(item) => SendRefusal::Disconnected(item),
    })
}

/// Calls `Clone::clone` of `crossfire::MTx`: one more sender of the same
/// channel, through which nothing was offered yet.
#[verifier::external_body]
pub(crate) fn another_sender<T: 'static>(sender: &Sender<T>) -> (another: Sender<T>)
    ensures
        another.lane() == sender.lane(),
        another.offers() == Seq::<(T, SendOutcome)>::empty(),
{
    Sender { handle: Handle { tx: sender.handle.tx.clone() }, lane: Ghost(arbitrary()), offers: Ghost(arbitrary()) }
}

/// None of the receivers drains the channel.
pub open spec fn drained_by_none<T>(lane: Lane, receivers: Seq<Option<Receiver<T>>>) -> bool {
    forall|i: int|
        #![trigger receivers[i]]
        0 <= i < receivers.len() && receivers[i] is Some ==> receivers[i]->0.lane().id != lane.id
}

/// Calls `crossfire::mpsc::bounded_blocking_async`: the two halves of one fresh
/// bounded channel, a blocking sender through which nothing was offered yet and
/// the async receiver it feeds. The channel holds `capacity` items, with zero
/// counting as one; its queue refuses to be built with a capacity at the limit
/// or above. A queue of its own is allocated, so whatever `mains` and `replies`
/// already drain is another channel.
#[allow(unused_variables)]
#[verifier::external_body]
pub(crate) fn open_channel<T: Send + 'static>(
    capacity: usize,
    mains: &Vec<Option<Receiver<T>>>,
    replies: &Vec<Option<Receiver<T>>>,
) -> (opened: (Sender<T>, Receiver<T>))
    requires
        capacity < CAPACITY_LIMIT,
    ensures
        opened.0.lane() == opened.1.lane(),
        opened.0.lane().capacity == slots(capacity),
        opened.0.offers() == Seq::<(T, SendOutcome)>::empty(),
        drained_by_none(opened.1.lane(), mains@),
        drained_by_none(opened.1.lane(), replies@),
{
    let (tx, rx) = crossfire::mpsc::bounded_blocking_async(capacity);
    (
        Sender { handle: Handle { tx }, lane: Ghost(arbitrary()), offers: Ghost(arbitrary()) },
        Receiver { drain: Drain { rx }, lane: Ghost(arbitrary()) },
    )
}

impl<T: 'static> Sender<T> {
    /// The channel this sender feeds.
    pub closed spec fn lane(&self) -> Lane {
        self.lane@
    }

    /// What was offered through this sender, in order, each with what came of
    /// it.
    pub closed spec fn offers(&self) -> Seq<(T, SendOutcome)> {
        self.offers@
    }

    /// What the channel took through this sender, in order.
    pub closed spec fn handed(&self) -> Seq<T> {
        taken_items(self.offers@)
    }

    /// This sender once it offered one more item with this outcome.
    pub closed spec fn offered(self, item: T, outcome: SendOutcome) -> Sender<T> {
        Sender { offers: Ghost(self.offers@.push((item, outcome))), ..self }
    }
}

impl<T: 'static> Receiver<T> {
    /// The channel this receiver drains.
    pub closed spec fn lane(&self) -> Lane {
        self.lane@
    }
}

/// An offer, whatever came of it, is the last of what was offered.
pub broadcast proof fn lemma_offers_after<T>(sender: Sender<T>, item: T, outcome: SendOutcome)
    ensures
        #[trigger] sender.offered(item, outcome).offers() == sender.offers().push((item, outcome)),
{
}

/// An item that was taken is the last of what the channel took; a refused one
/// is not among it.
pub broadcast proof fn lemma_handed_after<T>(sender: Sender<T>, item: T, outcome: SendOutcome)
    ensures
        #[trigger] sender.offered(item, outcome).handed() == if outcome is Taken {
            sender.handed().push(item)
        } else {
            sender.handed()
        },
{
    assert(sender.offers@.push((item, outcome)).drop_last() =~= sender.offers@);
}

/// A sender feeds one channel for good.
pub broadcast proof fn lemma_lane_after<T>(sender: Sender<T>, item: T, outcome: SendOutcome)
    ensures
        #[trigger] sender.offered(item, outcome).lane() == sender.lane(),
{
}

} // verus!
