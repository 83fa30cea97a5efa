//! Bounded channels between shards, and senders tagged with the shard they
//! feed.

use vstd::prelude::*;

pub use crate::channel::ends::{
    drained_by_none, lemma_handed_after, lemma_lane_after, lemma_offers_after, outcome_of, slots, Drain, Lane, Receiver,
    SendOutcome, SendRefusal, Sender, CAPACITY_LIMIT,
};
use crate::channel::ends::{another_sender, offer, open_channel};
use crate::frames::ShardFrame;
use crate::metrics::{frame_drop_reason, MetricCounts};

mod ends;

verus! {

impl<T: 'static> Sender<T> {
    /// Hand an item over without blocking; a refused item comes back.
    pub fn try_send(&mut self, item: T) -> (outcome: Result<(), SendRefusal<T>>)
        ensures
            *final(self) == old(self).offered(item, outcome_of(outcome)),
            outcome matches Err(refusal) ==> refusal.spec_item() == item,
    {
        offer(self, item)
    }

    /// One more sender of the same channel, which has offered nothing yet.
    pub fn duplicate(&self) -> (sender: Sender<T>)
        ensures
            sender.lane() == self.lane(),
            sender.offers() == Seq::<(T, SendOutcome)>::empty(),
    {
        another_sender(self)
    }
}

/// A bounded channel. A capacity of zero counts as one.
pub fn channel<T: Send + 'static>(capacity: usize) -> (pair: (Sender<T>, Receiver<T>))
    requires
        capacity < CAPACITY_LIMIT,
    ensures
        pair.0.lane() == pair.1.lane(),
        pair.0.lane().capacity == slots(capacity),
        pair.0.offers() == Seq::<(T, SendOutcome)>::empty(),
{
    open_channel(capacity, &Vec::new(), &Vec::new())
}

/// The reason label of a refused send.
pub fn classify_try_send_err<T>(refusal: &SendRefusal<T>) -> (reason: &'static str)
    ensures
        reason@ == refusal.spec_reason(),
{
    match refusal {
        SendRefusal::Full(_) => frame_drop_reason::FULL,
        SendRefusal::Disconnected(_) => frame_drop_reason::DISCONNECTED,
    }
}

/// Why a shard or its coordinator could not be built.
#[derive(Debug, Clone, Copy, PartialEq, Eq, Structural)]
#[non_exhaustive]
pub enum ShardCtorError {
    SenderOrderingInvalid { index: usize, expected: u16, actual: u16 },
    /// Frames address shards by a 16-bit id.
    ShardCountOverflow { count: usize },
    CoordinatorSendersMismatch { senders: usize, total_shards: u16 },
}

/// The two lane senders of one shard, tagged with its id.
///
/// Routing indexes senders by shard id; the tag lets a constructor check that
/// every sender stands at its own index.
#[verifier::reject_recursive_types(F)]
pub struct TaggedSender<F: 'static> {
    pub shard_id: u16,
    pub inner: Sender<ShardFrame<F>>,
    pub reply: Sender<ShardFrame<F>>,
}

impl<F: 'static> TaggedSender<F> {
    /// Neither lane was offered anything through these senders.
    pub open spec fn is_fresh(&self) -> bool {
        self.inner.offers().len() == 0 && self.reply.offers().len() == 0
    }

    /// The two lanes these senders feed are the ones `other` feeds, and of the
    /// same shard.
    pub open spec fn same_lanes(&self, other: &TaggedSender<F>) -> bool {
        &&& self.shard_id == other.shard_id
        &&& self.inner.lane() == other.inner.lane()
        &&& self.reply.lane() == other.reply.lane()
    }

    /// These senders feed the two receivers, and the lanes hold that many
    /// frames.
    pub open spec fn feeds(
        &self,
        inbox: Receiver<ShardFrame<F>>,
        reply_inbox: Receiver<ShardFrame<F>>,
        capacity: usize,
        reply_capacity: usize,
    ) -> bool {
        &&& self.inner.lane() == inbox.lane()
        &&& self.reply.lane() == reply_inbox.lane()
        &&& self.inner.lane().capacity == slots(capacity)
        &&& self.reply.lane().capacity == slots(reply_capacity)
    }

    pub fn new(shard_id: u16, inner: Sender<ShardFrame<F>>, reply: Sender<ShardFrame<F>>) -> (tagged: TaggedSender<F>)
        ensures
            tagged == (TaggedSender { shard_id, inner, reply }),
    {
        TaggedSender { shard_id, inner, reply }
    }

    pub fn shard_id(&self) -> (id: u16)
        ensures
            id == self.shard_id,
    {
        self.shard_id
    }

    /// The reply lane: client replies go here, so that a burst on the main
    /// lane cannot evict them.
    pub fn reply_sender(&self) -> (sender: &Sender<ShardFrame<F>>)
        ensures
            *sender == self.reply,
    {
        &self.reply
    }

    /// These senders once the main lane was offered a frame.
    pub open spec fn offered(self, frame: ShardFrame<F>, outcome: SendOutcome) -> TaggedSender<F> {
        TaggedSender { inner: self.inner.offered(frame, outcome), ..self }
    }

    /// These senders once the reply lane was offered a frame.
    pub open spec fn offered_reply(self, frame: ShardFrame<F>, outcome: SendOutcome) -> TaggedSender<F> {
        TaggedSender { reply: self.reply.offered(frame, outcome), ..self }
    }

    /// Hand a frame to the main lane.
    pub fn try_send(&mut self, frame: ShardFrame<F>) -> (outcome: Result<(), SendRefusal<ShardFrame<F>>>)
        ensures
            *final(self) == old(self).offered(frame, outcome_of(outcome)),
            outcome matches Err(refusal) ==> refusal.spec_item() == frame,
    {
        self.inner.try_send(frame)
    }

    /// One more pair of senders of the same lanes, which have offered nothing
    /// yet.
    pub fn duplicate(&self) -> (tagged: TaggedSender<F>)
        ensures
            tagged.same_lanes(self),
            tagged.is_fresh(),
    {
        TaggedSender { shard_id: self.shard_id, inner: self.inner.duplicate(), reply: self.reply.duplicate() }
    }
}

/// Every sender stands at the index of the shard it feeds.
pub open spec fn canonical<F>(senders: Seq<TaggedSender<F>>) -> bool {
    forall|i: int| #![trigger senders[i]] 0 <= i < senders.len() ==> senders[i].shard_id == i
}

/// The senders once shard `target`'s main lane was offered a frame.
pub open spec fn offered_at<F>(
    senders: Seq<TaggedSender<F>>,
    target: int,
    frame: ShardFrame<F>,
    outcome: SendOutcome,
) -> Seq<TaggedSender<F>> {
    senders.update(target, senders[target].offered(frame, outcome))
}

/// Shard `target`'s main lane was offered a frame, and `sent` says whether it
/// took it.
pub open spec fn is_sent<F>(
    before: Seq<TaggedSender<F>>,
    after: Seq<TaggedSender<F>>,
    target: int,
    frame: ShardFrame<F>,
    sent: bool,
) -> bool {
    exists|outcome: SendOutcome| sent == (outcome is Taken) && after == #[trigger] offered_at(before, target, frame, outcome)
}

/// The counts after an offer under `variant`: a refused frame is recorded with
/// the reason it was refused for.
pub open spec fn with_send(counts: MetricCounts, variant: Seq<char>, outcome: SendOutcome) -> MetricCounts {
    match outcome {
        SendOutcome::Taken => counts,
        SendOutcome::Full => counts.dropped(variant, frame_drop_reason::FULL@),
        SendOutcome::Gone => counts.dropped(variant, frame_drop_reason::DISCONNECTED@),
    }
}

/// Shard `target`'s main lane was offered a frame, `sent` says whether it took
/// it, and a refusal is recorded with its reason.
pub open spec fn is_recorded_send<F>(
    before: Seq<TaggedSender<F>>,
    after: Seq<TaggedSender<F>>,
    target: int,
    frame: ShardFrame<F>,
    counts_before: MetricCounts,
    counts_after: MetricCounts,
    variant: Seq<char>,
    sent: bool,
) -> bool {
    exists|outcome: SendOutcome|
        {
            &&& sent == (outcome is Taken)
            &&& after == #[trigger] offered_at(before, target, frame, outcome)
            &&& counts_after == with_send(counts_before, variant, outcome)
        }
}

/// The senders once shard `target`'s reply lane was offered a frame.
pub open spec fn offered_reply_at<F>(
    senders: Seq<TaggedSender<F>>,
    target: int,
    frame: ShardFrame<F>,
    outcome: SendOutcome,
) -> Seq<TaggedSender<F>> {
    senders.update(target, senders[target].offered_reply(frame, outcome))
}

/// Nothing but shard `shard`'s main lane was offered anything.
pub open spec fn own_lane_only<F>(before: Seq<TaggedSender<F>>, after: Seq<TaggedSender<F>>, shard: int) -> bool {
    &&& after.len() == before.len()
    &&& forall|i: int| #![trigger after[i]] 0 <= i < after.len() && i != shard ==> after[i] == before[i]
    &&& 0 <= shard < after.len() ==> after[shard] == (TaggedSender { inner: after[shard].inner, ..before[shard] })
}

/// The first sender out of place, among those a 16-bit id can name.
pub open spec fn first_misplaced<F>(senders: Seq<TaggedSender<F>>, index: int) -> bool {
    &&& 0 <= index < senders.len()
    &&& index <= u16::MAX
    &&& senders[index].shard_id != index
    &&& forall|j: int| #![trigger senders[j]] 0 <= j < index ==> senders[j].shard_id == j
}

/// Check that every sender stands at its own index, and that a 16-bit id can
/// name every shard.
pub fn validate_sender_ordering<F: 'static>(senders: &Vec<TaggedSender<F>>) -> (valid: Result<(), ShardCtorError>)
    ensures
        match valid {
            Ok(_) => canonical(senders@) && senders@.len() <= u16::MAX,
            Err(ShardCtorError::SenderOrderingInvalid { index, expected, actual }) => {
                &&& first_misplaced(senders@, index as int)
                &&& expected == index
                &&& actual == senders@[index as int].shard_id
            },
            Err(ShardCtorError::ShardCountOverflow { count }) => {
                &&& count == senders@.len()
                &&& count > u16::MAX
                &&& forall|j: int|
                    #![trigger senders@[j]]
                    0 <= j < senders@.len() && j <= u16::MAX ==> senders@[j].shard_id == j
            },
            Err(_) => false,
        },
{
    let mut i: usize = 0;
    while i < senders.len() && i <= u16::MAX as usize
        invariant
            i <= senders@.len(),
            i <= u16::MAX + 1,
            forall|j: int| #![trigger senders@[j]] 0 <= j < i ==> senders@[j].shard_id == j,
        decreases senders@.len() - i,
    {
        let actual: u16 = senders[i].shard_id();
        if actual as usize != i {
            return Err(ShardCtorError::SenderOrderingInvalid { index: i, expected: i as u16, actual });
        }
        i += 1;
    }
    if senders.len() > u16::MAX as usize {
        return Err(ShardCtorError::ShardCountOverflow { count: senders.len() });
    }
    Ok(())
}

/// One more sender of every lane, which have offered nothing yet.
pub fn duplicate_senders<F: 'static>(senders: &Vec<TaggedSender<F>>) -> (copies: Vec<TaggedSender<F>>)
    ensures
        copies@.len() == senders@.len(),
        forall|i: int|
            #![trigger copies@[i]]
            0 <= i < copies@.len() ==> copies@[i].same_lanes(&senders@[i]) && copies@[i].is_fresh(),
{
    let mut copies: Vec<TaggedSender<F>> = Vec::new();
    let mut i: usize = 0;
    while i < senders.len()
        invariant
            i <= senders@.len(),
            copies@.len() == i,
            forall|j: int|
                #![trigger copies@[j]]
                0 <= j < i ==> copies@[j].same_lanes(&senders@[j]) && copies@[j].is_fresh(),
        decreases senders@.len() - i,
    {
        copies.push(senders[i].duplicate());
        i += 1;
    }
    copies
}

/// Open a shard's two lanes, whose receivers join those of the shards before.
fn open_lanes<F: Send + 'static>(
    owner_shard: u16,
    capacity: usize,
    reply_capacity: usize,
    inboxes: &mut Vec<Option<Receiver<ShardFrame<F>>>>,
    reply_inboxes: &mut Vec<Option<Receiver<ShardFrame<F>>>>,
) -> (sender: TaggedSender<F>)
    requires
        capacity < CAPACITY_LIMIT,
        reply_capacity < CAPACITY_LIMIT,
    ensures
        sender.shard_id == owner_shard,
        sender.is_fresh(),
        final(inboxes)@ == old(inboxes)@.push(final(inboxes)@.last()),
        final(inboxes)@.last() is Some,
        final(reply_inboxes)@ == old(reply_inboxes)@.push(final(reply_inboxes)@.last()),
        final(reply_inboxes)@.last() is Some,
        sender.feeds(final(inboxes)@.last()->0, final(reply_inboxes)@.last()->0, capacity, reply_capacity),
        sender.inner.lane().id != sender.reply.lane().id,
        drained_by_none(sender.inner.lane(), old(inboxes)@),
        drained_by_none(sender.inner.lane(), old(reply_inboxes)@),
        drained_by_none(sender.reply.lane(), old(inboxes)@),
        drained_by_none(sender.reply.lane(), old(reply_inboxes)@),
{
    let (tx, rx) = open_channel::<ShardFrame<F>>(capacity, inboxes, reply_inboxes);
    let ghost before = inboxes@;
    inboxes.push(Some(rx));
    let (reply_tx, reply_rx) = open_channel::<ShardFrame<F>>(reply_capacity, inboxes, reply_inboxes);
    proof {
        assert(inboxes@[before.len() as int]->0.lane() == tx.lane());
        assert forall|i: int|
            #![trigger before[i]]
            0 <= i < before.len() && before[i] is Some implies before[i]->0.lane().id != reply_rx.lane().id by {
            assert(inboxes@[i] == before[i]);
        }
    }
    reply_inboxes.push(Some(reply_rx));
    TaggedSender::new(owner_shard, tx, reply_tx)
}

/// A shard's two lanes: the tagged senders, the main receiver, the reply
/// receiver.
pub fn shard_channel<F: Send + 'static>(owner_shard: u16, capacity: usize, reply_capacity: usize) -> (lanes: (
    TaggedSender<F>,
    Receiver<ShardFrame<F>>,
    Receiver<ShardFrame<F>>,
))
    requires
        capacity < CAPACITY_LIMIT,
        reply_capacity < CAPACITY_LIMIT,
    ensures
        lanes.0.shard_id == owner_shard,
        lanes.0.is_fresh(),
        lanes.0.feeds(lanes.1, lanes.2, capacity, reply_capacity),
        lanes.0.inner.lane().id != lanes.0.reply.lane().id,
{
    let mut inboxes: Vec<Option<Receiver<ShardFrame<F>>>> = Vec::new();
    let mut reply_inboxes: Vec<Option<Receiver<ShardFrame<F>>>> = Vec::new();
    let tx: TaggedSender<F> = open_lanes(owner_shard, capacity, reply_capacity, &mut inboxes, &mut reply_inboxes);
    let rx: Receiver<ShardFrame<F>> = inboxes.pop().unwrap().unwrap();
    let reply_rx: Receiver<ShardFrame<F>> = reply_inboxes.pop().unwrap().unwrap();
    (tx, rx, reply_rx)
}

/// Senders and receivers of all shards, by shard id. A receiver is taken once,
/// by the runtime of its shard.
pub type ShardMesh<F> = (
    Vec<TaggedSender<F>>,
    Vec<Option<Receiver<ShardFrame<F>>>>,
    Vec<Option<Receiver<ShardFrame<F>>>>,
);

/// A shard's main lane ends in its own inbox and in no other receiver, and its
/// reply lane in its own reply inbox and in no other.
pub open spec fn reaches_only_its_own<F>(
    senders: Seq<TaggedSender<F>>,
    inboxes: Seq<Option<Receiver<ShardFrame<F>>>>,
    reply_inboxes: Seq<Option<Receiver<ShardFrame<F>>>>,
) -> bool {
    &&& forall|i: int, j: int|
        #![trigger senders[i], inboxes[j]]
        0 <= i < senders.len() && 0 <= j < inboxes.len() ==> {
            &&& senders[i].inner.lane().id == inboxes[j]->0.lane().id <==> i == j
            &&& senders[i].reply.lane().id != inboxes[j]->0.lane().id
        }
    &&& forall|i: int, j: int|
        #![trigger senders[i], reply_inboxes[j]]
        0 <= i < senders.len() && 0 <= j < reply_inboxes.len() ==> {
            &&& senders[i].inner.lane().id != reply_inboxes[j]->0.lane().id
            &&& senders[i].reply.lane().id == reply_inboxes[j]->0.lane().id <==> i == j
        }
}

/// The lanes of `total_shards` shards.
pub fn shard_mesh_channels<F: Send + 'static>(total_shards: u16, capacity: usize, reply_capacity: usize) -> (mesh: ShardMesh<F>)
    requires
        capacity < CAPACITY_LIMIT,
        reply_capacity < CAPACITY_LIMIT,
    ensures
        mesh.0@.len() == total_shards,
        canonical(mesh.0@),
        forall|i: int| #![trigger mesh.0@[i]] 0 <= i < total_shards ==> mesh.0@[i].is_fresh(),
        mesh.1@.len() == total_shards,
        mesh.2@.len() == total_shards,
        forall|i: int| #![trigger mesh.1@[i]] 0 <= i < total_shards ==> mesh.1@[i] is Some,
        forall|i: int| #![trigger mesh.2@[i]] 0 <= i < total_shards ==> mesh.2@[i] is Some,
        forall|i: int|
            #![trigger mesh.0@[i]]
            0 <= i < total_shards ==> mesh.0@[i].feeds(mesh.1@[i]->0, mesh.2@[i]->0, capacity, reply_capacity),
        reaches_only_its_own(mesh.0@, mesh.1@, mesh.2@),
{
    let mut senders: Vec<TaggedSender<F>> = Vec::new();
    let mut inboxes: Vec<Option<Receiver<ShardFrame<F>>>> = Vec::new();
    let mut reply_inboxes: Vec<Option<Receiver<ShardFrame<F>>>> = Vec::new();
    let mut shard_id: u16 = 0;
    while shard_id < total_shards
        invariant
            shard_id <= total_shards,
            senders@.len() == shard_id,
            canonical(senders@),
            forall|i: int| #![trigger senders@[i]] 0 <= i < shard_id ==> senders@[i].is_fresh(),
            inboxes@.len() == shard_id,
            reply_inboxes@.len() == shard_id,
            forall|i: int| #![trigger inboxes@[i]] 0 <= i < shard_id ==> inboxes@[i] is Some,
            forall|i: int| #![trigger reply_inboxes@[i]] 0 <= i < shard_id ==> reply_inboxes@[i] is Some,
            forall|i: int|
                #![trigger senders@[i]]
                0 <= i < shard_id ==> senders@[i].feeds(inboxes@[i]->0, reply_inboxes@[i]->0, capacity, reply_capacity),
            reaches_only_its_own(senders@, inboxes@, reply_inboxes@),
            capacity < CAPACITY_LIMIT,
            reply_capacity < CAPACITY_LIMIT,
        decreases total_shards - shard_id,
    {
        let ghost mains = inboxes@;
        let ghost replies = reply_inboxes@;
        let ghost before = senders@;
        let tx: TaggedSender<F> = open_lanes(shard_id, capacity, reply_capacity, &mut inboxes, &mut reply_inboxes);
        senders.push(tx);
        proof {
            lemma_mesh_grows(before, mains, replies, tx, inboxes@.last(), reply_inboxes@.last(), capacity, reply_capacity);
        }
        shard_id += 1;
    }
    (senders, inboxes, reply_inboxes)
}

proof fn lemma_mesh_grows<F>(
    senders: Seq<TaggedSender<F>>,
    inboxes: Seq<Option<Receiver<ShardFrame<F>>>>,
    reply_inboxes: Seq<Option<Receiver<ShardFrame<F>>>>,
    tx: TaggedSender<F>,
    inbox: Option<Receiver<ShardFrame<F>>>,
    reply_inbox: Option<Receiver<ShardFrame<F>>>,
    capacity: usize,
    reply_capacity: usize,
)
    requires
        reaches_only_its_own(senders, inboxes, reply_inboxes),
        inboxes.len() == senders.len(),
        reply_inboxes.len() == senders.len(),
        forall|i: int| #![trigger inboxes[i]] 0 <= i < inboxes.len() ==> inboxes[i] is Some,
        forall|i: int| #![trigger reply_inboxes[i]] 0 <= i < reply_inboxes.len() ==> reply_inboxes[i] is Some,
        forall|i: int|
            #![trigger senders[i]]
            0 <= i < senders.len() ==> senders[i].feeds(inboxes[i]->0, reply_inboxes[i]->0, capacity, reply_capacity),
        tx.feeds(inbox->0, reply_inbox->0, capacity, reply_capacity),
        tx.inner.lane().id != tx.reply.lane().id,
        drained_by_none(tx.inner.lane(), inboxes),
        drained_by_none(tx.inner.lane(), reply_inboxes),
        drained_by_none(tx.reply.lane(), inboxes),
        drained_by_none(tx.reply.lane(), reply_inboxes),
    ensures
        reaches_only_its_own(senders.push(tx), inboxes.push(inbox), reply_inboxes.push(reply_inbox)),
{
    let more = senders.push(tx);
    let mains = inboxes.push(inbox);
    let replies = reply_inboxes.push(reply_inbox);
    let last = senders.len() as int;
    assert forall|i: int, j: int|
        #![trigger more[i], mains[j]]
        0 <= i < more.len() && 0 <= j < mains.len() implies {
        &&& more[i].inner.lane().id == mains[j]->0.lane().id <==> i == j
        &&& more[i].reply.lane().id != mains[j]->0.lane().id
    } by {
        if i < last && j < last {
            assert(more[i] == senders[i] && mains[j] == inboxes[j]);
        } else if i < last {
            assert(more[i] == senders[i]);
            let _ = (inboxes[i], reply_inboxes[i]);
        } else if j < last {
            assert(mains[j] == inboxes[j]);
        }
    }
    assert forall|i: int, j: int|
        #![trigger more[i], replies[j]]
        0 <= i < more.len() && 0 <= j < replies.len() implies {
        &&& more[i].inner.lane().id != replies[j]->0.lane().id
        &&& more[i].reply.lane().id == replies[j]->0.lane().id <==> i == j
    } by {
        if i < last && j < last {
            assert(more[i] == senders[i] && replies[j] == reply_inboxes[j]);
        } else if i < last {
            assert(more[i] == senders[i]);
            let _ = (inboxes[i], reply_inboxes[i]);
        } else if j < last {
            assert(replies[j] == reply_inboxes[j]);
        }
    }
}

/// A frame offered to one shard's main lane touches no other lane and leaves
/// every sender at its index; a refused one leaves what its lane took as it was,
/// and one that was taken is the last of it.
pub proof fn law_offer_touches_one_lane<F>(senders: Seq<TaggedSender<F>>, target: int, frame: ShardFrame<F>, outcome: SendOutcome)
    requires
        0 <= target < senders.len(),
    ensures
        ({
            let after = offered_at(senders, target, frame, outcome);
            &&& own_lane_only(senders, after, target)
            &&& canonical(senders) ==> canonical(after)
            &&& after[target].inner.offers() == senders[target].inner.offers().push((frame, outcome))
            &&& !(outcome is Taken) ==> after[target].inner.handed() == senders[target].inner.handed()
            &&& outcome is Taken ==> after[target].inner.handed() == senders[target].inner.handed().push(frame)
            &&& after[target].same_lanes(&senders[target])
        }),
{
    let after = offered_at(senders, target, frame, outcome);
    lemma_offers_after(senders[target].inner, frame, outcome);
    lemma_handed_after(senders[target].inner, frame, outcome);
    lemma_lane_after(senders[target].inner, frame, outcome);
    assert forall|i: int| #![trigger after[i]] 0 <= i < after.len() && canonical(senders) implies after[i].shard_id == i by {
        let _ = senders[i];
    }
}

/// The mesh as built passes the check every constructor makes.
pub proof fn law_canonical_mesh_has_nothing_misplaced<F>(senders: Seq<TaggedSender<F>>, index: int)
    requires
        canonical(senders),
    ensures
        !first_misplaced(senders, index),
{
}

/// A send is delivered or counted: a frame that was taken is the last its lane
/// took, and nothing is counted; one that was not is counted as one drop of
/// its class, for a full lane or a lane that is gone. No other lane is touched.
pub proof fn law_send_is_delivered_or_counted<F>(
    before: Seq<TaggedSender<F>>,
    after: Seq<TaggedSender<F>>,
    target: int,
    frame: ShardFrame<F>,
    counts_before: MetricCounts,
    counts_after: MetricCounts,
    variant: Seq<char>,
    sent: bool,
)
    requires
        0 <= target < before.len(),
        is_recorded_send(before, after, target, frame, counts_before, counts_after, variant, sent),
    ensures
        own_lane_only(before, after, target),
        sent ==> {
            &&& after[target].inner.handed() == before[target].inner.handed().push(frame)
            &&& counts_after == counts_before
        },
        !sent ==> {
            &&& after[target].inner.handed() == before[target].inner.handed()
            &&& counts_after == counts_before.dropped(variant, frame_drop_reason::FULL@) || counts_after
                == counts_before.dropped(variant, frame_drop_reason::DISCONNECTED@)
        },
{
    let outcome = choose|outcome: SendOutcome|
        {
            &&& sent == (outcome is Taken)
            &&& after == #[trigger] offered_at(before, target, frame, outcome)
            &&& counts_after == with_send(counts_before, variant, outcome)
        };
    law_offer_touches_one_lane(before, target, frame, outcome);
}

/// The reason a send is counted under is the one it was refused for, and a
/// refused frame comes back as it was.
pub proof fn law_refusal_names_its_reason<T>(item: T, counts: MetricCounts, variant: Seq<char>)
    ensures
        SendRefusal::Full(item).spec_item() == item,
        SendRefusal::Disconnected(item).spec_item() == item,
        with_send(counts, variant, outcome_of::<T>(Ok(()))) == counts,
        with_send(counts, variant, outcome_of(Err(SendRefusal::Full(item)))) == counts.dropped(
            variant,
            SendRefusal::Full(item).spec_reason(),
        ),
        with_send(counts, variant, outcome_of(Err(SendRefusal::Disconnected(item)))) == counts.dropped(
            variant,
            SendRefusal::Disconnected(item).spec_reason(),
        ),
        SendRefusal::Full(item).spec_reason() == frame_drop_reason::FULL@,
        SendRefusal::Disconnected(item).spec_reason() == frame_drop_reason::DISCONNECTED@,
{
}

/// A send that is not recorded tells its caller what came of it: the frame is
/// the last its lane took exactly where the caller is told so.
pub proof fn law_send_tells_what_came_of_it<F>(
    before: Seq<TaggedSender<F>>,
    after: Seq<TaggedSender<F>>,
    target: int,
    frame: ShardFrame<F>,
    sent: bool,
)
    requires
        0 <= target < before.len(),
        is_sent(before, after, target, frame, sent),
    ensures
        own_lane_only(before, after, target),
        sent ==> after[target].inner.handed() == before[target].inner.handed().push(frame),
        !sent ==> after[target].inner.handed() == before[target].inner.handed(),
{
    let outcome = choose|outcome: SendOutcome|
        sent == (outcome is Taken) && after == #[trigger] offered_at(before, target, frame, outcome);
    law_offer_touches_one_lane(before, target, frame, outcome);
}

/// A lane holds as many frames as it was asked to, and one where it was asked
/// to hold none; its receiver is that of the same lane, main and reply apart.
pub proof fn law_lane_holds_what_it_was_asked_to<F>(
    sender: TaggedSender<F>,
    inbox: Receiver<ShardFrame<F>>,
    reply_inbox: Receiver<ShardFrame<F>>,
    capacity: usize,
    reply_capacity: usize,
)
    requires
        sender.feeds(inbox, reply_inbox, capacity, reply_capacity),
    ensures
        sender.inner.lane() == inbox.lane(),
        sender.reply.lane() == reply_inbox.lane(),
        capacity > 0 ==> inbox.lane().capacity == capacity,
        capacity == 0 ==> inbox.lane().capacity == 1,
        reply_capacity > 0 ==> reply_inbox.lane().capacity == reply_capacity,
        reply_capacity == 0 ==> reply_inbox.lane().capacity == 1,
{
}

/// No two shards of a mesh share a lane, and no main lane is a reply lane: what
/// is sent to one shard reaches no other.
pub proof fn law_no_lane_is_shared<F>(
    senders: Seq<TaggedSender<F>>,
    inboxes: Seq<Option<Receiver<ShardFrame<F>>>>,
    reply_inboxes: Seq<Option<Receiver<ShardFrame<F>>>>,
    from: int,
    to: int,
)
    requires
        reaches_only_its_own(senders, inboxes, reply_inboxes),
        inboxes.len() == senders.len(),
        reply_inboxes.len() == senders.len(),
        0 <= from < senders.len(),
        0 <= to < senders.len(),
    ensures
        from != to ==> senders[from].inner.lane().id != senders[to].inner.lane().id,
        from != to ==> senders[from].reply.lane().id != senders[to].reply.lane().id,
        senders[from].inner.lane().id != senders[to].reply.lane().id,
        senders[from].inner.lane().id == inboxes[from]->0.lane().id,
        senders[from].reply.lane().id == reply_inboxes[from]->0.lane().id,
{
    let _ = (senders[from], senders[to], inboxes[from], inboxes[to], reply_inboxes[from], reply_inboxes[to]);
}

/// A duplicated sender is of the same shard and lanes and has offered nothing
/// on either; what it offers from then on is all it ever did.
pub proof fn law_duplicate_starts_over<F>(original: TaggedSender<F>, copy: TaggedSender<F>, frame: ShardFrame<F>, outcome: SendOutcome)
    requires
        copy.same_lanes(&original),
        copy.is_fresh(),
    ensures
        copy.shard_id == original.shard_id,
        copy.inner.lane() == original.inner.lane(),
        copy.reply.lane() == original.reply.lane(),
        copy.offered(frame, outcome).inner.offers() == seq![(frame, outcome)],
        copy.offered_reply(frame, outcome).reply.offers() == seq![(frame, outcome)],
{
    lemma_offers_after(copy.inner, frame, outcome);
    lemma_offers_after(copy.reply, frame, outcome);
    assert(copy.inner.offers() =~= Seq::empty());
    assert(copy.reply.offers() =~= Seq::empty());
}

/// Where one main lane alone was used, every other sender is as it was and so
/// is that shard's reply lane.
pub proof fn law_other_lanes_are_untouched<F>(before: Seq<TaggedSender<F>>, after: Seq<TaggedSender<F>>, shard: int, other: int)
    requires
        own_lane_only(before, after, shard),
        0 <= shard < before.len(),
        0 <= other < before.len(),
    ensures
        after.len() == before.len(),
        other != shard ==> after[other] == before[other],
        after[other].reply == before[other].reply,
        after[other].shard_id == before[other].shard_id,
        canonical(before) ==> canonical(after),
{
    let _ = (after[other], after[shard]);
    assert forall|i: int| #![trigger after[i]] 0 <= i < after.len() && canonical(before) implies after[i].shard_id == i by {
        let _ = before[i];
    }
}

} // verus!
