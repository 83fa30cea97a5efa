//! Partition frames held until their namespace materialises.
//!
//! A frame that reaches a shard before the partition it addresses is parked,
//! stamped with the incarnation it was addressed to, under byte budgets that a
//! replicated frame may overshoot by one and a client request may not.

use std::collections::{BTreeMap, BTreeSet};

use vstd::prelude::*;

use crate::channel::{lemma_handed_after, lemma_offers_after, own_lane_only, SendOutcome, SendRefusal, TaggedSender};
use crate::frames::{Command, Message, ShardFrame};
use crate::lists::{
    in_order, lemma_filter_is_subsequence, lemma_filter_push, lemma_in_order, lemma_increasing_is_sorted, split_where,
    strictly_sorted,
};
use crate::metrics::{bumped, frame_drop_reason, frame_drop_variant, MetricCounts, ShardMetrics};

verus! {

broadcast use vstd::laws_cmp::group_laws_cmp;

/// Granularity of frame buffers.
pub const MESSAGE_ALIGN: u64 = 4096;

/// Client requests parked per namespace.
pub const MAX_PARKED_PER_NAMESPACE: usize = 128;

/// Bytes parked per shard.
pub const MAX_PARKED_BYTES: u64 = 16 * 1024 * 1024;

/// Bytes parked per namespace.
pub const MAX_PARKED_BYTES_PER_NAMESPACE: u64 = MAX_PARKED_BYTES / 4;

/// Reconciler passes a parked client request survives.
pub const MAX_PARKED_PASSES: u32 = 3;

/// Resident bytes of a frame: buffers are allocated in whole alignment units.
pub open spec fn footprint_of(len: int) -> int {
    if len % MESSAGE_ALIGN as int == 0 {
        len
    } else {
        len + MESSAGE_ALIGN - len % MESSAGE_ALIGN as int
    }
}

/// Resident cost of parking a frame of `len` bytes.
pub fn parked_footprint(len: u64) -> (footprint: u64)
    requires
        len <= u32::MAX,
    ensures
        footprint == footprint_of(len as int),
        len <= footprint < len + MESSAGE_ALIGN,
        footprint % MESSAGE_ALIGN == 0,
{
    let over: u64 = len % MESSAGE_ALIGN;
    if over == 0 {
        len
    } else {
        proof {
            assert((len - over) % 4096 == 0);
            assert((len + 4096 - over) % 4096 == 0);
        }
        len + (MESSAGE_ALIGN - over)
    }
}

/// A parked frame.
pub struct ParkedFrame {
    /// Incarnation the frame was addressed to; `None` where none was committed
    /// when it arrived.
    pub epoch: Option<u64>,
    /// Reconciler passes survived.
    pub passes: u32,
    pub message: Message,
}

impl ParkedFrame {
    pub open spec fn spec_footprint(self) -> int {
        footprint_of(self.message.bytes@.len() as int)
    }

    pub open spec fn spec_is_replicated(self) -> bool {
        !(self.message.command is Request)
    }

    pub fn footprint(&self) -> (footprint: u64)
        requires
            self.message.bytes@.len() <= u32::MAX,
        ensures
            footprint == self.spec_footprint(),
    {
        parked_footprint(self.message.bytes.len() as u64)
    }

    /// No client on this node waits for it.
    pub fn is_replicated(&self) -> (replicated: bool)
        ensures
            replicated == self.spec_is_replicated(),
    {
        !matches!(self.message.command, Command::Request)
    }
}

/// Resident bytes of some frames.
pub open spec fn frames_bytes(frames: Seq<ParkedFrame>) -> int
    decreases frames.len(),
{
    if frames.len() == 0 {
        0
    } else {
        frames_bytes(frames.drop_last()) + frames.last().spec_footprint()
    }
}

/// Client requests among some frames.
pub open spec fn request_count(frames: Seq<ParkedFrame>) -> int
    decreases frames.len(),
{
    if frames.len() == 0 {
        0
    } else {
        request_count(frames.drop_last()) + if frames.last().spec_is_replicated() {
            0int
        } else {
            1int
        }
    }
}

/// One namespace's parked frames.
pub struct ParkEntry {
    pub frames: Vec<ParkedFrame>,
    pub bytes: u64,
    /// Frames shed since the entry was made.
    pub shed: u64,
}

/// The frames parked under each namespace.
pub open spec fn parked(entries: Map<u64, ParkEntry>) -> Map<u64, Seq<ParkedFrame>> {
    entries.map_values(|entry: ParkEntry| entry.frames@)
}

/// How many frames each namespace shed since its entry was made.
pub open spec fn shed_counts(entries: Map<u64, ParkEntry>) -> Map<u64, u64> {
    entries.map_values(|entry: ParkEntry| entry.shed)
}

/// Resident bytes of everything parked.
pub open spec fn parked_bytes(buffer: Map<u64, Seq<ParkedFrame>>) -> int
    decreases buffer.dom().len(),
{
    if buffer.dom().finite() && buffer.dom().len() > 0 {
        let namespace = buffer.dom().choose();
        frames_bytes(buffer[namespace]) + parked_bytes(buffer.remove(namespace))
    } else {
        0
    }
}

/// An entry's own bookkeeping is exact.
pub open spec fn entry_wf(entry: ParkEntry) -> bool {
    &&& entry.frames@.len() > 0
    &&& entry.bytes == frames_bytes(entry.frames@)
    &&& request_count(entry.frames@) <= MAX_PARKED_PER_NAMESPACE
    &&& forall|i: int| #![trigger entry.frames@[i]] 0 <= i < entry.frames@.len() ==> entry.frames@[i].message.bytes@.len() <= u32::MAX
}

/// Whichever namespace is counted first, the total is the same.
proof fn lemma_parked_bytes_without(buffer: Map<u64, Seq<ParkedFrame>>, namespace: u64)
    requires
        buffer.dom().finite(),
        buffer.contains_key(namespace),
    ensures
        parked_bytes(buffer) == frames_bytes(buffer[namespace]) + parked_bytes(buffer.remove(namespace)),
    decreases buffer.dom().len(),
{
    let first = buffer.dom().choose();
    if first != namespace {
        let others = buffer.remove(first);
        lemma_parked_bytes_without(others, namespace);
        lemma_parked_bytes_without(buffer.remove(namespace), first);
        assert(others.remove(namespace) =~= buffer.remove(namespace).remove(first));
    }
}

proof fn lemma_parked_bytes_with(buffer: Map<u64, Seq<ParkedFrame>>, namespace: u64, frames: Seq<ParkedFrame>)
    requires
        buffer.dom().finite(),
    ensures
        parked_bytes(buffer.insert(namespace, frames)) == parked_bytes(buffer.remove(namespace)) + frames_bytes(frames),
        buffer.contains_key(namespace) ==> parked_bytes(buffer.remove(namespace)) == parked_bytes(buffer) - frames_bytes(
            buffer[namespace],
        ),
        !buffer.contains_key(namespace) ==> parked_bytes(buffer.remove(namespace)) == parked_bytes(buffer),
{
    lemma_parked_bytes_without(buffer.insert(namespace, frames), namespace);
    assert(buffer.insert(namespace, frames).remove(namespace) =~= buffer.remove(namespace));
    if buffer.contains_key(namespace) {
        lemma_parked_bytes_without(buffer, namespace);
    } else {
        assert(buffer.remove(namespace) =~= buffer);
    }
}

proof fn lemma_parked_bytes_nonnegative(buffer: Map<u64, Seq<ParkedFrame>>)
    ensures
        parked_bytes(buffer) >= 0,
    decreases buffer.dom().len(),
{
    if buffer.dom().finite() && buffer.dom().len() > 0 {
        let namespace = buffer.dom().choose();
        lemma_frames_nonnegative(buffer[namespace]);
        lemma_parked_bytes_nonnegative(buffer.remove(namespace));
    }
}

proof fn lemma_frames_nonnegative(frames: Seq<ParkedFrame>)
    ensures
        frames_bytes(frames) >= 0,
        0 <= request_count(frames) <= frames.len(),
    decreases frames.len(),
{
    if frames.len() > 0 {
        lemma_frames_nonnegative(frames.drop_last());
    }
}

proof fn lemma_frames_push(frames: Seq<ParkedFrame>, frame: ParkedFrame)
    ensures
        frames_bytes(frames.push(frame)) == frames_bytes(frames) + frame.spec_footprint(),
        request_count(frames.push(frame)) == request_count(frames) + if frame.spec_is_replicated() {
            0int
        } else {
            1int
        },
{
    assert(frames.push(frame).drop_last() =~= frames);
}

/// Where a namespace stands on this shard. A tombstone outranks presence: the
/// partition may still be there while its teardown already forbids serving it.
#[derive(Debug, Clone, Copy, PartialEq, Eq, Structural)]
pub enum NamespaceState {
    Tombstoned,
    Materialised,
    Absent,
}

/// What became of an arriving frame.
pub enum ParkOutcome {
    /// Process it.
    Deliver(Message),
    Parked,
    /// The namespace is mid-teardown: deny a client, let the plane drop the
    /// rest.
    Tombstoned(Message),
    /// The buffer is at capacity: deny a client, drop the rest. `first_shed`
    /// says that the shedding just began.
    Overflow { message: Message, first_shed: bool },
}

/// The park buffer of one shard.
pub struct ParkBuffer {
    /// By namespace, in increasing order, so sweeps are reproducible.
    pub entries: BTreeMap<u64, ParkEntry>,
    pub bytes: u64,
    /// Namespaces whose re-dispatch was refused.
    pub reparked: BTreeSet<u64>,
    /// The shard budget is shedding for namespaces that hold nothing.
    pub shedding: bool,
}

impl View for ParkBuffer {
    type V = Map<u64, Seq<ParkedFrame>>;

    open spec fn view(&self) -> Map<u64, Seq<ParkedFrame>> {
        parked(self.entries@)
    }
}

/// The frames parked under a namespace.
pub open spec fn frames_at(buffer: Map<u64, Seq<ParkedFrame>>, namespace: u64) -> Seq<ParkedFrame> {
    if buffer.contains_key(namespace) {
        buffer[namespace]
    } else {
        Seq::empty()
    }
}

/// A namespace other than this one holds frames.
pub open spec fn holds_another(buffer: Map<u64, Seq<ParkedFrame>>, namespace: u64) -> bool {
    exists|other: u64| other != namespace && #[trigger] buffer.contains_key(other)
}

/// Whether the shard budget still counts as shedding once a namespace's entry
/// left: the mark is lifted with the last entry.
pub open spec fn shedding_without(buffer: ParkBuffer, namespace: u64) -> bool {
    buffer.shedding && (!buffer@.contains_key(namespace) || holds_another(buffer@, namespace))
}

/// The namespace's entry was taken out and its retry disarmed.
pub open spec fn is_taken(before: ParkBuffer, after: ParkBuffer, namespace: u64) -> bool {
    &&& after@ == before@.remove(namespace)
    &&& shed_counts(after.entries@) == shed_counts(before.entries@).remove(namespace)
    &&& after.reparked@ == before.reparked@.remove(namespace)
    &&& after.bytes == before.bytes - frames_bytes(frames_at(before@, namespace))
    &&& after.shedding == shedding_without(before, namespace)
}

/// Every frame of the namespace aged by one pass, and those that outlived
/// their passes left.
pub open spec fn is_aged(before: ParkBuffer, after: ParkBuffer, namespace: u64, expired: Seq<ParkedFrame>) -> bool {
    let aged = aged_frames(frames_at(before@, namespace));
    let kept = aged.filter(|frame: ParkedFrame| !outlived(frame));
    &&& expired == aged.filter(|frame: ParkedFrame| outlived(frame))
    &&& if kept.len() == 0 {
        is_taken(before, after, namespace)
    } else {
        &&& after@ == before@.insert(namespace, kept)
        &&& shed_counts(after.entries@) == shed_counts(before.entries@)
        &&& after.reparked@ == before.reparked@
        &&& after.bytes == before.bytes - frames_bytes(expired)
        &&& after.shedding == before.shedding
    }
}

/// A namespace's entry after one more frame of it was shed.
pub open spec fn after_shed(entry: ParkEntry) -> ParkEntry {
    ParkEntry {
        shed: if entry.shed == u64::MAX {
            entry.shed
        } else {
            (entry.shed + 1) as u64
        },
        ..entry
    }
}

/// A budget refuses the frame. A request is refused the moment it would cross
/// a budget, a replicated frame only once the budget is already spent: nothing
/// recovers it.
pub open spec fn park_refused(total: int, frames: Seq<ParkedFrame>, cost: int, replicated: bool) -> bool {
    ||| !replicated && frames.len() >= MAX_PARKED_PER_NAMESPACE
    ||| frames.len() > 0 && if replicated {
        frames_bytes(frames) >= MAX_PARKED_BYTES_PER_NAMESPACE
    } else {
        frames_bytes(frames) + cost > MAX_PARKED_BYTES_PER_NAMESPACE
    }
    ||| if replicated {
        total >= MAX_PARKED_BYTES
    } else {
        total + cost > MAX_PARKED_BYTES
    }
}

/// One more frame is held, behind those of its namespace.
pub open spec fn is_parked(before: ParkBuffer, after: ParkBuffer, message: Message, epoch: Option<u64>) -> bool {
    &&& after@ == before@.insert(
        message.group,
        frames_at(before@, message.group).push(ParkedFrame { epoch, passes: 0, message }),
    )
    &&& shed_counts(after.entries@) == if before@.contains_key(message.group) {
        shed_counts(before.entries@)
    } else {
        shed_counts(before.entries@).insert(message.group, 0)
    }
    &&& after.bytes == before.bytes + footprint_of(message.bytes@.len() as int)
    &&& after.reparked@ == before.reparked@
    &&& after.shedding == before.shedding
}

/// Frames of the namespace are already being shed: its entry counts them, the
/// shard's mark stands in where it has none.
pub open spec fn is_shedding(buffer: ParkBuffer, namespace: u64) -> bool {
    if buffer@.contains_key(namespace) {
        buffer.entries@[namespace].shed > 0
    } else {
        buffer.shedding
    }
}

/// A frame of the namespace was shed: that is counted, and nothing else
/// changed.
pub open spec fn is_shed(before: ParkBuffer, after: ParkBuffer, namespace: u64) -> bool {
    &&& after@ == before@
    &&& after.bytes == before.bytes
    &&& after.reparked@ == before.reparked@
    &&& if before@.contains_key(namespace) {
        &&& after.entries@ == before.entries@.insert(namespace, after_shed(before.entries@[namespace]))
        &&& after.shedding == before.shedding
    } else {
        &&& after.entries@ == before.entries@
        &&& after.shedding
    }
}

/// What became of an arriving frame, given where its namespace stands.
pub open spec fn is_park_outcome(
    before: ParkBuffer,
    after: ParkBuffer,
    message: Message,
    state: NamespaceState,
    epoch: Option<u64>,
    outcome: ParkOutcome,
) -> bool {
    let frames = frames_at(before@, message.group);
    let cost = footprint_of(message.bytes@.len() as int);
    let replicated = !(message.command is Request);
    let waits = message.operation.spec_is_partition() && state is Absent;
    let refused = park_refused(before.bytes as int, frames, cost, replicated);
    match outcome {
        ParkOutcome::Deliver(back) => {
            &&& !message.operation.spec_is_partition() || state is Materialised
            &&& back == message
            &&& after == before
        },
        ParkOutcome::Tombstoned(back) => {
            &&& message.operation.spec_is_partition() && state is Tombstoned
            &&& back == message
            &&& after == before
        },
        ParkOutcome::Overflow { message: back, first_shed } => {
            &&& waits && refused
            &&& back == message
            &&& first_shed == !is_shedding(before, message.group)
            &&& is_shed(before, after, message.group)
        },
        ParkOutcome::Parked => {
            &&& waits && !refused
            &&& is_parked(before, after, message, epoch)
        },
    }
}

impl ParkBuffer {
    pub open spec fn wf(&self) -> bool {
        &&& forall|namespace: u64| #[trigger] self.entries@.contains_key(namespace) ==> entry_wf(self.entries@[namespace])
        &&& self.bytes == parked_bytes(self@)
        &&& self.bytes < MAX_PARKED_BYTES + footprint_of(u32::MAX as int)
        &&& self.reparked@.subset_of(self@.dom())
    }

    pub fn new() -> (buffer: ParkBuffer)
        ensures
            buffer.wf(),
            buffer@ == Map::<u64, Seq<ParkedFrame>>::empty(),
            buffer.bytes == 0,
            buffer.reparked@ == Set::<u64>::empty(),
            !buffer.shedding,
    {
        let buffer: ParkBuffer = ParkBuffer { entries: BTreeMap::new(), bytes: 0, reparked: BTreeSet::new(), shedding: false };
        proof {
            assert(buffer@ =~= Map::<u64, Seq<ParkedFrame>>::empty());
            assert(buffer@.dom() =~= Set::<u64>::empty());
        }
        buffer
    }

    /// Take an arriving frame: deliver it, or park it until its namespace
    /// materialises. `epoch` is the committed incarnation, if there is one.
    pub fn park_if_unmaterialised(&mut self, message: Message, state: NamespaceState, epoch: Option<u64>) -> (outcome: ParkOutcome)
        requires
            old(self).wf(),
            message.bytes@.len() <= u32::MAX,
        ensures
            final(self).wf(),
            is_park_outcome(*old(self), *final(self), message, state, epoch, outcome),
    {
        if !message.operation.is_partition() {
            return ParkOutcome::Deliver(message);
        }
        match state {
            NamespaceState::Tombstoned => {
                return ParkOutcome::Tombstoned(message);
            },
            NamespaceState::Materialised => {
                return ParkOutcome::Deliver(message);
            },
            NamespaceState::Absent => {},
        }
        let namespace: u64 = message.group;
        let frame: ParkedFrame = ParkedFrame { epoch, passes: 0, message };
        let cost: u64 = frame.footprint();
        let replicated: bool = frame.is_replicated();
        let (parked_len, namespace_bytes): (usize, u64) = match self.entries.get(&namespace) {
            Some(entry) => (entry.frames.len(), entry.bytes),
            None => (0, 0),
        };
        let frame_cap_spent: bool = !replicated && parked_len >= MAX_PARKED_PER_NAMESPACE;
        let namespace_budget_spent: bool = parked_len > 0 && if replicated {
            namespace_bytes >= MAX_PARKED_BYTES_PER_NAMESPACE
        } else {
            namespace_bytes.saturating_add(cost) > MAX_PARKED_BYTES_PER_NAMESPACE
        };
        let shard_budget_spent: bool = if replicated {
            self.bytes >= MAX_PARKED_BYTES
        } else {
            self.bytes.saturating_add(cost) > MAX_PARKED_BYTES
        };
        if frame_cap_spent || namespace_budget_spent || shard_budget_spent {
            let first_shed: bool = self.note_shed(namespace);
            return ParkOutcome::Overflow { message: frame.message, first_shed };
        }
        self.hold(namespace, frame, cost);
        ParkOutcome::Parked
    }

    /// Count a refused frame, and say whether the shedding just began.
    fn note_shed(&mut self, namespace: u64) -> (first: bool)
        requires
            old(self).wf(),
        ensures
            final(self).wf(),
            first == !is_shedding(*old(self), namespace),
            is_shed(*old(self), *final(self), namespace),
    {
        match self.entries.remove(&namespace) {
            Some(mut entry) => {
                let shed: u64 = entry.shed;
                entry.shed = shed.saturating_add(1);
                self.entries.insert(namespace, entry);
                proof {
                    assert(self.entries@ =~= old(self).entries@.insert(namespace, after_shed(old(self).entries@[namespace])));
                    assert(self@ =~= old(self)@);
                }
                shed == 0
            },
            None => {
                let first: bool = !self.shedding;
                self.shedding = true;
                proof {
                    assert(self.entries@ =~= old(self).entries@);
                }
                first
            },
        }
    }

    /// Put back or add a namespace's entry.
    fn put_entry(&mut self, namespace: u64, entry: ParkEntry)
        requires
            !old(self)@.contains_key(namespace),
            entry_wf(entry),
            forall|other: u64|
                #[trigger] old(self).entries@.contains_key(other) ==> entry_wf(old(self).entries@[other]),
            old(self).bytes == parked_bytes(old(self)@),
            old(self).bytes + entry.bytes < MAX_PARKED_BYTES + footprint_of(u32::MAX as int),
            old(self).reparked@.subset_of(old(self)@.dom().insert(namespace)),
        ensures
            final(self).wf(),
            final(self)@ == old(self)@.insert(namespace, entry.frames@),
            final(self).entries@ == old(self).entries@.insert(namespace, entry),
            final(self).bytes == old(self).bytes + entry.bytes,
            final(self).reparked == old(self).reparked,
            final(self).shedding == old(self).shedding,
    {
        let ghost view = self@;
        self.bytes = self.bytes.saturating_add(entry.bytes);
        self.entries.insert(namespace, entry);
        proof {
            assert(self@ =~= view.insert(namespace, entry.frames@));
            assert(view.dom() =~= old(self).entries@.dom());
            lemma_parked_bytes_with(view, namespace, entry.frames@);
            assert(self@.dom() =~= view.dom().insert(namespace));
        }
    }

    /// Take a namespace's entry out, its retry left armed.
    fn pull_entry(&mut self, namespace: u64) -> (pulled: Option<ParkEntry>)
        requires
            old(self).wf(),
        ensures
            match pulled {
                Some(entry) => {
                    &&& old(self)@.contains_key(namespace)
                    &&& entry == old(self).entries@[namespace]
                    &&& entry_wf(entry)
                    &&& final(self).bytes == old(self).bytes - entry.bytes
                },
                None => !old(self)@.contains_key(namespace) && final(self).bytes == old(self).bytes,
            },
            forall|other: u64|
                #[trigger] final(self).entries@.contains_key(other) ==> entry_wf(final(self).entries@[other]),
            final(self)@ == old(self)@.remove(namespace),
            final(self).entries@ == old(self).entries@.remove(namespace),
            final(self).bytes == parked_bytes(final(self)@),
            final(self).reparked == old(self).reparked,
            final(self).shedding == old(self).shedding,
    {
        let pulled: Option<ParkEntry> = self.entries.remove(&namespace);
        proof {
            assert(self.entries@ =~= old(self).entries@.remove(namespace));
            assert(self@ =~= old(self)@.remove(namespace));
            assert(old(self)@.dom() =~= old(self).entries@.dom());
            lemma_parked_bytes_nonnegative(self@);
            if pulled is Some {
                lemma_parked_bytes_without(old(self)@, namespace);
            } else {
                assert(self@ =~= old(self)@);
            }
        }
        if let Some(entry) = &pulled {
            self.bytes = self.bytes.saturating_sub(entry.bytes);
        }
        pulled
    }

    fn hold(&mut self, namespace: u64, frame: ParkedFrame, cost: u64)
        requires
            old(self).wf(),
            cost == frame.spec_footprint(),
            frame.message.bytes@.len() <= u32::MAX,
            !park_refused(
                old(self).bytes as int,
                frames_at(old(self)@, namespace),
                cost as int,
                frame.spec_is_replicated(),
            ),
        ensures
            final(self).wf(),
            final(self).reparked@ == old(self).reparked@,
            final(self).shedding == old(self).shedding,
            final(self)@ == old(self)@.insert(namespace, frames_at(old(self)@, namespace).push(frame)),
            shed_counts(final(self).entries@) == if old(self)@.contains_key(namespace) {
                shed_counts(old(self).entries@)
            } else {
                shed_counts(old(self).entries@).insert(namespace, 0)
            },
            final(self).bytes == old(self).bytes + cost,
    {
        let ghost view = self@;
        proof {
            assert(cost <= footprint_of(u32::MAX as int));
            lemma_frames_push(frames_at(view, namespace), frame);
            lemma_frames_nonnegative(frames_at(view, namespace));
        }
        let mut entry: ParkEntry = match self.pull_entry(namespace) {
            Some(entry) => entry,
            None => ParkEntry { frames: Vec::new(), bytes: 0, shed: 0 },
        };
        proof {
            lemma_parked_bytes_nonnegative(self@);
            assert(entry.frames@ =~= frames_at(view, namespace));
            assert(self@.dom().insert(namespace) =~= view.dom().insert(namespace));
        }
        entry.frames.push(frame);
        entry.bytes = entry.bytes.saturating_add(cost);
        self.put_entry(namespace, entry);
        proof {
            assert(self@ =~= view.insert(namespace, frames_at(view, namespace).push(frame)));
            assert(shed_counts(self.entries@) =~= if view.contains_key(namespace) {
                shed_counts(old(self).entries@)
            } else {
                shed_counts(old(self).entries@).insert(namespace, 0)
            });
        }
    }

    /// Remove a namespace's entry and disarm its retry.
    pub fn take_parked_partition_frames(&mut self, namespace: u64) -> (frames: Option<Vec<ParkedFrame>>)
        requires
            old(self).wf(),
        ensures
            final(self).wf(),
            is_taken(*old(self), *final(self), namespace),
            match frames {
                Some(frames) => {
                    &&& old(self)@.contains_key(namespace)
                    &&& frames@ == old(self)@[namespace]
                    &&& frames@.len() > 0
                    &&& request_count(frames@) <= MAX_PARKED_PER_NAMESPACE
                    &&& forall|i: int| #![trigger frames@[i]] 0 <= i < frames@.len() ==> frames@[i].message.bytes@.len() <= u32::MAX
                },
                None => !old(self)@.contains_key(namespace),
            },
    {
        let pulled: Option<ParkEntry> = self.pull_entry(namespace);
        self.reparked.remove(&namespace);
        proof {
            assert(self.reparked@ =~= old(self).reparked@.remove(namespace));
            assert(shed_counts(self.entries@) =~= shed_counts(old(self).entries@).remove(namespace));
        }
        match pulled {
            Some(entry) => {
                if self.entries.is_empty() {
                    self.shedding = false;
                }
                proof {
                    if holds_another(old(self)@, namespace) {
                        let other = choose|other: u64| other != namespace && #[trigger] old(self)@.contains_key(other);
                        assert(self@.contains_key(other));
                        assert(self.entries@.dom().contains(other));
                    } else if !self.entries@.is_empty() {
                        let other = self.entries@.dom().choose();
                        assert(self@.contains_key(other));
                        assert(old(self)@.contains_key(other));
                    }
                }
                Some(entry.frames)
            },
            None => None,
        }
    }

    /// Whether any frame is parked.
    pub fn has_parked_partition_frames(&self) -> (any: bool)
        requires
            self.wf(),
        ensures
            any == !(self@.dom() =~= Set::<u64>::empty()),
    {
        proof {
            assert(self@.dom() =~= self.entries@.dom());
        }
        !self.entries.is_empty()
    }

    /// Namespaces that hold parked frames, in increasing order.
    pub fn parked_namespaces(&self) -> (namespaces: Vec<u64>)
        requires
            self.wf(),
        ensures
            namespaces@ == in_order(self@.dom()),
            strictly_sorted(namespaces@),
            forall|namespace: u64| #[trigger] namespaces@.contains(namespace) <==> self@.contains_key(namespace),
    {
        broadcast use lemma_increasing_is_sorted;

        let mut namespaces: Vec<u64> = Vec::new();
        for namespace in keys: self.entries.keys()
            invariant
                keys.seq().unref().to_set() == self.entries@.dom(),
                strictly_sorted(keys.seq().unref()),
                namespaces@ == keys.seq().unref().take(keys.index() as int),
                keys.index() == keys.seq().len() ==> namespaces@ == keys.seq().unref(),
        {
            namespaces.push(*namespace);
        }
        proof {
            lemma_in_order(namespaces@);
            assert(self@.dom() =~= self.entries@.dom());
            assert forall|namespace: u64| #[trigger] namespaces@.contains(namespace) <==> self@.contains_key(namespace) by {
                assert(namespaces@.to_set().contains(namespace) == namespaces@.contains(namespace));
            }
        }
        namespaces
    }

    /// How many frames are parked under a namespace.
    pub fn parked_frame_count(&self, namespace: u64) -> (count: usize)
        requires
            self.wf(),
        ensures
            count == frames_at(self@, namespace).len(),
    {
        match self.entries.get(&namespace) {
            Some(entry) => entry.frames.len(),
            None => 0,
        }
    }

    /// Put frames back after a refused re-dispatch and arm the retry. Not
    /// checked against the budgets: the bytes were counted while parked.
    pub fn repark_partition_frames(&mut self, namespace: u64, frames: Vec<ParkedFrame>)
        requires
            old(self).wf(),
            !old(self)@.contains_key(namespace),
            frames@.len() > 0,
            request_count(frames@) <= MAX_PARKED_PER_NAMESPACE,
            old(self).bytes + frames_bytes(frames@) < MAX_PARKED_BYTES + footprint_of(u32::MAX as int),
            forall|i: int| #![trigger frames@[i]] 0 <= i < frames@.len() ==> frames@[i].message.bytes@.len() <= u32::MAX,
        ensures
            final(self).wf(),
            final(self)@ == old(self)@.insert(namespace, frames@),
            shed_counts(final(self).entries@) == shed_counts(old(self).entries@).insert(namespace, 0),
            final(self).bytes == old(self).bytes + frames_bytes(frames@),
            final(self).shedding == old(self).shedding,
            final(self).reparked@ == old(self).reparked@.insert(namespace),
    {
        proof {
            lemma_frames_nonnegative(frames@);
        }
        let restored: u64 = frames_footprint(&frames);
        self.put_entry(namespace, ParkEntry { frames, bytes: restored, shed: 0 });
        self.reparked.insert(namespace);
        proof {
            assert(shed_counts(self.entries@) =~= shed_counts(old(self).entries@).insert(namespace, 0));
        }
    }

    /// Age every frame of a namespace by one reconciler pass; client requests
    /// that outlived their passes come back to be answered. Replicated frames
    /// age but never expire: nothing recovers them.
    pub fn age_parked_partition_frames(&mut self, namespace: u64) -> (expired: Vec<ParkedFrame>)
        requires
            old(self).wf(),
        ensures
            final(self).wf(),
            is_aged(*old(self), *final(self), namespace, expired@),
    {
        let ghost before = *self;
        let entry: ParkEntry = match self.pull_entry(namespace) {
            Some(entry) => entry,
            None => {
                proof {
                    reveal(Seq::filter);
                    assert(aged_frames(frames_at(before@, namespace)) =~= Seq::<ParkedFrame>::empty());
                    assert(before@.remove(namespace) =~= before@);
                    assert(shed_counts(self.entries@) =~= shed_counts(before.entries@).remove(namespace));
                    assert(before.reparked@.remove(namespace) =~= before.reparked@);
                }
                return Vec::new();
            },
        };
        let bytes: u64 = entry.bytes;
        let shed: u64 = entry.shed;
        let (expired, kept): (Vec<ParkedFrame>, Vec<ParkedFrame>) = split_outlived(entry.frames);
        proof {
            lemma_frames_nonnegative(expired@);
            lemma_frames_nonnegative(kept@);
            lemma_parked_bytes_nonnegative(self@);
            assert(self@.dom().insert(namespace) =~= before@.dom());
        }
        if kept.len() == 0 {
            self.put_entry(namespace, ParkEntry { frames: expired, bytes, shed });
            let ghost whole = *self;
            let taken: Option<Vec<ParkedFrame>> = self.take_parked_partition_frames(namespace);
            proof {
                assert(whole@.dom() =~= before@.dom());
                assert(self@ =~= before@.remove(namespace));
                assert(shed_counts(self.entries@) =~= shed_counts(before.entries@).remove(namespace));
                assert(holds_another(whole@, namespace) == holds_another(before@, namespace)) by {
                    assert forall|other: u64| #[trigger] whole@.contains_key(other) == before@.contains_key(other) by {
                        assert(whole@.dom().contains(other) == before@.dom().contains(other));
                    }
                }
            }
            return match taken {
                Some(frames) => frames,
                None => Vec::new(),
            };
        }
        let freed: u64 = frames_footprint(&expired);
        self.put_entry(namespace, ParkEntry { frames: kept, bytes: bytes.saturating_sub(freed), shed });
        proof {
            assert(self@ =~= before@.insert(namespace, kept@));
            assert(shed_counts(self.entries@) =~= shed_counts(before.entries@));
        }
        expired
    }
}

/// Age some frames and split off those that outlived their passes.
fn split_outlived(frames: Vec<ParkedFrame>) -> (halves: (Vec<ParkedFrame>, Vec<ParkedFrame>))
    requires
        forall|i: int| #![trigger frames@[i]] 0 <= i < frames@.len() ==> frames@[i].message.bytes@.len() <= u32::MAX,
    ensures
        halves.0@ == aged_frames(frames@).filter(|frame: ParkedFrame| outlived(frame)),
        halves.1@ == aged_frames(frames@).filter(|frame: ParkedFrame| !outlived(frame)),
        frames_bytes(halves.0@) + frames_bytes(halves.1@) == frames_bytes(frames@),
        request_count(halves.0@) + request_count(halves.1@) == request_count(frames@),
        halves.0@.len() + halves.1@.len() == frames@.len(),
        forall|i: int| #![trigger halves.0@[i]] 0 <= i < halves.0@.len() ==> halves.0@[i].message.bytes@.len() <= u32::MAX,
        forall|i: int| #![trigger halves.1@[i]] 0 <= i < halves.1@.len() ==> halves.1@[i].message.bytes@.len() <= u32::MAX,
{
    let ghost held = frames@;
    let aged: Vec<ParkedFrame> = age_frames(frames);
    let ghost all = aged@;
    let ghost gone = |frame: ParkedFrame| outlived(frame);
    let ghost stays = |frame: ParkedFrame| !gone(frame);
    let is_gone = |frame: &ParkedFrame| -> (b: bool)
        ensures
            b == outlived(*frame),
    {
        !frame.is_replicated() && frame.passes > MAX_PARKED_PASSES
    };
    let (expired, kept): (Vec<ParkedFrame>, Vec<ParkedFrame>) = split_where(aged, is_gone, Ghost(gone));
    proof {
        let direct = |frame: ParkedFrame| !outlived(frame);
        assert(stays =~= direct);
        lemma_split_frames(all, gone, stays);
        lemma_aged_frames(held);
        assert forall|i: int| #![trigger all[i]] 0 <= i < all.len() implies all[i].message.bytes@.len() <= u32::MAX by {
            assert(all[i] == aged_frame(held[i]));
        }
        lemma_filter_is_subsequence(all, stays);
        lemma_filter_is_subsequence(all, gone);
    }
    (expired, kept)
}

fn frames_footprint(frames: &Vec<ParkedFrame>) -> (bytes: u64)
    requires
        frames_bytes(frames@) <= u64::MAX,
        forall|i: int| #![trigger frames@[i]] 0 <= i < frames@.len() ==> frames@[i].message.bytes@.len() <= u32::MAX,
    ensures
        bytes == frames_bytes(frames@),
{
    let mut bytes: u64 = 0;
    let mut i: usize = 0;
    proof {
        assert(frames@.take(0).len() == 0);
    }
    while i < frames.len()
        invariant
            i <= frames@.len(),
            frames_bytes(frames@) <= u64::MAX,
            forall|j: int| #![trigger frames@[j]] 0 <= j < frames@.len() ==> frames@[j].message.bytes@.len() <= u32::MAX,
            bytes == frames_bytes(frames@.take(i as int)),
        decreases frames@.len() - i,
    {
        proof {
            assert(frames@.take(i + 1) =~= frames@.take(i as int).push(frames@[i as int]));
            lemma_frames_push(frames@.take(i as int), frames@[i as int]);
            lemma_prefix_bytes(frames@, i + 1);
        }
        bytes = bytes + frames[i].footprint();
        i += 1;
    }
    proof {
        assert(frames@.take(i as int) =~= frames@);
    }
    bytes
}

fn age_frames(frames: Vec<ParkedFrame>) -> (aged: Vec<ParkedFrame>)
    ensures
        aged@ == aged_frames(frames@),
{
    let ghost all = frames@;
    let mut aged: Vec<ParkedFrame> = frames;
    let mut i: usize = 0;
    while i < aged.len()
        invariant
            i <= aged@.len(),
            aged@.len() == all.len(),
            forall|j: int|
                #![trigger aged@[j]]
                0 <= j < all.len() ==> aged@[j] == if j < i {
                    aged_frame(all[j])
                } else {
                    all[j]
                },
        decreases aged@.len() - i,
    {
        let passes: u32 = aged[i].passes;
        aged[i].passes = passes.saturating_add(1);
        i += 1;
    }
    proof {
        assert(aged@ =~= aged_frames(all));
    }
    aged
}

proof fn lemma_prefix_bytes(frames: Seq<ParkedFrame>, at: int)
    requires
        0 <= at <= frames.len(),
    ensures
        frames_bytes(frames.take(at)) <= frames_bytes(frames),
    decreases frames.len(),
{
    if at < frames.len() {
        lemma_prefix_bytes(frames.drop_last(), at);
        assert(frames.drop_last().take(at) =~= frames.take(at));
    } else {
        assert(frames.take(at) =~= frames);
    }
}

proof fn lemma_aged_frames(frames: Seq<ParkedFrame>)
    ensures
        frames_bytes(aged_frames(frames)) == frames_bytes(frames),
        request_count(aged_frames(frames)) == request_count(frames),
    decreases frames.len(),
{
    if frames.len() > 0 {
        lemma_aged_frames(frames.drop_last());
        assert(aged_frames(frames).drop_last() =~= aged_frames(frames.drop_last()));
    }
}

proof fn lemma_split_frames(frames: Seq<ParkedFrame>, left: spec_fn(ParkedFrame) -> bool, right: spec_fn(ParkedFrame) -> bool)
    requires
        forall|frame: ParkedFrame| #[trigger] right(frame) == !left(frame),
    ensures
        frames_bytes(frames) == frames_bytes(frames.filter(left)) + frames_bytes(frames.filter(right)),
        request_count(frames) == request_count(frames.filter(left)) + request_count(frames.filter(right)),
        frames.len() == frames.filter(left).len() + frames.filter(right).len(),
    decreases frames.len(),
{
    reveal(Seq::filter);
    if frames.len() > 0 {
        let front = frames.drop_last();
        lemma_split_frames(front, left, right);
        assert(front.push(frames.last()) =~= frames);
        lemma_filter_push(front, frames.last(), left);
        lemma_filter_push(front, frames.last(), right);
        if left(frames.last()) {
            lemma_frames_push(front.filter(left), frames.last());
        } else {
            assert(right(frames.last()));
            lemma_frames_push(front.filter(right), frames.last());
        }
    }
}

/// The request outlived its passes.
pub open spec fn outlived(frame: ParkedFrame) -> bool {
    !frame.spec_is_replicated() && frame.passes > MAX_PARKED_PASSES
}

pub open spec fn aged_frame(frame: ParkedFrame) -> ParkedFrame {
    ParkedFrame {
        passes: if frame.passes == u32::MAX {
            frame.passes
        } else {
            (frame.passes + 1) as u32
        },
        ..frame
    }
}

/// Every frame one pass older.
pub open spec fn aged_frames(frames: Seq<ParkedFrame>) -> Seq<ParkedFrame> {
    Seq::new(frames.len(), |i: int| aged_frame(frames[i]))
}

/// The frame may be served by the incarnation at `epoch`: its stamp agrees, or
/// it has none. Only a stamp that exists and disagrees is evidence of another
/// incarnation.
pub open spec fn serves_incarnation(frame: ParkedFrame, epoch: u64) -> bool {
    frame.epoch is None || frame.epoch == Some(epoch)
}

/// The counts after a frame of another incarnation was turned away: one
/// stamped ahead is an expected race, one behind is an anomaly.
pub open spec fn with_rejection(counts: MetricCounts, frame: ParkedFrame, epoch: u64) -> MetricCounts {
    if frame.epoch is Some && frame.epoch->0 > epoch {
        MetricCounts {
            partition_frames_rejected_ahead: bumped(counts.partition_frames_rejected_ahead),
            ..counts
        }
    } else {
        MetricCounts {
            partition_frames_rejected_stale: bumped(counts.partition_frames_rejected_stale),
            ..counts
        }
    }
}

/// The counts after several were turned away.
pub open spec fn with_rejections(counts: MetricCounts, frames: Seq<ParkedFrame>, epoch: u64) -> MetricCounts
    decreases frames.len(),
{
    if frames.len() == 0 {
        counts
    } else {
        with_rejection(with_rejections(counts, frames.drop_last(), epoch), frames.last(), epoch)
    }
}

/// What a re-dispatch leaves to be answered.
pub struct Redispatched {
    /// Frames of another incarnation: deny their clients.
    pub stale: Vec<ParkedFrame>,
    /// Frames no inbox will ever take: deny their clients, count the rest.
    pub retired: Vec<ParkedFrame>,
}

fn split_by_incarnation(frames: Vec<ParkedFrame>, epoch: u64) -> (halves: (Vec<ParkedFrame>, Vec<ParkedFrame>))
    requires
        forall|i: int| #![trigger frames@[i]] 0 <= i < frames@.len() ==> frames@[i].message.bytes@.len() <= u32::MAX,
    ensures
        halves.0@ == servable_frames(frames@, epoch),
        halves.1@ == stale_frames(frames@, epoch),
        frames_bytes(halves.0@) <= frames_bytes(frames@),
        request_count(halves.0@) <= request_count(frames@),
        forall|i: int| #![trigger halves.0@[i]] 0 <= i < halves.0@.len() ==> halves.0@[i].message.bytes@.len() <= u32::MAX,
{
    let ghost all = frames@;
    let ghost fits = |frame: ParkedFrame| serves_incarnation(frame, epoch);
    let ghost not_fits = |frame: ParkedFrame| !fits(frame);
    let is_fit = |frame: &ParkedFrame| -> (b: bool)
        ensures
            b == serves_incarnation(*frame, epoch),
    {
        match frame.epoch {
            Some(stamp) => stamp == epoch,
            None => true,
        }
    };
    let (servable, stale): (Vec<ParkedFrame>, Vec<ParkedFrame>) = split_where(frames, is_fit, Ghost(fits));
    proof {
        let direct = |frame: ParkedFrame| !serves_incarnation(frame, epoch);
        assert(not_fits =~= direct);
        lemma_split_frames(all, fits, not_fits);
        lemma_frames_nonnegative(stale@);
        lemma_filter_is_subsequence(all, fits);
    }
    (servable, stale)
}

fn record_rejections(metrics: &mut ShardMetrics, frames: &Vec<ParkedFrame>, epoch: u64)
    ensures
        final(metrics)@ == with_rejections(old(metrics)@, frames@, epoch),
{
    let mut i: usize = 0;
    let ghost before = metrics@;
    proof {
        assert(frames@.take(0).len() == 0);
    }
    while i < frames.len()
        invariant
            i <= frames@.len(),
            metrics@ == with_rejections(before, frames@.take(i as int), epoch),
        decreases frames@.len() - i,
    {
        proof {
            assert(frames@.take(i + 1).drop_last() =~= frames@.take(i as int));
        }
        let ahead: bool = match frames[i].epoch {
            Some(stamp) => stamp > epoch,
            None => false,
        };
        if ahead {
            metrics.record_partition_frame_rejected_ahead();
        } else {
            metrics.record_partition_frame_rejected_stale();
        }
        i += 1;
    }
    proof {
        assert(frames@.take(i as int) =~= frames@);
    }
}

/// How far a run of frames got into an inbox.
pub struct Handover {
    /// Frames the inbox did not take, in order; the first was refused.
    pub rest: Vec<ParkedFrame>,
    /// The inbox is gone, not merely full.
    pub disconnected: bool,
}

/// A shard's senders once its inbox took a run of parked frames.
pub open spec fn after_frames<F>(sender: TaggedSender<F>, shard_id: u16, frames: Seq<ParkedFrame>) -> TaggedSender<F>
    decreases frames.len(),
{
    if frames.len() == 0 {
        sender
    } else {
        after_frames(sender, shard_id, frames.drop_last()).offered(
            ShardFrame::Consensus { target_shard: shard_id, message: frames.last().message },
            SendOutcome::Taken,
        )
    }
}

/// Parked frames as they travel.
pub open spec fn dispatched<F>(shard_id: u16, frames: Seq<ParkedFrame>) -> Seq<ShardFrame<F>> {
    Seq::new(frames.len(), |i: int| ShardFrame::Consensus { target_shard: shard_id, message: frames[i].message })
}

proof fn lemma_after_frames<F>(sender: TaggedSender<F>, shard_id: u16, frames: Seq<ParkedFrame>)
    ensures
        after_frames(sender, shard_id, frames).inner.handed() == sender.inner.handed() + dispatched::<F>(shard_id, frames),
        after_frames(sender, shard_id, frames).reply == sender.reply,
        after_frames(sender, shard_id, frames).shard_id == sender.shard_id,
    decreases frames.len(),
{
    broadcast use lemma_handed_after;

    if frames.len() == 0 {
        assert(sender.inner.handed() + dispatched::<F>(shard_id, frames) =~= sender.inner.handed());
    } else {
        lemma_after_frames(sender, shard_id, frames.drop_last());
        assert(sender.inner.handed() + dispatched::<F>(shard_id, frames) =~= (sender.inner.handed() + dispatched::<F>(
            shard_id,
            frames.drop_last(),
        )).push(ShardFrame::Consensus { target_shard: shard_id, message: frames.last().message }));
    }
}

/// A shard's senders once its inbox was offered a run of parked frames, took
/// the first `taken` of them and refused the next, if there is one; `gone` says
/// it refused because it is gone.
pub open spec fn after_handover<F>(
    sender: TaggedSender<F>,
    shard_id: u16,
    frames: Seq<ParkedFrame>,
    taken: int,
    gone: bool,
) -> TaggedSender<F> {
    if taken < frames.len() {
        after_frames(sender, shard_id, frames.take(taken)).offered(
            ShardFrame::Consensus { target_shard: shard_id, message: frames[taken].message },
            if gone {
                SendOutcome::Gone
            } else {
                SendOutcome::Full
            },
        )
    } else {
        after_frames(sender, shard_id, frames.take(taken))
    }
}

proof fn lemma_after_handover<F>(sender: TaggedSender<F>, shard_id: u16, frames: Seq<ParkedFrame>, taken: int, gone: bool)
    ensures
        after_handover(sender, shard_id, frames, taken, gone).inner.handed() == sender.inner.handed() + dispatched::<F>(
            shard_id,
            frames.take(taken),
        ),
        after_handover(sender, shard_id, frames, taken, gone).reply == sender.reply,
        after_handover(sender, shard_id, frames, taken, gone).shard_id == sender.shard_id,
{
    broadcast use lemma_handed_after;

    lemma_after_frames(sender, shard_id, frames.take(taken));
}

/// A run of frames got as far into an inbox as `taken` says.
pub open spec fn is_handover<F>(
    before: TaggedSender<F>,
    after: TaggedSender<F>,
    shard_id: u16,
    frames: Seq<ParkedFrame>,
    handover: Handover,
    taken: int,
) -> bool {
    &&& 0 <= taken <= frames.len()
    &&& handover.rest@ == frames.skip(taken)
    &&& after == after_handover(before, shard_id, frames, taken, handover.disconnected)
}

/// Hand frames to an inbox in order, stopping at the first refusal: the only
/// consumer is the caller's own task, so no later frame finds a slot the first
/// could not.
fn hand_over<F: 'static>(sender: &mut TaggedSender<F>, shard_id: u16, frames: Vec<ParkedFrame>) -> (handover: Handover)
    ensures
        exists|taken: int| #[trigger] is_handover(*old(sender), *final(sender), shard_id, frames@, handover, taken),
        handover.rest@.len() == 0 ==> !handover.disconnected,
{
    let ghost all = frames@;
    let ghost start = *sender;
    let mut remaining: Vec<ParkedFrame> = frames;
    let ghost mut taken: int = 0;
    proof {
        assert(all.skip(0) =~= all);
        assert(all.take(0).len() == 0);
    }
    while remaining.len() > 0
        invariant
            all == frames@,
            start == *old(sender),
            0 <= taken <= all.len(),
            remaining@ == all.skip(taken),
            *sender == after_frames(start, shard_id, all.take(taken)),
        decreases remaining@.len(),
    {
        let ghost before = remaining@;
        let frame: ParkedFrame = remaining.remove(0);
        let epoch: Option<u64> = frame.epoch;
        let passes: u32 = frame.passes;
        match sender.try_send(ShardFrame::consensus(shard_id, frame.message)) {
            Ok(_) => {
                proof {
                    assert(all.take(taken + 1).drop_last() =~= all.take(taken));
                    taken = taken + 1;
                    assert(remaining@ =~= all.skip(taken));
                }
            },
            Err(refusal) => {
                let (refused, disconnected): (ShardFrame<F>, bool) = match refusal {
                    SendRefusal::Full(refused) => (refused, false),
                    SendRefusal::Disconnected(refused) => (refused, true),
                };
                if let ShardFrame::Consensus { target_shard: _, message } = refused {
                    remaining.insert(0, ParkedFrame { epoch, passes, message });
                    proof {
                        assert(remaining@ =~= before);
                    }
                }
                let handover: Handover = Handover { rest: remaining, disconnected };
                proof {
                    assert(is_handover(*old(sender), *sender, shard_id, frames@, handover, taken));
                }
                return handover;
            },
        }
    }
    let handover: Handover = Handover { rest: remaining, disconnected: false };
    proof {
        assert(is_handover(*old(sender), *sender, shard_id, frames@, handover, taken));
    }
    handover
}

proof fn lemma_suffix_frames(frames: Seq<ParkedFrame>, at: int)
    requires
        0 <= at <= frames.len(),
    ensures
        frames_bytes(frames.skip(at)) <= frames_bytes(frames),
        request_count(frames.skip(at)) <= request_count(frames),
    decreases frames.len(),
{
    lemma_frames_nonnegative(frames);
    if at < frames.len() {
        lemma_suffix_frames(frames.drop_last(), at);
        assert(frames.skip(at).drop_last() =~= frames.drop_last().skip(at));
    } else {
        assert(frames.skip(at).len() == 0);
    }
}

/// The frames the incarnation at `epoch` may serve, in order.
pub open spec fn servable_frames(frames: Seq<ParkedFrame>, epoch: u64) -> Seq<ParkedFrame> {
    frames.filter(|frame: ParkedFrame| serves_incarnation(frame, epoch))
}

/// The frames of another incarnation, in order.
pub open spec fn stale_frames(frames: Seq<ParkedFrame>, epoch: u64) -> Seq<ParkedFrame> {
    frames.filter(|frame: ParkedFrame| !serves_incarnation(frame, epoch))
}

/// How a re-dispatch settled the frames the inbox did not take: a full inbox
/// only defers them, behind one that is gone they are retired.
pub open spec fn is_settled(
    before: ParkBuffer,
    after: ParkBuffer,
    counts_before: MetricCounts,
    counts_after: MetricCounts,
    namespace: u64,
    epoch: u64,
    done: Redispatched,
    rest: Seq<ParkedFrame>,
    gone: bool,
) -> bool {
    let rejected = with_rejections(counts_before, stale_frames(frames_at(before@, namespace), epoch), epoch);
    if rest.len() == 0 {
        &&& done.retired@.len() == 0
        &&& is_taken(before, after, namespace)
        &&& counts_after == rejected
    } else if !gone {
        &&& done.retired@.len() == 0
        &&& after@ == before@.insert(namespace, rest)
        &&& shed_counts(after.entries@) == shed_counts(before.entries@).insert(namespace, 0)
        &&& after.reparked@ == before.reparked@.insert(namespace)
        &&& after.bytes == before.bytes - frames_bytes(frames_at(before@, namespace)) + frames_bytes(rest)
        &&& after.shedding == shedding_without(before, namespace)
        &&& counts_after == rejected
    } else {
        &&& done.retired@ == rest
        &&& is_taken(before, after, namespace)
        &&& counts_after == rejected.dropped(frame_drop_variant::PARTITION@, frame_drop_reason::DISCONNECTED@)
    }
}

/// What a re-dispatch did with the frames it took: those of another
/// incarnation are turned away; of the rest a prefix went into the inbox, and
/// what remains is held again, or retired where the inbox is gone.
pub open spec fn is_redispatch<F>(
    before: ParkBuffer,
    after: ParkBuffer,
    counts_before: MetricCounts,
    counts_after: MetricCounts,
    lanes_before: Seq<TaggedSender<F>>,
    lanes_after: Seq<TaggedSender<F>>,
    shard_id: u16,
    namespace: u64,
    epoch: u64,
    done: Redispatched,
) -> bool {
    let frames = frames_at(before@, namespace);
    let servable = servable_frames(frames, epoch);
    &&& done.stale@ == stale_frames(frames, epoch)
    &&& if shard_id >= lanes_before.len() {
        &&& done.retired@ == servable
        &&& is_taken(before, after, namespace)
        &&& counts_after == with_rejections(counts_before, stale_frames(frames, epoch), epoch)
        &&& lanes_after == lanes_before
    } else {
        exists|taken: int, gone: bool|
            #![trigger after_handover(lanes_before[shard_id as int], shard_id, servable, taken, gone)]
            {
                &&& 0 <= taken <= servable.len()
                &&& is_settled(before, after, counts_before, counts_after, namespace, epoch, done, servable.skip(taken), gone)
                &&& lanes_after == lanes_before.update(
                    shard_id as int,
                    after_handover(lanes_before[shard_id as int], shard_id, servable, taken, gone),
                )
            }
    }
}

impl ParkBuffer {
    /// Hand the frames parked for a namespace to this shard's own inbox, now
    /// that its partition exists at `epoch`.
    pub fn redispatch_parked_frames<F: 'static>(
        &mut self,
        metrics: &mut ShardMetrics,
        namespace: u64,
        epoch: u64,
        shard_id: u16,
        senders: &mut Vec<TaggedSender<F>>,
    ) -> (done: Redispatched)
        requires
            old(self).wf(),
        ensures
            final(self).wf(),
            is_redispatch(
                *old(self),
                *final(self),
                old(metrics)@,
                final(metrics)@,
                old(senders)@,
                final(senders)@,
                shard_id,
                namespace,
                epoch,
                done,
            ),
            own_lane_only(old(senders)@, final(senders)@, shard_id as int),
    {
        let ghost before = *self;
        let ghost counts = metrics@;
        let ghost lanes = senders@;
        let frames: Vec<ParkedFrame> = match self.take_parked_partition_frames(namespace) {
            Some(frames) => frames,
            None => {
                proof {
                    reveal(Seq::filter);
                    let servable = servable_frames(Seq::empty(), epoch);
                    assert(servable.skip(0) =~= Seq::<ParkedFrame>::empty());
                    if shard_id < lanes.len() {
                        assert(after_handover(lanes[shard_id as int], shard_id, servable, 0, false) == lanes[shard_id as int]);
                        assert(lanes.update(shard_id as int, lanes[shard_id as int]) =~= lanes);
                    }
                    assert(servable =~= Seq::<ParkedFrame>::empty());
                    assert(frames_at(before@, namespace) =~= Seq::<ParkedFrame>::empty());
                    assert(before@.remove(namespace) =~= before@);
                }
                return Redispatched { stale: Vec::new(), retired: Vec::new() };
            },
        };
        let (servable, stale): (Vec<ParkedFrame>, Vec<ParkedFrame>) = split_by_incarnation(frames, epoch);
        record_rejections(metrics, &stale, epoch);
        if shard_id as usize >= senders.len() {
            return Redispatched { stale, retired: servable };
        }
        let ghost run = servable@;
        let handover: Handover = hand_over(&mut senders[shard_id as usize], shard_id, servable);
        let ghost taken = choose|taken: int|
            #[trigger] is_handover(lanes[shard_id as int], senders@[shard_id as int], shard_id, run, handover, taken);
        proof {
            lemma_suffix_frames(run, taken);
            lemma_after_handover(lanes[shard_id as int], shard_id, run, taken, handover.disconnected);
            assert(run.skip(taken) == handover.rest@);
            assert(run == servable_frames(frames_at(before@, namespace), epoch));
            assert(metrics@ == with_rejections(counts, stale@, epoch));
            assert(self@ =~= before@.remove(namespace));
            assert forall|i: int| #![trigger handover.rest@[i]] 0 <= i < handover.rest@.len() implies handover.rest@[i].message.bytes@.len()
                <= u32::MAX by {
                assert(handover.rest@[i] == run[taken + i]);
            }
        }
        let retired: Vec<ParkedFrame> = self.settle_handover(metrics, namespace, handover);
        proof {
            assert(before@.remove(namespace).insert(namespace, run.skip(taken)) =~= before@.insert(namespace, run.skip(taken)));
            assert(before.reparked@.remove(namespace).insert(namespace) =~= before.reparked@.insert(namespace));
            assert(shed_counts(before.entries@).remove(namespace).insert(namespace, 0) =~= shed_counts(before.entries@).insert(
                namespace,
                0,
            ));
        }
        Redispatched { stale, retired }
    }

    /// Settle what an inbox did not take. A full inbox only defers: the frames
    /// are held again and their retry is armed. Behind a disconnected one
    /// nothing will ever drain them, so they come back to be retired, with one
    /// drop on record.
    pub fn settle_handover(&mut self, metrics: &mut ShardMetrics, namespace: u64, handover: Handover) -> (retired: Vec<ParkedFrame>)
        requires
            old(self).wf(),
            !old(self)@.contains_key(namespace),
            request_count(handover.rest@) <= MAX_PARKED_PER_NAMESPACE,
            old(self).bytes + frames_bytes(handover.rest@) < MAX_PARKED_BYTES + footprint_of(u32::MAX as int),
            forall|i: int|
                #![trigger handover.rest@[i]]
                0 <= i < handover.rest@.len() ==> handover.rest@[i].message.bytes@.len() <= u32::MAX,
        ensures
            final(self).wf(),
            if handover.rest@.len() == 0 {
                &&& retired@.len() == 0
                &&& *final(self) == *old(self)
                &&& final(metrics)@ == old(metrics)@
            } else if handover.disconnected {
                &&& retired@ == handover.rest@
                &&& *final(self) == *old(self)
                &&& final(metrics)@ == old(metrics)@.dropped(frame_drop_variant::PARTITION@, frame_drop_reason::DISCONNECTED@)
            } else {
                &&& retired@.len() == 0
                &&& final(self)@ == old(self)@.insert(namespace, handover.rest@)
                &&& shed_counts(final(self).entries@) == shed_counts(old(self).entries@).insert(namespace, 0)
                &&& final(self).bytes == old(self).bytes + frames_bytes(handover.rest@)
                &&& final(self).reparked@ == old(self).reparked@.insert(namespace)
                &&& final(self).shedding == old(self).shedding
                &&& final(metrics)@ == old(metrics)@
            },
    {
        if handover.rest.len() == 0 {
            return Vec::new();
        }
        if handover.disconnected {
            metrics.record_frame_drop(frame_drop_variant::PARTITION, frame_drop_reason::DISCONNECTED);
            return handover.rest;
        }
        self.repark_partition_frames(namespace, handover.rest);
        Vec::new()
    }

    /// Take the namespaces whose frames an inbox refused, in increasing order.
    /// Only another refusal arms one again.
    pub fn take_reparked(&mut self) -> (namespaces: Vec<u64>)
        requires
            old(self).wf(),
        ensures
            final(self).wf(),
            namespaces@ == in_order(old(self).reparked@),
            final(self).reparked@ == Set::<u64>::empty(),
            final(self).entries == old(self).entries,
            final(self).bytes == old(self).bytes,
            final(self).shedding == old(self).shedding,
    {
        broadcast use lemma_increasing_is_sorted;

        let mut namespaces: Vec<u64> = Vec::new();
        for namespace in armed: self.reparked.iter()
            invariant
                armed.seq().unref().to_set() == self.reparked@,
                strictly_sorted(armed.seq().unref()),
                namespaces@ == armed.seq().unref().take(armed.index() as int),
                armed.index() == armed.seq().len() ==> namespaces@ == armed.seq().unref(),
        {
            namespaces.push(*namespace);
        }
        proof {
            lemma_in_order(namespaces@);
        }
        self.reparked = BTreeSet::new();
        namespaces
    }
}

/// A parked frame comes back as it was: parking it and then taking its
/// namespace yields it last, behind those parked before it.
pub proof fn law_parked_frame_comes_back(before: ParkBuffer, parked: ParkBuffer, message: Message, epoch: Option<u64>)
    requires
        is_parked(before, parked, message, epoch),
    ensures
        frames_at(parked@, message.group).drop_last() == frames_at(before@, message.group),
        frames_at(parked@, message.group).last() == (ParkedFrame { epoch, passes: 0, message }),
        forall|other: u64| other != message.group ==> #[trigger] frames_at(parked@, other) == frames_at(before@, other),
{
    let frames = frames_at(before@, message.group);
    assert(frames.push(ParkedFrame { epoch, passes: 0, message }).drop_last() =~= frames);
}

/// A client request that is parked crosses neither byte budget, unless it is
/// the first frame of its namespace, which only the shard's budget bounds.
pub proof fn law_parked_request_stays_within_the_budgets(total: int, frames: Seq<ParkedFrame>, cost: int)
    requires
        !park_refused(total, frames, cost, false),
    ensures
        total + cost <= MAX_PARKED_BYTES,
        frames.len() > 0 ==> frames_bytes(frames) + cost <= MAX_PARKED_BYTES_PER_NAMESPACE,
        frames.len() < MAX_PARKED_PER_NAMESPACE,
{
}

/// A replicated frame is turned away only once a budget is already spent, so
/// the overshoot is less than one frame.
pub proof fn law_replicated_overshoot_is_one_frame(total: int, frames: Seq<ParkedFrame>, cost: int)
    requires
        !park_refused(total, frames, cost, true),
    ensures
        total + cost < MAX_PARKED_BYTES + cost,
        frames.len() > 0 ==> frames_bytes(frames) + cost < MAX_PARKED_BYTES_PER_NAMESPACE + cost,
{
}

/// A full count never turns a replicated frame away.
pub proof fn law_count_bounds_requests_alone(total: int, frames: Seq<ParkedFrame>, cost: int)
    requires
        total < MAX_PARKED_BYTES,
        frames_bytes(frames) < MAX_PARKED_BYTES_PER_NAMESPACE,
    ensures
        !park_refused(total, frames, cost, true),
        frames.len() >= MAX_PARKED_PER_NAMESPACE ==> park_refused(total, frames, cost, false),
{
}

/// Aging never expires a replicated frame, and a request survives exactly the
/// passes it is allowed.
pub proof fn law_only_old_requests_expire(frame: ParkedFrame)
    ensures
        frame.spec_is_replicated() ==> !outlived(aged_frame(frame)),
        !frame.spec_is_replicated() ==> (outlived(aged_frame(frame)) <==> frame.passes >= MAX_PARKED_PASSES),
{
}

/// No frame is lost to aging: each one stays or expires.
pub proof fn law_aging_loses_no_frame(frames: Seq<ParkedFrame>)
    ensures
        ({
            let aged = aged_frames(frames);
            aged.filter(|frame: ParkedFrame| !outlived(frame)).len() + aged.filter(|frame: ParkedFrame| outlived(frame)).len()
                == frames.len()
        }),
{
    lemma_split_counts(aged_frames(frames), |frame: ParkedFrame| outlived(frame));
    let direct = |frame: ParkedFrame| !outlived(frame);
    let by_name = |frame: ParkedFrame| !(|frame: ParkedFrame| outlived(frame))(frame);
    assert(direct =~= by_name);
}

/// No frame is lost to a re-dispatch: each one is turned away as another
/// incarnation's or may be served, and the latter are those the inbox took,
/// then those that are retired or held again, in their order. A frame without a
/// stamp is never turned away.
pub proof fn law_redispatch_loses_no_frame<F>(
    before: ParkBuffer,
    after: ParkBuffer,
    counts_before: MetricCounts,
    counts_after: MetricCounts,
    lanes_before: Seq<TaggedSender<F>>,
    lanes_after: Seq<TaggedSender<F>>,
    shard_id: u16,
    namespace: u64,
    epoch: u64,
    done: Redispatched,
)
    requires
        is_redispatch(
            before,
            after,
            counts_before,
            counts_after,
            lanes_before,
            lanes_after,
            shard_id,
            namespace,
            epoch,
            done,
        ),
    ensures
        ({
            let frames = frames_at(before@, namespace);
            let servable = servable_frames(frames, epoch);
            let left = done.retired@ + frames_at(after@, namespace);
            &&& done.stale@.len() + servable.len() == frames.len()
            &&& if shard_id < lanes_before.len() {
                exists|taken: int|
                    #![trigger servable.take(taken)]
                    {
                        &&& 0 <= taken <= servable.len()
                        &&& servable == servable.take(taken) + left
                        &&& lanes_after[shard_id as int].inner.handed() == lanes_before[shard_id as int].inner.handed()
                            + dispatched::<F>(shard_id, servable.take(taken))
                    }
            } else {
                servable == left
            }
        }),
        forall|i: int| #![trigger done.stale@[i]] 0 <= i < done.stale@.len() ==> done.stale@[i].epoch is Some,
{
    let frames = frames_at(before@, namespace);
    let fits = |frame: ParkedFrame| serves_incarnation(frame, epoch);
    let direct = |frame: ParkedFrame| !serves_incarnation(frame, epoch);
    let by_name = |frame: ParkedFrame| !fits(frame);
    assert(direct =~= by_name);
    lemma_split_counts(frames, fits);
    lemma_filter_is_subsequence(frames, direct);
    assert forall|i: int| #![trigger done.stale@[i]] 0 <= i < done.stale@.len() implies done.stale@[i].epoch is Some by {
        assert(direct(done.stale@[i]));
    }
    let servable = servable_frames(frames, epoch);
    let left = done.retired@ + frames_at(after@, namespace);
    if shard_id >= lanes_before.len() {
        assert(servable =~= left);
    } else {
        let (taken, gone) = choose|taken: int, gone: bool|
            #![trigger after_handover(lanes_before[shard_id as int], shard_id, servable, taken, gone)]
            {
                &&& 0 <= taken <= servable.len()
                &&& is_settled(before, after, counts_before, counts_after, namespace, epoch, done, servable.skip(taken), gone)
                &&& lanes_after == lanes_before.update(
                    shard_id as int,
                    after_handover(lanes_before[shard_id as int], shard_id, servable, taken, gone),
                )
            };
        assert(servable.skip(taken) =~= left);
        assert(servable =~= servable.take(taken) + servable.skip(taken));
        lemma_after_handover(lanes_before[shard_id as int], shard_id, servable, taken, gone);
    }
}

/// A full inbox only defers: frames are retired only behind an inbox whose last
/// answer was that it is gone, and frames are held again only behind one whose
/// last answer was that it is full.
pub proof fn law_full_inbox_only_defers<F>(
    before: ParkBuffer,
    after: ParkBuffer,
    counts_before: MetricCounts,
    counts_after: MetricCounts,
    lanes_before: Seq<TaggedSender<F>>,
    lanes_after: Seq<TaggedSender<F>>,
    shard_id: u16,
    namespace: u64,
    epoch: u64,
    done: Redispatched,
)
    requires
        shard_id < lanes_before.len(),
        is_redispatch(
            before,
            after,
            counts_before,
            counts_after,
            lanes_before,
            lanes_after,
            shard_id,
            namespace,
            epoch,
            done,
        ),
    ensures
        done.retired@.len() > 0 ==> lanes_after[shard_id as int].inner.offers().last().1 is Gone,
        after@.contains_key(namespace) ==> {
            &&& lanes_after[shard_id as int].inner.offers().last().1 is Full
            &&& after.reparked@.contains(namespace)
        },
{
    broadcast use lemma_offers_after;

}

proof fn lemma_split_counts(frames: Seq<ParkedFrame>, fits: spec_fn(ParkedFrame) -> bool)
    ensures
        frames.filter(fits).len() + frames.filter(|frame: ParkedFrame| !fits(frame)).len() == frames.len(),
    decreases frames.len(),
{
    reveal(Seq::filter);
    if frames.len() > 0 {
        lemma_split_counts(frames.drop_last(), fits);
    }
}

/// A frame outside the partition plane, or of a partition that is here, is
/// delivered as it came; behind a fence it comes back as it came; where its
/// partition is not here yet it is parked, or turned away by a budget as it
/// came. Nothing but parking and shedding touches the buffer.
pub proof fn law_arriving_frame_is_never_lost(
    before: ParkBuffer,
    after: ParkBuffer,
    message: Message,
    state: NamespaceState,
    epoch: Option<u64>,
    outcome: ParkOutcome,
)
    requires
        is_park_outcome(before, after, message, state, epoch, outcome),
    ensures
        ({
            let partition = message.operation.spec_is_partition();
            &&& outcome is Deliver <==> !partition || state is Materialised
            &&& outcome is Tombstoned <==> partition && state is Tombstoned
            &&& outcome is Parked || outcome is Overflow <==> partition && state is Absent
            &&& outcome is Deliver ==> outcome->Deliver_0 == message && after == before
            &&& outcome is Tombstoned ==> outcome->Tombstoned_0 == message && after == before
            &&& outcome is Overflow ==> outcome->Overflow_message == message && after@ == before@ && after.bytes == before.bytes
            &&& outcome is Parked ==> {
                &&& frames_at(after@, message.group).len() == frames_at(before@, message.group).len() + 1
                &&& frames_at(after@, message.group).last().message == message
                &&& frames_at(after@, message.group).last().epoch == epoch
                &&& frames_at(after@, message.group).last().passes == 0
                &&& after.bytes > before.bytes || message.bytes@.len() == 0
            }
        }),
{
}

/// The budgets alone decide what is parked. A request is, where it fits under
/// the count and, counted in, under both byte budgets; a replicated frame is,
/// where neither byte budget is spent yet. The first frame of a namespace meets
/// the shard's budget alone.
pub proof fn law_budgets_alone_decide(total: int, frames: Seq<ParkedFrame>, cost: int)
    ensures
        !park_refused(total, frames, cost, false) <==> {
            &&& frames.len() < MAX_PARKED_PER_NAMESPACE
            &&& frames.len() == 0 || frames_bytes(frames) + cost <= MAX_PARKED_BYTES_PER_NAMESPACE
            &&& total + cost <= MAX_PARKED_BYTES
        },
        !park_refused(total, frames, cost, true) <==> {
            &&& frames.len() == 0 || frames_bytes(frames) < MAX_PARKED_BYTES_PER_NAMESPACE
            &&& total < MAX_PARKED_BYTES
        },
        4 * MAX_PARKED_BYTES_PER_NAMESPACE == MAX_PARKED_BYTES,
{
}

/// A frame takes whole alignment units and no more than it needs.
pub proof fn law_footprint_is_whole_units(len: int, other: int)
    requires
        0 <= len <= other,
    ensures
        len <= footprint_of(len) < len + MESSAGE_ALIGN,
        footprint_of(len) % MESSAGE_ALIGN as int == 0,
        footprint_of(len) <= footprint_of(other),
        footprint_of(len + MESSAGE_ALIGN) == footprint_of(len) + MESSAGE_ALIGN,
{
    let over = len % 4096;
    assert((len - over) % 4096 == 0);
    assert((len + 4096 - over) % 4096 == 0);
}

/// The start of shedding is announced once: a frame shed after another of its
/// namespace is not the first, and it moves the count by one.
pub proof fn law_shedding_is_announced_once(before: ParkBuffer, after: ParkBuffer, namespace: u64, other: u64)
    requires
        is_shed(before, after, namespace),
    ensures
        is_shedding(after, namespace),
        after@ == before@,
        before@.contains_key(namespace) && before.entries@[namespace].shed < u64::MAX ==> after.entries@[namespace].shed
            == before.entries@[namespace].shed + 1,
        other != namespace && before@.contains_key(other) ==> is_shedding(after, other) == is_shedding(before, other),
{
    assert(before@.contains_key(namespace) == after@.contains_key(namespace));
}

/// Taking a namespace leaves nothing of it, its retry included, and everything
/// of any other; its bytes are given back.
pub proof fn law_taking_empties_one_namespace(before: ParkBuffer, after: ParkBuffer, namespace: u64, other: u64)
    requires
        is_taken(before, after, namespace),
        other != namespace,
    ensures
        !after@.contains_key(namespace),
        !after.reparked@.contains(namespace),
        frames_at(after@, other) == frames_at(before@, other),
        after@.contains_key(other) == before@.contains_key(other),
        after.reparked@.contains(other) == before.reparked@.contains(other),
        after.bytes + frames_bytes(frames_at(before@, namespace)) == before.bytes,
        before.shedding && after@.contains_key(other) ==> after.shedding,
        !before.shedding ==> !after.shedding,
        before@.contains_key(namespace) && after@.dom() == Set::<u64>::empty() ==> !after.shedding,
{
    if before@.contains_key(namespace) && holds_another(before@, namespace) {
        let left = choose|left: u64| left != namespace && #[trigger] before@.contains_key(left);
        assert(after@.dom().contains(left));
    }
    if before@.contains_key(other) {
        assert(holds_another(before@, namespace));
    }
}

/// A pass makes every frame of its namespace one pass older and changes
/// nothing else of it. A request that is out of passes is answered and gone;
/// any other frame is still held.
pub proof fn law_aged_frame_is_kept_or_answered(
    before: ParkBuffer,
    after: ParkBuffer,
    namespace: u64,
    expired: Seq<ParkedFrame>,
    index: int,
    other: u64,
)
    requires
        is_aged(before, after, namespace, expired),
        0 <= index < frames_at(before@, namespace).len(),
        other != namespace,
    ensures
        ({
            let frame = frames_at(before@, namespace)[index];
            let aged = aged_frame(frame);
            let spent = frame.message.command is Request && frame.passes >= MAX_PARKED_PASSES;
            &&& aged.message == frame.message && aged.epoch == frame.epoch
            &&& frame.passes < u32::MAX ==> aged.passes == frame.passes + 1
            &&& spent ==> expired.contains(aged)
            &&& !spent ==> frames_at(after@, namespace).contains(aged)
        }),
        frames_at(after@, other) == frames_at(before@, other),
        after@.contains_key(namespace) ==> after.bytes + frames_bytes(expired) == before.bytes,
        !after@.contains_key(namespace) ==> after.bytes + frames_bytes(frames_at(before@, namespace)) == before.bytes,
        after@.contains_key(namespace) ==> frames_at(after@, namespace).len() > 0,
        after@.contains_key(namespace) ==> after.reparked@ == before.reparked@ && after.shedding == before.shedding,
{
    let frames = frames_at(before@, namespace);
    let aged = aged_frames(frames);
    let keep = |frame: ParkedFrame| !outlived(frame);
    let drops = |frame: ParkedFrame| outlived(frame);
    lemma_filter_is_subsequence(aged, keep);
    lemma_filter_is_subsequence(aged, drops);
    assert(aged[index] == aged_frame(frames[index]));
    let kept = aged.filter(keep);
    if keep(aged[index]) {
        let i = choose|i: int| #![trigger kept[i]] 0 <= i < kept.len() && kept[i] == aged[index];
        assert(kept.len() > 0);
        assert(after@ == before@.insert(namespace, kept));
    } else {
        assert(drops(aged[index]));
    }
}

/// A frame is turned away exactly where it carries a stamp and the stamp is not
/// the incarnation's; every other frame may be served.
pub proof fn law_only_a_foreign_stamp_is_turned_away<F>(
    before: ParkBuffer,
    after: ParkBuffer,
    counts_before: MetricCounts,
    counts_after: MetricCounts,
    lanes_before: Seq<TaggedSender<F>>,
    lanes_after: Seq<TaggedSender<F>>,
    shard_id: u16,
    namespace: u64,
    epoch: u64,
    done: Redispatched,
    index: int,
)
    requires
        is_redispatch(
            before,
            after,
            counts_before,
            counts_after,
            lanes_before,
            lanes_after,
            shard_id,
            namespace,
            epoch,
            done,
        ),
        0 <= index < frames_at(before@, namespace).len(),
    ensures
        ({
            let frame = frames_at(before@, namespace)[index];
            let foreign = frame.epoch is Some && frame.epoch->0 != epoch;
            &&& foreign ==> done.stale@.contains(frame)
            &&& !foreign ==> servable_frames(frames_at(before@, namespace), epoch).contains(frame)
        }),
        forall|i: int|
            #![trigger done.stale@[i]]
            0 <= i < done.stale@.len() ==> done.stale@[i].epoch is Some && done.stale@[i].epoch->0 != epoch,
{
    let frames = frames_at(before@, namespace);
    let fits = |frame: ParkedFrame| serves_incarnation(frame, epoch);
    let foreign = |frame: ParkedFrame| !serves_incarnation(frame, epoch);
    lemma_filter_is_subsequence(frames, fits);
    lemma_filter_is_subsequence(frames, foreign);
    let frame = frames[index];
    if fits(frame) {
        let servable = frames.filter(fits);
        let i = choose|i: int| #![trigger servable[i]] 0 <= i < servable.len() && servable[i] == frames[index];
        assert(servable[i] == frame);
    } else {
        assert(foreign(frame));
        let stale = frames.filter(foreign);
        let i = choose|i: int| #![trigger stale[i]] 0 <= i < stale.len() && stale[i] == frames[index];
        assert(stale[i] == frame);
    }
    assert forall|i: int| #![trigger done.stale@[i]] 0 <= i < done.stale@.len() implies done.stale@[i].epoch is Some
        && done.stale@[i].epoch->0 != epoch by {
        assert(foreign(done.stale@[i]));
    }
}

/// Every frame turned away is counted once, as ahead where its stamp is past
/// the incarnation and as stale where it is not, and nothing else is counted.
pub proof fn law_rejections_are_counted(counts: MetricCounts, frames: Seq<ParkedFrame>, frame: ParkedFrame, epoch: u64)
    requires
        counts.partition_frames_rejected_ahead + frames.len() < u64::MAX,
        counts.partition_frames_rejected_stale + frames.len() < u64::MAX,
    ensures
        ({
            let after = with_rejections(counts, frames, epoch);
            &&& counts.partition_frames_rejected_ahead <= after.partition_frames_rejected_ahead
            &&& counts.partition_frames_rejected_stale <= after.partition_frames_rejected_stale
            &&& after.partition_frames_rejected_ahead + after.partition_frames_rejected_stale
                == counts.partition_frames_rejected_ahead + counts.partition_frames_rejected_stale + frames.len()
            &&& after == (MetricCounts {
                partition_frames_rejected_ahead: after.partition_frames_rejected_ahead,
                partition_frames_rejected_stale: after.partition_frames_rejected_stale,
                ..counts
            })
            &&& frame.epoch is Some && frame.epoch->0 > epoch ==> with_rejection(counts, frame, epoch).partition_frames_rejected_ahead
                == counts.partition_frames_rejected_ahead + 1
            &&& frame.epoch is Some && frame.epoch->0 < epoch ==> with_rejection(counts, frame, epoch).partition_frames_rejected_stale
                == counts.partition_frames_rejected_stale + 1
        }),
    decreases frames.len(),
{
    if frames.len() > 0 {
        law_rejections_are_counted(counts, frames.drop_last(), frame, epoch);
    }
}

/// A parked frame goes behind those of its namespace, which stay as they were
/// and in order, and leaves every other namespace alone. What was shed of the
/// namespace stays counted; one that had nothing parked starts over.
pub proof fn law_parked_frame_goes_last(
    before: ParkBuffer,
    after: ParkBuffer,
    message: Message,
    epoch: Option<u64>,
    index: int,
    other: u64,
)
    requires
        is_parked(before, after, message, epoch),
        other != message.group,
    ensures
        0 <= index < frames_at(before@, message.group).len() ==> frames_at(after@, message.group)[index] == frames_at(
            before@,
            message.group,
        )[index],
        frames_at(after@, other) == frames_at(before@, other),
        after@.contains_key(other) == before@.contains_key(other),
        before@.contains_key(message.group) ==> is_shedding(after, message.group) == is_shedding(before, message.group)
            && after.entries@[message.group].shed == before.entries@[message.group].shed,
        !before@.contains_key(message.group) ==> !is_shedding(after, message.group),
        before@.contains_key(other) ==> is_shedding(after, other) == is_shedding(before, other),
        after.bytes - before.bytes >= message.bytes@.len(),
        after.shedding == before.shedding,
        after.reparked@ == before.reparked@,
{
    law_footprint_is_whole_units(message.bytes@.len() as int, message.bytes@.len() as int);
    assert(after@.contains_key(message.group));
    assert(shed_counts(after.entries@).contains_key(message.group));
    assert(shed_counts(after.entries@)[message.group] == after.entries@[message.group].shed);
    if before@.contains_key(message.group) {
        assert(shed_counts(before.entries@)[message.group] == before.entries@[message.group].shed);
    }
    if before@.contains_key(other) {
        assert(after@.contains_key(other));
        assert(shed_counts(before.entries@)[other] == before.entries@[other].shed);
        assert(shed_counts(after.entries@)[other] == after.entries@[other].shed);
    }
}

/// The first frame a namespace sheds is told apart from those after it.
pub proof fn law_first_shed_frame_is_told(
    before: ParkBuffer,
    after: ParkBuffer,
    message: Message,
    state: NamespaceState,
    epoch: Option<u64>,
    outcome: ParkOutcome,
)
    requires
        is_park_outcome(before, after, message, state, epoch, outcome),
        outcome is Overflow,
    ensures
        before@.contains_key(message.group) ==> outcome->first_shed == (before.entries@[message.group].shed == 0),
        !before@.contains_key(message.group) ==> outcome->first_shed == !before.shedding && after.shedding,
{
}

/// An inbox that took the whole run was offered that run in order and nothing
/// else; one that stopped was offered one frame more, the first of the rest,
/// and its refusal says whether it is gone.
pub proof fn law_handover_offers_no_frame_twice<F>(
    sender: TaggedSender<F>,
    after: TaggedSender<F>,
    shard_id: u16,
    frames: Seq<ParkedFrame>,
    handover: Handover,
    taken: int,
)
    requires
        is_handover(sender, after, shard_id, frames, handover, taken),
    ensures
        ({
            let offers = after.inner.offers();
            &&& frames == frames.take(taken) + handover.rest@
            &&& after.inner.handed() == sender.inner.handed() + dispatched::<F>(shard_id, frames.take(taken))
            &&& handover.rest@.len() == 0 ==> offers.len() == sender.inner.offers().len() + frames.len()
            &&& handover.rest@.len() > 0 ==> {
                &&& offers.len() == sender.inner.offers().len() + taken + 1
                &&& offers.last().0 is Consensus && offers.last().0->message == handover.rest@[0].message
                &&& handover.disconnected ==> offers.last().1 is Gone
                &&& !handover.disconnected ==> offers.last().1 is Full
            }
            &&& after.reply == sender.reply
        }),
{
    lemma_after_handover(sender, shard_id, frames, taken, handover.disconnected);
    lemma_offers_of_frames(sender, shard_id, frames.take(taken));
    assert(frames =~= frames.take(taken) + frames.skip(taken));
    if taken < frames.len() {
        lemma_offers_after(
            after_frames(sender, shard_id, frames.take(taken)).inner,
            ShardFrame::Consensus { target_shard: shard_id, message: frames[taken].message },
            if handover.disconnected {
                SendOutcome::Gone
            } else {
                SendOutcome::Full
            },
        );
    }
}

proof fn lemma_offers_of_frames<F>(sender: TaggedSender<F>, shard_id: u16, frames: Seq<ParkedFrame>)
    ensures
        after_frames(sender, shard_id, frames).inner.offers().len() == sender.inner.offers().len() + frames.len(),
    decreases frames.len(),
{
    if frames.len() > 0 {
        lemma_offers_of_frames(sender, shard_id, frames.drop_last());
        lemma_offers_after(
            after_frames(sender, shard_id, frames.drop_last()).inner,
            ShardFrame::Consensus { target_shard: shard_id, message: frames.last().message },
            SendOutcome::Taken,
        );
    }
}

/// A re-dispatch counts what it turned away, each under the incarnation it was
/// dispatched for, and one drop more where the inbox is gone and frames were
/// left for it.
pub proof fn law_redispatch_counts_what_it_turned_away<F>(
    before: ParkBuffer,
    after: ParkBuffer,
    counts_before: MetricCounts,
    counts_after: MetricCounts,
    lanes_before: Seq<TaggedSender<F>>,
    lanes_after: Seq<TaggedSender<F>>,
    shard_id: u16,
    namespace: u64,
    epoch: u64,
    done: Redispatched,
)
    requires
        is_redispatch(
            before,
            after,
            counts_before,
            counts_after,
            lanes_before,
            lanes_after,
            shard_id,
            namespace,
            epoch,
            done,
        ),
    ensures
        done.retired@.len() == 0 || shard_id >= lanes_before.len() ==> counts_after == with_rejections(
            counts_before,
            done.stale@,
            epoch,
        ),
        done.retired@.len() > 0 && shard_id < lanes_before.len() ==> counts_after == with_rejections(
            counts_before,
            done.stale@,
            epoch,
        ).dropped(frame_drop_variant::PARTITION@, frame_drop_reason::DISCONNECTED@),
        done.stale@.len() == 0 && done.retired@.len() == 0 ==> counts_after == counts_before,
        !before.shedding ==> !after.shedding,
        before@.dom() == set![namespace] ==> !after.shedding,
{
    if before@.dom() == set![namespace] {
        assert(before@.contains_key(namespace)) by {
            assert(before@.dom().contains(namespace));
        }
        assert(!holds_another(before@, namespace)) by {
            assert forall|other: u64| other != namespace implies !#[trigger] before@.contains_key(other) by {
                assert(!before@.dom().contains(other));
            }
        }
    }
    if shard_id < lanes_before.len() {
        let servable = servable_frames(frames_at(before@, namespace), epoch);
        let (taken, gone) = choose|taken: int, gone: bool|
            #![trigger after_handover(lanes_before[shard_id as int], shard_id, servable, taken, gone)]
            {
                &&& 0 <= taken <= servable.len()
                &&& is_settled(before, after, counts_before, counts_after, namespace, epoch, done, servable.skip(taken), gone)
                &&& lanes_after == lanes_before.update(
                    shard_id as int,
                    after_handover(lanes_before[shard_id as int], shard_id, servable, taken, gone),
                )
            };
        assert(servable.skip(taken).len() == servable.len() - taken);
    }
}

} // verus!
