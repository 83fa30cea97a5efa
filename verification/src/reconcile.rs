//! Which partitions a shard holds and where the others live, and the staged
//! mutations that keep both in step with the committed metadata.
//!
//! A namespace is live, tombstoned, or absent. A tombstone is a damage verdict
//! or an unfinished teardown: it outlives every staged mutation but the one
//! that confirms the teardown.

use std::collections::{HashMap, HashSet};

use vstd::prelude::*;
use vstd::std_specs::hash::group_hash_axioms;

use crate::channel::{own_lane_only, TaggedSender};
use crate::lists::{in_order, keys_of};
use crate::metrics::{bumped, MetricCounts, ShardMetrics};
use crate::park::{
    dispatched, frames_at, is_redispatch, is_taken, law_redispatch_loses_no_frame, servable_frames, NamespaceState, ParkBuffer, ParkedFrame,
    Redispatched,
};
use crate::wire::Operation;

verus! {

broadcast use group_hash_axioms;

/// Where a partition lives.
#[derive(Debug, Clone, Copy, PartialEq, Eq, Structural)]
pub struct PartitionLocation {
    /// The shard that owns it.
    pub shard: u16,
    /// Revision of the metadata commit that created this incarnation.
    pub epoch: u64,
}

impl PartitionLocation {
    pub fn new(shard: u16, epoch: u64) -> (location: PartitionLocation)
        ensures
            location == (PartitionLocation { shard, epoch }),
    {
        PartitionLocation { shard, epoch }
    }
}

/// Namespaces and the shards that own them.
pub struct RoutingTable {
    rows: HashMap<u64, PartitionLocation>,
}

impl View for RoutingTable {
    type V = Map<u64, PartitionLocation>;

    closed spec fn view(&self) -> Map<u64, PartitionLocation> {
        self.rows@
    }
}

impl RoutingTable {
    pub fn new() -> (table: RoutingTable)
        ensures
            table@ == Map::<u64, PartitionLocation>::empty(),
    {
        RoutingTable { rows: HashMap::new() }
    }

    /// The row of a namespace.
    pub fn location(&self, namespace: u64) -> (location: Option<PartitionLocation>)
        ensures
            location == (if self@.contains_key(namespace) {
                Some(self@[namespace])
            } else {
                None
            }),
    {
        match self.rows.get(&namespace) {
            Some(location) => Some(*location),
            None => None,
        }
    }

    /// The shard that owns a namespace.
    pub fn shard_for(&self, namespace: u64) -> (shard: Option<u16>)
        ensures
            shard == (if self@.contains_key(namespace) {
                Some(self@[namespace].shard)
            } else {
                None
            }),
    {
        match self.location(namespace) {
            Some(location) => Some(location.shard),
            None => None,
        }
    }

    /// The incarnation a namespace's row describes.
    pub fn epoch_for(&self, namespace: u64) -> (epoch: Option<u64>)
        ensures
            epoch == (if self@.contains_key(namespace) {
                Some(self@[namespace].epoch)
            } else {
                None
            }),
    {
        match self.location(namespace) {
            Some(location) => Some(location.epoch),
            None => None,
        }
    }

    pub fn insert(&mut self, namespace: u64, location: PartitionLocation)
        ensures
            final(self)@ == old(self)@.insert(namespace, location),
    {
        self.rows.insert(namespace, location);
    }

    pub fn remove(&mut self, namespace: u64)
        ensures
            final(self)@ == old(self)@.remove(namespace),
    {
        self.rows.remove(&namespace);
        proof {
            assert(self.rows@ =~= old(self).rows@.remove(namespace));
        }
    }
}

/// The partitions of one shard, and the namespaces it is fenced off from.
pub struct PartitionSet<P> {
    live: HashMap<u64, P>,
    tombstones: HashSet<u64>,
}

impl<P> PartitionSet<P> {
    /// The partitions held, fenced ones included.
    pub closed spec fn live(&self) -> Map<u64, P> {
        self.live@
    }

    /// The fenced namespaces.
    pub closed spec fn tombstones(&self) -> Set<u64> {
        self.tombstones@
    }

    pub fn new() -> (partitions: PartitionSet<P>)
        ensures
            partitions.live() == Map::<u64, P>::empty(),
            partitions.tombstones() == Set::<u64>::empty(),
    {
        PartitionSet { live: HashMap::new(), tombstones: HashSet::new() }
    }

    pub fn contains(&self, namespace: u64) -> (held: bool)
        ensures
            held == self.live().contains_key(namespace),
    {
        self.live.contains_key(&namespace)
    }

    pub fn is_tombstoned(&self, namespace: u64) -> (fenced: bool)
        ensures
            fenced == self.tombstones().contains(namespace),
    {
        self.tombstones.contains(&namespace)
    }

    /// The partition of a namespace; a fenced one cannot be reached.
    pub fn get(&self, namespace: u64) -> (partition: Option<&P>)
        ensures
            match partition {
                Some(found) => {
                    &&& !self.tombstones().contains(namespace)
                    &&& self.live().contains_key(namespace)
                    &&& *found == self.live()[namespace]
                },
                None => self.tombstones().contains(namespace) || !self.live().contains_key(namespace),
            },
    {
        if self.tombstones.contains(&namespace) {
            return None;
        }
        self.live.get(&namespace)
    }

    /// The namespaces held, fenced ones included, each once.
    pub fn namespaces(&self) -> (namespaces: Vec<u64>)
        ensures
            namespaces@.no_duplicates(),
            namespaces@.to_set() == self.live().dom(),
    {
        keys_of(&self.live)
    }

    pub fn insert(&mut self, namespace: u64, partition: P)
        ensures
            final(self).live() == old(self).live().insert(namespace, partition),
            final(self).tombstones() == old(self).tombstones(),
    {
        self.live.insert(namespace, partition);
    }

    pub fn remove(&mut self, namespace: u64) -> (removed: Option<P>)
        ensures
            final(self).live() == old(self).live().remove(namespace),
            final(self).tombstones() == old(self).tombstones(),
            removed == (if old(self).live().contains_key(namespace) {
                Some(old(self).live()[namespace])
            } else {
                None
            }),
    {
        let removed: Option<P> = self.live.remove(&namespace);
        proof {
            assert(self.live@ =~= old(self).live@.remove(namespace));
        }
        removed
    }

    pub fn tombstone(&mut self, namespace: u64)
        ensures
            final(self).live() == old(self).live(),
            final(self).tombstones() == old(self).tombstones().insert(namespace),
    {
        self.tombstones.insert(namespace);
    }

    pub fn untombstone(&mut self, namespace: u64)
        ensures
            final(self).live() == old(self).live(),
            final(self).tombstones() == old(self).tombstones().remove(namespace),
    {
        self.tombstones.remove(&namespace);
        proof {
            assert(self.tombstones@ =~= old(self).tombstones@.remove(namespace));
        }
    }
}

/// A staged mutation of the partitions and their routes. They are applied by
/// the one task that owns the partitions.
#[allow(inconsistent_fields)]
pub enum ReconcileOp<P> {
    /// Hold a partition this shard owns.
    InsertOwned { namespace: u64, partition: P, epoch: u64 },
    /// Route to a partition another shard owns.
    InsertRouted { namespace: u64, owner: u16, epoch: u64 },
    /// The fenced namespace's files are gone: drop the partition and lift the
    /// fence.
    ConfirmRemove { namespace: u64 },
    /// Another shard's partition left the committed metadata.
    RemoveRouted { namespace: u64 },
}

/// Partitions, fences and routes.
pub struct TableView<P> {
    pub live: Map<u64, P>,
    pub tombstones: Set<u64>,
    pub routes: Map<u64, PartitionLocation>,
}

/// An owned insert takes effect only over an absent, unfenced namespace.
pub open spec fn admits_insert<P>(table: TableView<P>, namespace: u64) -> bool {
    !table.live.contains_key(namespace) && !table.tombstones.contains(namespace)
}

/// The table after one staged mutation, on shard `shard`.
pub open spec fn applied<P>(table: TableView<P>, op: ReconcileOp<P>, shard: u16) -> TableView<P> {
    match op {
        ReconcileOp::InsertOwned { namespace, partition, epoch } => if admits_insert(table, namespace) {
            TableView {
                live: table.live.insert(namespace, partition),
                routes: table.routes.insert(namespace, PartitionLocation { shard, epoch }),
                ..table
            }
        } else {
            table
        },
        ReconcileOp::InsertRouted { namespace, owner, epoch } => TableView {
            routes: table.routes.insert(namespace, PartitionLocation { shard: owner, epoch }),
            ..table
        },
        ReconcileOp::ConfirmRemove { namespace } => TableView {
            live: table.live.remove(namespace),
            tombstones: table.tombstones.remove(namespace),
            ..table
        },
        ReconcileOp::RemoveRouted { namespace } => TableView { routes: table.routes.remove(namespace), ..table },
    }
}

/// The table after a batch, in order.
pub open spec fn applied_all<P>(table: TableView<P>, ops: Seq<ReconcileOp<P>>, shard: u16) -> TableView<P>
    decreases ops.len(),
{
    if ops.len() == 0 {
        table
    } else {
        applied(applied_all(table, ops.drop_last(), shard), ops.last(), shard)
    }
}

/// What a drain of the staged mutations leaves to be done.
pub struct ReconcileOutcome<P> {
    /// Parked frames of another incarnation: deny their clients.
    pub stale: Vec<ParkedFrame>,
    /// Parked frames that will never be served: deny their clients, count the
    /// rest.
    pub retired: Vec<ParkedFrame>,
    /// Partitions that left the shard or were never admitted: drop them.
    pub released: Vec<P>,
    /// A teardown was confirmed: wake the reconciler.
    pub wake: bool,
}

/// Everything one staged mutation reads or changes.
#[verifier::reject_recursive_types(F)]
pub struct ReconcileState<F: 'static, P> {
    pub table: TableView<P>,
    pub parked: ParkBuffer,
    pub counts: MetricCounts,
    /// Senders of every shard's lanes.
    pub lanes: Seq<TaggedSender<F>>,
    pub stale: Seq<ParkedFrame>,
    pub retired: Seq<ParkedFrame>,
    pub released: Seq<P>,
}

/// The namespace's parked frames were all taken out to be retired.
pub open spec fn is_discard<F, P>(before: ReconcileState<F, P>, after: ReconcileState<F, P>, namespace: u64) -> bool {
    &&& is_taken(before.parked, after.parked, namespace)
    &&& after.retired == before.retired + frames_at(before.parked@, namespace)
    &&& after.stale == before.stale
    &&& after.lanes == before.lanes
}

/// One re-dispatch, its leavings added to those before it.
pub open spec fn is_redispatched<F, P>(
    before: ReconcileState<F, P>,
    after: ReconcileState<F, P>,
    namespace: u64,
    epoch: u64,
    counts: MetricCounts,
    shard: u16,
) -> bool {
    exists|done: Redispatched|
        #![trigger before.stale + done.stale@]
        {
            &&& is_redispatch(
                before.parked,
                after.parked,
                counts,
                after.counts,
                before.lanes,
                after.lanes,
                shard,
                namespace,
                epoch,
                done,
            )
            &&& after.stale == before.stale + done.stale@
            &&& after.retired == before.retired + done.retired@
        }
}

/// One staged mutation took `before` to `after`.
pub open spec fn is_step<F, P>(
    before: ReconcileState<F, P>,
    after: ReconcileState<F, P>,
    op: ReconcileOp<P>,
    shard: u16,
) -> bool {
    &&& after.table == applied(before.table, op, shard)
    &&& match op {
        ReconcileOp::InsertOwned { namespace, partition, epoch } => if admits_insert(before.table, namespace) {
            &&& is_redispatched(
                before,
                after,
                namespace,
                epoch,
                MetricCounts { partitions_materialised: bumped(before.counts.partitions_materialised), ..before.counts },
                shard,
            )
            &&& after.released == before.released
        } else {
            &&& after.parked == before.parked
            &&& after.lanes == before.lanes
            &&& after.stale == before.stale
            &&& after.retired == before.retired
            &&& after.released == before.released.push(partition)
            &&& after.counts == if before.table.live.contains_key(namespace) {
                MetricCounts {
                    partitions_duplicate_builds_discarded: bumped(before.counts.partitions_duplicate_builds_discarded),
                    ..before.counts
                }
            } else {
                before.counts
            }
        },
        ReconcileOp::InsertRouted { .. } => {
            &&& after.parked == before.parked
            &&& after.lanes == before.lanes
            &&& after.stale == before.stale
            &&& after.retired == before.retired
            &&& after.released == before.released
            &&& after.counts == before.counts
        },
        ReconcileOp::ConfirmRemove { namespace } => {
            &&& is_discard(before, after, namespace)
            &&& after.released == if before.table.live.contains_key(namespace) {
                before.released.push(before.table.live[namespace])
            } else {
                before.released
            }
            &&& after.counts == (MetricCounts {
                partitions_removed: bumped(before.counts.partitions_removed),
                ..before.counts
            })
        },
        ReconcileOp::RemoveRouted { namespace } => {
            &&& is_discard(before, after, namespace)
            &&& after.released == before.released
            &&& after.counts == before.counts
        },
    }
}

/// The partitions of one shard with everything that waits on them.
pub struct Materialisation<P> {
    pub partitions: PartitionSet<P>,
    pub routes: RoutingTable,
    pub parked: ParkBuffer,
    /// Staged mutations, oldest first.
    pub queue: Vec<ReconcileOp<P>>,
}

impl<P> Materialisation<P> {
    pub open spec fn wf(&self) -> bool {
        self.parked.wf()
    }

    pub open spec fn table(&self) -> TableView<P> {
        TableView {
            live: self.partitions.live(),
            tombstones: self.partitions.tombstones(),
            routes: self.routes@,
        }
    }

    /// This state with the counts and leavings of a drain.
    pub open spec fn state<F>(
        &self,
        counts: MetricCounts,
        lanes: Seq<TaggedSender<F>>,
        outcome: ReconcileOutcome<P>,
    ) -> ReconcileState<F, P> {
        ReconcileState {
            table: self.table(),
            parked: self.parked,
            counts,
            lanes,
            stale: outcome.stale@,
            retired: outcome.retired@,
            released: outcome.released@,
        }
    }

    /// Nothing waits on the partitions.
    pub open spec fn is_idle(&self) -> bool {
        &&& self.parked@ == Map::<u64, Seq<ParkedFrame>>::empty()
        &&& self.parked.bytes == 0
        &&& self.parked.reparked@ == Set::<u64>::empty()
        &&& !self.parked.shedding
        &&& self.queue@.len() == 0
    }

    /// Nothing held, nothing routed.
    pub fn new() -> (fresh: Materialisation<P>)
        ensures
            fresh.wf(),
            fresh.table().live == Map::<u64, P>::empty(),
            fresh.table().tombstones == Set::<u64>::empty(),
            fresh.table().routes == Map::<u64, PartitionLocation>::empty(),
            fresh.is_idle(),
    {
        Materialisation::over(PartitionSet::new(), RoutingTable::new())
    }

    /// The partitions and routes a shard boots with.
    pub fn over(partitions: PartitionSet<P>, routes: RoutingTable) -> (fresh: Materialisation<P>)
        ensures
            fresh.wf(),
            fresh.partitions == partitions,
            fresh.routes == routes,
            fresh.is_idle(),
    {
        Materialisation { partitions, routes, parked: ParkBuffer::new(), queue: Vec::new() }
    }

    /// What an arriving frame finds of its namespace; a fence is seen first.
    pub fn namespace_state(&self, namespace: u64) -> (state: NamespaceState)
        ensures
            state == self.spec_namespace_state(namespace),
    {
        if self.partitions.is_tombstoned(namespace) {
            NamespaceState::Tombstoned
        } else if self.partitions.contains(namespace) {
            NamespaceState::Materialised
        } else {
            NamespaceState::Absent
        }
    }

    pub open spec fn spec_namespace_state(&self, namespace: u64) -> NamespaceState {
        if self.table().tombstones.contains(namespace) {
            NamespaceState::Tombstoned
        } else if self.table().live.contains_key(namespace) {
            NamespaceState::Materialised
        } else {
            NamespaceState::Absent
        }
    }

    /// Stage a mutation.
    pub fn enqueue_reconcile_op(&mut self, op: ReconcileOp<P>)
        ensures
            final(self).queue@ == old(self).queue@.push(op),
            final(self).partitions == old(self).partitions,
            final(self).routes == old(self).routes,
            final(self).parked == old(self).parked,
    {
        self.queue.push(op);
    }

    /// An owned insert of the namespace is staged but not applied, whatever
    /// its incarnation.
    pub fn has_staged_insert_owned(&self, namespace: u64) -> (staged: bool)
        ensures
            staged == exists|i: int|
                #![trigger self.queue@[i]]
                0 <= i < self.queue@.len() && self.queue@[i] is InsertOwned && self.queue@[i]->InsertOwned_namespace == namespace,
    {
        let mut i: usize = 0;
        while i < self.queue.len()
            invariant
                i <= self.queue@.len(),
                forall|j: int|
                    #![trigger self.queue@[j]]
                    0 <= j < i ==> !(self.queue@[j] is InsertOwned && self.queue@[j]->InsertOwned_namespace == namespace),
            decreases self.queue@.len() - i,
        {
            match &self.queue[i] {
                ReconcileOp::InsertOwned { namespace: staged, .. } => {
                    if *staged == namespace {
                        proof {
                            assert(self.queue@[i as int] is InsertOwned);
                        }
                        return true;
                    }
                },
                _ => {},
            }
            i += 1;
        }
        false
    }

    /// Whether a request may be served: its namespace's row describes the
    /// incarnation that is committed. `committed` is the committed partition's
    /// creation revision. Operations outside the partition plane address no
    /// incarnation.
    pub fn serves_committed_incarnation(&self, operation: Operation, namespace: u64, committed: Option<u64>) -> (serves: bool)
        ensures
            serves == (!operation.spec_is_partition() || committed is Some && self.routes@.contains_key(namespace)
                && self.routes@[namespace].epoch == committed->0),
    {
        if !operation.is_partition() {
            return true;
        }
        match (committed, self.routes.epoch_for(namespace)) {
            (Some(committed), Some(row)) => committed == row,
            _ => false,
        }
    }
}

/// The states a batch passed through, one mutation at a time.
pub open spec fn is_batch<F, P>(
    trace: Seq<ReconcileState<F, P>>,
    ops: Seq<ReconcileOp<P>>,
    shard: u16,
) -> bool {
    &&& trace.len() == ops.len() + 1
    &&& forall|i: int| 0 <= i < ops.len() ==> is_step(trace[i], trace[i + 1], #[trigger] ops[i], shard)
}

/// A retry passes over a namespace that is fenced or has no row; the frames of
/// any other are dispatched again, to the incarnation its row describes.
pub open spec fn is_retry_step<F, P>(
    before: ReconcileState<F, P>,
    after: ReconcileState<F, P>,
    namespace: u64,
    shard: u16,
) -> bool {
    &&& after.table == before.table
    &&& after.released == before.released
    &&& if before.table.tombstones.contains(namespace) || !before.table.routes.contains_key(namespace) {
        after == before
    } else {
        is_redispatched(before, after, namespace, before.table.routes[namespace].epoch, before.counts, shard)
    }
}

/// The states a retry passed through, one namespace at a time.
pub open spec fn is_retry<F, P>(trace: Seq<ReconcileState<F, P>>, namespaces: Seq<u64>, shard: u16) -> bool {
    &&& trace.len() == namespaces.len() + 1
    &&& forall|i: int| 0 <= i < namespaces.len() ==> is_retry_step(trace[i], trace[i + 1], #[trigger] namespaces[i], shard)
}

/// A teardown is confirmed by some mutation.
pub open spec fn confirms_removal<P>(ops: Seq<ReconcileOp<P>>) -> bool {
    exists|i: int| #![trigger ops[i]] 0 <= i < ops.len() && ops[i] is ConfirmRemove
}

/// Append frames, in order.
fn extend_frames(frames: &mut Vec<ParkedFrame>, mut more: Vec<ParkedFrame>)
    ensures
        final(frames)@ == old(frames)@ + more@,
{
    frames.append(&mut more);
}

impl<P> Materialisation<P> {
    /// Re-dispatch a namespace's parked frames, adding the leavings.
    fn redispatch<F: 'static>(
        &mut self,
        metrics: &mut ShardMetrics,
        shard: u16,
        senders: &mut Vec<TaggedSender<F>>,
        namespace: u64,
        epoch: u64,
        outcome: &mut ReconcileOutcome<P>,
    )
        requires
            old(self).wf(),
        ensures
            final(self).wf(),
            own_lane_only(old(senders)@, final(senders)@, shard as int),
            final(self).queue == old(self).queue,
            final(self).partitions == old(self).partitions,
            final(self).routes == old(self).routes,
            final(outcome).released == old(outcome).released,
            final(outcome).wake == old(outcome).wake,
            is_redispatched(
                old(self).state(old(metrics)@, old(senders)@, *old(outcome)),
                final(self).state(final(metrics)@, final(senders)@, *final(outcome)),
                namespace,
                epoch,
                old(metrics)@,
                shard,
            ),
    {
        let ghost before = self.state(metrics@, senders@, *outcome);
        let ghost counts = metrics@;
        let done: Redispatched = self.parked.redispatch_parked_frames(metrics, namespace, epoch, shard, senders);
        let ghost settled = done;
        extend_frames(&mut outcome.stale, done.stale);
        extend_frames(&mut outcome.retired, done.retired);
        proof {
            let after = self.state(metrics@, senders@, *outcome);
            assert(is_redispatch(
                before.parked,
                after.parked,
                counts,
                after.counts,
                before.lanes,
                after.lanes,
                shard,
                namespace,
                epoch,
                settled,
            ));
            assert(after.stale == before.stale + settled.stale@);
        }
    }

    /// Take out the frames parked under a namespace this shard can never
    /// serve; the caller retires them.
    pub fn discard_parked_partition_frames(&mut self, namespace: u64) -> (frames: Vec<ParkedFrame>)
        requires
            old(self).wf(),
        ensures
            final(self).wf(),
            final(self).queue == old(self).queue,
            final(self).partitions == old(self).partitions,
            final(self).routes == old(self).routes,
            is_taken(old(self).parked, final(self).parked, namespace),
            frames@ == frames_at(old(self).parked@, namespace),
    {
        match self.parked.take_parked_partition_frames(namespace) {
            Some(frames) => frames,
            None => Vec::new(),
        }
    }

    /// Apply one staged mutation.
    fn apply_one<F: 'static>(
        &mut self,
        metrics: &mut ShardMetrics,
        shard: u16,
        senders: &mut Vec<TaggedSender<F>>,
        op: ReconcileOp<P>,
        outcome: &mut ReconcileOutcome<P>,
    )
        requires
            old(self).wf(),
        ensures
            final(self).wf(),
            own_lane_only(old(senders)@, final(senders)@, shard as int),
            final(self).queue == old(self).queue,
            final(outcome).wake == (old(outcome).wake || op is ConfirmRemove),
            is_step(
                old(self).state(old(metrics)@, old(senders)@, *old(outcome)),
                final(self).state(final(metrics)@, final(senders)@, *final(outcome)),
                op,
                shard,
            ),
    {
        let ghost before = self.state(metrics@, senders@, *outcome);
        match op {
            ReconcileOp::InsertOwned { namespace, partition, epoch } => {
                if self.partitions.contains(namespace) {
                    metrics.record_duplicate_partition_build_discarded();
                    outcome.released.push(partition);
                    return;
                }
                if self.partitions.is_tombstoned(namespace) {
                    outcome.released.push(partition);
                    return;
                }
                self.partitions.insert(namespace, partition);
                self.routes.insert(namespace, PartitionLocation::new(shard, epoch));
                metrics.record_partition_materialised();
                let ghost held = self.state(metrics@, senders@, *outcome);
                self.redispatch(metrics, shard, senders, namespace, epoch, outcome);
                proof {
                    let after = self.state(metrics@, senders@, *outcome);
                    let done = choose|done: Redispatched|
                        #![trigger held.stale + done.stale@]
                        {
                            &&& is_redispatch(
                                held.parked,
                                after.parked,
                                held.counts,
                                after.counts,
                                held.lanes,
                                after.lanes,
                                shard,
                                namespace,
                                epoch,
                                done,
                            )
                            &&& after.stale == held.stale + done.stale@
                            &&& after.retired == held.retired + done.retired@
                        };
                    assert(after.stale == before.stale + done.stale@);
                    assert(is_redispatched(before, after, namespace, epoch, held.counts, shard));
                    assert(after.table =~= applied(before.table, op, shard));
                }
            },
            ReconcileOp::InsertRouted { namespace, owner, epoch } => {
                self.routes.insert(namespace, PartitionLocation::new(owner, epoch));
            },
            ReconcileOp::ConfirmRemove { namespace } => {
                let removed: Option<P> = self.partitions.remove(namespace);
                self.partitions.untombstone(namespace);
                let frames: Vec<ParkedFrame> = self.discard_parked_partition_frames(namespace);
                extend_frames(&mut outcome.retired, frames);
                metrics.record_partition_removed();
                outcome.wake = true;
                if let Some(partition) = removed {
                    outcome.released.push(partition);
                }
            },
            ReconcileOp::RemoveRouted { namespace } => {
                self.routes.remove(namespace);
                let frames: Vec<ParkedFrame> = self.discard_parked_partition_frames(namespace);
                extend_frames(&mut outcome.retired, frames);
            },
        }
    }

    /// Apply every staged mutation, oldest first.
    fn apply_staged_ops<F: 'static>(
        &mut self,
        metrics: &mut ShardMetrics,
        shard: u16,
        senders: &mut Vec<TaggedSender<F>>,
        outcome: &mut ReconcileOutcome<P>,
    )
        requires
            old(self).wf(),
        ensures
            final(self).wf(),
            own_lane_only(old(senders)@, final(senders)@, shard as int),
            final(self).queue@.len() == 0,
            final(outcome).wake == (old(outcome).wake || confirms_removal(old(self).queue@)),
            final(self).table() == applied_all(old(self).table(), old(self).queue@, shard),
            exists|trace: Seq<ReconcileState<F, P>>|
                #![trigger is_batch(trace, old(self).queue@, shard)]
                {
                    &&& is_batch(trace, old(self).queue@, shard)
                    &&& trace[0] == old(self).state(old(metrics)@, old(senders)@, *old(outcome))
                    &&& trace.last() == final(self).state(final(metrics)@, final(senders)@, *final(outcome))
                },
    {
        let mut staged: Vec<ReconcileOp<P>> = Vec::new();
        std::mem::swap(&mut staged, &mut self.queue);
        let ghost ops = staged@;
        let ghost start = self.state(metrics@, senders@, *outcome);
        let ghost woken = outcome.wake;
        let ghost mut trace: Seq<ReconcileState<F, P>> = seq![start];
        proof {
            assert(ops.take(0) =~= Seq::<ReconcileOp<P>>::empty());
        }
        for op in iter: staged.into_iter()
            invariant
                iter.seq() == ops,
                self.wf(),
                own_lane_only(old(senders)@, senders@, shard as int),
                self.queue@.len() == 0,
                trace.len() == iter.index() + 1,
                trace[0] == start,
                trace.last() == self.state(metrics@, senders@, *outcome),
                forall|i: int|
                    0 <= i < iter.index() ==> is_step(trace[i], trace[i + 1], #[trigger] ops[i], shard),
                self.table() == applied_all(start.table, ops.take(iter.index() as int), shard),
                outcome.wake == (woken || confirms_removal(ops.take(iter.index() as int))),
        {
            let ghost at = iter.index() as int;
            let ghost held = trace;
            self.apply_one(metrics, shard, senders, op, outcome);
            proof {
                let state = self.state(metrics@, senders@, *outcome);
                trace = held.push(state);
                assert forall|i: int| 0 <= i < at + 1 implies is_step(trace[i], trace[i + 1], #[trigger] ops[i], shard) by {
                    if i < at {
                        assert(trace[i] == held[i] && trace[i + 1] == held[i + 1]);
                    }
                }
                let done = ops.take(at);
                let more = ops.take(at + 1);
                assert(more.drop_last() =~= done);
                assert(more.last() == op);
                if confirms_removal(done) {
                    let k = choose|k: int| #![trigger done[k]] 0 <= k < done.len() && done[k] is ConfirmRemove;
                    assert(more[k] is ConfirmRemove);
                }
                if op is ConfirmRemove {
                    assert(more[at] is ConfirmRemove);
                }
                if confirms_removal(more) {
                    let k = choose|k: int| #![trigger more[k]] 0 <= k < more.len() && more[k] is ConfirmRemove;
                    if k < at {
                        assert(done[k] is ConfirmRemove);
                    }
                }
            }
        }
        proof {
            assert(ops.take(ops.len() as int) =~= ops);
            assert(is_batch(trace, ops, shard));
        }
    }

    /// Dispatch again the frames an inbox refused earlier, in increasing order
    /// of their namespaces.
    fn retry_reparked_frames<F: 'static>(
        &mut self,
        metrics: &mut ShardMetrics,
        shard: u16,
        senders: &mut Vec<TaggedSender<F>>,
        outcome: &mut ReconcileOutcome<P>,
    )
        requires
            old(self).wf(),
        ensures
            final(self).wf(),
            own_lane_only(old(senders)@, final(senders)@, shard as int),
            final(self).queue == old(self).queue,
            final(self).table() == old(self).table(),
            final(outcome).wake == old(outcome).wake,
            exists|trace: Seq<ReconcileState<F, P>>|
                #![trigger is_retry(trace, in_order(old(self).parked.reparked@), shard)]
                {
                    &&& is_retry(trace, in_order(old(self).parked.reparked@), shard)
                    &&& is_disarmed(old(self).state(old(metrics)@, old(senders)@, *old(outcome)), trace[0])
                    &&& trace.last() == final(self).state(final(metrics)@, final(senders)@, *final(outcome))
                },
    {
        let pending: Vec<u64> = self.parked.take_reparked();
        let ghost start = self.state(metrics@, senders@, *outcome);
        let ghost mut trace: Seq<ReconcileState<F, P>> = seq![start];
        let mut i: usize = 0;
        while i < pending.len()
            invariant
                i <= pending@.len(),
                self.wf(),
                own_lane_only(old(senders)@, senders@, shard as int),
                self.queue == old(self).queue,
                self.table() == start.table,
                outcome.wake == old(outcome).wake,
                trace.len() == i + 1,
                trace[0] == start,
                trace.last() == self.state(metrics@, senders@, *outcome),
                forall|j: int|
                    0 <= j < i ==> is_retry_step(trace[j], trace[j + 1], #[trigger] pending@[j], shard),
            decreases pending@.len() - i,
        {
            let namespace: u64 = pending[i];
            let ghost held = trace;
            if !self.partitions.is_tombstoned(namespace) {
                if let Some(epoch) = self.routes.epoch_for(namespace) {
                    self.redispatch(metrics, shard, senders, namespace, epoch, outcome);
                }
            }
            proof {
                trace = held.push(self.state(metrics@, senders@, *outcome));
                assert(is_retry_step(trace[i as int], trace[i + 1], pending@[i as int], shard));
                assert forall|j: int| 0 <= j < i + 1 implies is_retry_step(
                    trace[j],
                    trace[j + 1],
                    #[trigger] pending@[j],
                    shard,
                ) by {
                    if j < i {
                        assert(trace[j] == held[j] && trace[j + 1] == held[j + 1]);
                    }
                }
            }
            i += 1;
        }
        proof {
            assert(is_retry(trace, pending@, shard));
        }
    }

    /// Drain the staged mutations. Frames an inbox refused earlier are
    /// dispatched again first: they wait on the inbox, not on a mutation.
    pub fn apply_reconcile_ops<F: 'static>(
        &mut self,
        metrics: &mut ShardMetrics,
        shard: u16,
        senders: &mut Vec<TaggedSender<F>>,
    ) -> (outcome: ReconcileOutcome<P>)
        requires
            old(self).wf(),
        ensures
            final(self).wf(),
            own_lane_only(old(senders)@, final(senders)@, shard as int),
            final(self).queue@.len() == 0,
            outcome.wake == confirms_removal(old(self).queue@),
            final(self).table() == applied_all(old(self).table(), old(self).queue@, shard),
            is_drain(
                old(self).fresh_state(old(metrics)@, old(senders)@),
                old(self).queue@,
                final(self).state(final(metrics)@, final(senders)@, outcome),
                shard,
            ),
    {
        let mut outcome: ReconcileOutcome<P> = ReconcileOutcome {
            stale: Vec::new(),
            retired: Vec::new(),
            released: Vec::new(),
            wake: false,
        };
        proof {
            assert(self.state(metrics@, senders@, outcome) =~= self.fresh_state(metrics@, senders@));
        }
        self.retry_reparked_frames(metrics, shard, senders, &mut outcome);
        self.apply_staged_ops(metrics, shard, senders, &mut outcome);
        outcome
    }

    /// This state before a drain has left anything.
    pub open spec fn fresh_state<F>(&self, counts: MetricCounts, lanes: Seq<TaggedSender<F>>) -> ReconcileState<F, P> {
        ReconcileState {
            table: self.table(),
            parked: self.parked,
            counts,
            lanes,
            stale: Seq::empty(),
            retired: Seq::empty(),
            released: Seq::empty(),
        }
    }
}

impl<P> Materialisation<P> {
    /// Fence a partition left without a serviceable segment chain. It is
    /// unreachable at once. Only where its files were moved aside is the
    /// retirement staged that lets it be rebuilt: a rebuild over files still
    /// in place would eat them. Whether the reconciler is to be woken is
    /// returned.
    pub fn fence_partition_for_rebuild(&mut self, namespace: u64, quarantined: bool) -> (wake: bool)
        requires
            old(self).wf(),
        ensures
            final(self).wf(),
            wake == quarantined,
            final(self).table() == fenced(old(self).table(), namespace),
            final(self).parked == old(self).parked,
            final(self).queue@ == if quarantined {
                old(self).queue@.push(ReconcileOp::ConfirmRemove { namespace })
            } else {
                old(self).queue@
            },
    {
        self.partitions.tombstone(namespace);
        self.routes.remove(namespace);
        if quarantined {
            self.enqueue_reconcile_op(ReconcileOp::ConfirmRemove { namespace });
        }
        quarantined
    }
}

/// The table with a namespace fenced off and unrouted.
pub open spec fn fenced<P>(table: TableView<P>, namespace: u64) -> TableView<P> {
    TableView { tombstones: table.tombstones.insert(namespace), routes: table.routes.remove(namespace), ..table }
}

/// The namespace a mutation is about.
pub open spec fn op_namespace<P>(op: ReconcileOp<P>) -> u64 {
    match op {
        ReconcileOp::InsertOwned { namespace, .. } => namespace,
        ReconcileOp::InsertRouted { namespace, .. } => namespace,
        ReconcileOp::ConfirmRemove { namespace } => namespace,
        ReconcileOp::RemoveRouted { namespace } => namespace,
    }
}

/// A tombstone lifts only with the confirmed teardown of its own namespace,
/// and no staged mutation plants one.
pub proof fn law_tombstone_lifts_only_when_confirmed<P>(table: TableView<P>, ops: Seq<ReconcileOp<P>>, shard: u16, namespace: u64)
    requires
        forall|i: int|
            #![trigger ops[i]]
            0 <= i < ops.len() ==> !(ops[i] is ConfirmRemove && op_namespace(ops[i]) == namespace),
    ensures
        applied_all(table, ops, shard).tombstones.contains(namespace) == table.tombstones.contains(namespace),
    decreases ops.len(),
{
    if ops.len() > 0 {
        let fewer = ops.drop_last();
        assert forall|i: int| #![trigger fewer[i]] 0 <= i < fewer.len() implies !(fewer[i] is ConfirmRemove && op_namespace(
            fewer[i],
        ) == namespace) by {
            assert(fewer[i] == ops[i]);
        }
        law_tombstone_lifts_only_when_confirmed(table, fewer, shard, namespace);
        assert(ops.last() == ops[ops.len() - 1]);
    }
}

/// A fenced partition stays unreachable and keeps its place until its teardown
/// is confirmed: no batch without that confirmation replaces it or holds
/// another over it.
pub proof fn law_fenced_partition_is_never_replaced<P>(table: TableView<P>, ops: Seq<ReconcileOp<P>>, shard: u16, namespace: u64)
    requires
        forall|i: int|
            #![trigger ops[i]]
            0 <= i < ops.len() ==> !(ops[i] is ConfirmRemove && op_namespace(ops[i]) == namespace),
    ensures
        ({
            let after = applied_all(fenced(table, namespace), ops, shard);
            &&& after.tombstones.contains(namespace)
            &&& after.live.contains_key(namespace) == table.live.contains_key(namespace)
            &&& table.live.contains_key(namespace) ==> after.live[namespace] == table.live[namespace]
        }),
    decreases ops.len(),
{
    if ops.len() > 0 {
        let fewer = ops.drop_last();
        assert forall|i: int| #![trigger fewer[i]] 0 <= i < fewer.len() implies !(fewer[i] is ConfirmRemove && op_namespace(
            fewer[i],
        ) == namespace) by {
            assert(fewer[i] == ops[i]);
        }
        law_fenced_partition_is_never_replaced(table, fewer, shard, namespace);
        assert(ops.last() == ops[ops.len() - 1]);
    }
}

/// Once its teardown is confirmed the namespace can be held again, at the
/// epoch it was recreated with.
pub proof fn law_confirmed_namespace_can_be_rebuilt<P>(
    table: TableView<P>,
    shard: u16,
    namespace: u64,
    partition: P,
    epoch: u64,
)
    ensures
        ({
            let confirm = ReconcileOp::ConfirmRemove::<P> { namespace };
            let insert = ReconcileOp::InsertOwned { namespace, partition, epoch };
            let after = applied(applied(table, confirm, shard), insert, shard);
            &&& after.live.contains_key(namespace) && after.live[namespace] == partition
            &&& !after.tombstones.contains(namespace)
            &&& after.routes.contains_key(namespace) && after.routes[namespace] == (PartitionLocation { shard, epoch })
        }),
{
}

/// An owned insert over a live namespace changes nothing: the first partition
/// keeps its place and its route.
pub proof fn law_live_partition_is_never_replaced<P>(table: TableView<P>, shard: u16, namespace: u64, partition: P, epoch: u64)
    requires
        table.live.contains_key(namespace),
    ensures
        applied(table, ReconcileOp::InsertOwned { namespace, partition, epoch }, shard) == table,
{
}

/// Applying a mutation twice is applying it once.
pub proof fn law_mutations_are_idempotent<P>(table: TableView<P>, op: ReconcileOp<P>, shard: u16)
    ensures
        applied(applied(table, op, shard), op, shard) == applied(table, op, shard),
{
    let once = applied(table, op, shard);
    let twice = applied(once, op, shard);
    assert(twice.live =~= once.live);
    assert(twice.tombstones =~= once.tombstones);
    assert(twice.routes =~= once.routes);
}

/// A mutation is about its own namespace alone.
pub proof fn law_mutation_touches_one_namespace<P>(table: TableView<P>, op: ReconcileOp<P>, shard: u16, other: u64)
    requires
        other != op_namespace(op),
    ensures
        ({
            let after = applied(table, op, shard);
            &&& after.live.contains_key(other) == table.live.contains_key(other)
            &&& table.live.contains_key(other) ==> after.live[other] == table.live[other]
            &&& after.tombstones.contains(other) == table.tombstones.contains(other)
            &&& after.routes.contains_key(other) == table.routes.contains_key(other)
            &&& table.routes.contains_key(other) ==> after.routes[other] == table.routes[other]
        }),
{
}

/// Draining twice in a row equals draining the two batches as one.
pub proof fn law_batches_compose<P>(table: TableView<P>, first: Seq<ReconcileOp<P>>, second: Seq<ReconcileOp<P>>, shard: u16)
    ensures
        applied_all(table, first + second, shard) == applied_all(applied_all(table, first, shard), second, shard),
    decreases second.len(),
{
    if second.len() == 0 {
        assert(first + second =~= first);
    } else {
        law_batches_compose(table, first, second.drop_last(), shard);
        assert((first + second).drop_last() =~= first + second.drop_last());
        assert((first + second).last() == second.last());
    }
}

/// A drain took `before` to `after`: every armed retry first, then the staged
/// mutations.
pub open spec fn is_drain<F, P>(
    before: ReconcileState<F, P>,
    ops: Seq<ReconcileOp<P>>,
    after: ReconcileState<F, P>,
    shard: u16,
) -> bool {
    exists|retried: Seq<ReconcileState<F, P>>, trace: Seq<ReconcileState<F, P>>|
        #![trigger is_retry(retried, in_order(before.parked.reparked@), shard), is_batch(trace, ops, shard)]
        {
            &&& is_retry(retried, in_order(before.parked.reparked@), shard)
            &&& is_disarmed(before, retried[0])
            &&& is_batch(trace, ops, shard)
            &&& trace[0] == retried.last()
            &&& trace.last() == after
        }
}

/// Every retry was disarmed and nothing else changed.
pub open spec fn is_disarmed<F, P>(before: ReconcileState<F, P>, after: ReconcileState<F, P>) -> bool {
    &&& after.parked.reparked@ == Set::<u64>::empty()
    &&& after.parked.entries == before.parked.entries
    &&& after.parked.bytes == before.parked.bytes
    &&& after.parked.shedding == before.parked.shedding
    &&& after.table == before.table
    &&& after.counts == before.counts
    &&& after.lanes == before.lanes
    &&& after.stale == before.stale
    &&& after.retired == before.retired
    &&& after.released == before.released
}

/// Every mutation does what it is for. An owned insert over an absent, unfenced
/// namespace makes the partition live here, at its epoch; a routed one names
/// the shard that owns it and holds nothing; a confirmed teardown leaves
/// neither the partition nor the fence; a removed route is gone.
pub proof fn law_mutation_takes_effect<P>(table: TableView<P>, op: ReconcileOp<P>, shard: u16)
    ensures
        ({
            let after = applied(table, op, shard);
            match op {
                ReconcileOp::InsertOwned { namespace, partition, epoch } => {
                    &&& !table.live.contains_key(namespace) && !table.tombstones.contains(namespace) ==> {
                        &&& after.live.contains_key(namespace) && after.live[namespace] == partition
                        &&& after.routes.contains_key(namespace)
                        &&& after.routes[namespace].shard == shard && after.routes[namespace].epoch == epoch
                    }
                    &&& table.live.contains_key(namespace) || table.tombstones.contains(namespace) ==> after == table
                    &&& after.tombstones == table.tombstones
                },
                ReconcileOp::InsertRouted { namespace, owner, epoch } => {
                    &&& after.routes.contains_key(namespace)
                    &&& after.routes[namespace].shard == owner && after.routes[namespace].epoch == epoch
                    &&& after.live == table.live && after.tombstones == table.tombstones
                },
                ReconcileOp::ConfirmRemove { namespace } => {
                    &&& !after.live.contains_key(namespace) && !after.tombstones.contains(namespace)
                    &&& after.routes == table.routes
                },
                ReconcileOp::RemoveRouted { namespace } => {
                    &&& !after.routes.contains_key(namespace)
                    &&& after.live == table.live && after.tombstones == table.tombstones
                },
            }
        }),
{
}

/// A fence puts the namespace out of reach and takes its route, and does
/// nothing to any other.
pub proof fn law_fence_takes_reach_and_route<P>(table: TableView<P>, namespace: u64, other: u64)
    ensures
        fenced(table, namespace).tombstones.contains(namespace),
        !fenced(table, namespace).routes.contains_key(namespace),
        fenced(table, namespace).live == table.live,
        other != namespace ==> {
            &&& fenced(table, namespace).tombstones.contains(other) == table.tombstones.contains(other)
            &&& fenced(table, namespace).routes.contains_key(other) == table.routes.contains_key(other)
            &&& table.routes.contains_key(other) ==> fenced(table, namespace).routes[other] == table.routes[other]
        },
{
}

/// Frames of a namespace that are still parked, and those handed to the own
/// pump so far.
pub open spec fn in_flight<F, P>(state: ReconcileState<F, P>, namespace: u64, shard: u16) -> int {
    frames_at(state.parked@, namespace).len() + state.stale.len() + state.retired.len() + if shard < state.lanes.len() {
        state.lanes[shard as int].inner.handed().len() as int
    } else {
        0
    }
}

proof fn lemma_redispatched_keeps_frames<F, P>(
    before: ReconcileState<F, P>,
    after: ReconcileState<F, P>,
    namespace: u64,
    epoch: u64,
    counts: MetricCounts,
    shard: u16,
)
    requires
        is_redispatched(before, after, namespace, epoch, counts, shard),
    ensures
        in_flight(after, namespace, shard) == in_flight(before, namespace, shard),
        after.lanes.len() == before.lanes.len(),
{
    let done = choose|done: Redispatched|
        #![trigger before.stale + done.stale@]
        {
            &&& is_redispatch(
                before.parked,
                after.parked,
                counts,
                after.counts,
                before.lanes,
                after.lanes,
                shard,
                namespace,
                epoch,
                done,
            )
            &&& after.stale == before.stale + done.stale@
            &&& after.retired == before.retired + done.retired@
        };
    law_redispatch_loses_no_frame(
        before.parked,
        after.parked,
        counts,
        after.counts,
        before.lanes,
        after.lanes,
        shard,
        namespace,
        epoch,
        done,
    );
    let servable = servable_frames(frames_at(before.parked@, namespace), epoch);
    let left = done.retired@ + frames_at(after.parked@, namespace);
    if shard < before.lanes.len() {
        let taken = choose|taken: int|
            #![trigger servable.take(taken)]
            {
                &&& 0 <= taken <= servable.len()
                &&& servable == servable.take(taken) + left
                &&& after.lanes[shard as int].inner.handed() == before.lanes[shard as int].inner.handed() + dispatched::<F>(
                    shard,
                    servable.take(taken),
                )
            };
        assert(servable.len() == taken + left.len());
    }
}

/// No frame and no partition is lost to a mutation. Whatever is parked under
/// its namespace is still parked, handed to the own pump, or left to be
/// answered; an owned partition is live or released, and a removed one
/// released.
pub proof fn law_step_loses_neither_frame_nor_partition<F, P>(
    before: ReconcileState<F, P>,
    after: ReconcileState<F, P>,
    op: ReconcileOp<P>,
    shard: u16,
)
    requires
        is_step(before, after, op, shard),
    ensures
        in_flight(after, op_namespace(op), shard) == in_flight(before, op_namespace(op), shard),
        op is InsertOwned ==> {
            let namespace = op->InsertOwned_namespace;
            let admitted = !before.table.live.contains_key(namespace) && !before.table.tombstones.contains(namespace);
            &&& admitted ==> {
                &&& after.table.live.contains_key(namespace) && after.table.live[namespace] == op->partition
                &&& after.released == before.released
            }
            &&& !admitted ==> after.released == before.released.push(op->partition) && after.parked == before.parked
            &&& !admitted && before.table.live.contains_key(namespace)
                && before.counts.partitions_duplicate_builds_discarded < u64::MAX
                ==> after.counts.partitions_duplicate_builds_discarded
                == before.counts.partitions_duplicate_builds_discarded + 1
            &&& !admitted && !before.table.live.contains_key(namespace) ==> after.counts == before.counts
        },
        op is ConfirmRemove ==> {
            let namespace = op->ConfirmRemove_namespace;
            &&& frames_at(after.parked@, namespace).len() == 0
            &&& after.retired == before.retired + frames_at(before.parked@, namespace)
            &&& before.table.live.contains_key(namespace) ==> after.released == before.released.push(before.table.live[namespace])
            &&& !before.table.live.contains_key(namespace) ==> after.released == before.released
            &&& before.counts.partitions_removed < u64::MAX ==> after.counts.partitions_removed
                == before.counts.partitions_removed + 1
        },
        op is RemoveRouted ==> {
            let namespace = op->RemoveRouted_namespace;
            &&& frames_at(after.parked@, namespace).len() == 0
            &&& after.retired == before.retired + frames_at(before.parked@, namespace)
            &&& after.released == before.released
            &&& after.counts == before.counts
        },
        op is InsertRouted ==> after.parked == before.parked && after.released == before.released && after.counts == before.counts,
{
    match op {
        ReconcileOp::InsertOwned { namespace, partition, epoch } => {
            if admits_insert(before.table, namespace) {
                lemma_redispatched_keeps_frames(
                    before,
                    after,
                    namespace,
                    epoch,
                    MetricCounts { partitions_materialised: bumped(before.counts.partitions_materialised), ..before.counts },
                    shard,
                );
            }
        },
        _ => {},
    }
}

/// A retry loses no frame: those of a fenced or unrouted namespace stay where
/// they are, those of any other are parked, handed to the own pump or left to
/// be answered, and no partition or route changes.
pub proof fn law_retry_loses_no_frame<F, P>(
    before: ReconcileState<F, P>,
    after: ReconcileState<F, P>,
    namespace: u64,
    shard: u16,
)
    requires
        is_retry_step(before, after, namespace, shard),
    ensures
        in_flight(after, namespace, shard) == in_flight(before, namespace, shard),
        after.table == before.table,
        after.released == before.released,
        before.table.tombstones.contains(namespace) ==> after == before,
        !before.table.routes.contains_key(namespace) ==> after == before,
        !before.table.tombstones.contains(namespace) && before.table.routes.contains_key(namespace) ==> is_redispatched(
            before,
            after,
            namespace,
            before.table.routes[namespace].epoch,
            before.counts,
            shard,
        ),
{
    if !before.table.tombstones.contains(namespace) && before.table.routes.contains_key(namespace) {
        lemma_redispatched_keeps_frames(
            before,
            after,
            namespace,
            before.table.routes[namespace].epoch,
            before.counts,
            shard,
        );
    }
}

/// A drain retries every armed namespace once, in increasing order, before it
/// applies the staged mutations one by one in the order they were staged; what
/// it leaves of the table is what the mutations make of it.
pub proof fn law_drain_applies_every_mutation<F, P>(
    before: ReconcileState<F, P>,
    ops: Seq<ReconcileOp<P>>,
    after: ReconcileState<F, P>,
    shard: u16,
)
    requires
        is_drain(before, ops, after, shard),
    ensures
        after.table == applied_all(before.table, ops, shard),
        exists|retried: Seq<ReconcileState<F, P>>|
            #![trigger retried.last()]
            {
                &&& retried.len() == in_order(before.parked.reparked@).len() + 1
                &&& forall|i: int|
                    0 <= i < retried.len() - 1 ==> is_retry_step(
                        retried[i],
                        retried[i + 1],
                        #[trigger] in_order(before.parked.reparked@)[i],
                        shard,
                    )
            },
{
    let (retried, trace) = choose|retried: Seq<ReconcileState<F, P>>, trace: Seq<ReconcileState<F, P>>|
        #![trigger is_retry(retried, in_order(before.parked.reparked@), shard), is_batch(trace, ops, shard)]
        {
            &&& is_retry(retried, in_order(before.parked.reparked@), shard)
            &&& is_disarmed(before, retried[0])
            &&& is_batch(trace, ops, shard)
            &&& trace[0] == retried.last()
            &&& trace.last() == after
        };
    lemma_retry_keeps_table(retried, in_order(before.parked.reparked@), shard, retried.len() - 1);
    lemma_batch_applies(trace, ops, shard, ops.len() as int);
    assert(ops.take(ops.len() as int) =~= ops);
    let _ = retried.last();
}

proof fn lemma_retry_keeps_table<F, P>(trace: Seq<ReconcileState<F, P>>, namespaces: Seq<u64>, shard: u16, at: int)
    requires
        is_retry(trace, namespaces, shard),
        0 <= at < trace.len(),
    ensures
        trace[at].table == trace[0].table,
    decreases at,
{
    if at > 0 {
        lemma_retry_keeps_table(trace, namespaces, shard, at - 1);
        let _ = namespaces[at - 1];
    }
}

proof fn lemma_batch_applies<F, P>(trace: Seq<ReconcileState<F, P>>, ops: Seq<ReconcileOp<P>>, shard: u16, at: int)
    requires
        is_batch(trace, ops, shard),
        0 <= at <= ops.len(),
    ensures
        trace[at].table == applied_all(trace[0].table, ops.take(at), shard),
    decreases at,
{
    if at > 0 {
        lemma_batch_applies(trace, ops, shard, at - 1);
        let _ = ops[at - 1];
        assert(ops.take(at).drop_last() =~= ops.take(at - 1));
    } else {
        assert(ops.take(0).len() == 0);
    }
}

/// The reconciler is woken for a confirmed teardown and for nothing else: one
/// more mutation calls for it exactly where it is one, and a batch without any
/// never does.
pub proof fn law_only_a_confirmed_teardown_wakes<P>(ops: Seq<ReconcileOp<P>>, op: ReconcileOp<P>)
    ensures
        confirms_removal(ops.push(op)) <==> confirms_removal(ops) || op is ConfirmRemove,
        (forall|i: int| #![trigger ops[i]] 0 <= i < ops.len() ==> !(ops[i] is ConfirmRemove)) <==> !confirms_removal(ops),
        !confirms_removal(Seq::<ReconcileOp<P>>::empty()),
{
    let more = ops.push(op);
    if confirms_removal(ops) {
        let i = choose|i: int| #![trigger ops[i]] 0 <= i < ops.len() && ops[i] is ConfirmRemove;
        assert(more[i] is ConfirmRemove);
    }
    if op is ConfirmRemove {
        assert(more[ops.len() as int] is ConfirmRemove);
    }
    if confirms_removal(more) {
        let i = choose|i: int| #![trigger more[i]] 0 <= i < more.len() && more[i] is ConfirmRemove;
        if i < ops.len() {
            assert(ops[i] is ConfirmRemove);
        }
    }
}

/// Disarming the retries takes nothing else: every frame is still parked, and
/// the table, the lanes and what is to be answered are as they were.
pub proof fn law_disarming_keeps_every_frame<F, P>(
    before: ReconcileState<F, P>,
    after: ReconcileState<F, P>,
    namespace: u64,
    shard: u16,
)
    requires
        is_disarmed(before, after),
    ensures
        !after.parked.reparked@.contains(namespace),
        after.parked@ == before.parked@,
        after.parked.bytes == before.parked.bytes && after.parked.shedding == before.parked.shedding,
        after.table == before.table && after.counts == before.counts && after.lanes == before.lanes,
        after.stale == before.stale && after.retired == before.retired && after.released == before.released,
        in_flight(after, namespace, shard) == in_flight(before, namespace, shard),
{
    assert(after.parked@ =~= before.parked@);
}

} // verus!
