//! Journal repair: serving a range of prepares to a lagging peer, ingesting a
//! repaired prepare, and driving this replica's own repair sessions.

use vstd::prelude::*;

use crate::view_log::{
    disagrees_with_view, in_repair_scope, log_of, max_u64, min_u64, repair_disagrees_with_view,
    repair_op_in_scope, HeaderWindow, MergedLog,
};
use crate::wire::PrepareHeader;

verus! {

/// Default ceiling on prepares served per repair round.
pub const REPAIR_CHUNK_MAX: u64 = 128;

/// Consensus status of a group on this replica.
#[derive(Debug, Clone, Copy, PartialEq, Eq, Structural)]
pub enum ReplicaStatus {
    Normal,
    ViewChange,
    Recovering,
}

/// A request for the journaled prepares in `from_op..=to_op`.
#[derive(Debug, Clone, Copy, PartialEq, Eq, Structural)]
pub struct PrepareRequest {
    pub target: u8,
    pub nonce: u128,
    pub from_op: u64,
    pub to_op: u64,
}

/// Ceiling on the op range a repair request may ask this replica to walk: the
/// local frontier, which includes the uncommitted suffix above every commit
/// point.
pub fn repair_serve_ceiling(requested_to_op: u64, commit_max: u64, head: u64) -> (ceiling: u64)
    ensures
        ceiling == min_u64(requested_to_op, max_u64(commit_max, head)),
{
    let frontier: u64 = if commit_max >= head {
        commit_max
    } else {
        head
    };
    if requested_to_op <= frontier {
        requested_to_op
    } else {
        frontier
    }
}

/// How a repair request is answered.
#[derive(Debug, Clone, Copy, PartialEq, Eq, Structural)]
pub enum ServePlan {
    /// Say nothing; the requester's stall retry asks again.
    Silent,
    /// Stay silent until the committed purge applies here.
    DeferredByPurge,
    /// Nothing of the range is retained: report the eviction, then close the
    /// stream below what was asked.
    Evicted { retained_from: u64, done_through: u64 },
    /// Report `evicted_from` if it is set, stream `from_op..=chunk_end`, then
    /// close the stream at the last op that went out.
    Serve { evicted_from: Option<u64>, from_op: u64, chunk_end: u64 },
}

/// Last op of one served chunk.
pub open spec fn chunk_end_spec(to_op: u64, from_op: u64, chunk_max: u64) -> u64 {
    let reach = from_op + (chunk_max - 1);
    if reach < to_op {
        reach as u64
    } else {
        to_op
    }
}

fn chunk_end(to_op: u64, from_op: u64, chunk_max: u64) -> (end: u64)
    requires
        chunk_max >= 1,
    ensures
        end == chunk_end_spec(to_op, from_op, chunk_max),
{
    let reach: u64 = from_op.saturating_add(chunk_max - 1);
    if reach < to_op {
        reach
    } else {
        to_op
    }
}

/// `first` is the lowest op from `low` on that `journal` holds, or `to_op + 1`
/// where it holds none.
pub open spec fn first_held(journal: Map<u64, PrepareHeader>, low: u64, to_op: u64, first: int) -> bool {
    &&& low <= first
    &&& first <= to_op ==> journal.contains_key(first as u64)
    &&& low <= to_op ==> first <= to_op + 1
    &&& low > to_op ==> first == low
    &&& forall|op: u64| low <= op < first ==> !#[trigger] journal.contains_key(op)
}

/// What a metadata group reads of itself to answer a repair request.
pub struct MetadataServeState {
    pub transferring: bool,
    pub status: ReplicaStatus,
    pub has_journal: bool,
    pub commit_max: u64,
    pub head: u64,
    /// Everything at or below is compacted into the snapshot.
    pub snapshot_op: u64,
}

/// The answer a metadata group owes a request for `from_op..=to_op`.
pub open spec fn metadata_serve_plan(
    state: MetadataServeState,
    journal: Map<u64, PrepareHeader>,
    from_op: u64,
    to_op: u64,
    chunk_max: u64,
    plan: ServePlan,
) -> bool {
    if state.transferring || state.status is Recovering || !state.has_journal {
        plan is Silent
    } else {
        let ceiling = min_u64(to_op, max_u64(state.commit_max, state.head));
        let low = max_u64(from_op, (state.snapshot_op + 1) as u64);
        match plan {
            ServePlan::Evicted { retained_from, done_through } => {
                &&& first_held(journal, low, ceiling, retained_from as int)
                &&& retained_from > ceiling
                &&& done_through == if from_op > 0 {
                    from_op - 1
                } else {
                    0
                }
            },
            ServePlan::Serve { evicted_from, from_op: start, chunk_end } => {
                &&& first_held(journal, low, ceiling, start as int)
                &&& start <= ceiling
                &&& evicted_from == if start > from_op {
                    Some(start)
                } else {
                    None
                }
                &&& chunk_end == chunk_end_spec(ceiling, start, chunk_max)
            },
            _ => false,
        }
    }
}

/// Decide how the metadata group answers a repair request.
///
/// Served in a view change too: the replicas holding a missing body are
/// exactly those. The walk starts above the snapshot, so a compacted prefix
/// is skipped in one step.
pub fn plan_metadata_serve(
    state: &MetadataServeState,
    journal: &HeaderWindow,
    from_op: u64,
    to_op: u64,
    chunk_max: u64,
) -> (plan: ServePlan)
    requires
        state.snapshot_op < u64::MAX,
        max_u64(state.commit_max, state.head) < u64::MAX,
        chunk_max >= 1,
    ensures
        metadata_serve_plan(*state, journal@, from_op, to_op, chunk_max, plan),
{
    if state.transferring || matches!(state.status, ReplicaStatus::Recovering) || !state.has_journal {
        return ServePlan::Silent;
    }
    let ceiling: u64 = repair_serve_ceiling(to_op, state.commit_max, state.head);
    let low: u64 = if from_op >= state.snapshot_op + 1 {
        from_op
    } else {
        state.snapshot_op + 1
    };
    let mut start: u64 = low;
    while start <= ceiling && journal.header(start).is_none()
        invariant
            ceiling < u64::MAX,
            low <= start,
            low <= ceiling ==> start <= ceiling + 1,
            low > ceiling ==> start == low,
            forall|op: u64| low <= op < start ==> !#[trigger] journal@.contains_key(op),
        decreases ceiling + 1 - start,
    {
        start += 1;
    }
    if start > ceiling {
        return ServePlan::Evicted {
            retained_from: start,
            done_through: from_op.saturating_sub(1),
        };
    }
    ServePlan::Serve {
        evicted_from: if start > from_op {
            Some(start)
        } else {
            None
        },
        from_op: start,
        chunk_end: chunk_end(ceiling, start, chunk_max),
    }
}

/// What a partition group reads of itself to answer a repair request.
pub struct PartitionServeState {
    pub normal: bool,
    pub committed_purge: u64,
    pub applied_purge: u64,
    pub commit_min: u64,
    pub commit_max: u64,
    /// Lowest op the journal still serves; `None` when it holds nothing.
    pub retained_from: Option<u64>,
    /// Entries at or below were purged away.
    pub purge_floor: u64,
}

/// `value + 1`, stopping at the top.
pub open spec fn next_op(value: u64) -> u64 {
    if value < u64::MAX {
        (value + 1) as u64
    } else {
        value
    }
}

/// First op a partition serves: what its journal retains (an empty journal
/// retains nothing below its commit frontier), and never a purged entry.
pub open spec fn partition_retained_from(state: PartitionServeState) -> u64 {
    max_u64(
        match state.retained_from {
            Some(op) => op,
            None => next_op(state.commit_min),
        },
        next_op(state.purge_floor),
    )
}

/// The answer a partition group owes a request for `from_op..=to_op`.
pub open spec fn partition_serve_plan(state: PartitionServeState, from_op: u64, to_op: u64, chunk_max: u64) -> ServePlan {
    if !state.normal {
        ServePlan::Silent
    } else if state.committed_purge > state.applied_purge {
        ServePlan::DeferredByPurge
    } else {
        let retained = partition_retained_from(state);
        let start = max_u64(from_op, retained);
        ServePlan::Serve {
            evicted_from: if retained > from_op {
                Some(retained)
            } else {
                None
            },
            from_op: start,
            chunk_end: chunk_end_spec(min_u64(to_op, state.commit_max), start, chunk_max),
        }
    }
}

/// Decide how a partition group answers a repair request.
pub fn plan_partition_serve(state: &PartitionServeState, from_op: u64, to_op: u64, chunk_max: u64) -> (plan: ServePlan)
    requires
        chunk_max >= 1,
    ensures
        plan == partition_serve_plan(*state, from_op, to_op, chunk_max),
{
    if !state.normal {
        return ServePlan::Silent;
    }
    if state.committed_purge > state.applied_purge {
        return ServePlan::DeferredByPurge;
    }
    let ceiling: u64 = if to_op <= state.commit_max {
        to_op
    } else {
        state.commit_max
    };
    let journaled: u64 = match state.retained_from {
        Some(op) => op,
        None => state.commit_min.saturating_add(1),
    };
    let above_purge: u64 = state.purge_floor.saturating_add(1);
    let retained: u64 = if journaled >= above_purge {
        journaled
    } else {
        above_purge
    };
    let start: u64 = if from_op >= retained {
        from_op
    } else {
        retained
    };
    ServePlan::Serve {
        evicted_from: if retained > from_op {
            Some(retained)
        } else {
            None
        },
        from_op: start,
        chunk_end: chunk_end(ceiling, start, chunk_max),
    }
}

/// A served chunk stays inside what was asked, inside the local frontier
/// and within the chunk ceiling, and never reaches into the compacted prefix.
pub proof fn law_metadata_serve_is_bounded(
    state: MetadataServeState,
    journal: Map<u64, PrepareHeader>,
    from_op: u64,
    to_op: u64,
    chunk_max: u64,
    plan: ServePlan,
)
    requires
        state.snapshot_op < u64::MAX,
        chunk_max >= 1,
        metadata_serve_plan(state, journal, from_op, to_op, chunk_max, plan),
        plan is Serve,
    ensures
        from_op <= plan->from_op <= plan->chunk_end <= to_op,
        plan->chunk_end <= max_u64(state.commit_max, state.head),
        plan->chunk_end - plan->from_op < chunk_max,
        plan->from_op > state.snapshot_op,
        journal.contains_key(plan->from_op),
{
}

/// A partition never serves an entry its purge removed, nor past its
/// commit frontier.
pub proof fn law_partition_serve_respects_the_purge_fence(
    state: PartitionServeState,
    from_op: u64,
    to_op: u64,
    chunk_max: u64,
    op: u64,
)
    requires
        chunk_max >= 1,
        state.purge_floor < u64::MAX,
        partition_serve_plan(state, from_op, to_op, chunk_max) is Serve,
        partition_serve_plan(state, from_op, to_op, chunk_max)->from_op <= op
            <= partition_serve_plan(state, from_op, to_op, chunk_max)->chunk_end,
    ensures
        op > state.purge_floor,
        from_op <= op <= to_op,
        op <= state.commit_max,
        state.committed_purge <= state.applied_purge,
{
}

/// Progress of one served chunk: the stream stops at the first op that cannot
/// be read or sent, and closes at the last one that went out.
pub struct ServeCursor {
    pub from_op: u64,
    pub chunk_end: u64,
    /// Ops that went out, consecutive from `from_op`.
    pub sent: u64,
    pub stopped: bool,
}

impl ServeCursor {
    pub open spec fn wf(&self) -> bool {
        &&& self.from_op >= 1
        &&& self.sent > 0 ==> self.from_op + self.sent - 1 <= self.chunk_end
    }

    /// The op the stream is open on.
    pub open spec fn open_on(&self) -> Option<u64> {
        if self.stopped || self.from_op + self.sent > self.chunk_end {
            None
        } else {
            Some((self.from_op + self.sent) as u64)
        }
    }

    /// A stream that has sent nothing.
    pub open spec fn opened(from_op: u64, chunk_end: u64) -> ServeCursor {
        ServeCursor { from_op, chunk_end, sent: 0, stopped: false }
    }

    /// The cursor once the pending op went out, or could not.
    pub open spec fn recorded(self, went_out: bool) -> ServeCursor {
        if went_out {
            ServeCursor { sent: (self.sent + 1) as u64, ..self }
        } else {
            ServeCursor { stopped: true, ..self }
        }
    }

    /// The op the closing frame reports.
    pub open spec fn closes_at(self) -> int {
        self.from_op + self.sent - 1
    }

    pub fn new(from_op: u64, chunk_end: u64) -> (cursor: ServeCursor)
        requires
            from_op >= 1,
        ensures
            cursor == ServeCursor::opened(from_op, chunk_end),
            cursor.wf(),
    {
        ServeCursor { from_op, chunk_end, sent: 0, stopped: false }
    }

    /// The op to read and send next.
    pub fn pending(&self) -> (op: Option<u64>)
        requires
            self.wf(),
        ensures
            op == self.open_on(),
    {
        if self.stopped || self.chunk_end < self.from_op || self.sent > self.chunk_end - self.from_op {
            None
        } else {
            Some(self.from_op + self.sent)
        }
    }

    /// Record whether the pending op was read and handed to the bus.
    pub fn record(&mut self, went_out: bool)
        requires
            old(self).wf(),
            old(self).open_on() is Some,
        ensures
            final(self).wf(),
            *final(self) == old(self).recorded(went_out),
    {
        if went_out {
            self.sent += 1;
        } else {
            self.stopped = true;
        }
    }

    /// The op the closing frame reports: the last one that went out.
    pub fn served_through(&self) -> (op: u64)
        requires
            self.wf(),
        ensures
            op == self.closes_at(),
    {
        self.from_op - 1 + self.sent
    }
}

/// What happens to a repaired prepare.
#[derive(Debug, Clone, Copy, PartialEq, Eq, Structural)]
pub enum RepairIngest {
    /// Not wanted: no session, out of range, out of scope, or already held.
    Ignore,
    /// The view decided another prepare at this op, or the bytes fail their
    /// integrity check.
    Discard,
    /// Append to the metadata journal.
    JournalMetadata,
    /// Hand to the partition the frame names.
    ApplyPartition,
}

/// What the metadata plane reads of itself to judge a repaired prepare.
pub struct MetadataIngestState<'a> {
    pub group: u64,
    pub session_to_op: Option<u64>,
    pub is_primary: bool,
    pub commit_min: u64,
    pub pending: Option<&'a MergedLog>,
    pub has_journal: bool,
    /// The journal already holds a header at the op.
    pub already_held: bool,
}

/// The prepare addresses the metadata plane: by group, or as an entry that
/// predates group stamping.
pub open spec fn claims_metadata(group: u64, header: PrepareHeader) -> bool {
    group == header.group || (header.group == 0 && header.operation.spec_is_metadata_plane())
}

/// The verdict on a repaired prepare.
pub open spec fn ingest_verdict(
    metadata: Option<MetadataIngestState>,
    partition_exists: bool,
    header: PrepareHeader,
    intact: bool,
) -> RepairIngest {
    if metadata is Some && claims_metadata(metadata->0.group, header) {
        let state = metadata->0;
        if state.session_to_op is None || header.op > state.session_to_op->0 {
            RepairIngest::Ignore
        } else if !in_repair_scope(log_of(state.pending), state.is_primary, state.commit_min, header.op) {
            RepairIngest::Ignore
        } else if disagrees_with_view(log_of(state.pending), header.op, header.checksum) || !intact {
            RepairIngest::Discard
        } else if !state.has_journal || state.already_held {
            RepairIngest::Ignore
        } else {
            RepairIngest::JournalMetadata
        }
    } else if header.operation.spec_is_metadata_plane() || !partition_exists {
        RepairIngest::Ignore
    } else if !intact {
        RepairIngest::Discard
    } else {
        RepairIngest::ApplyPartition
    }
}

/// Judge one repaired prepare. `metadata` is set on the shard that owns the
/// metadata group; `intact` is the outcome of the integrity check over the
/// frame's bytes.
///
/// A metadata-plane operation that no metadata group claims is dropped, never
/// offered to a partition.
pub fn judge_repair_prepare(
    metadata: Option<MetadataIngestState>,
    partition_exists: bool,
    header: &PrepareHeader,
    intact: bool,
) -> (verdict: RepairIngest)
    ensures
        verdict == ingest_verdict(metadata, partition_exists, *header, intact),
{
    let metadata_plane_op: bool = header.operation.is_metadata_plane();
    if let Some(state) = metadata {
        if state.group == header.group || (header.group == 0 && metadata_plane_op) {
            match state.session_to_op {
                None => {
                    return RepairIngest::Ignore;
                },
                Some(to_op) => {
                    if header.op > to_op {
                        return RepairIngest::Ignore;
                    }
                },
            }
            if !repair_op_in_scope(state.pending, state.is_primary, state.commit_min, header.op) {
                return RepairIngest::Ignore;
            }
            if repair_disagrees_with_view(state.pending, header.op, header.checksum) || !intact {
                return RepairIngest::Discard;
            }
            if !state.has_journal || state.already_held {
                return RepairIngest::Ignore;
            }
            return RepairIngest::JournalMetadata;
        }
    }
    if metadata_plane_op || !partition_exists {
        return RepairIngest::Ignore;
    }
    if !intact {
        return RepairIngest::Discard;
    }
    RepairIngest::ApplyPartition
}

/// Only an intact prepare is ever stored or applied.
pub proof fn law_only_intact_prepares_are_ingested(
    metadata: Option<MetadataIngestState>,
    partition_exists: bool,
    header: PrepareHeader,
    intact: bool,
)
    ensures
        ingest_verdict(metadata, partition_exists, header, intact) is JournalMetadata || ingest_verdict(
            metadata,
            partition_exists,
            header,
            intact,
        ) is ApplyPartition ==> intact,
{
}

/// A metadata-plane operation never reaches a partition.
pub proof fn law_metadata_operation_never_reaches_a_partition(
    metadata: Option<MetadataIngestState>,
    partition_exists: bool,
    header: PrepareHeader,
    intact: bool,
)
    requires
        header.operation.spec_is_metadata_plane(),
    ensures
        !(ingest_verdict(metadata, partition_exists, header, intact) is ApplyPartition),
{
}

/// `frontier` is the end of the contiguous run the journal holds above
/// `sequence`.
pub open spec fn contiguous_frontier(journal: Map<u64, PrepareHeader>, sequence: u64, frontier: u64) -> bool {
    &&& sequence <= frontier
    &&& forall|op: u64| sequence < op <= frontier ==> #[trigger] journal.contains_key(op)
    &&& frontier < u64::MAX ==> !journal.contains_key((frontier + 1) as u64)
}

/// Advance the frontier over the contiguous run a repaired prepare extended.
/// A hole below it stalls the advance.
pub fn advance_frontier(journal: &HeaderWindow, sequence: u64) -> (frontier: u64)
    ensures
        contiguous_frontier(journal@, sequence, frontier),
{
    let mut frontier: u64 = sequence;
    while frontier < u64::MAX && journal.header(frontier + 1).is_some()
        invariant
            sequence <= frontier,
            forall|op: u64| sequence < op <= frontier ==> #[trigger] journal@.contains_key(op),
        decreases u64::MAX - frontier,
    {
        frontier += 1;
    }
    frontier
}

/// One in-flight metadata journal repair.
#[derive(Debug, Clone, Copy, PartialEq, Eq, Structural)]
pub struct MetadataRepairSession {
    pub nonce: u128,
    pub to_op: u64,
    /// Asked again when the stream stalls.
    pub peer: u8,
    /// Ticks since the stream last made progress.
    pub idle_ticks: u32,
}

/// One in-flight partition journal repair.
#[derive(Debug, Clone, Copy, PartialEq, Eq, Structural)]
pub struct RepairSession {
    pub nonce: u128,
    pub to_op: u64,
    /// Commit floor candidate, once the peer reported an eviction.
    pub floor: Option<u64>,
    pub peer: u8,
    pub first_batch_offset: Option<u64>,
    pub idle_ticks: u32,
}

/// Where a group stands, as far as arming a repair goes.
#[derive(Debug, Clone, Copy)]
pub struct RepairGate {
    pub normal: bool,
    pub transferring: bool,
    pub commit_min: u64,
    pub commit_max: u64,
}

impl RepairGate {
    /// Behind the group frontier with nothing else recovering it.
    pub open spec fn lags(&self) -> bool {
        self.normal && !self.transferring && self.commit_min < self.commit_max
    }
}

/// Arming a repair: what is asked of `peer`, on a replica that stands at `gate`.
pub open spec fn repair_asked(gate: RepairGate, session_live: bool, peer: u8, nonce: u128) -> Option<PrepareRequest> {
    if gate.lags() && !session_live {
        Some(PrepareRequest { target: peer, nonce, from_op: (gate.commit_min + 1) as u64, to_op: gate.commit_max })
    } else {
        None
    }
}

/// Arming a metadata repair: the session becomes the one that asked.
pub open spec fn is_metadata_repair_armed(
    before: Option<MetadataRepairSession>,
    after: Option<MetadataRepairSession>,
    gate: RepairGate,
    peer: u8,
    nonce: u128,
    request: Option<PrepareRequest>,
) -> bool {
    &&& request == repair_asked(gate, before is Some, peer, nonce)
    &&& after == if request is Some {
        Some(MetadataRepairSession { nonce, to_op: gate.commit_max, peer, idle_ticks: 0 })
    } else {
        before
    }
}

/// Arming a partition repair: the session becomes the one that asked.
pub open spec fn is_partition_repair_armed(
    before: Option<RepairSession>,
    after: Option<RepairSession>,
    gate: RepairGate,
    peer: u8,
    nonce: u128,
    request: Option<PrepareRequest>,
) -> bool {
    &&& request == repair_asked(gate, before is Some, peer, nonce)
    &&& after == if request is Some {
        Some(
            RepairSession {
                nonce,
                to_op: gate.commit_max,
                floor: None,
                peer,
                first_batch_offset: None,
                idle_ticks: 0,
            },
        )
    } else {
        before
    }
}

/// Start metadata tail repair from `peer` when the commit walk stopped below
/// the known frontier. A no-op when caught up, transferring, not normal, or a
/// session is live.
pub fn maybe_request_metadata_repair(
    session: &mut Option<MetadataRepairSession>,
    gate: &RepairGate,
    peer: u8,
    nonce: u128,
) -> (request: Option<PrepareRequest>)
    ensures
        is_metadata_repair_armed(*old(session), *final(session), *gate, peer, nonce, request),
{
    if gate.normal && !gate.transferring && gate.commit_min < gate.commit_max && session.is_none() {
        *session = Some(MetadataRepairSession { nonce, to_op: gate.commit_max, peer, idle_ticks: 0 });
        return Some(
            PrepareRequest { target: peer, nonce, from_op: gate.commit_min + 1, to_op: gate.commit_max },
        );
    }
    None
}

/// [`maybe_request_metadata_repair`] for a partition.
pub fn maybe_request_partition_repair(
    session: &mut Option<RepairSession>,
    gate: &RepairGate,
    peer: u8,
    nonce: u128,
) -> (request: Option<PrepareRequest>)
    ensures
        is_partition_repair_armed(*old(session), *final(session), *gate, peer, nonce, request),
{
    if gate.normal && !gate.transferring && gate.commit_min < gate.commit_max && session.is_none() {
        *session = Some(
            RepairSession {
                nonce,
                to_op: gate.commit_max,
                floor: None,
                peer,
                first_batch_offset: None,
                idle_ticks: 0,
            },
        );
        return Some(
            PrepareRequest { target: peer, nonce, from_op: gate.commit_min + 1, to_op: gate.commit_max },
        );
    }
    None
}

/// Terminator of a repair stream.
#[derive(Debug, Clone, Copy, PartialEq, Eq, Structural)]
pub enum RangeReply {
    RangeEvicted,
    RepairDone,
}

/// What the metadata plane does on a stream terminator.
#[derive(Debug, Clone, Copy, PartialEq, Eq, Structural)]
pub enum MetadataRangeStep {
    Ignore,
    /// Walk the repaired window, then report to
    /// [`after_metadata_repair_walk`].
    WalkJournal,
    /// Repair cannot close the gap: the session is gone and a state transfer
    /// takes its place.
    ConvertToTransfer,
}

/// The answer to a stream terminator.
pub open spec fn metadata_range_step(
    session: Option<MetadataRepairSession>,
    nonce: u128,
    reply: RangeReply,
    transfer_idle: bool,
) -> MetadataRangeStep {
    if !(session is Some && session->0.nonce == nonce) {
        MetadataRangeStep::Ignore
    } else if reply is RepairDone {
        MetadataRangeStep::WalkJournal
    } else if transfer_idle {
        MetadataRangeStep::ConvertToTransfer
    } else {
        MetadataRangeStep::Ignore
    }
}

/// The session a stream terminator leaves behind.
pub open spec fn session_after_range(session: Option<MetadataRepairSession>, step: MetadataRangeStep) -> Option<MetadataRepairSession> {
    if step is ConvertToTransfer {
        None
    } else {
        session
    }
}

/// Take a stream terminator for the metadata plane. `transfer_idle` says no
/// state transfer is in flight.
pub fn on_metadata_range_reply(
    session: &mut Option<MetadataRepairSession>,
    nonce: u128,
    reply: RangeReply,
    transfer_idle: bool,
) -> (step: MetadataRangeStep)
    ensures
        step == metadata_range_step(*old(session), nonce, reply, transfer_idle),
        *final(session) == session_after_range(*old(session), step),
{
    let matching: bool = match session {
        Some(live) => live.nonce == nonce,
        None => false,
    };
    if !matching {
        return MetadataRangeStep::Ignore;
    }
    match reply {
        RangeReply::RepairDone => MetadataRangeStep::WalkJournal,
        RangeReply::RangeEvicted => if transfer_idle {
            *session = None;
            MetadataRangeStep::ConvertToTransfer
        } else {
            MetadataRangeStep::Ignore
        },
    }
}

/// The stream moved on, with a prepare journaled or ops walked: what counts as
/// idle starts over.
pub fn note_metadata_repair_progress(session: &mut Option<MetadataRepairSession>)
    ensures
        *final(session) == (match *old(session) {
            Some(live) => Some(MetadataRepairSession { idle_ticks: 0, ..live }),
            None => None,
        }),
{
    if let Some(live) = *session {
        *session = Some(MetadataRepairSession { nonce: live.nonce, to_op: live.to_op, peer: live.peer, idle_ticks: 0 });
    }
}

/// A repair round settled: the walk went from `commit_before` to `commit_min`.
pub open spec fn is_repair_round_settled(
    before: Option<MetadataRepairSession>,
    after: Option<MetadataRepairSession>,
    commit_before: u64,
    commit_min: u64,
    request: Option<PrepareRequest>,
) -> bool {
    match before {
        None => after is None && request is None,
        Some(live) => {
            if commit_min >= live.to_op {
                after is None && request is None
            } else if commit_min > commit_before {
                &&& after == Some(MetadataRepairSession { idle_ticks: 0, ..live })
                &&& request == Some(
                    PrepareRequest {
                        target: live.peer,
                        nonce: live.nonce,
                        from_op: (commit_min + 1) as u64,
                        to_op: live.to_op,
                    },
                )
            } else {
                after == before && request is None
            }
        },
    }
}

/// Settle a metadata repair round after the local commit walk.
///
/// Completion is decided by the local walk, not by the peer's claim. While the
/// walk makes progress the next chunk is pulled at once; a stalled one is left
/// to the retry timer.
pub fn after_metadata_repair_walk(
    session: &mut Option<MetadataRepairSession>,
    commit_before: u64,
    commit_min: u64,
) -> (request: Option<PrepareRequest>)
    ensures
        is_repair_round_settled(*old(session), *final(session), commit_before, commit_min, request),
{
    match *session {
        None => None,
        Some(live) => {
            if commit_min >= live.to_op {
                *session = None;
                return None;
            }
            if commit_min > commit_before {
                note_metadata_repair_progress(session);
                Some(
                    PrepareRequest {
                        target: live.peer,
                        nonce: live.nonce,
                        from_op: commit_min + 1,
                        to_op: live.to_op,
                    },
                )
            } else {
                None
            }
        },
    }
}

/// First op a stalled metadata repair asks for: a primary-elect resumes from
/// its merged log's commit point, everyone else just above what was applied.
pub open spec fn stalled_from_op(is_primary: bool, pending: Option<MergedLog>, commit_min: u64) -> int {
    if is_primary && pending is Some {
        max_u64(pending->0.commit_max, 1) as int
    } else {
        commit_min + 1
    }
}

/// Whether a quiet session is ticked at all: in normal operation, or while a
/// primary-elect still repairs toward its parked log.
pub open spec fn repair_ticks(normal: bool, is_primary: bool, pending: Option<MergedLog>) -> bool {
    normal || (pending is Some && is_primary)
}

/// What a quiet stream asks again: the rest of the session's window from
/// `from_op`, of the session's peer and under its nonce.
pub open spec fn asked_again(peer: u8, nonce: u128, from_op: int, to_op: u64) -> Option<PrepareRequest> {
    if from_op <= to_op {
        Some(PrepareRequest { target: peer, nonce, from_op: from_op as u64, to_op })
    } else {
        None
    }
}

/// One tick against a metadata repair.
pub open spec fn is_metadata_repair_ticked(
    before: Option<MetadataRepairSession>,
    after: Option<MetadataRepairSession>,
    ticking: bool,
    from_op: int,
    retry_ticks: u32,
    request: Option<PrepareRequest>,
) -> bool {
    match before {
        None => after is None && request is None,
        Some(live) => {
            let counted = (live.idle_ticks + 1) as u32;
            if !ticking {
                after == before && request is None
            } else if counted < retry_ticks {
                after == Some(MetadataRepairSession { idle_ticks: counted, ..live }) && request is None
            } else {
                &&& after == Some(MetadataRepairSession { idle_ticks: 0, ..live })
                &&& request == asked_again(live.peer, live.nonce, from_op, live.to_op)
            }
        },
    }
}

/// One tick against a partition repair.
pub open spec fn is_partition_repair_ticked(
    before: Option<RepairSession>,
    after: Option<RepairSession>,
    normal: bool,
    commit_min: u64,
    retry_ticks: u32,
    request: Option<PrepareRequest>,
) -> bool {
    match before {
        None => after is None && request is None,
        Some(live) => {
            let counted = (live.idle_ticks + 1) as u32;
            if !normal {
                after == before && request is None
            } else if counted < retry_ticks {
                after == Some(RepairSession { idle_ticks: counted, ..live }) && request is None
            } else {
                &&& after == Some(RepairSession { idle_ticks: 0, ..live })
                &&& request == asked_again(live.peer, live.nonce, commit_min + 1, live.to_op)
            }
        },
    }
}

/// Count one tick against the metadata repair, asking for the remaining window
/// again when the stream has gone quiet.
pub fn retry_stalled_metadata_repair(
    session: &mut Option<MetadataRepairSession>,
    normal: bool,
    is_primary: bool,
    pending: Option<&MergedLog>,
    commit_min: u64,
    retry_ticks: u32,
) -> (request: Option<PrepareRequest>)
    requires
        *old(session) is Some ==> old(session)->0.idle_ticks < u32::MAX,
        commit_min < u64::MAX,
    ensures
        is_metadata_repair_ticked(
            *old(session),
            *final(session),
            repair_ticks(normal, is_primary, log_of(pending)),
            stalled_from_op(is_primary, log_of(pending), commit_min),
            retry_ticks,
            request,
        ),
        *final(session) is Some ==> final(session)->0.idle_ticks < u32::MAX,
{
    let live: MetadataRepairSession = match *session {
        Some(live) => live,
        None => {
            return None;
        },
    };
    let repairing_view: bool = pending.is_some() && is_primary;
    if !normal && !repairing_view {
        return None;
    }
    let counted: u32 = live.idle_ticks + 1;
    if counted < retry_ticks {
        *session = Some(
            MetadataRepairSession { nonce: live.nonce, to_op: live.to_op, peer: live.peer, idle_ticks: counted },
        );
        return None;
    }
    *session = Some(MetadataRepairSession { nonce: live.nonce, to_op: live.to_op, peer: live.peer, idle_ticks: 0 });
    let from_op: u64 = match pending {
        Some(log) => if is_primary {
            if log.commit_max >= 1 {
                log.commit_max
            } else {
                1
            }
        } else {
            commit_min + 1
        },
        None => commit_min + 1,
    };
    if from_op <= live.to_op {
        Some(PrepareRequest { target: live.peer, nonce: live.nonce, from_op, to_op: live.to_op })
    } else {
        None
    }
}

/// Count one tick against a partition repair.
pub fn retry_stalled_partition_repair(
    session: &mut Option<RepairSession>,
    normal: bool,
    commit_min: u64,
    retry_ticks: u32,
) -> (request: Option<PrepareRequest>)
    requires
        *old(session) is Some ==> old(session)->0.idle_ticks < u32::MAX,
        commit_min < u64::MAX,
    ensures
        is_partition_repair_ticked(*old(session), *final(session), normal, commit_min, retry_ticks, request),
        *final(session) is Some ==> final(session)->0.idle_ticks < u32::MAX,
{
    let live: RepairSession = match *session {
        Some(live) => live,
        None => {
            return None;
        },
    };
    if !normal {
        return None;
    }
    let counted: u32 = live.idle_ticks + 1;
    let idle_ticks: u32 = if counted < retry_ticks {
        counted
    } else {
        0
    };
    *session = Some(
        RepairSession {
            nonce: live.nonce,
            to_op: live.to_op,
            floor: live.floor,
            peer: live.peer,
            first_batch_offset: live.first_batch_offset,
            idle_ticks,
        },
    );
    if counted < retry_ticks || commit_min + 1 > live.to_op {
        return None;
    }
    Some(PrepareRequest { target: live.peer, nonce: live.nonce, from_op: commit_min + 1, to_op: live.to_op })
}

/// A metadata group is silent only while it transfers, recovers or has no
/// journal. Otherwise every op it holds of the range, above the snapshot and
/// within the chunk ceiling of the first one, is in the served range; an
/// eviction is reported where the first op asked for is not held, and the
/// range is called evicted where nothing of it is.
pub proof fn law_metadata_serve_is_complete(
    state: MetadataServeState,
    journal: Map<u64, PrepareHeader>,
    from_op: u64,
    to_op: u64,
    chunk_max: u64,
    plan: ServePlan,
    op: u64,
)
    requires
        state.snapshot_op < u64::MAX,
        chunk_max >= 1,
        metadata_serve_plan(state, journal, from_op, to_op, chunk_max, plan),
    ensures
        plan is Silent <==> state.transferring || state.status is Recovering || !state.has_journal,
        !(plan is DeferredByPurge),
        ({
            let held = from_op <= op <= to_op && journal.contains_key(op) && op > state.snapshot_op && (op
                <= state.commit_max || op <= state.head);
            &&& held && !(plan is Silent) ==> plan is Serve && plan->from_op <= op
            &&& held && plan is Serve && op - plan->from_op < chunk_max ==> op <= plan->chunk_end
            &&& held && op == from_op && plan is Serve ==> plan->evicted_from is None
        }),
        plan is Serve ==> {
            &&& journal.contains_key(plan->from_op) && from_op <= plan->from_op
            &&& plan->evicted_from is None ==> plan->from_op == from_op
            &&& plan->evicted_from is Some ==> plan->evicted_from->0 == plan->from_op && plan->from_op > from_op
        },
        plan is Evicted ==> {
            &&& from_op <= op < plan->retained_from && op > state.snapshot_op ==> !journal.contains_key(op)
            &&& plan->retained_from > to_op || (plan->retained_from > state.commit_max && plan->retained_from
                > state.head)
            &&& plan->done_through <= from_op
            &&& from_op >= 1 ==> plan->done_through + 1 == from_op
        },
{
}

/// A partition in normal operation always answers: it waits for a purge that
/// is committed and not applied, and otherwise serves. Every op asked for that
/// it retains, that no purge removed, that is committed and within the chunk
/// ceiling of the first such op, is in the served range. An eviction is
/// reported exactly where the first op asked for is not retained, and names
/// the lowest op that is.
pub proof fn law_partition_serve_is_complete(state: PartitionServeState, from_op: u64, to_op: u64, chunk_max: u64, op: u64)
    requires
        chunk_max >= 1,
        state.purge_floor < u64::MAX,
        state.commit_min < u64::MAX,
    ensures
        ({
            let plan = partition_serve_plan(state, from_op, to_op, chunk_max);
            let purge_outstanding = state.applied_purge < state.committed_purge;
            let kept = |wanted: u64|
                wanted > state.purge_floor && match state.retained_from {
                    Some(lowest) => wanted >= lowest,
                    None => wanted > state.commit_min,
                };
            &&& plan is Silent <==> !state.normal
            &&& plan is DeferredByPurge <==> state.normal && purge_outstanding
            &&& plan is Serve <==> state.normal && !purge_outstanding
            &&& plan is Serve ==> {
                &&& from_op <= op <= to_op && kept(op) && op <= state.commit_max ==> plan->from_op <= op
                &&& from_op <= op <= to_op && kept(op) && op <= state.commit_max && op - plan->from_op < chunk_max ==> op
                    <= plan->chunk_end
                &&& kept(plan->from_op)
                &&& from_op <= plan->from_op
                &&& plan->evicted_from is None <==> kept(from_op)
                &&& plan->evicted_from is None ==> plan->from_op == from_op
                &&& plan->evicted_from is Some ==> {
                    &&& plan->evicted_from->0 == plan->from_op
                    &&& op < plan->evicted_from->0 ==> !kept(op)
                }
            }
        }),
{
}

/// A served stream offers its ops in order and each once: the next one follows
/// the one that went out, the last one ends the stream, and so does the first
/// that could not be sent. The closing frame names the last that went out.
pub proof fn law_stream_sends_each_op_once(cursor: ServeCursor)
    requires
        cursor.wf(),
        cursor.open_on() is Some,
    ensures
        cursor.from_op <= cursor.open_on()->0 <= cursor.chunk_end,
        cursor.recorded(true).closes_at() == cursor.open_on()->0,
        cursor.closes_at() == cursor.open_on()->0 - 1,
        cursor.open_on()->0 < cursor.chunk_end ==> cursor.recorded(true).open_on() == Some((cursor.open_on()->0 + 1) as u64),
        cursor.open_on()->0 == cursor.chunk_end ==> cursor.recorded(true).open_on() is None,
        cursor.recorded(false).open_on() is None,
        cursor.recorded(false).closes_at() == cursor.closes_at(),
        cursor.recorded(true).wf(),
        cursor.recorded(false).wf(),
{
}

/// A stream opens on the first op of its chunk, and on nothing where the chunk
/// is empty.
pub proof fn law_stream_opens_on_its_first_op(from_op: u64, chunk_end: u64)
    requires
        from_op >= 1,
    ensures
        from_op <= chunk_end ==> ServeCursor::opened(from_op, chunk_end).open_on() == Some(from_op),
        from_op > chunk_end ==> ServeCursor::opened(from_op, chunk_end).open_on() is None,
        ServeCursor::opened(from_op, chunk_end).closes_at() == from_op - 1,
        ServeCursor::opened(from_op, chunk_end).wf(),
{
}

/// An intact prepare of a partition this shard holds is applied there, whether
/// or not the shard owns the metadata group, unless that group claims it; a
/// damaged one is discarded, and one for a partition that is not here is
/// ignored.
pub proof fn law_partition_prepare_is_applied(
    metadata: Option<MetadataIngestState>,
    other: Option<MetadataIngestState>,
    partition_exists: bool,
    header: PrepareHeader,
    intact: bool,
)
    requires
        !header.operation.spec_is_metadata_plane(),
        metadata is Some ==> metadata->0.group != header.group,
        other is Some ==> other->0.group != header.group,
    ensures
        ({
            let verdict = ingest_verdict(metadata, partition_exists, header, intact);
            &&& verdict is ApplyPartition <==> partition_exists && intact
            &&& verdict is Discard <==> partition_exists && !intact
            &&& verdict is Ignore <==> !partition_exists
            &&& verdict == ingest_verdict(other, partition_exists, header, intact)
        }),
{
}

/// A prepare of the metadata group is journaled exactly where a session asked
/// for it, its op is in scope and not held, the view decided no other prepare
/// there and its bytes are intact. A damaged or overruled one that was asked
/// for is discarded. What partitions this shard has makes no difference.
pub proof fn law_asked_metadata_prepare_is_journaled(
    state: MetadataIngestState,
    partition_exists: bool,
    header: PrepareHeader,
    intact: bool,
)
    requires
        state.group == header.group || (header.group == 0 && header.operation.spec_is_metadata_plane()),
    ensures
        ({
            let verdict = ingest_verdict(Some(state), partition_exists, header, intact);
            let asked = state.session_to_op is Some && header.op <= state.session_to_op->0 && in_repair_scope(
                log_of(state.pending),
                state.is_primary,
                state.commit_min,
                header.op,
            );
            let overruled = disagrees_with_view(log_of(state.pending), header.op, header.checksum);
            &&& verdict is JournalMetadata <==> asked && intact && !overruled && state.has_journal && !state.already_held
            &&& verdict is Discard <==> asked && (!intact || overruled)
            &&& !(verdict is ApplyPartition)
            &&& verdict == ingest_verdict(Some(state), !partition_exists, header, intact)
        }),
{
}

/// The frontier never passes a hole and never stops short of one: it is below
/// every op above `sequence` that the journal misses, and reaches every op the
/// run from `sequence` connects to.
pub proof fn law_frontier_stops_at_the_first_hole(journal: Map<u64, PrepareHeader>, sequence: u64, frontier: u64, op: u64)
    requires
        contiguous_frontier(journal, sequence, frontier),
        sequence < op,
    ensures
        !journal.contains_key(op) ==> frontier < op,
        (forall|below: u64| sequence < below <= op ==> #[trigger] journal.contains_key(below)) ==> op <= frontier,
        frontier >= sequence,
{
    if frontier < op {
        let next = (frontier + 1) as u64;
        assert(!journal.contains_key(next));
    }
}

/// A repair is asked for exactly where a normal replica that is not
/// transferring has ops to catch up on and no session runs; the request covers
/// every op it lacks and none it has, and the session remembers whom it asked,
/// under which nonce and up to where.
pub proof fn law_repair_asks_for_what_is_missing(
    metadata: (Option<MetadataRepairSession>, Option<MetadataRepairSession>),
    partition: (Option<RepairSession>, Option<RepairSession>),
    gate: RepairGate,
    peer: u8,
    nonce: u128,
    request: Option<PrepareRequest>,
    op: u64,
)
    requires
        is_metadata_repair_armed(metadata.0, metadata.1, gate, peer, nonce, request) || is_partition_repair_armed(
            partition.0,
            partition.1,
            gate,
            peer,
            nonce,
            request,
        ),
    ensures
        is_metadata_repair_armed(metadata.0, metadata.1, gate, peer, nonce, request) ==> {
            &&& request is Some <==> gate.normal && !gate.transferring && gate.commit_min < gate.commit_max && metadata.0 is None
            &&& request is None ==> metadata.1 == metadata.0
            &&& request is Some ==> {
                &&& metadata.1 is Some
                &&& metadata.1->0.nonce == request->0.nonce
                &&& metadata.1->0.peer == request->0.target
                &&& metadata.1->0.to_op == request->0.to_op
                &&& metadata.1->0.idle_ticks == 0
            }
        },
        is_partition_repair_armed(partition.0, partition.1, gate, peer, nonce, request) ==> {
            &&& request is Some <==> gate.normal && !gate.transferring && gate.commit_min < gate.commit_max && partition.0 is None
            &&& request is None ==> partition.1 == partition.0
            &&& request is Some ==> {
                &&& partition.1 is Some
                &&& partition.1->0.nonce == request->0.nonce
                &&& partition.1->0.peer == request->0.target
                &&& partition.1->0.to_op == request->0.to_op
                &&& partition.1->0.idle_ticks == 0
                &&& partition.1->0.floor is None
                &&& partition.1->0.first_batch_offset is None
            }
        },
        request is Some ==> {
            &&& request->0.target == peer
            &&& request->0.nonce == nonce
            &&& request->0.from_op <= op <= request->0.to_op <==> gate.commit_min < op <= gate.commit_max
        },
{
}

/// A terminator of another stream changes nothing. The end of this stream is
/// always walked and keeps the session, whatever the peer claims; an eviction
/// gives the session up exactly where a transfer can take its place.
pub proof fn law_terminator_moves_only_its_own_session(
    session: Option<MetadataRepairSession>,
    nonce: u128,
    reply: RangeReply,
    transfer_idle: bool,
)
    ensures
        ({
            let step = metadata_range_step(session, nonce, reply, transfer_idle);
            let after = session_after_range(session, step);
            let own = session is Some && session->0.nonce == nonce;
            &&& !own ==> step is Ignore && after == session
            &&& own && reply is RepairDone ==> step is WalkJournal && after == session
            &&& own && reply is RangeEvicted && transfer_idle ==> step is ConvertToTransfer && after is None
            &&& own && reply is RangeEvicted && !transfer_idle ==> step is Ignore && after == session
        }),
{
}

/// A repair ends when the local walk reached its target and only then. While
/// the walk advances, the rest of the window is asked of the same peer under
/// the same nonce; a walk that stands still asks for nothing.
pub proof fn law_repair_ends_by_the_local_walk(
    live: MetadataRepairSession,
    after: Option<MetadataRepairSession>,
    commit_before: u64,
    commit_min: u64,
    request: Option<PrepareRequest>,
    op: u64,
)
    requires
        is_repair_round_settled(Some(live), after, commit_before, commit_min, request),
    ensures
        after is None <==> live.to_op <= commit_min,
        request is Some <==> commit_before < commit_min < live.to_op,
        after is Some ==> after->0.nonce == live.nonce && after->0.to_op == live.to_op && after->0.peer == live.peer,
        after is Some ==> after->0.idle_ticks == if request is Some { 0 } else { live.idle_ticks },
        request is Some ==> {
            &&& request->0.target == live.peer
            &&& request->0.nonce == live.nonce
            &&& request->0.from_op <= op <= request->0.to_op <==> commit_min < op <= live.to_op
        },
{
}

/// A quiet session is asked again after `retry_ticks` ticks and not sooner,
/// of the same peer, under the same nonce and up to the same op; the count
/// then starts over. Ticks do not count where the group is not ticking, and
/// nothing is asked where the window is already covered.
pub proof fn law_quiet_repair_is_asked_again(
    live: MetadataRepairSession,
    after: Option<MetadataRepairSession>,
    ticking: bool,
    from_op: int,
    retry_ticks: u32,
    request: Option<PrepareRequest>,
    op: u64,
)
    requires
        live.idle_ticks < u32::MAX,
        0 <= from_op <= u64::MAX,
        is_metadata_repair_ticked(Some(live), after, ticking, from_op, retry_ticks, request),
    ensures
        after is Some && after->0.nonce == live.nonce && after->0.to_op == live.to_op && after->0.peer == live.peer,
        request is Some <==> ticking && retry_ticks <= live.idle_ticks + 1 && from_op <= live.to_op,
        !ticking ==> after->0.idle_ticks == live.idle_ticks,
        ticking && live.idle_ticks + 1 < retry_ticks ==> after->0.idle_ticks == live.idle_ticks + 1,
        ticking && retry_ticks <= live.idle_ticks + 1 ==> after->0.idle_ticks == 0,
        request is Some ==> {
            &&& request->0.target == live.peer
            &&& request->0.nonce == live.nonce
            &&& request->0.from_op <= op <= request->0.to_op <==> from_op <= op <= live.to_op
        },
{
}

/// The same of a partition repair, which asks for every op above what it
/// applied and keeps the floor and the offset it has learned.
pub proof fn law_quiet_partition_repair_is_asked_again(
    live: RepairSession,
    after: Option<RepairSession>,
    normal: bool,
    commit_min: u64,
    retry_ticks: u32,
    request: Option<PrepareRequest>,
    op: u64,
)
    requires
        live.idle_ticks < u32::MAX,
        commit_min < u64::MAX,
        is_partition_repair_ticked(Some(live), after, normal, commit_min, retry_ticks, request),
    ensures
        after is Some && after->0.nonce == live.nonce && after->0.to_op == live.to_op && after->0.peer == live.peer,
        after->0.floor == live.floor && after->0.first_batch_offset == live.first_batch_offset,
        request is Some <==> normal && retry_ticks <= live.idle_ticks + 1 && commit_min < live.to_op,
        !normal ==> after->0.idle_ticks == live.idle_ticks,
        normal && live.idle_ticks + 1 < retry_ticks ==> after->0.idle_ticks == live.idle_ticks + 1,
        normal && retry_ticks <= live.idle_ticks + 1 ==> after->0.idle_ticks == 0,
        request is Some ==> {
            &&& request->0.target == live.peer
            &&& request->0.nonce == live.nonce
            &&& request->0.from_op <= op <= request->0.to_op <==> commit_min < op <= live.to_op
        },
{
}

/// A primary-elect with a parked log keeps ticking outside normal operation
/// and asks from its log's commit point, the first op at the earliest; anyone
/// else ticks in normal operation alone and asks for the op after the last
/// applied one.
pub proof fn law_primary_elect_repairs_from_its_log(normal: bool, is_primary: bool, pending: Option<MergedLog>, commit_min: u64)
    ensures
        repair_ticks(true, is_primary, pending),
        is_primary && pending is Some ==> {
            &&& repair_ticks(normal, is_primary, pending)
            &&& stalled_from_op(is_primary, pending, commit_min) >= 1
            &&& pending->0.commit_max >= 1 ==> stalled_from_op(is_primary, pending, commit_min) == pending->0.commit_max
            &&& pending->0.commit_max == 0 ==> stalled_from_op(is_primary, pending, commit_min) == 1
        },
        !is_primary || pending is None ==> {
            &&& repair_ticks(normal, is_primary, pending) <==> normal
            &&& stalled_from_op(is_primary, pending, commit_min) == commit_min + 1
        },
{
}

/// The first retained op of a range is the lowest the journal holds there: none
/// below it is held, and where none is held at all the range is passed.
pub proof fn law_first_retained_op_is_the_lowest(journal: Map<u64, PrepareHeader>, low: u64, to_op: u64, first: int, op: u64)
    requires
        first_held(journal, low, to_op, first),
        low <= op <= to_op,
    ensures
        first >= low,
        journal.contains_key(op) ==> first <= op,
        first <= to_op ==> journal.contains_key(first as u64),
        first > to_op ==> !journal.contains_key(op) && first == to_op + 1,
{
}

} // verus!
