//! Receiving side of a partition's state transfer: arming, judging offers,
//! spilling and installing, and re-arming after a failure.

use vstd::arithmetic::power2::{lemma2_to64, lemma_pow2_strictly_increases, lemma_pow2_unfold, pow2};
use vstd::prelude::*;

use crate::metrics::{bumped, MetricCounts, ShardMetrics};
use crate::repair::{PrepareRequest, RangeReply, RepairSession};
use crate::serving::{ArtifactKind, StateArtifact};
use crate::transfer::{declared_len, manifest_len, StallStep, StateChunkAsk, StateTransferRequest, TargetHeader};
use crate::view_change::StateTransferStage;

verus! {

/// Ceiling for a whole partition manifest. Segments spill to disk as they
/// complete, so this bounds corruption, not memory.
pub const PARTITION_TRANSFER_TOTAL_LEN_MAX: u64 = 1024 * 1024 * 1024 * 1024;

/// Ceiling for the consumer-offsets artifact, which is held whole in memory.
pub const CONSUMER_OFFSETS_ARTIFACT_LEN_MAX: u64 = 32 * 1024 * 1024;

/// Concurrent partition transfers one shard receives.
pub const PARTITION_TRANSFERS_INFLIGHT_MAX: usize = 4;

/// Consecutive refusals between two escalations.
pub const TRANSFER_REFUSALS_BEFORE_ESCALATION: u32 = 10;

/// Failures past which the re-arm backoff grows no further.
pub const TRANSFER_BACKOFF_DOUBLINGS_MAX: u32 = 10;

/// A replica's place in its group, as far as picking a transfer peer goes.
#[derive(Debug, Clone, Copy, PartialEq, Eq, Structural)]
pub struct Ring {
    pub self_id: u8,
    pub replica_count: u8,
    /// Primary of the current view.
    pub primary: u8,
}

/// The replica after `peer` in the ring.
pub open spec fn ring_next(peer: int, replica_count: u8) -> int {
    (peer + 1) % (replica_count as int)
}

/// The next replica to try after `failed_peer`: the primary where it is
/// neither this replica nor the one that failed, else the next in the ring
/// that is not this replica, else the same again.
pub open spec fn next_peer(ring: Ring, failed_peer: u8) -> int {
    if ring.replica_count <= 1 {
        failed_peer as int
    } else if ring.primary != ring.self_id && ring.primary != failed_peer {
        ring.primary as int
    } else {
        let first = ring_next(failed_peer as int, ring.replica_count);
        let candidate = if first == ring.self_id {
            ring_next(first, ring.replica_count)
        } else {
            first
        };
        if candidate == ring.self_id {
            failed_peer as int
        } else {
            candidate
        }
    }
}

/// The next replica to try after a transfer against `failed_peer` failed.
pub fn next_transfer_peer(ring: &Ring, failed_peer: u8) -> (peer: u8)
    ensures
        peer == next_peer(*ring, failed_peer),
{
    if ring.replica_count <= 1 {
        return failed_peer;
    }
    if ring.primary != ring.self_id && ring.primary != failed_peer {
        return ring.primary;
    }
    let count: u16 = ring.replica_count as u16;
    let mut candidate: u16 = (failed_peer as u16 + 1) % count;
    if candidate == ring.self_id as u16 {
        candidate = (candidate + 1) % count;
    }
    if candidate == ring.self_id as u16 {
        failed_peer
    } else {
        candidate as u8
    }
}

/// Rotation stays inside the cluster and never lands on this replica.
pub proof fn law_rotation_lands_on_another_replica(ring: Ring, failed_peer: u8)
    requires
        failed_peer < ring.replica_count,
        ring.primary < ring.replica_count,
        failed_peer != ring.self_id,
    ensures
        0 <= next_peer(ring, failed_peer) < ring.replica_count,
        next_peer(ring, failed_peer) != ring.self_id,
{
}

/// With a third replica to ask, rotation leaves the peer that failed.
pub proof fn law_rotation_leaves_the_failed_peer(ring: Ring, failed_peer: u8)
    requires
        ring.replica_count >= 3,
        failed_peer < ring.replica_count,
        ring.primary < ring.replica_count,
        failed_peer != ring.self_id,
    ensures
        next_peer(ring, failed_peer) != failed_peer,
{
    let n = ring.replica_count as int;
    lemma_ring_step(failed_peer as int, n);
    lemma_ring_step(ring_next(failed_peer as int, ring.replica_count), n);
}

proof fn lemma_ring_step(peer: int, count: int)
    requires
        0 <= peer < count,
    ensures
        (peer + 1) % count == if peer + 1 == count {
            0
        } else {
            peer + 1
        },
{
    if peer + 1 == count {
        vstd::arithmetic::div_mod::lemma_mod_self_0(count);
    } else {
        vstd::arithmetic::div_mod::lemma_small_mod((peer + 1) as nat, count as nat);
    }
}

/// Re-arm backoff: doubled per failure, settling at its ceiling.
pub open spec fn rearm_backoff(base_ticks: u32, failures: u32) -> int {
    let doublings = if failures < TRANSFER_BACKOFF_DOUBLINGS_MAX {
        failures
    } else {
        TRANSFER_BACKOFF_DOUBLINGS_MAX
    };
    let scaled = base_ticks * pow2(doublings as nat);
    if scaled <= u32::MAX {
        scaled
    } else {
        u32::MAX as int
    }
}

/// Ticks to wait before a failed transfer is armed again.
pub fn transfer_rearm_backoff(base_ticks: u32, failures: u32) -> (ticks: u32)
    ensures
        ticks == rearm_backoff(base_ticks, failures),
{
    let doublings: u32 = if failures < TRANSFER_BACKOFF_DOUBLINGS_MAX {
        failures
    } else {
        TRANSFER_BACKOFF_DOUBLINGS_MAX
    };
    let mut factor: u64 = 1;
    let mut i: u32 = 0;
    proof {
        lemma2_to64();
    }
    while i < doublings
        invariant
            i <= doublings <= 10,
            factor == pow2(i as nat),
            1 <= factor <= pow2(10),
            pow2(10) == 1024,
        decreases doublings - i,
    {
        proof {
            lemma_pow2_unfold((i + 1) as nat);
            if i + 1 < 10 {
                lemma_pow2_strictly_increases((i + 1) as nat, 10);
            }
        }
        factor = factor * 2;
        i += 1;
    }
    proof {
        assert(base_ticks * factor <= u32::MAX * 1024) by (nonlinear_arith)
            requires
                0 <= base_ticks <= u32::MAX,
                1 <= factor <= 1024,
        ;
        assert(base_ticks * factor >= 0) by (nonlinear_arith)
            requires
                0 <= base_ticks,
                1 <= factor,
        ;
    }
    let scaled: u64 = base_ticks as u64 * factor;
    if scaled > u32::MAX as u64 {
        u32::MAX
    } else {
        scaled as u32
    }
}

/// The backoff starts at the base, never shrinks as failures mount, and
/// settles at 1024 times the base.
pub proof fn law_backoff_grows_to_its_ceiling(base_ticks: u32, failures: u32, more: u32)
    requires
        failures <= more,
    ensures
        rearm_backoff(base_ticks, 0) == base_ticks,
        rearm_backoff(base_ticks, failures) <= rearm_backoff(base_ticks, more),
        rearm_backoff(base_ticks, more) <= base_ticks * 1024,
{
    lemma2_to64();
    let low: nat = if failures < 10 {
        failures as nat
    } else {
        10
    };
    let high: nat = if more < 10 {
        more as nat
    } else {
        10
    };
    if low < high {
        lemma_pow2_strictly_increases(low, high);
    }
    if high < 10 {
        lemma_pow2_strictly_increases(high, 10);
    }
    let p = pow2(low);
    let q = pow2(high);
    assert(base_ticks * p <= base_ticks * q <= base_ticks * 1024) by (nonlinear_arith)
        requires
            0 <= base_ticks,
            p <= q <= 1024,
    ;
    assert(base_ticks * pow2(0) == base_ticks) by (nonlinear_arith)
        requires
            pow2(0) == 1,
    ;
}

/// This many refusals in a row are worth raising.
pub open spec fn is_escalation(refusals: u32) -> bool {
    refusals >= TRANSFER_REFUSALS_BEFORE_ESCALATION && refusals % TRANSFER_REFUSALS_BEFORE_ESCALATION == 0
}

/// Whether this many refusals in a row are worth raising: every tenth.
pub fn refusal_escalates(refusals: u32) -> (escalates: bool)
    ensures
        escalates == is_escalation(refusals),
{
    refusals >= TRANSFER_REFUSALS_BEFORE_ESCALATION && refusals % TRANSFER_REFUSALS_BEFORE_ESCALATION == 0
}

/// A scheduled re-arm.
#[derive(Debug, Clone, Copy, PartialEq, Eq, Structural)]
pub struct PendingTransferRearm {
    pub peer: u8,
    pub after_ticks: u32,
}

/// One manifest entry of a pull.
#[derive(Debug, Clone, Copy, PartialEq, Eq, Structural)]
pub enum TransferArtifact {
    /// Still being pulled, or held in memory.
    Pending(StateArtifact),
    /// Spilled to its staging file.
    Staged(StateArtifact),
}

/// One in-flight partition state transfer.
pub struct PartitionTransferSession {
    pub nonce: u128,
    pub peer: u8,
    pub commit_op: u64,
    pub artifacts: Vec<TransferArtifact>,
    pub target_accepted: bool,
    pub idle_ticks: u32,
}

/// A session that waits for its descriptor.
pub open spec fn awaiting_partition_session(session: PartitionTransferSession, peer: u8, nonce: u128) -> bool {
    &&& session.nonce == nonce
    &&& session.peer == peer
    &&& session.commit_op == 0
    &&& session.artifacts@.len() == 0
    &&& !session.target_accepted
    &&& session.idle_ticks == 0
}

/// How a partition recovers what it misses.
pub struct PartitionRecovery {
    pub stage: StateTransferStage,
    pub repair: Option<RepairSession>,
    pub transfer: Option<PartitionTransferSession>,
    pub transfer_rearm: Option<PendingTransferRearm>,
}

/// What became of an attempt to arm.
#[derive(Debug, Clone, Copy, PartialEq, Eq, Structural)]
pub enum ArmOutcome {
    /// Every slot is taken: a re-arm is scheduled instead, charging nothing.
    Deferred,
    /// Send the request; `fresh` says no session was live before.
    Armed { fresh: bool, request: StateTransferRequest },
}

/// What this replica knows of its own progress.
#[derive(Debug, Clone, Copy, PartialEq, Eq, Structural)]
pub struct LocalProgress {
    pub view: u32,
    pub commit_max: u64,
    /// Primary of the current view.
    pub primary: u8,
}

/// The verdict on a partition descriptor.
#[derive(Debug, Clone, Copy, PartialEq, Eq, Structural)]
pub enum TargetVerdict {
    Ignore,
    /// Schedule a flat re-arm, charging nothing; rotate off the peer if
    /// `rotate`.
    Refused { rotate: bool },
    /// Charge a failure and back off. `refused` says the peer itself would not
    /// serve.
    Failed { refused: bool },
    /// Adopt what is staged, then accept.
    Accept,
}

/// Every artifact is of a kind the partition installs and within that kind's
/// ceiling, and the whole manifest is within its own.
pub open spec fn within_partition_caps(manifest: Seq<StateArtifact>, artifact_len_max: u64) -> bool {
    &&& forall|i: int|
        #![trigger manifest[i]]
        0 <= i < manifest.len() ==> match manifest[i].kind {
            ArtifactKind::SegmentLog => manifest[i].len <= artifact_len_max,
            ArtifactKind::ConsumerOffsets => manifest[i].len <= CONSUMER_OFFSETS_ARTIFACT_LEN_MAX,
            _ => false,
        }
    &&& manifest_len(manifest) <= PARTITION_TRANSFER_TOTAL_LEN_MAX
}

fn partition_caps_hold(manifest: &Vec<StateArtifact>, artifact_len_max: u64) -> (within: bool)
    ensures
        within == within_partition_caps(manifest@, artifact_len_max),
{
    let mut i: usize = 0;
    while i < manifest.len()
        invariant
            i <= manifest@.len(),
            forall|j: int|
                #![trigger manifest@[j]]
                0 <= j < i ==> match manifest@[j].kind {
                    ArtifactKind::SegmentLog => manifest@[j].len <= artifact_len_max,
                    ArtifactKind::ConsumerOffsets => manifest@[j].len <= CONSUMER_OFFSETS_ARTIFACT_LEN_MAX,
                    _ => false,
                },
        decreases manifest@.len() - i,
    {
        let capped: bool = match manifest[i].kind {
            ArtifactKind::SegmentLog => manifest[i].len <= artifact_len_max,
            ArtifactKind::ConsumerOffsets => manifest[i].len <= CONSUMER_OFFSETS_ARTIFACT_LEN_MAX,
            _ => false,
        };
        if !capped {
            return false;
        }
        i += 1;
    }
    declared_len(manifest) <= PARTITION_TRANSFER_TOTAL_LEN_MAX
}

/// The verdict a descriptor is owed.
pub open spec fn target_verdict(
    session: Option<PartitionTransferSession>,
    peer_known: bool,
    header: TargetHeader,
    local: LocalProgress,
    manifest: Option<Seq<StateArtifact>>,
    artifact_len_max: u64,
) -> TargetVerdict {
    if !peer_known || session is None || session->0.nonce != header.nonce {
        TargetVerdict::Ignore
    } else if header.fields.available == 0 {
        if header.fields.unavailable_transient == 1 {
            TargetVerdict::Refused { rotate: header.replica != local.primary }
        } else {
            TargetVerdict::Failed { refused: true }
        }
    } else if header.fields.commit_op > header.fields.commit_max {
        TargetVerdict::Failed { refused: false }
    } else if header.fields.view < local.view || header.fields.commit_max < local.commit_max {
        TargetVerdict::Refused { rotate: true }
    } else if manifest is None || !within_partition_caps(manifest->0, artifact_len_max) || session->0.target_accepted {
        TargetVerdict::Ignore
    } else {
        TargetVerdict::Accept
    }
}

pub open spec fn manifest_view(manifest: Option<&Vec<StateArtifact>>) -> Option<Seq<StateArtifact>> {
    match manifest {
        Some(entries) => Some(entries@),
        None => None,
    }
}

/// Whether a verdict adds to the refusals an operator sees: every one by the
/// serving peer, and this replica's own of a peer that lags it.
pub open spec fn verdict_is_refusal(verdict: TargetVerdict) -> bool {
    verdict is Refused || verdict == (TargetVerdict::Failed { refused: true })
}

/// The counts after a verdict.
pub open spec fn with_verdict(counts: MetricCounts, verdict: TargetVerdict) -> MetricCounts {
    if verdict_is_refusal(verdict) {
        MetricCounts { partition_transfer_refusals: bumped(counts.partition_transfer_refusals), ..counts }
    } else {
        counts
    }
}

/// Count a verdict's refusal, if it is one.
pub fn count_refusal(metrics: &mut ShardMetrics, verdict: &TargetVerdict)
    ensures
        final(metrics)@ == with_verdict(old(metrics)@, *verdict),
{
    match verdict {
        TargetVerdict::Refused { .. } | TargetVerdict::Failed { refused: true } => metrics.record_partition_transfer_refusal(),
        _ => {},
    }
}

/// A descriptor that says the peer cannot serve is counted whether or not the
/// peer called it transient, as long as the session asked for it.
pub proof fn law_every_refusal_by_the_serving_peer_is_counted(
    session: Option<PartitionTransferSession>,
    header: TargetHeader,
    local: LocalProgress,
    manifest: Option<Seq<StateArtifact>>,
    artifact_len_max: u64,
)
    requires
        session is Some,
        session->0.nonce == header.nonce,
        header.fields.available == 0,
    ensures
        verdict_is_refusal(target_verdict(session, true, header, local, manifest, artifact_len_max)),
{
}

/// What follows progress of a partition pull.
pub enum PartitionProgress {
    Nothing,
    /// The transfer was abandoned elsewhere; its session is gone.
    Dropped,
    /// A segment is complete: spill it, then report to
    /// [`PartitionRecovery::segment_staged`].
    Spill { index: usize, entry: StateArtifact, peer: u8, nonce: u128 },
    RequestChunk,
    /// Everything is here: verify and install.
    Install(PartitionTransferSession),
}

/// A segment that can be spilled.
pub open spec fn spillable(artifacts: Seq<TransferArtifact>, complete: Seq<bool>, i: int) -> bool {
    artifacts[i] matches TransferArtifact::Pending(entry) && entry.kind is SegmentLog && complete[i]
}

/// How an install ended.
#[derive(Debug, Clone, Copy, PartialEq, Eq, Structural)]
pub enum InstallOutcome {
    Installed,
    /// No serviceable segment chain is left.
    ConvergeFailed { frontier: u64 },
    Failed,
}

/// What follows an install.
#[derive(Debug, Clone, Copy, PartialEq, Eq, Structural)]
pub enum InstallStep {
    /// Walk the journal, then repair the tail from the serving peer.
    WalkAndRepair,
    /// Drop the served state and fence the partition for rebuild at this
    /// frontier.
    Fence { frontier: u64 },
    /// Charge a failure and back off.
    Failed,
}

/// What a partition does on a stream terminator.
#[derive(Debug, Clone, Copy, PartialEq, Eq, Structural)]
pub enum PartitionRangeStep {
    Ignore,
    /// A committed purge is not applied here yet; the peer says it all again.
    Deferred,
    /// The floor candidate is noted.
    FloorNoted,
    /// Walk the repaired window, then report to
    /// [`PartitionRecovery::settle_repair`].
    CompleteRepair,
}

/// How the local walk of a repaired window concluded.
#[derive(Debug, Clone, Copy, PartialEq, Eq, Structural)]
pub enum RepairConclusion {
    /// The gap below the floor is neither durable here nor repairable.
    FloorRefused,
    /// The frontier reached what was asked for.
    Complete,
    /// Short of it; the session stays.
    Partial,
}

/// What follows the walk of a repaired window.
#[derive(Debug, Clone, Copy, PartialEq, Eq, Structural)]
pub enum RepairFollowup {
    Nothing,
    /// Repair cannot close the gap: arm a transfer against the peer that said
    /// so. The stage already awaits it.
    ArmTransfer,
    RequestNext(PrepareRequest),
}

/// Arming a transfer is possible.
pub open spec fn can_arm(recovery: PartitionRecovery) -> bool {
    recovery.transfer is None && (recovery.stage is AwaitingTarget || recovery.stage is Idle && recovery.transfer_rearm is None)
}

/// A pull of this sender under this nonce is in flight.
pub open spec fn pulls_from(recovery: PartitionRecovery, nonce: u128, sender: u8) -> bool {
    recovery.transfer matches Some(session) && session.nonce == nonce && session.target_accepted && session.peer == sender
}

/// The ask for the first gap.
pub open spec fn partition_chunk_ask(transfer: Option<PartitionTransferSession>, pending: Option<(u32, u64, u32)>) -> Option<
    StateChunkAsk,
> {
    match (transfer, pending) {
        (Some(session), Some(gap)) => if session.target_accepted {
            Some(
                StateChunkAsk {
                    target: session.peer,
                    nonce: session.nonce,
                    artifact: gap.0,
                    offset: gap.1,
                    len: gap.2,
                },
            )
        } else {
            None
        },
        _ => None,
    }
}

/// The session was dropped and the next attempt scheduled.
pub open spec fn is_rearm_scheduled(
    before: PartitionRecovery,
    after: PartitionRecovery,
    peer: u8,
    after_ticks: int,
    rotate: bool,
    ring: Ring,
) -> bool {
    &&& after.transfer is None
    &&& after.stage is Idle
    &&& after.repair == before.repair
    &&& after.transfer_rearm == Some(
        PendingTransferRearm {
            peer: if rotate {
                next_peer(ring, peer) as u8
            } else {
                peer
            },
            after_ticks: after_ticks as u32,
        },
    )
}

/// A session was armed against a peer, or a re-arm scheduled.
pub open spec fn is_transfer_armed(
    before: PartitionRecovery,
    after: PartitionRecovery,
    peer: u8,
    transfers_inflight: usize,
    nonce: u128,
    retry_ticks: u32,
    outcome: ArmOutcome,
) -> bool {
    &&& if before.transfer is None && transfers_inflight >= PARTITION_TRANSFERS_INFLIGHT_MAX {
        &&& outcome is Deferred
        &&& after.stage is Idle
        &&& after.repair == before.repair
        &&& after.transfer is None
        &&& after.transfer_rearm == Some(PendingTransferRearm { peer, after_ticks: retry_ticks })
    } else {
        &&& outcome == (ArmOutcome::Armed {
            fresh: before.transfer is None,
            request: StateTransferRequest { target: peer, nonce },
        })
        &&& after.stage == before.stage
        &&& after.repair is None
        &&& after.transfer matches Some(session) && awaiting_partition_session(session, peer, nonce)
        &&& after.transfer_rearm == before.transfer_rearm
    }
}

/// A judged descriptor was accepted, unless its session is gone.
pub open spec fn is_target_accepted(
    before: PartitionRecovery,
    after: PartitionRecovery,
    nonce: u128,
    commit_op: u64,
    entries: Seq<StateArtifact>,
    reused: Seq<u32>,
    accepted: bool,
) -> bool {
    &&& after.repair == before.repair
    &&& after.transfer_rearm == before.transfer_rearm
    &&& accepted == (before.transfer matches Some(session) && session.nonce == nonce)
    &&& !accepted ==> after == before
    &&& accepted ==> {
        &&& after.transfer matches Some(session) && {
            &&& session.nonce == nonce
            &&& session.peer == before.transfer->0.peer
            &&& session.commit_op == commit_op
            &&& session.target_accepted
            &&& session.idle_ticks == 0
            &&& session.artifacts@ == opened_artifacts(entries, reused)
        }
        &&& after.stage == if before.stage is AwaitingTarget {
            StateTransferStage::Fetching
        } else {
            before.stage
        }
    }
}

/// A chunk extended the pull.
pub open spec fn is_pull_extended(before: PartitionRecovery, after: PartitionRecovery) -> bool {
    &&& after.stage == before.stage
    &&& after.repair == before.repair
    &&& after.transfer_rearm == before.transfer_rearm
    &&& after.transfer == match before.transfer {
        Some(session) => Some(PartitionTransferSession { idle_ticks: 0, ..session }),
        None => None,
    }
}

/// The pull was driven.
pub open spec fn is_pull_driven(before: PartitionRecovery, after: PartitionRecovery, complete: Seq<bool>, step: PartitionProgress) -> bool {
    &&& after.stage == before.stage
    &&& after.repair == before.repair
    &&& after.transfer_rearm == before.transfer_rearm
    &&& match before.transfer {
        None => step is Nothing && after.transfer is None,
        Some(session) => if !(before.stage is Fetching) {
            step is Dropped && after.transfer is None
        } else if !session.target_accepted {
            step is Nothing && after.transfer == before.transfer
        } else {
            match step {
                PartitionProgress::Spill { index, entry, peer, nonce } => {
                    &&& index < session.artifacts@.len()
                    &&& spillable(session.artifacts@, complete, index as int)
                    &&& forall|j: int| 0 <= j < index ==> !#[trigger] spillable(session.artifacts@, complete, j)
                    &&& session.artifacts@[index as int] == TransferArtifact::Pending(entry)
                    &&& peer == session.peer
                    &&& nonce == session.nonce
                    &&& after.transfer == before.transfer
                },
                PartitionProgress::RequestChunk => {
                    &&& forall|j: int|
                        0 <= j < session.artifacts@.len() ==> !#[trigger] spillable(session.artifacts@, complete, j)
                    &&& complete.contains(false)
                    &&& after.transfer == before.transfer
                },
                PartitionProgress::Install(taken) => {
                    &&& forall|j: int|
                        0 <= j < session.artifacts@.len() ==> !#[trigger] spillable(session.artifacts@, complete, j)
                    &&& !complete.contains(false)
                    &&& taken == session
                    &&& after.transfer is None
                },
                _ => false,
            }
        },
    }
}

/// A spilled segment was staged.
pub open spec fn is_segment_staged(before: PartitionRecovery, after: PartitionRecovery, nonce: u128, index: usize) -> bool {
    &&& after.stage == before.stage
    &&& after.repair == before.repair
    &&& after.transfer_rearm == before.transfer_rearm
    &&& match before.transfer {
        Some(session) => if session.nonce == nonce {
            after.transfer matches Some(after) && {
                &&& after.nonce == session.nonce
                &&& after.peer == session.peer
                &&& after.commit_op == session.commit_op
                &&& after.target_accepted == session.target_accepted
                &&& after.idle_ticks == session.idle_ticks
                &&& after.artifacts@ == session.artifacts@.update(
                    index as int,
                    TransferArtifact::Staged(artifact_entry(session.artifacts@[index as int])),
                )
            }
        } else {
            after.transfer == before.transfer
        },
        None => after.transfer is None,
    }
}

/// An install attempt was settled.
pub open spec fn is_install_settled(before: PartitionRecovery, after: PartitionRecovery, outcome: InstallOutcome, step: InstallStep) -> bool {
    &&& after.stage is Idle
    &&& after.repair == before.repair
    &&& after.transfer == before.transfer
    &&& after.transfer_rearm == if outcome is Installed {
        None
    } else {
        before.transfer_rearm
    }
    &&& step == match outcome {
        InstallOutcome::Installed => InstallStep::WalkAndRepair,
        InstallOutcome::ConvergeFailed { frontier } => InstallStep::Fence { frontier },
        InstallOutcome::Failed => InstallStep::Failed,
    }
}

/// One tick was counted against the pull.
pub open spec fn is_transfer_ticked(before: PartitionRecovery, after: PartitionRecovery, retry_ticks: u32, stalled: Option<StalledTransfer>) -> bool {
    &&& after.stage == before.stage
    &&& after.repair == before.repair
    &&& after.transfer_rearm == before.transfer_rearm
    &&& match before.transfer {
        None => stalled is None && after.transfer is None,
        Some(session) => if session.idle_ticks + 1 < retry_ticks {
            &&& stalled is None
            &&& after.transfer == Some(
                PartitionTransferSession { idle_ticks: (session.idle_ticks + 1) as u32, ..session },
            )
        } else {
            &&& stalled == Some(
                StalledTransfer { peer: session.peer, nonce: session.nonce, target_accepted: session.target_accepted },
            )
            &&& after.transfer == Some(PartitionTransferSession { idle_ticks: 0, ..session })
        },
    }
}

/// One tick was counted against the scheduled re-arm.
pub open spec fn is_rearm_ticked(before: PartitionRecovery, after: PartitionRecovery, peer: Option<u8>) -> bool {
    &&& after.repair == before.repair
    &&& after.transfer == before.transfer
    &&& match before.transfer_rearm {
        None => {
            &&& peer is None
            &&& after.transfer_rearm is None
            &&& after.stage == before.stage
        },
        Some(pending) => if pending.after_ticks > 0 {
            &&& peer is None
            &&& after.transfer_rearm == Some(
                PendingTransferRearm { after_ticks: (pending.after_ticks - 1) as u32, ..pending },
            )
            &&& after.stage == before.stage
        } else if before.transfer is None && before.stage is Idle {
            &&& peer == Some(pending.peer)
            &&& after.transfer_rearm is None
            &&& after.stage is AwaitingTarget
        } else {
            &&& peer is None
            &&& after.transfer_rearm is None
            &&& after.stage == before.stage
        },
    }
}

/// A stream terminator was taken.
pub open spec fn is_range_replied(
    before: PartitionRecovery,
    after: PartitionRecovery,
    nonce: u128,
    reply: RangeReply,
    op: u64,
    committed_purge: u64,
    applied_purge: u64,
    step: PartitionRangeStep,
) -> bool {
    &&& after.stage == before.stage
    &&& after.transfer == before.transfer
    &&& after.transfer_rearm == before.transfer_rearm
    &&& step == (if !(before.repair is Some && before.repair->0.nonce == nonce) {
        PartitionRangeStep::Ignore
    } else if committed_purge > applied_purge {
        PartitionRangeStep::Deferred
    } else if reply is RangeEvicted {
        PartitionRangeStep::FloorNoted
    } else {
        PartitionRangeStep::CompleteRepair
    })
    &&& after.repair == if step is FloorNoted {
        Some(
            RepairSession {
                floor: Some(
                    if op > 0 {
                        (op - 1) as u64
                    } else {
                        0
                    },
                ),
                ..before.repair->0
            },
        )
    } else {
        before.repair
    }
}

/// A repair round was settled.
pub open spec fn is_repair_settled(
    before: PartitionRecovery,
    after: PartitionRecovery,
    conclusion: RepairConclusion,
    commit_before: u64,
    commit_min: u64,
    peer_known: bool,
    followup: RepairFollowup,
) -> bool {
    &&& after.transfer == before.transfer
    &&& after.transfer_rearm == before.transfer_rearm
    &&& match conclusion {
        RepairConclusion::FloorRefused => {
            &&& after.repair is None
            &&& if before.stage is Idle && before.transfer_rearm is None && peer_known {
                followup is ArmTransfer && after.stage is AwaitingTarget
            } else {
                followup is Nothing && after.stage == before.stage
            }
        },
        RepairConclusion::Complete => {
            &&& after.repair is None
            &&& followup is Nothing
            &&& after.stage == before.stage
        },
        RepairConclusion::Partial => {
            &&& after.repair == before.repair
            &&& after.stage == before.stage
            &&& followup == match before.repair {
                Some(live) => if commit_min > commit_before {
                    RepairFollowup::RequestNext(
                        PrepareRequest {
                            target: live.peer,
                            nonce: live.nonce,
                            from_op: (commit_min + 1) as u64,
                            to_op: live.to_op,
                        },
                    )
                } else {
                    RepairFollowup::Nothing
                },
                None => RepairFollowup::Nothing,
            }
        },
    }
}

impl PartitionRecovery {
    pub open spec fn wf(&self) -> bool {
        self.transfer matches Some(session) ==> session.idle_ticks < u32::MAX
    }

    pub fn new() -> (recovery: PartitionRecovery)
        ensures
            recovery.wf(),
            recovery.stage is Idle,
            recovery.repair is None,
            recovery.transfer is None,
            recovery.transfer_rearm is None,
    {
        PartitionRecovery { stage: StateTransferStage::Idle, repair: None, transfer: None, transfer_rearm: None }
    }

    /// Whether arming a transfer is possible at all: one is awaited, or the
    /// group is idle and no re-arm is scheduled.
    pub fn may_arm(&self) -> (may: bool)
        ensures
            may == can_arm(*self),
    {
        self.transfer.is_none() && match self.stage {
            StateTransferStage::AwaitingTarget => true,
            StateTransferStage::Idle => self.transfer_rearm.is_none(),
            _ => false,
        }
    }

    /// Arm a session against `peer`, superseding any repair, or schedule a
    /// re-arm where every slot of the shard is taken.
    pub fn arm_partition_transfer(&mut self, peer: u8, transfers_inflight: usize, nonce: u128, retry_ticks: u32) -> (outcome: ArmOutcome)
        ensures
            final(self).wf(),
            is_transfer_armed(*old(self), *final(self), peer, transfers_inflight, nonce, retry_ticks, outcome),
    {
        let fresh: bool = self.transfer.is_none();
        if fresh && transfers_inflight >= PARTITION_TRANSFERS_INFLIGHT_MAX {
            self.stage = StateTransferStage::Idle;
            self.transfer_rearm = Some(PendingTransferRearm { peer, after_ticks: retry_ticks });
            return ArmOutcome::Deferred;
        }
        self.repair = None;
        self.transfer = Some(
            PartitionTransferSession {
                nonce,
                peer,
                commit_op: 0,
                artifacts: Vec::new(),
                target_accepted: false,
                idle_ticks: 0,
            },
        );
        ArmOutcome::Armed { fresh, request: StateTransferRequest { target: peer, nonce } }
    }

    /// Judge a descriptor. `manifest` is its decoded body, or nothing where it
    /// does not decode.
    ///
    /// A commit op past the sender's own frontier contradicts itself; an offer
    /// from a replica that knows less than this one would unlink a chain this
    /// replica already holds, and rotating off it is the whole remedy.
    pub fn judge_target(
        &self,
        peer_known: bool,
        header: &TargetHeader,
        local: &LocalProgress,
        manifest: Option<&Vec<StateArtifact>>,
        artifact_len_max: u64,
    ) -> (verdict: TargetVerdict)
        ensures
            verdict == target_verdict(
                self.transfer,
                peer_known,
                *header,
                *local,
                manifest_view(manifest),
                artifact_len_max,
            ),
    {
        if !peer_known {
            return TargetVerdict::Ignore;
        }
        let accepted: bool = match &self.transfer {
            Some(session) => {
                if session.nonce != header.nonce {
                    return TargetVerdict::Ignore;
                }
                session.target_accepted
            },
            None => {
                return TargetVerdict::Ignore;
            },
        };
        if header.fields.available == 0 {
            if header.fields.unavailable_transient == 1 {
                return TargetVerdict::Refused { rotate: header.replica != local.primary };
            }
            return TargetVerdict::Failed { refused: true };
        }
        if header.fields.commit_op > header.fields.commit_max {
            return TargetVerdict::Failed { refused: false };
        }
        if header.fields.view < local.view || header.fields.commit_max < local.commit_max {
            return TargetVerdict::Refused { rotate: true };
        }
        match manifest {
            Some(entries) => {
                if !partition_caps_hold(entries, artifact_len_max) || accepted {
                    return TargetVerdict::Ignore;
                }
                TargetVerdict::Accept
            },
            None => TargetVerdict::Ignore,
        }
    }

    /// Accept a judged descriptor. `reused` are the entries an earlier attempt
    /// already staged. Adopting them took time, so a session armed meanwhile
    /// is left alone.
    pub fn accept_target(&mut self, nonce: u128, commit_op: u64, entries: &Vec<StateArtifact>, reused: &Vec<u32>) -> (accepted: bool)
        requires
            old(self).wf(),
            forall|k: int| #![trigger reused@[k]] 0 <= k < reused@.len() ==> reused@[k] < entries@.len(),
        ensures
            final(self).wf(),
            is_target_accepted(*old(self), *final(self), nonce, commit_op, entries@, reused@, accepted),
    {
        let peer: u8 = match &self.transfer {
            Some(session) => {
                if session.nonce != nonce {
                    return false;
                }
                session.peer
            },
            None => {
                return false;
            },
        };
        let artifacts: Vec<TransferArtifact> = open_artifacts(entries, reused);
        self.transfer = Some(
            PartitionTransferSession { nonce, peer, commit_op, artifacts, target_accepted: true, idle_ticks: 0 },
        );
        if matches!(self.stage, StateTransferStage::AwaitingTarget) {
            self.stage = StateTransferStage::Fetching;
        }
        true
    }
    /// Whether a chunk belongs to the pull in flight. The sender counts too: a
    /// peer rotated away still holds the nonce.
    pub fn expects_chunk(&self, nonce: u128, sender: u8) -> (expects: bool)
        ensures
            expects == pulls_from(*self, nonce, sender),
    {
        match &self.transfer {
            Some(session) => session.nonce == nonce && session.target_accepted && session.peer == sender,
            None => false,
        }
    }

    /// A chunk extended the pull.
    pub fn chunk_appended(&mut self)
        requires
            old(self).wf(),
        ensures
            final(self).wf(),
            is_pull_extended(*old(self), *final(self)),
    {
        if let Some(session) = self.transfer.take() {
            self.transfer = Some(
                PartitionTransferSession {
                    nonce: session.nonce,
                    peer: session.peer,
                    commit_op: session.commit_op,
                    artifacts: session.artifacts,
                    target_accepted: session.target_accepted,
                    idle_ticks: 0,
                },
            );
        }
    }

    /// Drive the pull: `complete` says which artifacts are here, in manifest
    /// order. The first complete segment is spilled before anything else, so
    /// at most one is held in memory.
    pub fn on_partition_transfer_progress(&mut self, complete: &Vec<bool>) -> (step: PartitionProgress)
        requires
            old(self).wf(),
            old(self).transfer is Some && old(self).transfer->0.target_accepted ==> complete@.len()
                == old(self).transfer->0.artifacts@.len(),
        ensures
            final(self).wf(),
            is_pull_driven(*old(self), *final(self), complete@, step),
    {
        let session: &PartitionTransferSession = match &self.transfer {
            Some(session) => session,
            None => {
                return PartitionProgress::Nothing;
            },
        };
        if !matches!(self.stage, StateTransferStage::Fetching) {
            self.transfer = None;
            return PartitionProgress::Dropped;
        }
        if !session.target_accepted {
            return PartitionProgress::Nothing;
        }
        let mut done: bool = true;
        let mut i: usize = 0;
        while i < session.artifacts.len()
            invariant
                i <= session.artifacts@.len(),
                complete@.len() == session.artifacts@.len(),
                self.transfer == old(self).transfer,
                self.stage == old(self).stage,
                self.repair == old(self).repair,
                self.transfer_rearm == old(self).transfer_rearm,
                old(self).wf(),
                old(self).transfer == Some(*session),
                old(self).stage is Fetching,
                session.target_accepted,
                forall|j: int| 0 <= j < i ==> !#[trigger] spillable(session.artifacts@, complete@, j),
                done == (forall|j: int| #![trigger complete@[j]] 0 <= j < i ==> complete@[j]),
            decreases session.artifacts@.len() - i,
        {
            if complete[i] {
                if let TransferArtifact::Pending(entry) = session.artifacts[i] {
                    if matches!(entry.kind, ArtifactKind::SegmentLog) {
                        return PartitionProgress::Spill { index: i, entry, peer: session.peer, nonce: session.nonce };
                    }
                }
            } else {
                done = false;
            }
            i += 1;
        }
        if !done {
            return PartitionProgress::RequestChunk;
        }
        match self.transfer.take() {
            Some(session) => PartitionProgress::Install(session),
            None => PartitionProgress::Nothing,
        }
    }

    /// A spilled segment is staged. A session armed meanwhile is left alone.
    pub fn segment_staged(&mut self, nonce: u128, index: usize)
        requires
            old(self).wf(),
            old(self).transfer is Some && old(self).transfer->0.nonce == nonce ==> index
                < old(self).transfer->0.artifacts@.len(),
        ensures
            final(self).wf(),
            is_segment_staged(*old(self), *final(self), nonce, index),
    {
        if let Some(session) = self.transfer.take() {
            let mut artifacts: Vec<TransferArtifact> = session.artifacts;
            if session.nonce == nonce {
                let entry: StateArtifact = match artifacts[index] {
                    TransferArtifact::Pending(entry) => entry,
                    TransferArtifact::Staged(entry) => entry,
                };
                artifacts.set(index, TransferArtifact::Staged(entry));
            }
            self.transfer = Some(
                PartitionTransferSession {
                    nonce: session.nonce,
                    peer: session.peer,
                    commit_op: session.commit_op,
                    artifacts,
                    target_accepted: session.target_accepted,
                    idle_ticks: session.idle_ticks,
                },
            );
        }
    }

    /// The ask for the next missing chunk; see
    /// [`crate::transfer::MetadataTransfer::request_pending_state_chunk`].
    pub fn request_pending_partition_chunk(&self, pending: Option<(u32, u64, u32)>) -> (ask: Option<StateChunkAsk>)
        ensures
            ask == partition_chunk_ask(self.transfer, pending),
    {
        match (&self.transfer, pending) {
            (Some(session), Some((artifact, offset, len))) => if session.target_accepted {
                Some(StateChunkAsk { target: session.peer, nonce: session.nonce, artifact, offset, len })
            } else {
                None
            },
            _ => None,
        }
    }

    /// Settle an install attempt: the stage is idle again, and a completed
    /// install supersedes any scheduled re-arm.
    pub fn settle_install(&mut self, outcome: InstallOutcome) -> (step: InstallStep)
        requires
            old(self).wf(),
        ensures
            final(self).wf(),
            is_install_settled(*old(self), *final(self), outcome, step),
    {
        self.stage = StateTransferStage::Idle;
        match outcome {
            InstallOutcome::Installed => {
                self.transfer_rearm = None;
                InstallStep::WalkAndRepair
            },
            InstallOutcome::ConvergeFailed { frontier } => InstallStep::Fence { frontier },
            InstallOutcome::Failed => InstallStep::Failed,
        }
    }

    /// Drop the session and schedule the next attempt. The journal walk and a
    /// repair from `peer` follow, so the gap stays visible meanwhile.
    pub fn schedule_partition_transfer_rearm(&mut self, peer: u8, after_ticks: u32, rotate: bool, ring: &Ring)
        ensures
            final(self).wf(),
            is_rearm_scheduled(*old(self), *final(self), peer, after_ticks as int, rotate, *ring),
    {
        self.transfer = None;
        self.stage = StateTransferStage::Idle;
        let next: u8 = if rotate {
            next_transfer_peer(ring, peer)
        } else {
            peer
        };
        self.transfer_rearm = Some(PendingTransferRearm { peer: next, after_ticks });
    }

    /// A transfer failed for the `failures`-th time in a row: back off, then
    /// try the next peer.
    pub fn abandon_or_rearm_partition_transfer(&mut self, peer: u8, failures: u32, retry_ticks: u32, ring: &Ring)
        ensures
            final(self).wf(),
            is_rearm_scheduled(*old(self), *final(self), peer, rearm_backoff(retry_ticks, failures), true, *ring),
    {
        let after_ticks: u32 = transfer_rearm_backoff(retry_ticks, failures);
        self.schedule_partition_transfer_rearm(peer, after_ticks, true, ring);
    }

    /// A refusal that charges nothing: try again after a flat interval, on the
    /// same peer unless it is provably the wrong one.
    pub fn rearm_partition_transfer_after_refusal(&mut self, peer: u8, rotate: bool, retry_ticks: u32, ring: &Ring)
        ensures
            final(self).wf(),
            is_rearm_scheduled(*old(self), *final(self), peer, retry_ticks as int, rotate, *ring),
    {
        self.schedule_partition_transfer_rearm(peer, retry_ticks, rotate, ring);
    }

    /// Count one tick against the pull; the stalled session's peer, nonce and
    /// whether its manifest was accepted.
    pub fn tick_transfer(&mut self, retry_ticks: u32) -> (stalled: Option<StalledTransfer>)
        requires
            old(self).wf(),
        ensures
            final(self).wf(),
            is_transfer_ticked(*old(self), *final(self), retry_ticks, stalled),
    {
        let session: PartitionTransferSession = match self.transfer.take() {
            Some(session) => session,
            None => {
                return None;
            },
        };
        let counted: u32 = session.idle_ticks + 1;
        let is_stalled: bool = counted >= retry_ticks;
        let stalled: StalledTransfer = StalledTransfer {
            peer: session.peer,
            nonce: session.nonce,
            target_accepted: session.target_accepted,
        };
        self.transfer = Some(
            PartitionTransferSession {
                nonce: session.nonce,
                peer: session.peer,
                commit_op: session.commit_op,
                artifacts: session.artifacts,
                target_accepted: session.target_accepted,
                idle_ticks: if is_stalled {
                    0
                } else {
                    counted
                },
            },
        );
        if is_stalled {
            Some(stalled)
        } else {
            None
        }
    }

    /// Count one tick against the scheduled re-arm. Once due it fires only if
    /// nothing else recovers the partition; the stage then awaits the transfer
    /// that the caller arms against the returned peer.
    pub fn tick_rearm(&mut self) -> (peer: Option<u8>)
        requires
            old(self).wf(),
        ensures
            final(self).wf(),
            is_rearm_ticked(*old(self), *final(self), peer),
    {
        let pending: PendingTransferRearm = match self.transfer_rearm {
            Some(pending) => pending,
            None => {
                return None;
            },
        };
        if pending.after_ticks > 0 {
            self.transfer_rearm = Some(
                PendingTransferRearm { peer: pending.peer, after_ticks: pending.after_ticks - 1 },
            );
            return None;
        }
        self.transfer_rearm = None;
        if self.transfer.is_none() && matches!(self.stage, StateTransferStage::Idle) {
            self.stage = StateTransferStage::AwaitingTarget;
            return Some(pending.peer);
        }
        None
    }

    /// Take a stream terminator. While a committed purge is not applied here,
    /// the whole reply is deferred: a floor read against segments the purge is
    /// about to delete would connect to nothing.
    pub fn on_range_reply(&mut self, nonce: u128, reply: RangeReply, op: u64, committed_purge: u64, applied_purge: u64) -> (step: PartitionRangeStep)
        requires
            old(self).wf(),
        ensures
            final(self).wf(),
            is_range_replied(*old(self), *final(self), nonce, reply, op, committed_purge, applied_purge, step),
    {
        let session: RepairSession = match self.repair {
            Some(session) => session,
            None => {
                return PartitionRangeStep::Ignore;
            },
        };
        if session.nonce != nonce {
            return PartitionRangeStep::Ignore;
        }
        if committed_purge > applied_purge {
            return PartitionRangeStep::Deferred;
        }
        match reply {
            RangeReply::RangeEvicted => {
                self.repair = Some(
                    RepairSession {
                        nonce: session.nonce,
                        to_op: session.to_op,
                        floor: Some(op.saturating_sub(1)),
                        peer: session.peer,
                        first_batch_offset: session.first_batch_offset,
                        idle_ticks: session.idle_ticks,
                    },
                );
                PartitionRangeStep::FloorNoted
            },
            RangeReply::RepairDone => PartitionRangeStep::CompleteRepair,
        }
    }

    /// Settle a repair round after the local walk. A refused floor is the one
    /// authoritative sign that repair cannot close the gap; it converts to a
    /// transfer only from idle with no re-arm scheduled, whose backoff it
    /// would defeat.
    pub fn settle_repair(&mut self, conclusion: RepairConclusion, commit_before: u64, commit_min: u64, peer_known: bool) -> (followup: RepairFollowup)
        requires
            old(self).wf(),
            commit_min < u64::MAX,
        ensures
            final(self).wf(),
            is_repair_settled(*old(self), *final(self), conclusion, commit_before, commit_min, peer_known, followup),
    {
        match conclusion {
            RepairConclusion::FloorRefused => {
                self.repair = None;
                if matches!(self.stage, StateTransferStage::Idle) && self.transfer_rearm.is_none() && peer_known {
                    self.stage = StateTransferStage::AwaitingTarget;
                    RepairFollowup::ArmTransfer
                } else {
                    RepairFollowup::Nothing
                }
            },
            RepairConclusion::Complete => {
                self.repair = None;
                RepairFollowup::Nothing
            },
            RepairConclusion::Partial => match self.repair {
                Some(live) => if commit_min > commit_before {
                    RepairFollowup::RequestNext(
                        PrepareRequest { target: live.peer, nonce: live.nonce, from_op: commit_min + 1, to_op: live.to_op },
                    )
                } else {
                    RepairFollowup::Nothing
                },
                None => RepairFollowup::Nothing,
            },
        }
    }
}

pub open spec fn artifact_entry(artifact: TransferArtifact) -> StateArtifact {
    match artifact {
        TransferArtifact::Pending(entry) => entry,
        TransferArtifact::Staged(entry) => entry,
    }
}

/// A pull that stalled.
#[derive(Debug, Clone, Copy, PartialEq, Eq, Structural)]
pub struct StalledTransfer {
    pub peer: u8,
    pub nonce: u128,
    pub target_accepted: bool,
}

/// What a stalled pull asks for.
pub open spec fn stall_step(stalled: StalledTransfer, exhausted: bool) -> StallStep {
    if exhausted {
        StallStep::Abandon
    } else if stalled.target_accepted {
        StallStep::RequestChunk
    } else {
        StallStep::RequestTarget(StateTransferRequest { target: stalled.peer, nonce: stalled.nonce })
    }
}

/// What a stalled pull asks for, once it is known whether its retry budget is
/// spent.
pub fn settle_stalled_transfer(stalled: &StalledTransfer, exhausted: bool) -> (step: StallStep)
    ensures
        step == stall_step(*stalled, exhausted),
{
    if exhausted {
        StallStep::Abandon
    } else if stalled.target_accepted {
        StallStep::RequestChunk
    } else {
        StallStep::RequestTarget(StateTransferRequest { target: stalled.peer, nonce: stalled.nonce })
    }
}

/// The artifacts of a complete pull are installable: every one is staged but
/// a single offsets table, whose bytes match their manifest entry and whose
/// frontier is the descriptor's own commit op.
pub open spec fn installable_partition(artifacts: Seq<TransferArtifact>, checksums: Seq<u64>, commit_op: u64, offsets: int) -> bool {
    &&& 0 <= offsets < artifacts.len()
    &&& artifacts[offsets] matches TransferArtifact::Pending(entry) && entry.kind is ConsumerOffsets && entry.frontier
        == commit_op && entry.checksum == checksums[offsets]
    &&& forall|j: int| #![trigger artifacts[j]] 0 <= j < artifacts.len() && j != offsets ==> artifacts[j] is Staged
}

/// Pick the offsets table a complete pull installs. `checksums` are those of
/// the pulled bytes; what was staged has been checked before. A second table, an
/// unknown kind, damaged bytes, or a table that disagrees with the descriptor
/// refuses the install.
pub fn pick_offsets_artifact(artifacts: &Vec<TransferArtifact>, checksums: &Vec<u64>, commit_op: u64) -> (picked: Option<usize>)
    requires
        artifacts@.len() == checksums@.len(),
    ensures
        match picked {
            Some(offsets) => installable_partition(artifacts@, checksums@, commit_op, offsets as int),
            None => forall|offsets: int| !#[trigger] installable_partition(artifacts@, checksums@, commit_op, offsets),
        },
{
    let mut found: Option<usize> = None;
    let mut i: usize = 0;
    while i < artifacts.len()
        invariant
            i <= artifacts@.len(),
            artifacts@.len() == checksums@.len(),
            match found {
                Some(offsets) => {
                    &&& offsets < i
                    &&& artifacts@[offsets as int] matches TransferArtifact::Pending(entry) && entry.kind is ConsumerOffsets
                        && entry.checksum == checksums@[offsets as int]
                    &&& forall|j: int| #![trigger artifacts@[j]] 0 <= j < i && j != offsets ==> artifacts@[j] is Staged
                },
                None => forall|j: int| #![trigger artifacts@[j]] 0 <= j < i ==> artifacts@[j] is Staged,
            },
        decreases artifacts@.len() - i,
    {
        if let TransferArtifact::Pending(entry) = artifacts[i] {
            if !matches!(entry.kind, ArtifactKind::ConsumerOffsets) || entry.checksum != checksums[i] || found.is_some() {
                proof {
                    assert forall|offsets: int| !#[trigger] installable_partition(artifacts@, checksums@, commit_op, offsets) by {
                        if installable_partition(artifacts@, checksums@, commit_op, offsets) {
                            let _ = artifacts@[i as int];
                            if found is Some {
                                let _ = artifacts@[found->0 as int];
                            }
                        }
                    }
                }
                return None;
            }
            found = Some(i);
        }
        i += 1;
    }
    match found {
        Some(offsets) => {
            if let TransferArtifact::Pending(entry) = artifacts[offsets] {
                if entry.frontier == commit_op {
                    return Some(offsets);
                }
            }
            proof {
                assert forall|other: int| !#[trigger] installable_partition(artifacts@, checksums@, commit_op, other) by {
                    if installable_partition(artifacts@, checksums@, commit_op, other) {
                        let _ = artifacts@[offsets as int];
                    }
                }
            }
            None
        },
        None => {
            proof {
                assert forall|other: int| !#[trigger] installable_partition(artifacts@, checksums@, commit_op, other) by {
                    if installable_partition(artifacts@, checksums@, commit_op, other) {
                        let _ = artifacts@[other];
                    }
                }
            }
            None
        },
    }
}

/// Whether an offer was built before a committed purge; installing it would
/// resurrect what the purge removed.
pub fn offer_predates_purge(offered_generation: u64, committed_generation: u64) -> (predates: bool)
    ensures
        predates == (offered_generation < committed_generation),
{
    offered_generation < committed_generation
}

/// A complete pull is installed by its table at `offsets`: that one is
/// installable, and no purge was committed since its offer was built.
pub open spec fn is_install(
    artifacts: Seq<TransferArtifact>,
    checksums: Seq<u64>,
    commit_op: u64,
    offered_generation: u64,
    committed_generation: u64,
    offsets: int,
) -> bool {
    installable_partition(artifacts, checksums, commit_op, offsets) && offered_generation >= committed_generation
}

/// Decide whether a complete pull is installed, and by which offsets table.
/// `offered_generation` is the purge generation that table was built under.
pub fn decide_install(
    artifacts: &Vec<TransferArtifact>,
    checksums: &Vec<u64>,
    commit_op: u64,
    offered_generation: u64,
    committed_generation: u64,
) -> (picked: Option<usize>)
    requires
        artifacts@.len() == checksums@.len(),
    ensures
        match picked {
            Some(offsets) => is_install(
                artifacts@,
                checksums@,
                commit_op,
                offered_generation,
                committed_generation,
                offsets as int,
            ),
            None => forall|offsets: int|
                !#[trigger] is_install(
                    artifacts@,
                    checksums@,
                    commit_op,
                    offered_generation,
                    committed_generation,
                    offsets,
                ),
        },
{
    if offer_predates_purge(offered_generation, committed_generation) {
        return None;
    }
    pick_offsets_artifact(artifacts, checksums, commit_op)
}

/// A damaged or unknown artifact that is not staged refuses the whole install.
pub proof fn law_damaged_partition_is_never_installed(
    artifacts: Seq<TransferArtifact>,
    checksums: Seq<u64>,
    commit_op: u64,
    damaged: int,
    offsets: int,
)
    requires
        0 <= damaged < artifacts.len(),
        artifacts[damaged] matches TransferArtifact::Pending(entry) && (!(entry.kind is ConsumerOffsets) || entry.checksum
            != checksums[damaged]),
    ensures
        !installable_partition(artifacts, checksums, commit_op, offsets),
{
    let _ = artifacts[damaged];
}

/// Partitions with a pull in flight.
pub open spec fn inflight_count(partitions: Seq<PartitionRecovery>) -> int
    decreases partitions.len(),
{
    if partitions.len() == 0 {
        0
    } else {
        inflight_count(partitions.drop_last()) + if partitions.last().transfer is Some {
            1int
        } else {
            0int
        }
    }
}

/// Transfers this shard currently receives.
pub fn partition_transfers_inflight(partitions: &Vec<PartitionRecovery>) -> (count: usize)
    ensures
        count == inflight_count(partitions@),
{
    let mut count: usize = 0;
    let mut i: usize = 0;
    proof {
        assert(partitions@.take(0).len() == 0);
    }
    while i < partitions.len()
        invariant
            i <= partitions@.len(),
            count <= i,
            count == inflight_count(partitions@.take(i as int)),
        decreases partitions@.len() - i,
    {
        proof {
            assert(partitions@.take(i + 1).drop_last() =~= partitions@.take(i as int));
        }
        if partitions[i].transfer.is_some() {
            count += 1;
        }
        i += 1;
    }
    proof {
        assert(partitions@.take(i as int) =~= partitions@);
    }
    count
}

/// One sweep over a shard's partitions that arms the transfers whose backoff
/// ran out. The transfers in flight are counted once, when the first of them
/// is due, and carried forward: a slot freed later in the sweep is seen by the
/// next one.
pub struct RearmSweep {
    pub inflight: Option<usize>,
}

/// A scheduled re-arm fires: its backoff ran out and nothing else recovered
/// the partition meanwhile.
pub open spec fn rearm_due(recovery: PartitionRecovery) -> bool {
    &&& recovery.transfer_rearm is Some
    &&& recovery.transfer_rearm->0.after_ticks == 0
    &&& recovery.transfer is None
    &&& recovery.stage is Idle
}

/// One partition was visited by a sweep.
pub open spec fn is_visited(
    sweep_before: RearmSweep,
    sweep_after: RearmSweep,
    before: PartitionRecovery,
    after: PartitionRecovery,
    counted: usize,
    nonce: u128,
    retry_ticks: u32,
    armed: Option<ArmOutcome>,
) -> bool {
    if !rearm_due(before) {
        &&& armed is None
        &&& sweep_after == sweep_before
        &&& after.stage == before.stage
        &&& after.repair == before.repair
        &&& after.transfer == before.transfer
        &&& after.transfer_rearm == match before.transfer_rearm {
            Some(pending) => if pending.after_ticks > 0 {
                Some(PendingTransferRearm { after_ticks: (pending.after_ticks - 1) as u32, ..pending })
            } else {
                None
            },
            None => None,
        }
    } else {
        let peer = before.transfer_rearm->0.peer;
        let inflight = sweep_before.spec_inflight(counted);
        if inflight >= PARTITION_TRANSFERS_INFLIGHT_MAX {
            &&& armed == Some(ArmOutcome::Deferred)
            &&& sweep_after.inflight == Some(inflight)
            &&& after.stage is Idle
            &&& after.repair == before.repair
            &&& after.transfer is None
            &&& after.transfer_rearm == Some(PendingTransferRearm { peer, after_ticks: retry_ticks })
        } else {
            &&& armed == Some(
                ArmOutcome::Armed { fresh: true, request: StateTransferRequest { target: peer, nonce } },
            )
            &&& sweep_after.inflight == Some((inflight + 1) as usize)
            &&& after.stage is AwaitingTarget
            &&& after.repair is None
            &&& after.transfer is Some
            &&& awaiting_partition_session(after.transfer->0, peer, nonce)
            &&& after.transfer_rearm is None
        }
    }
}

impl RearmSweep {
    pub fn new() -> (sweep: RearmSweep)
        ensures
            sweep.inflight is None,
    {
        RearmSweep { inflight: None }
    }

    /// The count the next arm goes by.
    pub open spec fn spec_inflight(&self, counted: usize) -> usize {
        match self.inflight {
            Some(inflight) => inflight,
            None => counted,
        }
    }

    /// Visit one partition. `counted` is the number of transfers in flight
    /// now, read only where the sweep has not counted yet.
    pub fn visit(&mut self, recovery: &mut PartitionRecovery, counted: usize, nonce: u128, retry_ticks: u32) -> (armed: Option<
        ArmOutcome,
    >)
        requires
            old(recovery).wf(),
            old(self).spec_inflight(counted) < usize::MAX,
        ensures
            final(recovery).wf(),
            is_visited(*old(self), *final(self), *old(recovery), *final(recovery), counted, nonce, retry_ticks, armed),
    {
        let peer: u8 = match recovery.tick_rearm() {
            Some(peer) => peer,
            None => {
                return None;
            },
        };
        let inflight: usize = match self.inflight {
            Some(inflight) => inflight,
            None => counted,
        };
        let armed: ArmOutcome = recovery.arm_partition_transfer(peer, inflight, nonce, retry_ticks);
        self.inflight = match armed {
            ArmOutcome::Armed { .. } => Some(inflight + 1),
            ArmOutcome::Deferred => Some(inflight),
        };
        Some(armed)
    }
}

/// The artifacts of an accepted manifest: staged where reused, pending
/// otherwise.
pub open spec fn opened_artifacts(entries: Seq<StateArtifact>, reused: Seq<u32>) -> Seq<TransferArtifact> {
    Seq::new(
        entries.len(),
        |i: int|
            if exists|k: int| #![trigger reused[k]] 0 <= k < reused.len() && reused[k] == i {
                TransferArtifact::Staged(entries[i])
            } else {
                TransferArtifact::Pending(entries[i])
            },
    )
}

fn open_artifacts(entries: &Vec<StateArtifact>, reused: &Vec<u32>) -> (artifacts: Vec<TransferArtifact>)
    requires
        forall|k: int| #![trigger reused@[k]] 0 <= k < reused@.len() ==> reused@[k] < entries@.len(),
    ensures
        artifacts@ == opened_artifacts(entries@, reused@),
{
    let mut artifacts: Vec<TransferArtifact> = Vec::new();
    let mut i: usize = 0;
    while i < entries.len()
        invariant
            i <= entries@.len(),
            artifacts@.len() == i,
            forall|j: int| #![trigger artifacts@[j]] 0 <= j < i ==> artifacts@[j] == TransferArtifact::Pending(entries@[j]),
        decreases entries@.len() - i,
    {
        artifacts.push(TransferArtifact::Pending(entries[i]));
        i += 1;
    }
    let mut k: usize = 0;
    while k < reused.len()
        invariant
            k <= reused@.len(),
            artifacts@.len() == entries@.len(),
            forall|j: int| #![trigger reused@[j]] 0 <= j < reused@.len() ==> reused@[j] < entries@.len(),
            artifacts@ == opened_artifacts(entries@, reused@.take(k as int)),
        decreases reused@.len() - k,
    {
        let index: usize = reused[k] as usize;
        let ghost before = artifacts@;
        let ghost front = reused@.take(k as int);
        let ghost next = reused@.take(k + 1);
        artifacts.set(index, TransferArtifact::Staged(entries[index]));
        proof {
            assert forall|j: int| 0 <= j < entries@.len() implies #[trigger] artifacts@[j] == opened_artifacts(entries@, next)[j] by {
                if j == index {
                    assert(next[k as int] == j);
                } else {
                    if exists|m: int| #![trigger front[m]] 0 <= m < front.len() && front[m] == j {
                        let m = choose|m: int| #![trigger front[m]] 0 <= m < front.len() && front[m] == j;
                        assert(next[m] == j);
                    }
                    if exists|m: int| #![trigger next[m]] 0 <= m < next.len() && next[m] == j {
                        let m = choose|m: int| #![trigger next[m]] 0 <= m < next.len() && next[m] == j;
                        assert(m != k);
                        assert(front[m] == j);
                    }
                    assert(before[j] == opened_artifacts(entries@, front)[j]);
                }
            }
            assert(artifacts@ =~= opened_artifacts(entries@, next));
        }
        k += 1;
    }
    proof {
        assert(reused@.take(k as int) =~= reused@);
    }
    artifacts
}

/// An offer from a replica that knows less than this one is never
/// accepted, whatever it claims to hold.
pub proof fn law_offer_from_behind_is_never_accepted(
    session: Option<PartitionTransferSession>,
    peer_known: bool,
    header: TargetHeader,
    local: LocalProgress,
    manifest: Option<Seq<StateArtifact>>,
    artifact_len_max: u64,
)
    requires
        header.fields.view < local.view || header.fields.commit_max < local.commit_max || header.fields.commit_op
            > header.fields.commit_max,
    ensures
        !(target_verdict(session, peer_known, header, local, manifest, artifact_len_max) is Accept),
{
}

/// An accepted offer never moves the commit floor past what the sender
/// had committed.
pub proof fn law_accepted_offer_is_bounded_by_its_sender(
    session: Option<PartitionTransferSession>,
    peer_known: bool,
    header: TargetHeader,
    local: LocalProgress,
    manifest: Option<Seq<StateArtifact>>,
    artifact_len_max: u64,
)
    requires
        target_verdict(session, peer_known, header, local, manifest, artifact_len_max) is Accept,
    ensures
        header.fields.commit_op <= header.fields.commit_max,
        local.commit_max <= header.fields.commit_max,
        local.view <= header.fields.view,
        session is Some && session->0.nonce == header.nonce,
        manifest is Some && within_partition_caps(manifest->0, artifact_len_max),
{
}

/// A pull has at most one table to install, so which one is installed
/// never depends on manifest order.
pub proof fn law_offsets_table_is_unique(artifacts: Seq<TransferArtifact>, checksums: Seq<u64>, commit_op: u64, left: int, right: int)
    requires
        installable_partition(artifacts, checksums, commit_op, left),
        installable_partition(artifacts, checksums, commit_op, right),
    ensures
        left == right,
{
    if left != right {
        let _ = artifacts[left];
        assert(artifacts[left] is Staged);
    }
}

/// A shard that sweeps its partitions, arming only while a slot is free
/// and carrying the count forward, never runs past its cap.
pub proof fn law_arming_respects_the_cap(before: Seq<PartitionRecovery>, index: int, after: PartitionRecovery)
    requires
        0 <= index < before.len(),
        before[index].transfer is None,
        after.transfer is Some ==> inflight_count(before) < PARTITION_TRANSFERS_INFLIGHT_MAX,
        inflight_count(before) <= PARTITION_TRANSFERS_INFLIGHT_MAX,
    ensures
        inflight_count(before.update(index, after)) == inflight_count(before) + if after.transfer is Some {
            1int
        } else {
            0int
        },
        inflight_count(before.update(index, after)) <= PARTITION_TRANSFERS_INFLIGHT_MAX,
{
    lemma_inflight_update(before, index, after);
}

proof fn lemma_inflight_update(before: Seq<PartitionRecovery>, index: int, after: PartitionRecovery)
    requires
        0 <= index < before.len(),
        before[index].transfer is None,
    ensures
        inflight_count(before.update(index, after)) == inflight_count(before) + if after.transfer is Some {
            1int
        } else {
            0int
        },
    decreases before.len(),
{
    let updated = before.update(index, after);
    if index == before.len() - 1 {
        assert(updated.drop_last() =~= before.drop_last());
    } else {
        lemma_inflight_update(before.drop_last(), index, after);
        assert(updated.drop_last() =~= before.drop_last().update(index, after));
    }
}

/// Rotation asks the primary first, unless it is the peer that failed or this
/// replica itself; among the rest it goes round the ring, passing this replica
/// over, and a lone replica stays where it is.
pub proof fn law_rotation_prefers_the_primary(ring: Ring, failed_peer: u8)
    requires
        failed_peer < ring.replica_count,
        ring.self_id < ring.replica_count,
    ensures
        ring.replica_count <= 1 ==> next_peer(ring, failed_peer) == failed_peer,
        ring.replica_count > 1 && ring.primary != ring.self_id && ring.primary != failed_peer ==> next_peer(ring, failed_peer)
            == ring.primary,
        ring.replica_count > 1 && (ring.primary == ring.self_id || ring.primary == failed_peer) ==> {
            let next = if failed_peer + 1 == ring.replica_count {
                0
            } else {
                failed_peer + 1
            };
            let after_next = if next + 1 == ring.replica_count {
                0
            } else {
                next + 1
            };
            &&& next != ring.self_id ==> next_peer(ring, failed_peer) == next
            &&& next == ring.self_id && after_next != ring.self_id ==> next_peer(ring, failed_peer) == after_next
        },
{
    if ring.replica_count > 1 {
        let n = ring.replica_count as int;
        lemma_ring_step(failed_peer as int, n);
        lemma_ring_step(ring_next(failed_peer as int, ring.replica_count), n);
    }
}

/// Each further failure doubles the wait, until the ceiling of either the
/// doublings or the count is reached.
pub proof fn law_backoff_doubles(base_ticks: u32, failures: u32)
    requires
        failures < TRANSFER_BACKOFF_DOUBLINGS_MAX,
        2 * rearm_backoff(base_ticks, failures) <= u32::MAX,
    ensures
        rearm_backoff(base_ticks, (failures + 1) as u32) == 2 * rearm_backoff(base_ticks, failures),
        rearm_backoff(base_ticks, 0) == base_ticks,
{
    lemma2_to64();
    let p = pow2(failures as nat);
    lemma_pow2_unfold((failures + 1) as nat);
    assert(base_ticks * (2 * p) == 2 * (base_ticks * p)) by (nonlinear_arith);
    assert(base_ticks * pow2(0) == base_ticks) by (nonlinear_arith)
        requires
            pow2(0) == 1,
    ;
}

/// Refusals are raised at regular intervals: at every multiple of the interval
/// and nowhere between.
pub proof fn law_escalation_is_periodic(refusals: u32)
    ensures
        refusals == 0 ==> !is_escalation(refusals),
        0 < refusals < TRANSFER_REFUSALS_BEFORE_ESCALATION ==> !is_escalation(refusals),
        refusals == TRANSFER_REFUSALS_BEFORE_ESCALATION ==> is_escalation(refusals),
        refusals > 0 && refusals <= u32::MAX - TRANSFER_REFUSALS_BEFORE_ESCALATION ==> (is_escalation(
            (refusals + TRANSFER_REFUSALS_BEFORE_ESCALATION) as u32,
        ) <==> refusals % TRANSFER_REFUSALS_BEFORE_ESCALATION == 0),
{
}

/// A known peer's offer under the session's nonce is accepted exactly where it
/// does not contradict itself, knows at least as much as this replica, and
/// carries a manifest that fits, and no offer was accepted before. A peer that
/// cannot serve is refused or charged as it says itself, and the primary is
/// never rotated away from for a transient refusal.
pub proof fn law_sound_offer_is_accepted(
    session: Option<PartitionTransferSession>,
    peer_known: bool,
    header: TargetHeader,
    local: LocalProgress,
    manifest: Option<Seq<StateArtifact>>,
    artifact_len_max: u64,
    i: int,
)
    ensures
        ({
            let verdict = target_verdict(session, peer_known, header, local, manifest, artifact_len_max);
            let own = peer_known && session is Some && session->0.nonce == header.nonce;
            let fields = header.fields;
            let offers = fields.available != 0;
            let sound = fields.commit_op <= fields.commit_max;
            let ahead = local.view <= fields.view && local.commit_max <= fields.commit_max;
            &&& !own ==> verdict is Ignore
            &&& own && !offers && fields.unavailable_transient == 1 ==> verdict is Refused && (verdict->rotate <==> header.replica
                != local.primary)
            &&& own && !offers && fields.unavailable_transient != 1 ==> verdict is Failed && verdict->refused
            &&& own && offers && !sound ==> verdict is Failed && !verdict->refused
            &&& own && offers && sound && !ahead ==> verdict is Refused && verdict->rotate
            &&& verdict is Accept <==> own && offers && sound && ahead && !session->0.target_accepted && manifest is Some
                && within_partition_caps(manifest->0, artifact_len_max)
            &&& verdict is Accept && 0 <= i < manifest->0.len() ==> {
                let entry = manifest->0[i];
                &&& entry.kind is SegmentLog || entry.kind is ConsumerOffsets
                &&& entry.kind is SegmentLog ==> entry.len <= artifact_len_max
                &&& entry.kind is ConsumerOffsets ==> entry.len <= CONSUMER_OFFSETS_ARTIFACT_LEN_MAX
            }
            &&& verdict is Accept ==> manifest_len(manifest->0) <= PARTITION_TRANSFER_TOTAL_LEN_MAX
        }),
{
    if manifest is Some && 0 <= i < manifest->0.len() {
        let _ = manifest->0[i];
    }
}

/// A manifest of known kinds whose every artifact and whose total stay under
/// their ceilings fits.
pub proof fn law_manifest_under_its_ceilings_fits(manifest: Seq<StateArtifact>, artifact_len_max: u64)
    requires
        forall|i: int|
            #![trigger manifest[i]]
            0 <= i < manifest.len() ==> {
                ||| manifest[i].kind is SegmentLog && manifest[i].len <= artifact_len_max
                ||| manifest[i].kind is ConsumerOffsets && manifest[i].len <= CONSUMER_OFFSETS_ARTIFACT_LEN_MAX
            },
        manifest_len(manifest) <= PARTITION_TRANSFER_TOTAL_LEN_MAX,
    ensures
        within_partition_caps(manifest, artifact_len_max),
{
}

/// A refusal moves the count an operator sees by one, and no other verdict
/// moves any count.
pub proof fn law_verdict_counts_a_refusal_once(counts: MetricCounts, verdict: TargetVerdict)
    requires
        counts.partition_transfer_refusals < u64::MAX,
    ensures
        ({
            let refusal = verdict is Refused || verdict is Failed && verdict->refused;
            &&& refusal ==> with_verdict(counts, verdict).partition_transfer_refusals == counts.partition_transfer_refusals + 1
            &&& !refusal ==> with_verdict(counts, verdict) == counts
            &&& with_verdict(counts, verdict).frame_drops == counts.frame_drops
        }),
{
}

/// A transfer is armed against the peer it was asked for wherever a slot is
/// free or one is held already, and it supersedes a repair; without a slot the
/// same peer is scheduled again and the repair goes on.
pub proof fn law_arming_takes_a_slot_or_waits(
    before: PartitionRecovery,
    after: PartitionRecovery,
    peer: u8,
    transfers_inflight: usize,
    nonce: u128,
    retry_ticks: u32,
    outcome: ArmOutcome,
)
    requires
        is_transfer_armed(before, after, peer, transfers_inflight, nonce, retry_ticks, outcome),
    ensures
        outcome is Armed <==> before.transfer is Some || transfers_inflight < PARTITION_TRANSFERS_INFLIGHT_MAX,
        outcome is Armed ==> {
            &&& outcome->request.target == peer && outcome->request.nonce == nonce
            &&& outcome->fresh <==> before.transfer is None
            &&& after.transfer is Some
            &&& after.transfer->0.peer == peer && after.transfer->0.nonce == nonce
            &&& !after.transfer->0.target_accepted && after.transfer->0.artifacts@.len() == 0 && after.transfer->0.idle_ticks == 0
            &&& after.repair is None
            &&& after.stage == before.stage
        },
        outcome is Deferred ==> {
            &&& after.transfer is None
            &&& after.transfer_rearm is Some
            &&& after.transfer_rearm->0.peer == peer && after.transfer_rearm->0.after_ticks == retry_ticks
            &&& after.repair == before.repair
            &&& after.stage is Idle
        },
{
}

/// Arming is possible exactly where no transfer runs and one is awaited, or
/// where the group is idle and no re-arm is scheduled.
pub proof fn law_arming_waits_for_a_scheduled_rearm(recovery: PartitionRecovery)
    ensures
        recovery.transfer is Some ==> !can_arm(recovery),
        recovery.transfer is None && recovery.stage is AwaitingTarget ==> can_arm(recovery),
        recovery.transfer is None && recovery.stage is Idle ==> (can_arm(recovery) <==> recovery.transfer_rearm is None),
        !(recovery.stage is AwaitingTarget) && !(recovery.stage is Idle) ==> !can_arm(recovery),
{
}

/// An accepted offer opens every entry of its manifest, in order: staged where
/// an earlier attempt left it, pending everywhere else. A session that is gone
/// or another's is left alone.
pub proof fn law_accepted_manifest_is_opened_whole(
    before: PartitionRecovery,
    after: PartitionRecovery,
    nonce: u128,
    commit_op: u64,
    entries: Seq<StateArtifact>,
    reused: Seq<u32>,
    accepted: bool,
    i: int,
)
    requires
        is_target_accepted(before, after, nonce, commit_op, entries, reused, accepted),
    ensures
        accepted <==> before.transfer is Some && before.transfer->0.nonce == nonce,
        !accepted ==> after == before,
        accepted ==> {
            let session = after.transfer->0;
            &&& after.transfer is Some
            &&& session.nonce == nonce && session.peer == before.transfer->0.peer
            &&& session.commit_op == commit_op && session.target_accepted && session.idle_ticks == 0
            &&& session.artifacts@.len() == entries.len()
            &&& before.stage is AwaitingTarget ==> after.stage is Fetching
            &&& !(before.stage is AwaitingTarget) ==> after.stage == before.stage
            &&& 0 <= i < entries.len() ==> {
                let staged = exists|k: int| #![trigger reused[k]] 0 <= k < reused.len() && reused[k] == i;
                &&& staged ==> session.artifacts@[i] == TransferArtifact::Staged(entries[i])
                &&& !staged ==> session.artifacts@[i] == TransferArtifact::Pending(entries[i])
            }
        },
        after.repair == before.repair && after.transfer_rearm == before.transfer_rearm,
{
}

/// A chunk belongs to the pull only from the peer the session is with, and
/// what a pull misses is asked of that same peer, under its nonce and with the
/// bounds of the gap.
pub proof fn law_pull_stays_with_its_peer(recovery: PartitionRecovery, nonce: u128, sender: u8, artifact: u32, offset: u64, len: u32)
    ensures
        pulls_from(recovery, nonce, sender) <==> recovery.transfer is Some && recovery.transfer->0.nonce == nonce
            && recovery.transfer->0.peer == sender && recovery.transfer->0.target_accepted,
        ({
            let ask = partition_chunk_ask(recovery.transfer, Some((artifact, offset, len)));
            &&& ask is Some <==> recovery.transfer is Some && recovery.transfer->0.target_accepted
            &&& ask is Some ==> {
                &&& pulls_from(recovery, ask->0.nonce, ask->0.target)
                &&& ask->0.artifact == artifact && ask->0.offset == offset && ask->0.len == len
            }
        }),
        partition_chunk_ask(recovery.transfer, None) is None,
{
}

/// A chunk that extends the pull restarts its idle count and changes nothing
/// else.
pub proof fn law_partition_progress_renews_the_pull(before: PartitionRecovery, after: PartitionRecovery)
    requires
        is_pull_extended(before, after),
    ensures
        before.transfer is Some <==> after.transfer is Some,
        before.transfer is Some ==> after.transfer->0 == (PartitionTransferSession { idle_ticks: 0, ..before.transfer->0 }),
        after.stage == before.stage && after.repair == before.repair && after.transfer_rearm == before.transfer_rearm,
{
}

/// A pull spills each complete segment before anything else, then asks for what
/// it misses, and is installed, whole and once, exactly where everything is
/// here and nothing is left to spill. A transfer abandoned elsewhere drops its
/// session.
pub proof fn law_pull_spills_then_asks_then_installs(
    before: PartitionRecovery,
    after: PartitionRecovery,
    complete: Seq<bool>,
    step: PartitionProgress,
    i: int,
)
    requires
        is_pull_driven(before, after, complete, step),
        before.transfer is Some ==> complete.len() == before.transfer->0.artifacts@.len(),
    ensures
        ({
            let session = before.transfer->0;
            let pulling = before.transfer is Some && before.stage is Fetching && session.target_accepted;
            let held = |at: int|
                complete[at] && session.artifacts@[at] is Pending && artifact_entry(session.artifacts@[at]).kind is SegmentLog;
            &&& step is Dropped <==> before.transfer is Some && !(before.stage is Fetching)
            &&& step is Nothing <==> before.transfer is None || before.stage is Fetching && !session.target_accepted
            &&& pulling && 0 <= i < complete.len() && held(i) ==> step is Spill && step->index <= i
            &&& step is Spill ==> {
                &&& step->index < complete.len() && held(step->index as int)
                &&& step->Spill_entry == artifact_entry(session.artifacts@[step->index as int])
                &&& step->Spill_peer == session.peer && step->Spill_nonce == session.nonce
            }
            &&& step is RequestChunk ==> pulling && complete.contains(false)
            &&& step is Install ==> pulling && !complete.contains(false) && step->Install_0 == session && after.transfer is None
            &&& pulling && !(step is Spill) && !complete.contains(false) ==> step is Install
            &&& !(step is Install) && !(step is Dropped) ==> after.transfer == before.transfer
        }),
{
    if before.transfer is Some && 0 <= i < complete.len() {
        let session = before.transfer->0;
        let _ = spillable(session.artifacts@, complete, i);
        if !complete[i] {
            assert(complete.contains(false));
        }
    }
}

/// A staged segment is spilled once: it keeps its entry and its place, and no
/// other artifact changes. A session armed meanwhile is left alone.
pub proof fn law_staged_segment_keeps_its_place(
    before: PartitionRecovery,
    after: PartitionRecovery,
    nonce: u128,
    index: usize,
    complete: Seq<bool>,
    other: int,
)
    requires
        before.transfer is Some,
        is_segment_staged(before, after, nonce, index),
        index < before.transfer->0.artifacts@.len(),
        0 <= other < before.transfer->0.artifacts@.len(),
    ensures
        before.transfer->0.nonce != nonce ==> after.transfer == before.transfer,
        before.transfer->0.nonce == nonce ==> {
            let session = after.transfer->0;
            &&& after.transfer is Some
            &&& session.artifacts@.len() == before.transfer->0.artifacts@.len()
            &&& session.artifacts@[index as int] is Staged
            &&& !spillable(session.artifacts@, complete, index as int)
            &&& artifact_entry(session.artifacts@[other]) == artifact_entry(before.transfer->0.artifacts@[other])
            &&& other != index ==> session.artifacts@[other] == before.transfer->0.artifacts@[other]
            &&& session.nonce == nonce && session.peer == before.transfer->0.peer && session.commit_op == before.transfer->0.commit_op
        },
        after.stage == before.stage && after.repair == before.repair && after.transfer_rearm == before.transfer_rearm,
{
}

/// What follows an install says how it ended: repair of the tail, a fence at
/// the frontier that is left, or a failure. A completed one alone cancels a
/// scheduled re-arm.
pub proof fn law_install_outcome_is_followed_up(
    before: PartitionRecovery,
    after: PartitionRecovery,
    outcome: InstallOutcome,
    step: InstallStep,
)
    requires
        is_install_settled(before, after, outcome, step),
    ensures
        step is WalkAndRepair <==> outcome is Installed,
        step is Fence <==> outcome is ConvergeFailed,
        step is Failed <==> outcome is Failed,
        step is Fence ==> step->Fence_frontier == outcome->ConvergeFailed_frontier,
        outcome is Installed ==> after.transfer_rearm is None,
        !(outcome is Installed) ==> after.transfer_rearm == before.transfer_rearm,
        after.stage is Idle,
        after.repair == before.repair && after.transfer == before.transfer,
{
}

/// A dropped transfer is always scheduled again: after the wait it was given,
/// against the same peer, or against the next one where it rotates.
pub proof fn law_dropped_transfer_is_scheduled_again(
    before: PartitionRecovery,
    after: PartitionRecovery,
    peer: u8,
    after_ticks: u32,
    rotate: bool,
    ring: Ring,
)
    requires
        is_rearm_scheduled(before, after, peer, after_ticks as int, rotate, ring),
        peer < ring.replica_count,
        ring.primary < ring.replica_count,
    ensures
        after.transfer is None && after.stage is Idle && after.repair == before.repair,
        after.transfer_rearm is Some && after.transfer_rearm->0.after_ticks == after_ticks,
        !rotate ==> after.transfer_rearm->0.peer == peer,
        rotate ==> after.transfer_rearm->0.peer == next_peer(ring, peer),
        !can_arm(after),
{
    if ring.replica_count > 1 {
        let n = ring.replica_count as int;
        lemma_ring_step(peer as int, n);
        lemma_ring_step(ring_next(peer as int, ring.replica_count), n);
    }
}

/// A scheduled re-arm counts down one tick at a time and fires once, at zero
/// and against the peer it was scheduled for, unless something else recovers
/// the partition by then.
pub proof fn law_scheduled_rearm_fires_once(before: PartitionRecovery, after: PartitionRecovery, peer: Option<u8>)
    requires
        is_rearm_ticked(before, after, peer),
    ensures
        ({
            let pending = before.transfer_rearm;
            &&& peer is Some <==> rearm_due(before)
            &&& peer is Some ==> peer->0 == pending->0.peer && after.transfer_rearm is None && after.stage is AwaitingTarget && can_arm(
                after,
            )
            &&& pending is Some && pending->0.after_ticks > 0 ==> {
                &&& after.transfer_rearm is Some
                &&& after.transfer_rearm->0.after_ticks == pending->0.after_ticks - 1
                &&& after.transfer_rearm->0.peer == pending->0.peer
            }
            &&& pending is Some && pending->0.after_ticks == 0 ==> after.transfer_rearm is None
            &&& pending is None ==> after.transfer_rearm is None
            &&& peer is None ==> after.stage == before.stage
            &&& after.transfer == before.transfer && after.repair == before.repair
        }),
{
}

/// A pull that makes no progress for the retry interval is reported stalled,
/// not sooner, and its count starts over; the report tells whom it waits on.
/// A stalled pull asks for what it waits on, until its budget is spent.
pub proof fn law_stalled_pull_is_reported(
    before: PartitionRecovery,
    after: PartitionRecovery,
    retry_ticks: u32,
    stalled: Option<StalledTransfer>,
    exhausted: bool,
)
    requires
        before.wf(),
        is_transfer_ticked(before, after, retry_ticks, stalled),
    ensures
        stalled is Some <==> before.transfer is Some && retry_ticks <= before.transfer->0.idle_ticks + 1,
        stalled is Some ==> {
            let session = before.transfer->0;
            let step = stall_step(stalled->0, exhausted);
            &&& stalled->0.peer == session.peer && stalled->0.nonce == session.nonce
            &&& stalled->0.target_accepted == session.target_accepted
            &&& after.transfer == Some(PartitionTransferSession { idle_ticks: 0, ..session })
            &&& step is Abandon <==> exhausted
            &&& step is RequestChunk <==> !exhausted && session.target_accepted
            &&& step is RequestTarget <==> !exhausted && !session.target_accepted
            &&& step is RequestTarget ==> step->RequestTarget_0.target == session.peer && step->RequestTarget_0.nonce == session.nonce
        },
        stalled is None && before.transfer is Some ==> {
            &&& after.transfer is Some
            &&& after.transfer->0 == (PartitionTransferSession {
                idle_ticks: (before.transfer->0.idle_ticks + 1) as u32,
                ..before.transfer->0
            })
        },
        before.transfer is None ==> after.transfer is None,
        after.stage == before.stage && after.repair == before.repair && after.transfer_rearm == before.transfer_rearm,
{
}

/// A terminator of another repair changes nothing. While a purge is committed
/// and not applied, this repair's is put off; else an eviction notes the op
/// below the lowest one left as the floor, and the end of the stream is walked.
pub proof fn law_range_reply_moves_its_own_repair(
    before: PartitionRecovery,
    after: PartitionRecovery,
    nonce: u128,
    reply: RangeReply,
    op: u64,
    committed_purge: u64,
    applied_purge: u64,
    step: PartitionRangeStep,
)
    requires
        is_range_replied(before, after, nonce, reply, op, committed_purge, applied_purge, step),
    ensures
        ({
            let own = before.repair is Some && before.repair->0.nonce == nonce;
            let waits = applied_purge < committed_purge;
            &&& step is Ignore <==> !own
            &&& step is Deferred <==> own && waits
            &&& step is FloorNoted <==> own && !waits && reply is RangeEvicted
            &&& step is CompleteRepair <==> own && !waits && reply is RepairDone
            &&& !(step is FloorNoted) ==> after.repair == before.repair
            &&& step is FloorNoted ==> {
                &&& after.repair is Some
                &&& after.repair->0.floor is Some
                &&& op > 0 ==> after.repair->0.floor->0 == op - 1
                &&& op == 0 ==> after.repair->0.floor->0 == 0
                &&& after.repair->0.nonce == nonce && after.repair->0.to_op == before.repair->0.to_op
                &&& after.repair->0.peer == before.repair->0.peer
            }
        }),
        after.stage == before.stage && after.transfer == before.transfer && after.transfer_rearm == before.transfer_rearm,
{
}

/// A complete repair ends; one that falls short goes on, asking for the rest
/// of its window while the walk advances. A refused floor ends the repair, and
/// a transfer takes its place exactly from idle, with no re-arm scheduled and
/// against a known peer.
pub proof fn law_refused_floor_becomes_a_transfer(
    before: PartitionRecovery,
    after: PartitionRecovery,
    conclusion: RepairConclusion,
    commit_before: u64,
    commit_min: u64,
    peer_known: bool,
    followup: RepairFollowup,
    op: u64,
)
    requires
        commit_min < u64::MAX,
        is_repair_settled(before, after, conclusion, commit_before, commit_min, peer_known, followup),
    ensures
        !(conclusion is Partial) ==> after.repair is None,
        conclusion is Partial ==> after.repair == before.repair,
        followup is ArmTransfer <==> conclusion is FloorRefused && before.stage is Idle && before.transfer_rearm is None && peer_known,
        followup is ArmTransfer ==> after.stage is AwaitingTarget,
        !(followup is ArmTransfer) ==> after.stage == before.stage,
        followup is RequestNext <==> conclusion is Partial && before.repair is Some && commit_before < commit_min,
        followup is RequestNext ==> {
            let request = followup->RequestNext_0;
            &&& request.target == before.repair->0.peer && request.nonce == before.repair->0.nonce
            &&& request.from_op <= op <= request.to_op <==> commit_min < op <= before.repair->0.to_op
        },
        after.transfer == before.transfer && after.transfer_rearm == before.transfer_rearm,
{
}

/// A sound pull is installed: every artifact staged but one offsets table,
/// whose bytes match and whose frontier is the offer's, under no purge the
/// offer predates. An offer built before a committed purge never is.
pub proof fn law_sound_partition_is_installed(
    artifacts: Seq<TransferArtifact>,
    checksums: Seq<u64>,
    commit_op: u64,
    offered_generation: u64,
    committed_generation: u64,
    offsets: int,
)
    ensures
        is_install(artifacts, checksums, commit_op, offered_generation, committed_generation, offsets) <==> {
            &&& committed_generation <= offered_generation
            &&& 0 <= offsets < artifacts.len()
            &&& artifacts[offsets] is Pending
            &&& artifact_entry(artifacts[offsets]).kind is ConsumerOffsets
            &&& artifact_entry(artifacts[offsets]).frontier == commit_op
            &&& artifact_entry(artifacts[offsets]).checksum == checksums[offsets]
            &&& forall|j: int| #![trigger artifacts[j]] 0 <= j < artifacts.len() && j != offsets ==> artifacts[j] is Staged
        },
{
}

/// A sweep arms every partition whose wait ran out while a slot is free, in
/// turn, and schedules it again where none is; it counts what it arms and
/// leaves every other partition to wait.
pub proof fn law_sweep_arms_while_slots_are_free(
    sweep_before: RearmSweep,
    sweep_after: RearmSweep,
    before: PartitionRecovery,
    after: PartitionRecovery,
    counted: usize,
    nonce: u128,
    retry_ticks: u32,
    armed: Option<ArmOutcome>,
)
    requires
        sweep_before.spec_inflight(counted) < usize::MAX,
        is_visited(sweep_before, sweep_after, before, after, counted, nonce, retry_ticks, armed),
    ensures
        ({
            let inflight = sweep_before.spec_inflight(counted);
            let free = inflight < PARTITION_TRANSFERS_INFLIGHT_MAX;
            &&& armed is Some <==> rearm_due(before)
            &&& armed is Some && armed->0 is Armed <==> rearm_due(before) && free
            &&& armed is Some ==> sweep_after.inflight == Some((inflight + if free { 1int } else { 0 }) as usize)
            &&& armed is None ==> sweep_after == sweep_before && after.transfer == before.transfer && after.stage == before.stage
            &&& armed is Some && armed->0 is Armed ==> {
                &&& armed->0->request.target == before.transfer_rearm->0.peer && armed->0->request.nonce == nonce
                &&& after.transfer is Some && after.transfer->0.peer == before.transfer_rearm->0.peer
                &&& after.transfer->0.nonce == nonce
                &&& after.stage is AwaitingTarget && after.transfer_rearm is None
            }
            &&& armed is Some && armed->0 is Deferred ==> {
                &&& after.transfer is None && after.transfer_rearm is Some
                &&& after.transfer_rearm->0.peer == before.transfer_rearm->0.peer
                &&& after.transfer_rearm->0.after_ticks == retry_ticks
            }
            &&& armed is None && before.transfer_rearm is Some && before.transfer_rearm->0.after_ticks > 0 ==> {
                &&& after.transfer_rearm is Some
                &&& after.transfer_rearm->0.after_ticks == before.transfer_rearm->0.after_ticks - 1
                &&& after.transfer_rearm->0.peer == before.transfer_rearm->0.peer
            }
        }),
{
}

/// The count of transfers in flight is that of the partitions that have one.
pub proof fn law_inflight_counts_each_partition_once(first: Seq<PartitionRecovery>, second: Seq<PartitionRecovery>, one: PartitionRecovery)
    ensures
        inflight_count(first + second) == inflight_count(first) + inflight_count(second),
        one.transfer is Some ==> inflight_count(seq![one]) == 1,
        one.transfer is None ==> inflight_count(seq![one]) == 0,
    decreases second.len(),
{
    if second.len() == 0 {
        assert(first + second =~= first);
    } else {
        law_inflight_counts_each_partition_once(first, second.drop_last(), one);
        assert((first + second).drop_last() =~= first + second.drop_last());
        assert((first + second).last() == second.last());
    }
    reveal_with_fuel(inflight_count, 2);
    assert(seq![one].drop_last() =~= Seq::empty());
    assert(seq![one].last() == one);
}

/// A manifest that came is read as it is, and one that did not is not made up.
pub proof fn law_manifest_is_read_as_given(manifest: Vec<StateArtifact>)
    ensures
        manifest_view(Some(&manifest)) == Some(manifest@),
        manifest_view(None) is None,
{
}

} // verus!
