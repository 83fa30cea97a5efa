//! What a shard does after consensus handled a control frame: which actions a
//! failed persist withholds, when the commit walk runs, when a transfer or a
//! repair is armed, and how a parked view change is driven to completion.

use vstd::prelude::*;

use crate::control::{action_steps, select_actions, ReplicaContext, VsrAction};
use crate::repair::{MetadataRepairSession, PrepareRequest};
use crate::view_log::{
    covers, first_op_not_covered, is_first_uncovered, log_of, needs_op, view_is_serveable, window_view, HeaderWindow, MergedLog,
};
use crate::wire::PrepareHeader;

verus! {

/// Stage of a state transfer this replica receives.
#[derive(Debug, Clone, Copy, PartialEq, Eq, Structural)]
pub enum StateTransferStage {
    Idle,
    AwaitingTarget,
    Fetching,
    Installing,
}

/// What may be sent of a wire half.
pub open spec fn gated(wire: Seq<VsrAction>, persisted: bool) -> Seq<VsrAction> {
    if persisted {
        wire
    } else {
        Seq::empty()
    }
}

/// The wire half of an action list after the persist attempt: all of it, or
/// nothing.
pub fn gate_wire_actions(wire: Vec<VsrAction>, persisted: bool) -> (sendable: Vec<VsrAction>)
    ensures
        sendable@ == gated(wire@, persisted),
{
    if persisted {
        wire
    } else {
        Vec::new()
    }
}

/// With the wire half gated on the persist, a list dispatched as local
/// half first and gated wire half second never shows a peer a view that is not
/// durable, provided a successful persist leaves nothing to record.
pub proof fn law_gated_dispatch_is_durable_before_send(actions: Seq<VsrAction>, sendable: Seq<VsrAction>, persisted: bool)
    requires
        persisted ==> sendable == select_actions(actions, false),
        !persisted ==> sendable.len() == 0,
    ensures
        forall|i: int|
            #![trigger select_actions(actions, true)[i]]
            0 <= i < select_actions(actions, true).len() ==> !select_actions(actions, true)[i].advertises_view(),
        !persisted ==> forall|i: int|
            #![trigger sendable[i]]
            0 <= i < sendable.len() ==> !sendable[i].advertises_view(),
{
    crate::control::law_split_partitions_the_actions(actions);
}

/// The list asks for a commit walk.
pub open spec fn asks_commit_walk(actions: Seq<VsrAction>) -> bool {
    exists|i: int| #![trigger actions[i]] 0 <= i < actions.len() && actions[i] is CommitJournal
}

/// Whether a list asks for a commit walk.
pub fn has_commit_walk(actions: &Vec<VsrAction>) -> (res: bool)
    ensures
        res == asks_commit_walk(actions@),
{
    let mut i: usize = 0;
    while i < actions.len()
        invariant
            i <= actions@.len(),
            forall|j: int| #![trigger actions@[j]] 0 <= j < i ==> !(actions@[j] is CommitJournal),
        decreases actions@.len() - i,
    {
        if matches!(actions[i], VsrAction::CommitJournal) {
            return true;
        }
        i += 1;
    }
    false
}

/// The commit walk runs after a view-change message.
pub open spec fn walks(local: Seq<VsrAction>, transferring: bool) -> bool {
    asks_commit_walk(local) && !transferring
}

/// Whether the commit walk runs after a view-change message. It never runs
/// while a transfer is in flight: the state being installed already contains
/// those ops.
pub fn walks_after_view_change(local: &Vec<VsrAction>, transferring: bool) -> (walk: bool)
    ensures
        walk == walks(local@, transferring),
{
    has_commit_walk(local) && !transferring
}

/// What follows a start-view message.
#[derive(Debug, Clone, Copy, PartialEq, Eq, Structural)]
pub enum StartViewFollowup {
    /// Request a state transfer from the announcing replica.
    ArmTransfer,
    /// Leave the log alone: a transfer owns it, or the announcing replica is
    /// unknown.
    Hold,
    /// Run the commit walk if `walk`, then repair any gap from the announcing
    /// replica.
    WalkAndRepair { walk: bool },
}

/// What follows a start-view message of a replica that is known or not.
pub open spec fn after_start_view(
    adopted: bool,
    stage: StateTransferStage,
    transferring: bool,
    peer_known: bool,
    local: Seq<VsrAction>,
) -> StartViewFollowup {
    if adopted && stage is AwaitingTarget {
        if peer_known {
            StartViewFollowup::ArmTransfer
        } else {
            StartViewFollowup::Hold
        }
    } else if transferring {
        StartViewFollowup::Hold
    } else {
        StartViewFollowup::WalkAndRepair { walk: asks_commit_walk(local) }
    }
}

/// Decide what follows a start-view message for the metadata plane. `adopted`
/// is whether consensus emitted any action at all.
pub fn metadata_start_view_followup(
    adopted: bool,
    stage: StateTransferStage,
    transferring: bool,
    local: &Vec<VsrAction>,
) -> (followup: StartViewFollowup)
    ensures
        followup == after_start_view(adopted, stage, transferring, true, local@),
{
    if adopted && matches!(stage, StateTransferStage::AwaitingTarget) {
        return StartViewFollowup::ArmTransfer;
    }
    if transferring {
        return StartViewFollowup::Hold;
    }
    StartViewFollowup::WalkAndRepair { walk: has_commit_walk(local) }
}

/// [`metadata_start_view_followup`] for a partition: the announcing replica
/// becomes the transfer peer, so an id outside the cluster arms nothing.
pub fn partition_start_view_followup(
    adopted: bool,
    stage: StateTransferStage,
    transferring: bool,
    peer_known: bool,
    local: &Vec<VsrAction>,
) -> (followup: StartViewFollowup)
    ensures
        followup == after_start_view(adopted, stage, transferring, peer_known, local@),
{
    if adopted && matches!(stage, StateTransferStage::AwaitingTarget) {
        if peer_known {
            return StartViewFollowup::ArmTransfer;
        }
        return StartViewFollowup::Hold;
    }
    if transferring {
        return StartViewFollowup::Hold;
    }
    StartViewFollowup::WalkAndRepair { walk: has_commit_walk(local) }
}

/// Outcome of a commit heartbeat inside consensus.
#[derive(Debug, Clone, Copy, PartialEq, Eq, Structural)]
pub enum CommitOutcome {
    Advanced,
    RespondStartView,
    Accepted,
}

/// What follows a commit heartbeat.
#[derive(Debug, Clone, Copy, PartialEq, Eq, Structural)]
pub enum CommitFollowup {
    Nothing,
    /// Walk the journal, then repair any gap from the heartbeating replica.
    WalkAndRepair,
    /// Answer the stale view with a start-view once the view is durable.
    PersistThenStartView,
}

/// What follows a commit heartbeat with this outcome.
pub open spec fn after_commit(outcome: CommitOutcome, transferring: bool) -> CommitFollowup {
    match outcome {
        CommitOutcome::Advanced => if transferring {
            CommitFollowup::Nothing
        } else {
            CommitFollowup::WalkAndRepair
        },
        CommitOutcome::RespondStartView => CommitFollowup::PersistThenStartView,
        CommitOutcome::Accepted => CommitFollowup::Nothing,
    }
}

/// Decide what follows a commit heartbeat.
pub fn commit_followup(outcome: CommitOutcome, transferring: bool) -> (followup: CommitFollowup)
    ensures
        followup == after_commit(outcome, transferring),
{
    match outcome {
        CommitOutcome::Advanced => if transferring {
            CommitFollowup::Nothing
        } else {
            CommitFollowup::WalkAndRepair
        },
        CommitOutcome::RespondStartView => CommitFollowup::PersistThenStartView,
        CommitOutcome::Accepted => CommitFollowup::Nothing,
    }
}

/// A start-view of the settled frontier.
pub open spec fn is_settled_start_view(action: VsrAction, view: u32, sequence: u64, commit_max: u64, group: u64) -> bool {
    action matches VsrAction::SendStartView { view: v, op, commit, incarnation, target, group: g, suffix } && {
        &&& v == view
        &&& op == sequence
        &&& commit == commit_max
        &&& incarnation == 0
        &&& target is None
        &&& g == group
        &&& suffix@.len() == 0
    }
}

/// The start-view that answers a replica heartbeating an older view: the
/// settled frontier to every backup, echoing no incarnation and carrying no
/// suffix.
pub fn respond_start_view(view: u32, sequence: u64, commit_max: u64, group: u64) -> (action: VsrAction)
    ensures
        is_settled_start_view(action, view, sequence, commit_max, group),
{
    VsrAction::SendStartView {
        view,
        op: sequence,
        commit: commit_max,
        incarnation: 0,
        target: None,
        group,
        suffix: Vec::new(),
    }
}

/// Where a parked view change stands.
#[derive(Debug, Clone, Copy, PartialEq, Eq, Structural)]
pub enum PendingView {
    /// Nothing to drive: not the primary-elect, or no log is parked.
    Idle,
    /// The merged log is serveable; start the view.
    Start,
    /// The view waits for this op.
    Missing(u64),
}

/// Where a parked view change stands.
pub open spec fn is_pending_view(
    is_primary: bool,
    pending: Option<MergedLog>,
    repair_floor: u64,
    journal: Option<Map<u64, PrepareHeader>>,
    state: PendingView,
) -> bool {
    match (pending, journal) {
        (Some(log), Some(window)) => if !is_primary {
            state is Idle
        } else {
            &&& state is Start <==> view_is_serveable(log, repair_floor, window)
            &&& !(state is Idle)
            &&& state matches PendingView::Missing(op) ==> is_first_uncovered(log, repair_floor, window, op)
        },
        _ => state is Idle,
    }
}

/// Check a parked view change: only a primary-elect drives one, and it starts
/// as soon as every op the merged log names above `repair_floor` is covered.
pub fn check_pending_view(
    is_primary: bool,
    pending: Option<&MergedLog>,
    repair_floor: u64,
    journal: Option<&HeaderWindow>,
) -> (state: PendingView)
    requires
        repair_floor < u64::MAX,
    ensures
        is_pending_view(is_primary, log_of(pending), repair_floor, window_view(journal), state),
{
    if !is_primary {
        return PendingView::Idle;
    }
    match pending {
        Some(log) => match journal {
            Some(window) => match first_op_not_covered(log, repair_floor, window) {
                Some(op) => PendingView::Missing(op),
                None => PendingView::Start,
            },
            None => PendingView::Idle,
        },
        None => PendingView::Idle,
    }
}

/// A missing body was asked of the first replica that offers it.
pub open spec fn is_repaired_toward(
    before: Option<MetadataRepairSession>,
    after: Option<MetadataRepairSession>,
    missing_op: u64,
    op_head: u64,
    sources: Seq<u8>,
    nonce: u128,
    request: Option<PrepareRequest>,
) -> bool {
    &&& before is Some || sources.len() == 0 ==> after == before && request is None
    &&& before is None && sources.len() > 0 ==> {
        &&& after == Some(MetadataRepairSession { nonce, to_op: op_head, peer: sources[0], idle_ticks: 0 })
        &&& request == Some(PrepareRequest { target: sources[0], nonce, from_op: missing_op, to_op: op_head })
    }
}

/// Pull a missing body for a parked metadata view change from the first
/// replica that offered it. A running stream is left alone; with no offer left
/// the view-change timeout escalates.
pub fn repair_toward_merged_log(
    session: &mut Option<MetadataRepairSession>,
    missing_op: u64,
    op_head: u64,
    sources: &Vec<u8>,
    nonce: u128,
) -> (request: Option<PrepareRequest>)
    ensures
        is_repaired_toward(*old(session), *final(session), missing_op, op_head, sources@, nonce, request),
{
    if session.is_some() || sources.len() == 0 {
        return None;
    }
    let peer: u8 = sources[0];
    *session = Some(MetadataRepairSession { nonce, to_op: op_head, peer, idle_ticks: 0 });
    Some(PrepareRequest { target: peer, nonce, from_op: missing_op, to_op: op_head })
}

/// The fail-stop bound is set and reached.
pub open spec fn is_wedged(failures: u64, fatal_after: u64) -> bool {
    fatal_after != 0 && failures >= fatal_after
}

/// Whether consecutive superblock write failures crossed the fail-stop bound;
/// 0 disables it.
pub fn superblock_wedged(failures: u64, fatal_after: u64) -> (wedged: bool)
    ensures
        wedged == is_wedged(failures, fatal_after),
{
    fatal_after != 0 && failures >= fatal_after
}

/// Superblock persists issued at once: each is a create, a write and two
/// syncs, and a node-wide view change must not burst them all.
pub const PERSIST_FANOUT_MAX: usize = 16;

/// Bounds of one persist batch.
pub open spec fn persist_batch(pending: Seq<u64>, index: int) -> Seq<u64> {
    let start = index * PERSIST_FANOUT_MAX;
    pending.subrange(
        start,
        if start + PERSIST_FANOUT_MAX <= pending.len() {
            start + PERSIST_FANOUT_MAX
        } else {
            pending.len() as int
        },
    )
}

/// The batches, in order, cover what needs a persist.
pub open spec fn are_batches(pending: Seq<u64>, batches: Seq<Vec<u64>>) -> bool {
    &&& (batches.len() - 1) * PERSIST_FANOUT_MAX < pending.len() <= batches.len() * PERSIST_FANOUT_MAX
    &&& forall|i: int| #![trigger batches[i]] 0 <= i < batches.len() ==> batches[i]@ == persist_batch(pending, i)
}

/// Split the groups that need a persist into batches, in order.
pub fn persist_batches(pending: &Vec<u64>) -> (batches: Vec<Vec<u64>>)
    ensures
        are_batches(pending@, batches@),
{
    let mut batches: Vec<Vec<u64>> = Vec::new();
    let mut i: usize = 0;
    while i < pending.len()
        invariant
            i <= pending@.len(),
            i == batches@.len() * PERSIST_FANOUT_MAX || (i == pending@.len() && (batches@.len() - 1) * PERSIST_FANOUT_MAX
                < i <= batches@.len() * PERSIST_FANOUT_MAX),
            forall|k: int| #![trigger batches@[k]] 0 <= k < batches@.len() ==> batches@[k]@ == persist_batch(pending@, k),
        decreases pending@.len() - i,
    {
        let end: usize = if pending.len() - i > PERSIST_FANOUT_MAX {
            i + PERSIST_FANOUT_MAX
        } else {
            pending.len()
        };
        let mut batch: Vec<u64> = Vec::new();
        let mut j: usize = i;
        while j < end
            invariant
                i <= j <= end <= pending@.len(),
                batch@ == pending@.subrange(i as int, j as int),
            decreases end - j,
        {
            batch.push(pending[j]);
            j += 1;
            proof {
                assert(pending@.subrange(i as int, j as int) =~= pending@.subrange(i as int, j - 1).push(pending@[j - 1]));
            }
        }
        proof {
            assert(batch@ =~= persist_batch(pending@, batches@.len() as int));
        }
        batches.push(batch);
        i = end;
    }
    batches
}

/// Every group that needs a persist is in exactly the batch its position
/// falls in, and no batch exceeds the fan-out.
pub proof fn law_persist_batches_cover_every_group(pending: Seq<u64>, position: int)
    requires
        0 <= position < pending.len(),
    ensures
        ({
            let index = position / PERSIST_FANOUT_MAX as int;
            let within = position % PERSIST_FANOUT_MAX as int;
            &&& within < persist_batch(pending, index).len() <= PERSIST_FANOUT_MAX
            &&& persist_batch(pending, index)[within] == pending[position]
        }),
{
}

/// The wire half goes out whole after a persist that succeeded and not at all
/// after one that failed.
pub proof fn law_failed_persist_withholds_every_send(wire: Seq<VsrAction>, persisted: bool, index: int)
    requires
        0 <= index < wire.len(),
    ensures
        persisted ==> gated(wire, persisted).len() == wire.len() && gated(wire, persisted)[index] == wire[index],
        !persisted ==> !gated(wire, persisted).contains(wire[index]) && gated(wire, persisted).len() == 0,
{
}

/// A list that asks for the commit walk gets it, unless a transfer owns the
/// log; one that does not never walks.
pub proof fn law_walk_runs_where_it_is_asked_for(local: Seq<VsrAction>, transferring: bool, index: int)
    requires
        0 <= index < local.len(),
    ensures
        local[index] is CommitJournal ==> (walks(local, transferring) <==> !transferring),
        walks(local, transferring) ==> !transferring && exists|i: int|
            #![trigger local[i]]
            0 <= i < local.len() && local[i] is CommitJournal,
{
    let _ = local[index];
}

/// A replica that awaits a transfer and adopted the view arms it against an
/// announcing replica it knows; one that is transferring holds still; any other
/// repairs its log, after the commit walk where that is asked for. The metadata
/// plane knows every announcing replica.
pub proof fn law_start_view_is_followed_up(
    adopted: bool,
    stage: StateTransferStage,
    transferring: bool,
    peer_known: bool,
    local: Seq<VsrAction>,
)
    ensures
        ({
            let followup = after_start_view(adopted, stage, transferring, peer_known, local);
            let awaits = adopted && stage is AwaitingTarget;
            &&& followup is ArmTransfer <==> awaits && peer_known
            &&& followup is Hold <==> awaits && !peer_known || !awaits && transferring
            &&& followup is WalkAndRepair <==> !awaits && !transferring
            &&& followup is WalkAndRepair ==> (followup->walk <==> exists|i: int|
                #![trigger local[i]]
                0 <= i < local.len() && local[i] is CommitJournal)
        }),
{
}

/// An advanced commit point is walked and repaired, unless a transfer owns the
/// log; a stale view is answered with a start-view behind a persist; an
/// accepted heartbeat asks for nothing.
pub proof fn law_heartbeat_is_followed_up(outcome: CommitOutcome, transferring: bool)
    ensures
        after_commit(outcome, transferring) is WalkAndRepair <==> outcome is Advanced && !transferring,
        after_commit(outcome, transferring) is PersistThenStartView <==> outcome is RespondStartView,
        after_commit(outcome, transferring) is Nothing <==> outcome is Accepted || outcome is Advanced && transferring,
{
}

/// The answer to a stale view is one start-view frame that carries the settled
/// frontier, to every other replica and without a suffix.
pub proof fn law_stale_view_is_answered_with_the_frontier(
    ctx: ReplicaContext,
    journal: Option<Map<u64, PrepareHeader>>,
    action: VsrAction,
    view: u32,
    sequence: u64,
    commit_max: u64,
    group: u64,
)
    requires
        is_settled_start_view(action, view, sequence, commit_max, group),
    ensures
        ({
            let steps = action_steps(ctx, journal, action);
            &&& steps.len() == 1 && steps[0] is Send && steps[0]->frame is StartView
            &&& steps[0]->frame->StartView_view == view
            &&& steps[0]->frame->StartView_op == sequence
            &&& steps[0]->frame->StartView_commit == commit_max
            &&& steps[0]->frame->StartView_group == group
            &&& steps[0]->frame->StartView_incarnation == 0
            &&& steps[0]->body.len() == 0
            &&& crate::control::is_broadcast(ctx, steps[0]->Send_targets)
        }),
        action.advertises_view(),
{
    crate::control::law_frame_carries_its_action(ctx, journal, action);
}

/// Only a primary-elect with a parked log and a journal drives a view change.
/// It starts the view exactly where the journal covers everything the log names
/// above the floor, and else waits for an op that it misses, the lowest one.
pub proof fn law_parked_view_starts_once_covered(
    is_primary: bool,
    pending: Option<MergedLog>,
    repair_floor: u64,
    journal: Option<Map<u64, PrepareHeader>>,
    state: PendingView,
    op: u64,
)
    requires
        repair_floor < u64::MAX,
        is_pending_view(is_primary, pending, repair_floor, journal, state),
    ensures
        state is Idle <==> !is_primary || pending is None || journal is None,
        state is Start && needs_op(pending->0, repair_floor, op) ==> covers(pending->0, journal->0, op),
        state is Missing ==> {
            let missing = state->Missing_0;
            &&& needs_op(pending->0, repair_floor, missing) && !covers(pending->0, journal->0, missing)
            &&& needs_op(pending->0, repair_floor, op) && op < missing ==> covers(pending->0, journal->0, op)
        },
{
    if state is Start {
        crate::view_log::law_serveable_view_misses_nothing(pending->0, repair_floor, journal->0, op);
    }
}

/// A missing body is pulled from the first replica that offers it, from the
/// missing op up to the head, and the session remembers that; a stream that
/// runs is left alone, and without an offer nothing is asked.
pub proof fn law_missing_body_is_pulled_from_an_offerer(
    before: Option<MetadataRepairSession>,
    after: Option<MetadataRepairSession>,
    missing_op: u64,
    op_head: u64,
    sources: Seq<u8>,
    nonce: u128,
    request: Option<PrepareRequest>,
)
    requires
        is_repaired_toward(before, after, missing_op, op_head, sources, nonce, request),
    ensures
        request is Some <==> before is None && sources.len() > 0,
        request is None ==> after == before,
        request is Some ==> {
            &&& request->0.target == sources[0] && request->0.nonce == nonce
            &&& request->0.from_op == missing_op && request->0.to_op == op_head
            &&& after is Some && after->0.peer == sources[0] && after->0.nonce == nonce && after->0.to_op == op_head
            &&& after->0.idle_ticks == 0
        },
{
}

/// A bound of zero never stops the node; any other does with the failure that
/// reaches it and every one after.
pub proof fn law_wedge_is_reached_at_its_bound(failures: u64, fatal_after: u64)
    ensures
        !is_wedged(failures, 0),
        fatal_after > 0 ==> is_wedged(fatal_after, fatal_after),
        fatal_after > 0 && failures < fatal_after ==> !is_wedged(failures, fatal_after),
        is_wedged(failures, fatal_after) && failures < u64::MAX ==> is_wedged((failures + 1) as u64, fatal_after),
{
}

/// No group is left out of the batches and none is persisted twice: the one at
/// a position is in the batch that position falls in, at its place, and no
/// batch is empty or past the fan-out.
pub proof fn law_every_group_is_in_one_batch(pending: Seq<u64>, batches: Seq<Vec<u64>>, position: int, batch: int)
    requires
        are_batches(pending, batches),
        0 <= position < pending.len(),
        0 <= batch < batches.len(),
    ensures
        ({
            let index = position / PERSIST_FANOUT_MAX as int;
            let within = position % PERSIST_FANOUT_MAX as int;
            &&& 0 <= index < batches.len()
            &&& within < batches[index]@.len()
            &&& batches[index]@[within] == pending[position]
        }),
        1 <= batches[batch]@.len() <= PERSIST_FANOUT_MAX,
        batch < batches.len() - 1 ==> batches[batch]@.len() == PERSIST_FANOUT_MAX,
{
    law_persist_batches_cover_every_group(pending, position);
    let index = position / PERSIST_FANOUT_MAX as int;
    let _ = (batches[index], batches[batch]);
}

} // verus!
