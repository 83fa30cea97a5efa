//! View-change control traffic: which actions run locally and which go on the
//! wire, the frames each action turns into, and the body check on arrival.

use vstd::prelude::*;
use vstd::slice::slice_subrange;

use crate::view_log::{window_view, DvcSuffix, HeaderWindow};
use crate::wire::{copy_headers, Operation, PrepareHeader};

verus! {

/// What a consensus handler asks its caller to do.
#[allow(inconsistent_fields)]
pub enum VsrAction {
    SendStartViewChange { view: u32, group: u64 },
    SendDoViewChange {
        view: u32,
        target: u8,
        log_view: u32,
        op: u64,
        commit: u64,
        group: u64,
        suffix: DvcSuffix,
    },
    SendRequestStartView { view: u32, group: u64 },
    SendStartView {
        view: u32,
        op: u64,
        commit: u64,
        incarnation: u128,
        target: Option<u8>,
        group: u64,
        suffix: Vec<PrepareHeader>,
    },
    SendPrepareOk { view: u32, from_op: u64, to_op: u64, target: u8, group: u64 },
    RetransmitPrepares { targets: Vec<RetransmitTarget> },
    RebuildPipeline { from_op: u64, to_op: u64 },
    CommitJournal,
    SendCommit { view: u32, commit: u64, group: u64, timestamp_monotonic: u64 },
}

/// One prepare to resend and the replicas that still owe its acknowledgement.
pub struct RetransmitTarget {
    pub header: PrepareHeader,
    pub replicas: Vec<u8>,
}

impl VsrAction {
    /// Actions that change only this replica's own state.
    pub open spec fn is_local(self) -> bool {
        self is RebuildPipeline || self is CommitJournal
    }

    /// Actions whose frame tells a peer which view this replica is in.
    pub open spec fn advertises_view(self) -> bool {
        self is SendStartViewChange || self is SendDoViewChange || self is SendStartView || self is SendPrepareOk
            || self is SendCommit
    }

    fn runs_locally(&self) -> (res: bool)
        ensures
            res == self.is_local(),
    {
        matches!(self, VsrAction::RebuildPipeline { .. } | VsrAction::CommitJournal)
    }
}

/// The elements of `actions` that are local (`local`) or not, in order.
pub open spec fn select_actions(actions: Seq<VsrAction>, local: bool) -> Seq<VsrAction>
    decreases actions.len(),
{
    if actions.len() == 0 {
        Seq::empty()
    } else {
        let earlier = select_actions(actions.drop_last(), local);
        if actions.last().is_local() == local {
            earlier.push(actions.last())
        } else {
            earlier
        }
    }
}

/// Split a handler's action list into `(local, wire)`, each in the order
/// given. A failed superblock persist fences only the wire sends.
pub fn split_local_actions(actions: Vec<VsrAction>) -> (split: (Vec<VsrAction>, Vec<VsrAction>))
    ensures
        split.0@ == select_actions(actions@, true),
        split.1@ == select_actions(actions@, false),
{
    let ghost all = actions@;
    let mut remaining: Vec<VsrAction> = actions;
    let mut local_reversed: Vec<VsrAction> = Vec::new();
    let mut wire_reversed: Vec<VsrAction> = Vec::new();
    while remaining.len() > 0
        invariant
            remaining@.len() <= all.len(),
            remaining@ == all.take(remaining@.len() as int),
            select_actions(all, true) == select_actions(remaining@, true) + local_reversed@.reverse(),
            select_actions(all, false) == select_actions(remaining@, false) + wire_reversed@.reverse(),
        decreases remaining@.len(),
    {
        let ghost before = remaining@;
        let ghost local_before = local_reversed@;
        let ghost wire_before = wire_reversed@;
        match remaining.pop() {
            Some(action) => {
                proof {
                    assert(remaining@ == before.drop_last());
                    assert(remaining@ =~= all.take(remaining@.len() as int));
                }
                if action.runs_locally() {
                    local_reversed.push(action);
                    proof {
                        assert(local_reversed@.reverse() =~= seq![action] + local_before.reverse());
                        assert(select_actions(all, true) =~= select_actions(remaining@, true) + local_reversed@.reverse());
                    }
                } else {
                    wire_reversed.push(action);
                    proof {
                        assert(wire_reversed@.reverse() =~= seq![action] + wire_before.reverse());
                        assert(select_actions(all, false) =~= select_actions(remaining@, false) + wire_reversed@.reverse());
                    }
                }
            },
            None => {},
        }
    }
    let local: Vec<VsrAction> = reversed(local_reversed);
    let wire: Vec<VsrAction> = reversed(wire_reversed);
    proof {
        assert(remaining@ =~= Seq::<VsrAction>::empty());
        assert(select_actions(remaining@, true) =~= Seq::<VsrAction>::empty());
        assert(select_actions(all, true) =~= local@);
        assert(select_actions(all, false) =~= wire@);
    }
    (local, wire)
}

fn reversed(actions: Vec<VsrAction>) -> (out: Vec<VsrAction>)
    ensures
        out@ == actions@.reverse(),
{
    let ghost all = actions@;
    let mut remaining: Vec<VsrAction> = actions;
    let mut out: Vec<VsrAction> = Vec::new();
    while remaining.len() > 0
        invariant
            remaining@.len() + out@.len() == all.len(),
            remaining@ == all.take(remaining@.len() as int),
            forall|i: int| #![trigger out@[i]] 0 <= i < out@.len() ==> out@[i] == all[all.len() - 1 - i],
        decreases remaining@.len(),
    {
        match remaining.pop() {
            Some(action) => {
                out.push(action);
            },
            None => {},
        }
    }
    proof {
        assert(out@ =~= all.reverse());
    }
    out
}

/// The split loses nothing, duplicates nothing and keeps each half pure.
pub proof fn law_split_partitions_the_actions(actions: Seq<VsrAction>)
    ensures
        select_actions(actions, true).len() + select_actions(actions, false).len() == actions.len(),
        select_actions(actions, true).to_multiset().add(select_actions(actions, false).to_multiset())
            == actions.to_multiset(),
        forall|i: int|
            #![trigger select_actions(actions, true)[i]]
            0 <= i < select_actions(actions, true).len() ==> select_actions(actions, true)[i].is_local(),
        forall|i: int|
            #![trigger select_actions(actions, false)[i]]
            0 <= i < select_actions(actions, false).len() ==> !select_actions(actions, false)[i].is_local(),
    decreases actions.len(),
{
    broadcast use vstd::seq_lib::group_to_multiset_ensures;

    if actions.len() > 0 {
        law_split_partitions_the_actions(actions.drop_last());
        assert(actions =~= actions.drop_last().push(actions.last()));
        let local = select_actions(actions.drop_last(), true);
        let wire = select_actions(actions.drop_last(), false);
        if actions.last().is_local() {
            assert(local.push(actions.last()).to_multiset().add(wire.to_multiset()) =~= actions.to_multiset());
        } else {
            assert(local.to_multiset().add(wire.push(actions.last()).to_multiset()) =~= actions.to_multiset());
        }
    } else {
        assert(select_actions(actions, true).to_multiset().add(select_actions(actions, false).to_multiset())
            =~= actions.to_multiset());
    }
}

/// A local action never advertises a view, so running the local half
/// before the persist can never show a peer a view that is not durable.
pub proof fn law_local_half_advertises_no_view(actions: Seq<VsrAction>, index: int)
    requires
        0 <= index < select_actions(actions, true).len(),
    ensures
        !select_actions(actions, true)[index].advertises_view(),
{
    law_split_partitions_the_actions(actions);
}

/// The replica-level values every frame is stamped with.
#[derive(Debug, Clone, Copy)]
pub struct ReplicaContext {
    pub cluster: u128,
    pub self_id: u8,
    pub replica_count: u8,
    pub view: u32,
    pub commit_max: u64,
    pub incarnation: u128,
    /// The in-memory view is ahead of the recorded one.
    pub needs_superblock_persist: bool,
}

/// Header of a control frame, before it is sized and sealed.
#[derive(Debug, Clone, Copy, PartialEq, Eq, Structural)]
pub enum ControlFrame {
    StartViewChange { cluster: u128, replica: u8, view: u32, group: u64 },
    DoViewChange {
        cluster: u128,
        replica: u8,
        view: u32,
        log_view: u32,
        op: u64,
        commit: u64,
        group: u64,
        nack_bitset: u128,
        present_bitset: u128,
    },
    RequestStartView { cluster: u128, replica: u8, view: u32, incarnation: u128, group: u64 },
    StartView {
        cluster: u128,
        replica: u8,
        view: u32,
        op: u64,
        commit: u64,
        incarnation: u128,
        group: u64,
    },
    PrepareOk {
        cluster: u128,
        replica: u8,
        view: u32,
        op: u64,
        commit: u64,
        timestamp: u64,
        parent: u128,
        prepare_checksum: u128,
        request: u64,
        operation: Operation,
        group: u64,
    },
    Commit {
        cluster: u128,
        replica: u8,
        view: u32,
        commit: u64,
        group: u64,
        timestamp_monotonic: u64,
    },
}

/// One unit of dispatch work.
pub enum DispatchStep {
    /// Send `frame`, with `body` as its header list, to each target in order.
    Send { targets: Vec<u8>, frame: ControlFrame, body: Vec<PrepareHeader> },
    /// Resend the stored prepare of `header`, restamped to `view`.
    Retransmit { header: PrepareHeader, targets: Vec<u8>, view: u32 },
    /// Rebuild the pipeline over `from_op..=to_op` from the journal.
    Rebuild { from_op: u64, to_op: u64 },
}

/// A dispatch step as a value.
pub enum StepView {
    Send { targets: Seq<u8>, frame: ControlFrame, body: Seq<PrepareHeader> },
    Retransmit { header: PrepareHeader, targets: Seq<u8>, view: u32 },
    Rebuild { from_op: u64, to_op: u64 },
}

impl View for DispatchStep {
    type V = StepView;

    open spec fn view(&self) -> StepView {
        match *self {
            DispatchStep::Send { targets, frame, body } => StepView::Send { targets: targets@, frame, body: body@ },
            DispatchStep::Retransmit { header, targets, view } => StepView::Retransmit {
                header,
                targets: targets@,
                view,
            },
            DispatchStep::Rebuild { from_op, to_op } => StepView::Rebuild { from_op, to_op },
        }
    }
}

pub open spec fn step_views(steps: Seq<DispatchStep>) -> Seq<StepView> {
    Seq::new(steps.len(), |i: int| steps[i]@)
}

/// Every replica below `count` but `self_id`, ascending.
pub open spec fn peers(self_id: u8, count: int) -> Seq<u8>
    decreases count,
{
    if count <= 0 {
        Seq::empty()
    } else if count - 1 == self_id {
        peers(self_id, count - 1)
    } else {
        peers(self_id, count - 1).push((count - 1) as u8)
    }
}

/// Acknowledgements for the first `count` ops from `from_op`: one per op whose
/// header the journal holds.
pub open spec fn prepare_oks(
    ctx: ReplicaContext,
    view: u32,
    target: u8,
    group: u64,
    journal: Map<u64, PrepareHeader>,
    from_op: u64,
    count: int,
) -> Seq<StepView>
    decreases count,
{
    if count <= 0 {
        Seq::empty()
    } else {
        let earlier = prepare_oks(ctx, view, target, group, journal, from_op, count - 1);
        let op = (from_op + count - 1) as u64;
        if journal.contains_key(op) {
            earlier.push(
                StepView::Send {
                    targets: seq![target],
                    frame: prepare_ok_frame(ctx, view, group, op, journal[op]),
                    body: Seq::empty(),
                },
            )
        } else {
            earlier
        }
    }
}

pub open spec fn prepare_ok_frame(ctx: ReplicaContext, view: u32, group: u64, op: u64, header: PrepareHeader) -> ControlFrame {
    ControlFrame::PrepareOk {
        cluster: ctx.cluster,
        replica: ctx.self_id,
        view,
        op,
        commit: ctx.commit_max,
        timestamp: header.timestamp,
        parent: header.parent,
        prepare_checksum: header.checksum,
        request: header.request,
        operation: header.operation,
        group,
    }
}

pub open spec fn retransmits(ctx: ReplicaContext, targets: Seq<RetransmitTarget>) -> Seq<StepView> {
    Seq::new(
        targets.len(),
        |i: int| StepView::Retransmit { header: targets[i].header, targets: targets[i].replicas@, view: ctx.view },
    )
}

/// The steps that read a journal: acknowledgements, resends and the pipeline
/// rebuild.
pub open spec fn journal_steps(ctx: ReplicaContext, journal: Map<u64, PrepareHeader>, action: VsrAction) -> Seq<StepView> {
    match action {
        VsrAction::SendPrepareOk { view, from_op, to_op, target, group } => prepare_oks(
            ctx,
            view,
            target,
            group,
            journal,
            from_op,
            if from_op <= to_op {
                to_op - from_op + 1
            } else {
                0
            },
        ),
        VsrAction::RetransmitPrepares { targets } => retransmits(ctx, targets@),
        VsrAction::RebuildPipeline { from_op, to_op } => seq![StepView::Rebuild { from_op, to_op }],
        _ => Seq::empty(),
    }
}

/// The steps one action turns into. Without a journal the journal-reading
/// actions turn into nothing.
pub open spec fn action_steps(
    ctx: ReplicaContext,
    journal: Option<Map<u64, PrepareHeader>>,
    action: VsrAction,
) -> Seq<StepView> {
    let everyone = peers(ctx.self_id, ctx.replica_count as int);
    match action {
        VsrAction::SendStartViewChange { view, group } => seq![
            StepView::Send {
                targets: everyone,
                frame: ControlFrame::StartViewChange { cluster: ctx.cluster, replica: ctx.self_id, view, group },
                body: Seq::empty(),
            },
        ],
        VsrAction::SendDoViewChange { view, target, log_view, op, commit, group, suffix } => seq![
            StepView::Send {
                targets: everyone,
                frame: ControlFrame::DoViewChange {
                    cluster: ctx.cluster,
                    replica: ctx.self_id,
                    view,
                    log_view,
                    op,
                    commit,
                    group,
                    nack_bitset: suffix.nack_bitset,
                    present_bitset: suffix.present_bitset,
                },
                body: suffix.headers@,
            },
        ],
        VsrAction::SendRequestStartView { view, group } => seq![
            StepView::Send {
                targets: everyone,
                frame: ControlFrame::RequestStartView {
                    cluster: ctx.cluster,
                    replica: ctx.self_id,
                    view,
                    incarnation: ctx.incarnation,
                    group,
                },
                body: Seq::empty(),
            },
        ],
        VsrAction::SendStartView { view, op, commit, incarnation, target, group, suffix } => seq![
            StepView::Send {
                targets: match target {
                    Some(replica) => seq![replica],
                    None => everyone,
                },
                frame: ControlFrame::StartView {
                    cluster: ctx.cluster,
                    replica: ctx.self_id,
                    view,
                    op,
                    commit,
                    incarnation,
                    group,
                },
                body: suffix@,
            },
        ],
        VsrAction::SendCommit { view, commit, group, timestamp_monotonic } => seq![
            StepView::Send {
                targets: everyone,
                frame: ControlFrame::Commit {
                    cluster: ctx.cluster,
                    replica: ctx.self_id,
                    view,
                    commit,
                    group,
                    timestamp_monotonic,
                },
                body: Seq::empty(),
            },
        ],
        VsrAction::CommitJournal => Seq::empty(),
        _ => match journal {
            Some(headers) => journal_steps(ctx, headers, action),
            None => Seq::empty(),
        },
    }
}

/// The steps of an action list, in order.
pub open spec fn dispatch_plan(
    ctx: ReplicaContext,
    journal: Option<Map<u64, PrepareHeader>>,
    actions: Seq<VsrAction>,
) -> Seq<StepView>
    decreases actions.len(),
{
    if actions.len() == 0 {
        Seq::empty()
    } else {
        dispatch_plan(ctx, journal, actions.drop_last()) + action_steps(ctx, journal, actions.last())
    }
}

/// The steps of an action list that the journal's owner runs, in order.
pub open spec fn journal_plan(ctx: ReplicaContext, journal: Map<u64, PrepareHeader>, actions: Seq<VsrAction>) -> Seq<StepView>
    decreases actions.len(),
{
    if actions.len() == 0 {
        Seq::empty()
    } else {
        journal_plan(ctx, journal, actions.drop_last()) + journal_steps(ctx, journal, actions.last())
    }
}

proof fn lemma_step_pushed(before: Seq<DispatchStep>, step: DispatchStep)
    ensures
        step_views(before.push(step)) == step_views(before).push(step@),
{
    assert(step_views(before.push(step)) =~= step_views(before).push(step@));
}

fn broadcast_targets(self_id: u8, replica_count: u8) -> (targets: Vec<u8>)
    ensures
        targets@ == peers(self_id, replica_count as int),
{
    let mut targets: Vec<u8> = Vec::new();
    let mut replica: u8 = 0;
    while replica < replica_count
        invariant
            replica <= replica_count,
            targets@ == peers(self_id, replica as int),
        decreases replica_count - replica,
    {
        if replica != self_id {
            targets.push(replica);
        }
        replica += 1;
    }
    targets
}

fn copy_targets(replicas: &Vec<u8>) -> (out: Vec<u8>)
    ensures
        out@ == replicas@,
{
    let mut out: Vec<u8> = Vec::new();
    let mut i: usize = 0;
    while i < replicas.len()
        invariant
            i <= replicas@.len(),
            out@ == replicas@.take(i as int),
        decreases replicas@.len() - i,
    {
        out.push(replicas[i]);
        proof {
            assert(replicas@.take(i + 1) =~= replicas@.take(i as int).push(replicas@[i as int]));
        }
        i += 1;
    }
    proof {
        assert(replicas@.take(replicas@.len() as int) =~= replicas@);
    }
    out
}

fn push_prepare_oks(
    out: &mut Vec<DispatchStep>,
    ctx: &ReplicaContext,
    journal: &HeaderWindow,
    view: u32,
    from_op: u64,
    to_op: u64,
    target: u8,
    group: u64,
)
    requires
        from_op <= to_op,
    ensures
        step_views(final(out)@) == step_views(old(out)@) + prepare_oks(
            *ctx,
            view,
            target,
            group,
            journal@,
            from_op,
            to_op - from_op + 1,
        ),
{
    let ghost start = step_views(out@);
    let mut op: u64 = from_op;
    proof {
        assert(step_views(out@) =~= start + prepare_oks(*ctx, view, target, group, journal@, from_op, 0));
    }
    loop
        invariant_except_break
            from_op <= op <= to_op,
            step_views(out@) == start + prepare_oks(*ctx, view, target, group, journal@, from_op, op - from_op),
        ensures
            step_views(out@) == start + prepare_oks(
                *ctx,
                view,
                target,
                group,
                journal@,
                from_op,
                to_op - from_op + 1,
            ),
        decreases to_op - op,
    {
        let ghost before = out@;
        let ghost count = op - from_op + 1;
        proof {
            assert((from_op + count - 1) as u64 == op);
        }
        if let Some(header) = journal.header(op) {
            let step: DispatchStep = DispatchStep::Send {
                targets: vec![target],
                frame: ControlFrame::PrepareOk {
                    cluster: ctx.cluster,
                    replica: ctx.self_id,
                    view,
                    op,
                    commit: ctx.commit_max,
                    timestamp: header.timestamp,
                    parent: header.parent,
                    prepare_checksum: header.checksum,
                    request: header.request,
                    operation: header.operation,
                    group,
                },
                body: Vec::new(),
            };
            proof {
                lemma_step_pushed(before, step);
                assert(step@->Send_targets =~= seq![target]);
                assert(step@->Send_body =~= Seq::<PrepareHeader>::empty());
                assert(journal@.contains_key(op));
                assert(step@ == StepView::Send {
                    targets: seq![target],
                    frame: prepare_ok_frame(*ctx, view, group, op, journal@[op]),
                    body: Seq::empty(),
                });
            }
            out.push(step);
        }
        proof {
            assert(step_views(out@) =~= start + prepare_oks(*ctx, view, target, group, journal@, from_op, count));
        }
        if op == to_op {
            break;
        }
        op += 1;
    }
}

fn push_journal_steps(out: &mut Vec<DispatchStep>, ctx: &ReplicaContext, journal: &HeaderWindow, action: &VsrAction)
    ensures
        step_views(final(out)@) == step_views(old(out)@) + journal_steps(*ctx, journal@, *action),
{
    let ghost start = step_views(out@);
    proof {
        assert(start + Seq::<StepView>::empty() =~= start);
    }
    match action {
        VsrAction::SendPrepareOk { view, from_op, to_op, target, group } => {
            if *from_op <= *to_op {
                push_prepare_oks(out, ctx, journal, *view, *from_op, *to_op, *target, *group);
            }
        },
        VsrAction::RetransmitPrepares { targets } => {
            let mut i: usize = 0;
            while i < targets.len()
                invariant
                    i <= targets@.len(),
                    step_views(out@) == start + retransmits(*ctx, targets@).take(i as int),
                decreases targets@.len() - i,
            {
                let ghost before = out@;
                let step: DispatchStep = DispatchStep::Retransmit {
                    header: targets[i].header,
                    targets: copy_targets(&targets[i].replicas),
                    view: ctx.view,
                };
                proof {
                    lemma_step_pushed(before, step);
                    assert(step@ == retransmits(*ctx, targets@)[i as int]);
                    assert(retransmits(*ctx, targets@).take(i + 1) =~= retransmits(*ctx, targets@).take(i as int).push(step@));
                }
                out.push(step);
                proof {
                    assert(step_views(out@) =~= start + retransmits(*ctx, targets@).take(i + 1));
                }
                i += 1;
            }
            proof {
                assert(retransmits(*ctx, targets@).take(targets@.len() as int) =~= retransmits(*ctx, targets@));
            }
        },
        VsrAction::RebuildPipeline { from_op, to_op } => {
            let ghost before = out@;
            let step: DispatchStep = DispatchStep::Rebuild { from_op: *from_op, to_op: *to_op };
            proof {
                lemma_step_pushed(before, step);
            }
            out.push(step);
            proof {
                assert(step_views(out@) =~= start + seq![StepView::Rebuild { from_op: *from_op, to_op: *to_op }]);
            }
        },
        _ => {},
    }
}

fn push_frame(out: &mut Vec<DispatchStep>, targets: Vec<u8>, frame: ControlFrame, body: Vec<PrepareHeader>)
    ensures
        step_views(final(out)@) == step_views(old(out)@) + seq![
            StepView::Send { targets: targets@, frame, body: body@ },
        ],
{
    let ghost before = out@;
    let step: DispatchStep = DispatchStep::Send { targets, frame, body };
    proof {
        lemma_step_pushed(before, step);
    }
    out.push(step);
    proof {
        assert(step_views(out@) =~= step_views(before) + seq![step@]);
    }
}

fn push_action_steps(
    out: &mut Vec<DispatchStep>,
    ctx: &ReplicaContext,
    journal: Option<&HeaderWindow>,
    action: &VsrAction,
)
    ensures
        step_views(final(out)@) == step_views(old(out)@) + action_steps(*ctx, window_view(journal), *action),
{
    let cluster: u128 = ctx.cluster;
    let replica: u8 = ctx.self_id;
    let ghost start = step_views(out@);
    proof {
        assert(start + Seq::<StepView>::empty() =~= start);
    }
    match action {
        VsrAction::SendStartViewChange { view, group } => push_frame(
            out,
            broadcast_targets(replica, ctx.replica_count),
            ControlFrame::StartViewChange { cluster, replica, view: *view, group: *group },
            Vec::new(),
        ),
        VsrAction::SendDoViewChange { view, target: _, log_view, op, commit, group, suffix } => push_frame(
            out,
            broadcast_targets(replica, ctx.replica_count),
            ControlFrame::DoViewChange {
                cluster,
                replica,
                view: *view,
                log_view: *log_view,
                op: *op,
                commit: *commit,
                group: *group,
                nack_bitset: suffix.nack_bitset,
                present_bitset: suffix.present_bitset,
            },
            copy_headers(&suffix.headers),
        ),
        VsrAction::SendRequestStartView { view, group } => push_frame(
            out,
            broadcast_targets(replica, ctx.replica_count),
            ControlFrame::RequestStartView {
                cluster,
                replica,
                view: *view,
                incarnation: ctx.incarnation,
                group: *group,
            },
            Vec::new(),
        ),
        VsrAction::SendStartView { view, op, commit, incarnation, target, group, suffix } => {
            let targets: Vec<u8> = match target {
                Some(requester) => vec![*requester],
                None => broadcast_targets(replica, ctx.replica_count),
            };
            proof {
                if target is Some {
                    assert(targets@ =~= seq![target->0]);
                }
            }
            push_frame(
                out,
                targets,
                ControlFrame::StartView {
                    cluster,
                    replica,
                    view: *view,
                    op: *op,
                    commit: *commit,
                    incarnation: *incarnation,
                    group: *group,
                },
                copy_headers(suffix),
            );
        },
        VsrAction::SendCommit { view, commit, group, timestamp_monotonic } => push_frame(
            out,
            broadcast_targets(replica, ctx.replica_count),
            ControlFrame::Commit {
                cluster,
                replica,
                view: *view,
                commit: *commit,
                group: *group,
                timestamp_monotonic: *timestamp_monotonic,
            },
            Vec::new(),
        ),
        VsrAction::CommitJournal => {},
        _ => match journal {
            Some(window) => push_journal_steps(out, ctx, window, action),
            None => {},
        },
    }
}

/// No action of the list shows a peer a view that the superblock has not
/// recorded.
pub open spec fn durable_before_send(ctx: ReplicaContext, actions: Seq<VsrAction>) -> bool {
    ctx.needs_superblock_persist ==> forall|i: int|
        #![trigger actions[i]]
        0 <= i < actions.len() ==> !actions[i].advertises_view()
}

/// Whether sending the list would show a peer a view that the superblock has
/// not recorded.
pub fn outruns_superblock(ctx: &ReplicaContext, actions: &Vec<VsrAction>) -> (outruns: bool)
    ensures
        outruns == !durable_before_send(*ctx, actions@),
{
    if !ctx.needs_superblock_persist {
        return false;
    }
    let mut i: usize = 0;
    while i < actions.len()
        invariant
            i <= actions@.len(),
            ctx.needs_superblock_persist,
            forall|j: int| #![trigger actions@[j]] 0 <= j < i ==> !actions@[j].advertises_view(),
        decreases actions@.len() - i,
    {
        let advertises: bool = match &actions[i] {
            VsrAction::SendStartViewChange { .. } => true,
            VsrAction::SendDoViewChange { .. } => true,
            VsrAction::SendStartView { .. } => true,
            VsrAction::SendPrepareOk { .. } => true,
            VsrAction::SendCommit { .. } => true,
            _ => false,
        };
        if advertises {
            proof {
                assert(actions@[i as int].advertises_view());
            }
            return true;
        }
        i += 1;
    }
    false
}

/// Turn a list of actions into the frames and journal work they stand for.
///
/// `journal` is the metadata journal; a partition's journal lives with the
/// partition, so its actions go through here with `None` and through
/// [`dispatch_partition_journal_actions`] for the rest.
pub fn dispatch_vsr_actions(
    ctx: &ReplicaContext,
    journal: Option<&HeaderWindow>,
    actions: &Vec<VsrAction>,
) -> (steps: Vec<DispatchStep>)
    requires
        durable_before_send(*ctx, actions@),
    ensures
        step_views(steps@) == dispatch_plan(*ctx, window_view(journal), actions@),
{
    let mut out: Vec<DispatchStep> = Vec::new();
    let mut i: usize = 0;
    proof {
        assert(step_views(out@) =~= Seq::<StepView>::empty());
    }
    while i < actions.len()
        invariant
            i <= actions@.len(),
            step_views(out@) == dispatch_plan(*ctx, window_view(journal), actions@.take(i as int)),
        decreases actions@.len() - i,
    {
        push_action_steps(&mut out, ctx, journal, &actions[i]);
        proof {
            assert(actions@.take(i + 1).drop_last() =~= actions@.take(i as int));
        }
        i += 1;
    }
    proof {
        assert(actions@.take(actions@.len() as int) =~= actions@);
    }
    out
}

/// The part of an action list that reads the partition's own journal.
pub fn dispatch_partition_journal_actions(
    ctx: &ReplicaContext,
    journal: &HeaderWindow,
    actions: &Vec<VsrAction>,
) -> (steps: Vec<DispatchStep>)
    requires
        ctx.needs_superblock_persist ==> forall|i: int|
            #![trigger actions@[i]]
            0 <= i < actions@.len() ==> !(actions@[i] is SendPrepareOk),
    ensures
        step_views(steps@) == journal_plan(*ctx, journal@, actions@),
{
    let mut out: Vec<DispatchStep> = Vec::new();
    let mut i: usize = 0;
    proof {
        assert(step_views(out@) =~= Seq::<StepView>::empty());
    }
    while i < actions.len()
        invariant
            i <= actions@.len(),
            step_views(out@) == journal_plan(*ctx, journal@, actions@.take(i as int)),
        decreases actions@.len() - i,
    {
        push_journal_steps(&mut out, ctx, journal, &actions[i]);
        proof {
            assert(actions@.take(i + 1).drop_last() =~= actions@.take(i as int));
        }
        i += 1;
    }
    proof {
        assert(actions@.take(actions@.len() as int) =~= actions@);
    }
    out
}

/// A broadcast reaches every other replica exactly once and never the
/// sender.
pub proof fn law_broadcast_reaches_every_peer_once(self_id: u8, count: int)
    requires
        0 <= count <= 256,
    ensures
        forall|i: int|
            #![trigger peers(self_id, count)[i]]
            0 <= i < peers(self_id, count).len() ==> peers(self_id, count)[i] != self_id && peers(self_id, count)[i]
                < count,
        forall|replica: u8| replica < count && replica != self_id ==> #[trigger] peers(self_id, count).contains(replica),
        peers(self_id, count).no_duplicates(),
    decreases count,
{
    if count > 0 {
        law_broadcast_reaches_every_peer_once(self_id, count - 1);
        let earlier = peers(self_id, count - 1);
        let all = peers(self_id, count);
        assert forall|replica: u8| replica < count && replica != self_id implies #[trigger] all.contains(replica) by {
            if replica < count - 1 {
                assert(earlier.contains(replica));
                let i = choose|i: int| 0 <= i < earlier.len() && earlier[i] == replica;
                assert(all[i] == replica);
            } else {
                assert(all[all.len() - 1] == replica);
            }
        }
        assert forall|i: int, j: int| 0 <= i < all.len() && 0 <= j < all.len() && i != j implies all[i] != all[j] by {
            if i < earlier.len() {
                let _ = earlier[i];
            }
            if j < earlier.len() {
                let _ = earlier[j];
            }
        }
    }
}

/// Whatever reads the partition's journal is exactly what the general
/// dispatch leaves out when it has no journal.
pub proof fn law_two_dispatchers_cover_each_action(
    ctx: ReplicaContext,
    journal: Map<u64, PrepareHeader>,
    action: VsrAction,
)
    ensures
        action_steps(ctx, None, action) + journal_steps(ctx, journal, action) == action_steps(
            ctx,
            Some(journal),
            action,
        ),
{
    assert(action_steps(ctx, None, action) + journal_steps(ctx, journal, action) =~= action_steps(
        ctx,
        Some(journal),
        action,
    ));
}

/// The body a control frame carries: what follows the header, clamped to what
/// arrived.
pub open spec fn control_body(frame: Seq<u8>, header_size: int, declared_size: u32) -> Seq<u8> {
    let end = if declared_size <= frame.len() {
        declared_size as int
    } else {
        frame.len() as int
    };
    if end <= header_size {
        Seq::empty()
    } else {
        frame.subrange(header_size, end)
    }
}

/// The suffix headers a control frame carries, as raw bytes.
pub fn control_suffix_body<'a>(frame: &'a [u8], header_size: usize, declared_size: u32) -> (body: &'a [u8])
    ensures
        body@ == control_body(frame@, header_size as int, declared_size),
{
    let end: usize = if (declared_size as u64) <= frame.len() as u64 {
        declared_size as usize
    } else {
        frame.len()
    };
    if end <= header_size {
        let empty: &'a [u8] = slice_subrange(frame, 0, 0);
        proof {
            assert(empty@ =~= Seq::<u8>::empty());
        }
        return empty;
    }
    slice_subrange(frame, header_size, end)
}

/// Seal of a control body: the unsealed sentinel for an empty one, else its
/// hash.
pub fn control_body_checksum<F: Fn(&[u8]) -> u64>(body: &[u8], hash: F) -> (checksum: u128)
    requires
        body@.len() > 0 ==> call_requires(hash, (body,)),
    ensures
        seals(checksum, body, hash),
{
    if body.len() == 0 {
        return 0;
    }
    let digest: u64 = hash(body);
    digest as u128
}

/// The checksum seals the body: the unsealed sentinel for an empty one, else
/// what the hash gave for it.
pub open spec fn seals<F: Fn(&[u8]) -> u64>(checksum: u128, body: &[u8], hash: F) -> bool {
    if body@.len() == 0 {
        checksum == 0
    } else {
        exists|digest: u64| #[trigger] call_ensures(hash, (body,), digest) && checksum == digest
    }
}

/// What the header of a control frame says of its body.
#[derive(Debug, Clone, Copy, PartialEq, Eq, Structural)]
pub struct ControlSeal {
    /// Size of the whole frame.
    pub size: u32,
    pub checksum_body: u128,
}

/// The size and the checksum to put into the header of a control frame that
/// carries this body.
pub fn seal_control_body<F: Fn(&[u8]) -> u64>(header_size: usize, body: &[u8], hash: F) -> (seal: ControlSeal)
    requires
        header_size + body@.len() <= u32::MAX,
        body@.len() > 0 ==> call_requires(hash, (body,)),
    ensures
        seal.size == header_size + body@.len(),
        seals(seal.checksum_body, body, hash),
{
    let size: u32 = header_size as u32 + body.len() as u32;
    let checksum_body: u128 = control_body_checksum(body, hash);
    ControlSeal { size, checksum_body }
}

/// What became of a control frame's body: handed on where it is empty or its
/// hash is the checksum in the header, held back otherwise.
pub open spec fn is_verified_body<F: Fn(&[u8]) -> u64>(
    verified: Option<&[u8]>,
    body: Seq<u8>,
    checksum_body: u128,
    hash: F,
) -> bool {
    match verified {
        Some(held) => {
            &&& held@ == body
            &&& body.len() > 0 ==> exists|digest: u64|
                #[trigger] call_ensures(hash, (held,), digest) && checksum_body == digest
        },
        None => {
            &&& body.len() > 0
            &&& exists|held: &[u8], digest: u64|
                #![trigger call_ensures(hash, (held,), digest)]
                held@ == body && call_ensures(hash, (held,), digest) && checksum_body != digest
        },
    }
}

/// The body of a control frame, once it matches the checksum its header
/// carries; `None` drops the frame whole.
///
/// Keyed on whether a body is present, never on whether the checksum looks
/// sealed: emptiness is the only exemption.
pub fn control_suffix_body_verified<'a, F: Fn(&[u8]) -> u64>(
    frame: &'a [u8],
    header_size: usize,
    declared_size: u32,
    checksum_body: u128,
    hash: F,
) -> (verified: Option<&'a [u8]>)
    requires
        forall|body: &[u8]| #[trigger] call_requires(hash, (body,)),
    ensures
        is_verified_body(verified, control_body(frame@, header_size as int, declared_size), checksum_body, hash),
{
    let body: &'a [u8] = control_suffix_body(frame, header_size, declared_size);
    if body.len() == 0 {
        return Some(body);
    }
    let checksum: u128 = control_body_checksum(body, hash);
    if checksum == checksum_body {
        Some(body)
    } else {
        None
    }
}

/// A body sealed by its sender passes the check on arrival and comes out
/// whole, under a hash that depends on the bytes alone.
pub proof fn law_sealed_body_passes_its_check<F: Fn(&[u8]) -> u64>(
    header: Seq<u8>,
    body: &[u8],
    seal: ControlSeal,
    hash: F,
    verified: Option<&[u8]>,
)
    requires
        seal.size == header.len() + body@.len(),
        seals(seal.checksum_body, body, hash),
        is_verified_body(
            verified,
            control_body(header + body@, header.len() as int, seal.size),
            seal.checksum_body,
            hash,
        ),
        forall|a: &[u8], b: &[u8], x: u64, y: u64| #[trigger]
            call_ensures(hash, (a,), x) && #[trigger] call_ensures(hash, (b,), y) && a@ == b@ ==> x == y,
    ensures
        verified matches Some(held) && held@ == body@,
{
    assert((header + body@).subrange(header.len() as int, seal.size as int) =~= body@);
    assert(control_body(header + body@, header.len() as int, seal.size) =~= body@);
}

/// A broadcast is addressed to every other replica of the cluster, each once,
/// and to nobody else.
pub open spec fn is_broadcast(ctx: ReplicaContext, targets: Seq<u8>) -> bool {
    &&& forall|replica: u8| #[trigger] targets.contains(replica) <==> replica < ctx.replica_count && replica != ctx.self_id
    &&& targets.no_duplicates()
}

/// A frame carries the numbers of the action it stands for. An action that
/// sends without reading the journal turns into one frame, whether or not there
/// is a journal.
pub proof fn law_frame_carries_its_action(ctx: ReplicaContext, journal: Option<Map<u64, PrepareHeader>>, action: VsrAction)
    ensures
        ({
            let steps = action_steps(ctx, journal, action);
            let sent = steps[0];
            let frame = sent->frame;
            &&& action is SendStartViewChange || action is SendDoViewChange || action is SendRequestStartView
                || action is SendStartView || action is SendCommit ==> steps.len() == 1 && sent is Send
            &&& action is SendStartViewChange ==> {
                &&& frame is StartViewChange
                &&& frame->StartViewChange_cluster == ctx.cluster
                &&& frame->StartViewChange_replica == ctx.self_id
                &&& frame->StartViewChange_view == action->SendStartViewChange_view
                &&& frame->StartViewChange_group == action->SendStartViewChange_group
                &&& sent->body.len() == 0
                &&& is_broadcast(ctx, sent->Send_targets)
            }
            &&& action is SendDoViewChange ==> {
                &&& frame is DoViewChange
                &&& frame->DoViewChange_cluster == ctx.cluster
                &&& frame->DoViewChange_replica == ctx.self_id
                &&& frame->DoViewChange_view == action->SendDoViewChange_view
                &&& frame->log_view == action->log_view
                &&& frame->DoViewChange_op == action->SendDoViewChange_op
                &&& frame->DoViewChange_commit == action->SendDoViewChange_commit
                &&& frame->DoViewChange_group == action->SendDoViewChange_group
                &&& frame->nack_bitset == action->SendDoViewChange_suffix.nack_bitset
                &&& frame->present_bitset == action->SendDoViewChange_suffix.present_bitset
                &&& sent->body == action->SendDoViewChange_suffix.headers@
                &&& is_broadcast(ctx, sent->Send_targets)
            }
            &&& action is SendRequestStartView ==> {
                &&& frame is RequestStartView
                &&& frame->RequestStartView_cluster == ctx.cluster
                &&& frame->RequestStartView_replica == ctx.self_id
                &&& frame->RequestStartView_view == action->SendRequestStartView_view
                &&& frame->RequestStartView_incarnation == ctx.incarnation
                &&& frame->RequestStartView_group == action->SendRequestStartView_group
                &&& sent->body.len() == 0
                &&& is_broadcast(ctx, sent->Send_targets)
            }
            &&& action is SendStartView ==> {
                &&& frame is StartView
                &&& frame->StartView_cluster == ctx.cluster
                &&& frame->StartView_replica == ctx.self_id
                &&& frame->StartView_view == action->SendStartView_view
                &&& frame->StartView_op == action->SendStartView_op
                &&& frame->StartView_commit == action->SendStartView_commit
                &&& frame->StartView_incarnation == action->SendStartView_incarnation
                &&& frame->StartView_group == action->SendStartView_group
                &&& sent->body == action->SendStartView_suffix@
                &&& match action->SendStartView_target {
                    Some(requester) => sent->Send_targets.len() == 1 && sent->Send_targets[0] == requester,
                    None => is_broadcast(ctx, sent->Send_targets),
                }
            }
            &&& action is SendCommit ==> {
                &&& frame is Commit
                &&& frame->Commit_cluster == ctx.cluster
                &&& frame->Commit_replica == ctx.self_id
                &&& frame->Commit_view == action->SendCommit_view
                &&& frame->Commit_commit == action->SendCommit_commit
                &&& frame->Commit_group == action->SendCommit_group
                &&& frame->Commit_timestamp_monotonic == action->SendCommit_timestamp_monotonic
                &&& sent->body.len() == 0
                &&& is_broadcast(ctx, sent->Send_targets)
            }
        }),
{
    law_broadcast_reaches_every_peer_once(ctx.self_id, ctx.replica_count as int);
    let everyone = peers(ctx.self_id, ctx.replica_count as int);
    assert forall|replica: u8| #[trigger] everyone.contains(replica) implies replica < ctx.replica_count && replica
        != ctx.self_id by {
        let i = everyone.index_of(replica);
        assert(everyone[i] == replica);
    }
}

/// The acknowledgement of one op: it goes to the peer that asked alone, and
/// carries the op, this replica's commit point and the numbers of the prepare
/// it acknowledges.
pub open spec fn acknowledges(ctx: ReplicaContext, step: StepView, action: VsrAction, op: u64, header: PrepareHeader) -> bool {
    &&& step is Send
    &&& step->Send_targets.len() == 1 && step->Send_targets[0] == action->SendPrepareOk_target
    &&& step->body.len() == 0
    &&& step->frame is PrepareOk
    &&& step->frame->PrepareOk_cluster == ctx.cluster
    &&& step->frame->PrepareOk_replica == ctx.self_id
    &&& step->frame->PrepareOk_view == action->SendPrepareOk_view
    &&& step->frame->PrepareOk_group == action->SendPrepareOk_group
    &&& step->frame->PrepareOk_op == op
    &&& step->frame->PrepareOk_commit == ctx.commit_max
    &&& step->frame->timestamp == header.timestamp
    &&& step->frame->parent == header.parent
    &&& step->frame->prepare_checksum == header.checksum
    &&& step->frame->request == header.request
    &&& step->frame->operation == header.operation
}

/// Every op of the range that is journaled is acknowledged, none is that is
/// not, each once and in order, with its own op and its own prepare's numbers.
pub proof fn law_every_journaled_op_is_acknowledged(ctx: ReplicaContext, journal: Map<u64, PrepareHeader>, action: VsrAction)
    requires
        action is SendPrepareOk,
    ensures
        ({
            let steps = action_steps(ctx, Some(journal), action);
            &&& forall|op: u64|
                action->SendPrepareOk_from_op <= op <= action->SendPrepareOk_to_op && #[trigger] journal.contains_key(op)
                    ==> exists|i: int|
                    0 <= i < steps.len() && acknowledges(ctx, #[trigger] steps[i], action, op, journal[op])
            &&& forall|i: int|
                #![trigger steps[i]]
                0 <= i < steps.len() ==> {
                    let op = steps[i]->frame->PrepareOk_op;
                    &&& action->SendPrepareOk_from_op <= op <= action->SendPrepareOk_to_op
                    &&& journal.contains_key(op)
                    &&& acknowledges(ctx, steps[i], action, op, journal[op])
                }
            &&& forall|i: int, j: int|
                #![trigger steps[i], steps[j]]
                0 <= i < j < steps.len() ==> steps[i]->frame->PrepareOk_op < steps[j]->frame->PrepareOk_op
        }),
        action_steps(ctx, None, action).len() == 0,
{
    let from_op = action->SendPrepareOk_from_op;
    let to_op = action->SendPrepareOk_to_op;
    let count = if from_op <= to_op {
        to_op - from_op + 1
    } else {
        0
    };
    lemma_prepare_oks(ctx, action, journal, count);
}

proof fn lemma_prepare_oks(ctx: ReplicaContext, action: VsrAction, journal: Map<u64, PrepareHeader>, count: int)
    requires
        action is SendPrepareOk,
        0 <= count,
        action->SendPrepareOk_from_op + count <= u64::MAX + 1,
    ensures
        ({
            let from_op = action->SendPrepareOk_from_op;
            let steps = prepare_oks(
                ctx,
                action->SendPrepareOk_view,
                action->SendPrepareOk_target,
                action->SendPrepareOk_group,
                journal,
                from_op,
                count,
            );
            &&& forall|op: u64|
                from_op <= op < from_op + count && #[trigger] journal.contains_key(op) ==> exists|i: int|
                    0 <= i < steps.len() && acknowledges(ctx, #[trigger] steps[i], action, op, journal[op])
            &&& forall|i: int|
                #![trigger steps[i]]
                0 <= i < steps.len() ==> {
                    let op = steps[i]->frame->PrepareOk_op;
                    &&& from_op <= op < from_op + count
                    &&& journal.contains_key(op)
                    &&& acknowledges(ctx, steps[i], action, op, journal[op])
                }
            &&& forall|i: int, j: int|
                #![trigger steps[i], steps[j]]
                0 <= i < j < steps.len() ==> steps[i]->frame->PrepareOk_op < steps[j]->frame->PrepareOk_op
        }),
    decreases count,
{
    if count > 0 {
        lemma_prepare_oks(ctx, action, journal, count - 1);
        let from_op = action->SendPrepareOk_from_op;
        let view = action->SendPrepareOk_view;
        let target = action->SendPrepareOk_target;
        let group = action->SendPrepareOk_group;
        let earlier = prepare_oks(ctx, view, target, group, journal, from_op, count - 1);
        let steps = prepare_oks(ctx, view, target, group, journal, from_op, count);
        let last = (from_op + count - 1) as u64;
        assert forall|op: u64| from_op <= op < from_op + count && #[trigger] journal.contains_key(op) implies exists|i: int|
            0 <= i < steps.len() && acknowledges(ctx, #[trigger] steps[i], action, op, journal[op]) by {
            if op == last {
                assert(acknowledges(ctx, steps[earlier.len() as int], action, op, journal[op]));
            } else {
                let i = choose|i: int| 0 <= i < earlier.len() && acknowledges(ctx, #[trigger] earlier[i], action, op, journal[op]);
                assert(steps[i] == earlier[i]);
            }
        }
        assert forall|i: int| #![trigger steps[i]] 0 <= i < steps.len() implies {
            let op = steps[i]->frame->PrepareOk_op;
            &&& from_op <= op < from_op + count
            &&& journal.contains_key(op)
            &&& acknowledges(ctx, steps[i], action, op, journal[op])
        } by {
            if i < earlier.len() {
                assert(steps[i] == earlier[i]);
            }
        }
        assert forall|i: int, j: int| #![trigger steps[i], steps[j]] 0 <= i < j < steps.len() implies steps[i]->frame->PrepareOk_op
            < steps[j]->frame->PrepareOk_op by {
            assert(steps[i] == earlier[i]);
            if j < earlier.len() {
                assert(steps[j] == earlier[j]);
            }
        }
    }
}

/// Resends and rebuilds keep what they were asked for: each prepare goes to the
/// replicas that owe its acknowledgement, in this replica's view, and a rebuild
/// covers the whole range. Without a journal there is nothing to do.
pub proof fn law_journal_work_keeps_its_action(ctx: ReplicaContext, journal: Map<u64, PrepareHeader>, action: VsrAction)
    ensures
        ({
            let steps = action_steps(ctx, Some(journal), action);
            &&& action is RetransmitPrepares ==> {
                &&& steps.len() == action->RetransmitPrepares_targets@.len()
                &&& forall|i: int|
                    #![trigger steps[i]]
                    0 <= i < steps.len() ==> {
                        &&& steps[i] is Retransmit
                        &&& steps[i]->header == action->RetransmitPrepares_targets@[i].header
                        &&& steps[i]->Retransmit_targets == action->RetransmitPrepares_targets@[i].replicas@
                        &&& steps[i]->view == ctx.view
                    }
            }
            &&& action is RebuildPipeline ==> {
                &&& steps.len() == 1
                &&& steps[0] is Rebuild
                &&& steps[0]->from_op == action->RebuildPipeline_from_op
                &&& steps[0]->to_op == action->RebuildPipeline_to_op
            }
            &&& action is CommitJournal ==> steps.len() == 0
        }),
        action is RetransmitPrepares || action is RebuildPipeline || action is CommitJournal ==> action_steps(ctx, None, action).len()
            == 0,
{
}

/// Actions are dispatched one after the other, each whole and none twice.
pub proof fn law_actions_are_dispatched_in_order(
    ctx: ReplicaContext,
    journal: Option<Map<u64, PrepareHeader>>,
    first: Seq<VsrAction>,
    action: VsrAction,
    second: Seq<VsrAction>,
)
    ensures
        dispatch_plan(ctx, journal, first + seq![action] + second) == dispatch_plan(ctx, journal, first) + action_steps(
            ctx,
            journal,
            action,
        ) + dispatch_plan(ctx, journal, second),
        dispatch_plan(ctx, journal, Seq::empty()).len() == 0,
        journal is Some ==> journal_plan(ctx, journal->0, first + seq![action] + second) == journal_plan(ctx, journal->0, first)
            + journal_steps(ctx, journal->0, action) + journal_plan(ctx, journal->0, second),
        journal is Some ==> journal_plan(ctx, journal->0, Seq::empty()).len() == 0,
    decreases second.len(),
{
    let whole = first + seq![action] + second;
    if second.len() == 0 {
        assert(whole.drop_last() =~= first);
        assert(whole.last() == action);
        assert(dispatch_plan(ctx, journal, whole) =~= dispatch_plan(ctx, journal, first) + action_steps(ctx, journal, action)
            + dispatch_plan(ctx, journal, second));
        if journal is Some {
            assert(journal_plan(ctx, journal->0, whole) =~= journal_plan(ctx, journal->0, first) + journal_steps(
                ctx,
                journal->0,
                action,
            ) + journal_plan(ctx, journal->0, second));
        }
    } else {
        law_actions_are_dispatched_in_order(ctx, journal, first, action, second.drop_last());
        assert(whole.drop_last() =~= first + seq![action] + second.drop_last());
        assert(whole.last() == second.last());
        assert(dispatch_plan(ctx, journal, whole) =~= dispatch_plan(ctx, journal, first) + action_steps(ctx, journal, action)
            + dispatch_plan(ctx, journal, second));
        if journal is Some {
            assert(journal_plan(ctx, journal->0, whole) =~= journal_plan(ctx, journal->0, first) + journal_steps(
                ctx,
                journal->0,
                action,
            ) + journal_plan(ctx, journal->0, second));
        }
    }
}

/// The local half sends nothing to anybody and the other half only sends; what
/// is sent shows this replica's view to a peer exactly where the action counts
/// as advertising it, and a probe for the view does not.
pub proof fn law_actions_are_classed_by_what_they_send(
    ctx: ReplicaContext,
    journal: Map<u64, PrepareHeader>,
    action: VsrAction,
    index: int,
)
    requires
        0 <= index < action_steps(ctx, Some(journal), action).len(),
    ensures
        ({
            let step = action_steps(ctx, Some(journal), action)[index];
            &&& action.is_local() <==> step is Rebuild
            &&& step is Send ==> (action.advertises_view() <==> !(step->frame is RequestStartView))
            &&& step is Retransmit ==> !action.advertises_view()
        }),
{
    if action is SendPrepareOk {
        law_every_journaled_op_is_acknowledged(ctx, journal, action);
        let _ = action_steps(ctx, Some(journal), action)[index];
    }
}

/// Each half of the split keeps the order of the list, and an action goes to
/// one half whatever stands around it.
pub proof fn law_split_keeps_the_order(first: Seq<VsrAction>, action: VsrAction, second: Seq<VsrAction>, local: bool)
    ensures
        select_actions(first + seq![action] + second, local) == select_actions(first, local) + (if action.is_local() == local {
            seq![action]
        } else {
            Seq::empty()
        }) + select_actions(second, local),
        VsrAction::CommitJournal.is_local(),
    decreases second.len(),
{
    let whole = first + seq![action] + second;
    let middle = if action.is_local() == local {
        seq![action]
    } else {
        Seq::empty()
    };
    if second.len() == 0 {
        assert(whole.drop_last() =~= first);
        assert(whole.last() == action);
        assert(select_actions(whole, local) =~= select_actions(first, local) + middle + select_actions(second, local));
    } else {
        law_split_keeps_the_order(first, action, second.drop_last(), local);
        assert(whole.drop_last() =~= first + seq![action] + second.drop_last());
        assert(whole.last() == second.last());
        assert(select_actions(whole, local) =~= select_actions(first, local) + middle + select_actions(second, local));
    }
}

/// Sends wait for the superblock exactly where it lags and one of them shows a
/// peer the view; a list that shows it to nobody never waits.
pub proof fn law_lagging_superblock_holds_back_any_view(ctx: ReplicaContext, actions: Seq<VsrAction>, index: int)
    requires
        0 <= index < actions.len(),
    ensures
        ctx.needs_superblock_persist && actions[index].advertises_view() ==> !durable_before_send(ctx, actions),
        !ctx.needs_superblock_persist ==> durable_before_send(ctx, actions),
        durable_before_send(ctx, actions) && !actions[index].advertises_view() ==> durable_before_send(
            ctx,
            seq![actions[index]],
        ),
        ctx.needs_superblock_persist && !durable_before_send(ctx, actions) ==> exists|at: int|
            0 <= at < actions.len() && (#[trigger] actions[at]).advertises_view(),
{
    let _ = actions[index];
    assert(seq![actions[index]][0] == actions[index]);
}

/// The body of a control frame is what follows its header, byte for byte, up
/// to the declared size or to what arrived.
pub proof fn law_body_follows_the_header(frame: Seq<u8>, header_size: int, declared_size: u32, index: int)
    requires
        0 <= header_size,
    ensures
        ({
            let body = control_body(frame, header_size, declared_size);
            &&& body.len() <= frame.len()
            &&& 0 <= index < body.len() <==> 0 <= index && header_size + index < declared_size && header_size + index < frame.len()
            &&& 0 <= index < body.len() ==> body[index] == frame[header_size + index]
        }),
{
}

/// A body that is not what its checksum was taken of is dropped, whatever the
/// checksum reads, zero included; an empty one has nothing to check.
pub proof fn law_damaged_body_is_dropped<F: Fn(&[u8]) -> u64>(
    body: &[u8],
    digest: u64,
    checksum_body: u128,
    hash: F,
    verified: Option<&[u8]>,
)
    requires
        is_verified_body(verified, body@, checksum_body, hash),
        call_ensures(hash, (body,), digest),
        forall|a: &[u8], b: &[u8], x: u64, y: u64| #[trigger]
            call_ensures(hash, (a,), x) && #[trigger] call_ensures(hash, (b,), y) && a@ == b@ ==> x == y,
    ensures
        verified is Some <==> body@.len() == 0 || checksum_body == digest,
        verified is Some ==> verified->0@ == body@,
{
}

/// Two hashes of one body agree on its seal, and only an empty body goes
/// unsealed for want of bytes.
pub proof fn law_seal_is_decided_by_the_body<F: Fn(&[u8]) -> u64>(left: u128, right: u128, body: &[u8], hash: F)
    requires
        seals(left, body, hash),
        seals(right, body, hash),
        forall|x: u64, y: u64| #[trigger] call_ensures(hash, (body,), x) && #[trigger] call_ensures(hash, (body,), y) ==> x == y,
    ensures
        left == right,
        body@.len() == 0 ==> left == 0,
        body@.len() > 0 ==> exists|digest: u64| #[trigger] call_ensures(hash, (body,), digest) && left == digest,
{
}

/// The steps are read one by one, in order.
pub proof fn law_steps_are_read_one_by_one(steps: Seq<DispatchStep>, index: int)
    requires
        0 <= index < steps.len(),
    ensures
        step_views(steps).len() == steps.len(),
        step_views(steps)[index] == steps[index]@,
{
}

} // verus!
