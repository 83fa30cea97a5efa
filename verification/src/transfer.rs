//! Receiving side of state transfer: judging descriptors, following the pull,
//! deciding installs, and bounding how often a failed one is tried again.

use vstd::prelude::*;

use crate::serving::{ArtifactKind, StateArtifact, TargetFields};
use crate::view_change::StateTransferStage;

verus! {

/// Ceiling for one metadata artifact: a corrupt length must not exhaust
/// memory.
pub const METADATA_ARTIFACT_LEN_MAX: u64 = 1024 * 1024 * 1024;

/// Ceiling for a whole metadata manifest.
pub const METADATA_MANIFEST_LEN_MAX: u64 = 4 * 1024 * 1024 * 1024;

/// A request for a peer's state-transfer descriptor.
#[derive(Debug, Clone, Copy, PartialEq, Eq, Structural)]
pub struct StateTransferRequest {
    pub target: u8,
    pub nonce: u128,
}

/// A request for the next missing chunk.
#[derive(Debug, Clone, Copy, PartialEq, Eq, Structural)]
pub struct StateChunkAsk {
    pub target: u8,
    pub nonce: u128,
    pub artifact: u32,
    pub offset: u64,
    pub len: u32,
}

/// A received descriptor, less its manifest.
#[derive(Debug, Clone, Copy, PartialEq, Eq, Structural)]
pub struct TargetHeader {
    pub replica: u8,
    pub nonce: u128,
    pub fields: TargetFields,
}

/// One in-flight metadata state transfer.
pub struct MetadataTransferSession {
    pub nonce: u128,
    /// Serving replica, asked again on a stall.
    pub peer: u8,
    /// The serving replica's applied frontier, from the accepted descriptor.
    pub commit_op: u64,
    /// Snapshot generation of the accepted descriptor: what a decode failure
    /// is charged against.
    pub generation: u64,
    /// The accepted manifest, pulled in order.
    pub artifacts: Vec<StateArtifact>,
    pub target_accepted: bool,
    /// Ticks without progress.
    pub idle_ticks: u32,
}

/// Declared bytes of a manifest.
pub open spec fn manifest_len(manifest: Seq<StateArtifact>) -> int
    decreases manifest.len(),
{
    if manifest.len() == 0 {
        0
    } else {
        manifest_len(manifest.drop_last()) + manifest.last().len
    }
}

/// The declared bytes of a manifest, stopping at the top.
pub fn declared_len(manifest: &Vec<StateArtifact>) -> (total: u64)
    ensures
        total == if manifest_len(manifest@) <= u64::MAX {
            manifest_len(manifest@)
        } else {
            u64::MAX as int
        },
{
    let mut total: u64 = 0;
    let mut i: usize = 0;
    proof {
        assert(manifest@.take(0).len() == 0);
    }
    while i < manifest.len()
        invariant
            i <= manifest@.len(),
            manifest_len(manifest@.take(i as int)) >= 0,
            total == if manifest_len(manifest@.take(i as int)) <= u64::MAX {
                manifest_len(manifest@.take(i as int))
            } else {
                u64::MAX as int
            },
        decreases manifest@.len() - i,
    {
        proof {
            assert(manifest@.take(i + 1).drop_last() =~= manifest@.take(i as int));
        }
        total = total.saturating_add(manifest[i].len);
        i += 1;
    }
    proof {
        assert(manifest@.take(i as int) =~= manifest@);
    }
    total
}

/// Position `i` is the first metadata snapshot of the manifest.
pub open spec fn first_snapshot(manifest: Seq<StateArtifact>, i: int) -> bool {
    &&& 0 <= i < manifest.len()
    &&& manifest[i].kind is MetadataSnapshot
    &&& forall|j: int| #![trigger manifest[j]] 0 <= j < i ==> !(manifest[j].kind is MetadataSnapshot)
}

/// The manifest offers snapshot generation `generation`.
pub open spec fn offers_generation(manifest: Seq<StateArtifact>, generation: u64) -> bool {
    exists|i: int| #[trigger] first_snapshot(manifest, i) && manifest[i].frontier == generation
}

/// Every artifact and the whole manifest stay within the metadata ceilings.
pub open spec fn within_metadata_caps(manifest: Seq<StateArtifact>) -> bool {
    &&& forall|i: int| #![trigger manifest[i]] 0 <= i < manifest.len() ==> manifest[i].len <= METADATA_ARTIFACT_LEN_MAX
    &&& manifest_len(manifest) <= METADATA_MANIFEST_LEN_MAX
}

fn artifacts_within(manifest: &Vec<StateArtifact>, len_max: u64) -> (within: bool)
    ensures
        within == forall|i: int| #![trigger manifest@[i]] 0 <= i < manifest@.len() ==> manifest@[i].len <= len_max,
{
    let mut i: usize = 0;
    while i < manifest.len()
        invariant
            i <= manifest@.len(),
            forall|j: int| #![trigger manifest@[j]] 0 <= j < i ==> manifest@[j].len <= len_max,
        decreases manifest@.len() - i,
    {
        if manifest[i].len > len_max {
            return false;
        }
        i += 1;
    }
    true
}

fn snapshot_generation(manifest: &Vec<StateArtifact>) -> (generation: Option<u64>)
    ensures
        match generation {
            Some(value) => offers_generation(manifest@, value),
            None => forall|i: int| #![trigger manifest@[i]] 0 <= i < manifest@.len() ==> !(manifest@[i].kind is MetadataSnapshot),
        },
{
    let mut i: usize = 0;
    while i < manifest.len()
        invariant
            i <= manifest@.len(),
            forall|j: int| #![trigger manifest@[j]] 0 <= j < i ==> !(manifest@[j].kind is MetadataSnapshot),
        decreases manifest@.len() - i,
    {
        if matches!(manifest[i].kind, ArtifactKind::MetadataSnapshot) {
            proof {
                assert(first_snapshot(manifest@, i as int));
            }
            return Some(manifest[i].frontier);
        }
        i += 1;
    }
    None
}

/// What follows a metadata descriptor.
#[derive(Debug, Clone, Copy, PartialEq, Eq, Structural)]
pub enum MetadataTargetStep {
    Ignore,
    /// The peer cannot serve: walk the journal, then repair from `peer`.
    FallBack { peer: u8 },
    /// Accepted: drive the pull.
    Fetch,
}

/// What follows progress of a metadata pull.
pub enum MetadataProgress {
    Nothing,
    /// The transfer was abandoned elsewhere; its session is gone.
    Dropped,
    /// Ask for the next missing chunk.
    RequestChunk,
    /// Everything is here: verify, decode, install.
    Install(MetadataTransferSession),
}

/// What follows a pull whose artifacts did not verify or decode.
#[derive(Debug, Clone, Copy, PartialEq, Eq, Structural)]
pub enum DecodeFailureStep {
    /// The generation's budget is spent: walk the journal, then repair.
    FallBack,
    /// Start over against the same peer.
    Restart(StateTransferRequest),
}

/// What a stall tick asks for.
#[derive(Debug, Clone, Copy, PartialEq, Eq, Structural)]
pub enum StallStep {
    Quiet,
    /// The retry budget is spent: give the transfer up.
    Abandon,
    RequestChunk,
    RequestTarget(StateTransferRequest),
}

/// Metadata state transfer as this replica receives it.
pub struct MetadataTransfer {
    pub session: Option<MetadataTransferSession>,
    /// Consecutive stalls.
    pub attempts: u32,
    /// Consecutive decode failures of one snapshot generation.
    pub decode_failures: Option<(u64, u32)>,
}

/// A session that waits for its descriptor.
pub open spec fn awaiting_session(session: MetadataTransferSession, peer: u8, nonce: u128) -> bool {
    &&& session.nonce == nonce
    &&& session.peer == peer
    &&& session.commit_op == 0
    &&& session.generation == 0
    &&& session.artifacts@.len() == 0
    &&& !session.target_accepted
    &&& session.idle_ticks == 0
}

/// The generation already spent its decode budget.
pub open spec fn budget_exhausted(decode_failures: Option<(u64, u32)>, generation: u64, decode_retries_max: u32) -> bool {
    decode_failures matches Some(failed) && failed.0 == generation && failed.1 > decode_retries_max
}

/// One more round of a retry budget; a full count stays full.
pub open spec fn one_more(count: u32) -> u32 {
    if count == u32::MAX {
        count
    } else {
        (count + 1) as u32
    }
}

/// Charge one more decode failure to a generation. Another generation starts
/// its own count.
pub open spec fn charged(decode_failures: Option<(u64, u32)>, generation: u64) -> (u64, u32) {
    match decode_failures {
        Some(failed) => if failed.0 == generation {
            (generation, one_more(failed.1))
        } else {
            (generation, 1)
        },
        None => (generation, 1),
    }
}

/// The session a descriptor's nonce belongs to waits for it, and the manifest
/// may be pulled.
pub open spec fn accepts_target(
    transfer: MetadataTransfer,
    header: TargetHeader,
    manifest: Option<Vec<StateArtifact>>,
    decode_retries_max: u32,
) -> bool {
    &&& transfer.session matches Some(session) && session.nonce == header.nonce && !session.target_accepted
    &&& header.fields.available != 0
    &&& manifest is Some
    &&& within_metadata_caps(manifest->0@)
    &&& exists|generation: u64|
        #[trigger] offers_generation(manifest->0@, generation) && !budget_exhausted(
            transfer.decode_failures,
            generation,
            decode_retries_max,
        )
}

/// A fresh session was armed against a peer.
pub open spec fn is_armed(
    before: MetadataTransfer,
    after: MetadataTransfer,
    peer: u8,
    nonce: u128,
    request: StateTransferRequest,
) -> bool {
    &&& after.session matches Some(session) && awaiting_session(session, peer, nonce)
    &&& after.attempts == before.attempts
    &&& after.decode_failures == before.decode_failures
    &&& request == (StateTransferRequest { target: peer, nonce })
}

/// One retry round was burnt.
pub open spec fn is_attempt_burnt(before: MetadataTransfer, after: MetadataTransfer, stall_retries_max: u32, exhausted: bool) -> bool {
    &&& after == (MetadataTransfer { attempts: one_more(before.attempts), ..before })
    &&& exhausted == (one_more(before.attempts) > stall_retries_max)
}

/// One decode failure was charged.
pub open spec fn is_decode_failure_burnt(
    before: MetadataTransfer,
    after: MetadataTransfer,
    generation: u64,
    decode_retries_max: u32,
    exhausted: bool,
) -> bool {
    &&& after == (MetadataTransfer { decode_failures: Some(charged(before.decode_failures, generation)), ..before })
    &&& exhausted == (charged(before.decode_failures, generation).1 > decode_retries_max)
}

/// A descriptor was taken.
pub open spec fn is_target_taken(
    before: MetadataTransfer,
    after: MetadataTransfer,
    stage_before: StateTransferStage,
    stage_after: StateTransferStage,
    header: TargetHeader,
    manifest: Option<Vec<StateArtifact>>,
    decode_retries_max: u32,
    step: MetadataTargetStep,
) -> bool {
    &&& after.attempts == before.attempts
    &&& after.decode_failures == before.decode_failures
    &&& match step {
        MetadataTargetStep::FallBack { peer } => {
            &&& before.session matches Some(session) && session.nonce == header.nonce
            &&& header.fields.available == 0
            &&& peer == header.replica
            &&& after.session is None
            &&& stage_after is Idle
        },
        MetadataTargetStep::Fetch => {
            &&& accepts_target(before, header, manifest, decode_retries_max)
            &&& after.session matches Some(session) && {
                &&& offers_generation(manifest->0@, session.generation)
                &&& session == (MetadataTransferSession {
                    commit_op: header.fields.commit_op,
                    generation: session.generation,
                    artifacts: manifest->0,
                    target_accepted: true,
                    idle_ticks: 0,
                    ..before.session->0
                })
            }
            &&& stage_after == if stage_before is AwaitingTarget {
                StateTransferStage::Fetching
            } else {
                stage_before
            }
        },
        MetadataTargetStep::Ignore => {
            &&& !accepts_target(before, header, manifest, decode_retries_max)
            &&& !(header.fields.available == 0 && before.session is Some && before.session->0.nonce == header.nonce)
            &&& after.session == before.session
            &&& stage_after == stage_before
        },
    }
}

/// A chunk extended the pull.
pub open spec fn is_pull_extended(before: MetadataTransfer, after: MetadataTransfer) -> bool {
    &&& after.attempts == 0
    &&& after.decode_failures == before.decode_failures
    &&& after.session == match before.session {
        Some(session) => Some(MetadataTransferSession { idle_ticks: 0, ..session }),
        None => None,
    }
}

/// The pull was driven.
pub open spec fn is_progress(
    before: MetadataTransfer,
    after: MetadataTransfer,
    stage: StateTransferStage,
    complete: bool,
    step: MetadataProgress,
) -> bool {
    &&& after.attempts == before.attempts
    &&& after.decode_failures == before.decode_failures
    &&& match before.session {
        None => step is Nothing && after.session is None,
        Some(session) => if !(stage is Fetching) {
            step is Dropped && after.session is None
        } else if !session.target_accepted {
            step is Nothing && after.session == before.session
        } else if !complete {
            step is RequestChunk && after.session == before.session
        } else {
            step == MetadataProgress::Install(session) && after.session is None
        },
    }
}

/// A pull that did not decode was settled.
pub open spec fn is_decode_failure_settled(
    before: MetadataTransfer,
    after: MetadataTransfer,
    stage_before: StateTransferStage,
    stage_after: StateTransferStage,
    peer: u8,
    generation: u64,
    nonce: u128,
    decode_retries_max: u32,
    step: DecodeFailureStep,
) -> bool {
    &&& after.attempts == before.attempts
    &&& after.decode_failures == Some(charged(before.decode_failures, generation))
    &&& if charged(before.decode_failures, generation).1 > decode_retries_max {
        &&& step is FallBack
        &&& after.session == before.session
        &&& stage_after is Idle
    } else {
        &&& step == DecodeFailureStep::Restart(StateTransferRequest { target: peer, nonce })
        &&& after.session matches Some(session) && awaiting_session(session, peer, nonce)
        &&& stage_after == if stage_before is Fetching {
            StateTransferStage::AwaitingTarget
        } else {
            stage_before
        }
    }
}

/// An install attempt was settled.
pub open spec fn is_install_settled(
    before: MetadataTransfer,
    after: MetadataTransfer,
    stage_after: StateTransferStage,
    installed: bool,
) -> bool {
    &&& stage_after is Idle
    &&& after.session == before.session
    &&& installed ==> after.attempts == 0 && after.decode_failures is None
    &&& !installed ==> after.attempts == before.attempts && after.decode_failures == before.decode_failures
}

/// One tick was counted.
pub open spec fn is_ticked(
    before: MetadataTransfer,
    after: MetadataTransfer,
    stage_before: StateTransferStage,
    stage_after: StateTransferStage,
    retry_ticks: u32,
    stall_retries_max: u32,
    step: StallStep,
) -> bool {
    &&& after.decode_failures == before.decode_failures
    &&& match before.session {
        None => {
            &&& step is Quiet
            &&& after.session is None
            &&& after.attempts == before.attempts
            &&& stage_after == stage_before
        },
        Some(session) => if session.idle_ticks + 1 < retry_ticks {
            &&& step is Quiet
            &&& after.session == Some(MetadataTransferSession { idle_ticks: (session.idle_ticks + 1) as u32, ..session })
            &&& after.attempts == before.attempts
            &&& stage_after == stage_before
        } else {
            &&& after.attempts == one_more(before.attempts)
            &&& if one_more(before.attempts) > stall_retries_max {
                &&& step is Abandon
                &&& after.session is None
                &&& stage_after is Idle
            } else {
                &&& step == if session.target_accepted {
                    StallStep::RequestChunk
                } else {
                    StallStep::RequestTarget(StateTransferRequest { target: session.peer, nonce: session.nonce })
                }
                &&& after.session == Some(MetadataTransferSession { idle_ticks: 0, ..session })
                &&& stage_after == stage_before
            }
        },
    }
}

impl MetadataTransfer {
    /// A pull under this nonce is in flight.
    pub open spec fn pulls_under(self, nonce: u128) -> bool {
        self.session matches Some(session) && session.nonce == nonce && session.target_accepted
    }

    /// The ask for the first gap.
    pub open spec fn chunk_ask(self, pending: Option<(u32, u64, u32)>) -> Option<StateChunkAsk> {
        match (self.session, pending) {
            (Some(session), Some(gap)) => if session.target_accepted {
                Some(
                    StateChunkAsk {
                        target: session.peer,
                        nonce: session.nonce,
                        artifact: gap.0,
                        offset: gap.1,
                        len: gap.2,
                    },
                )
            } else {
                None
            },
            _ => None,
        }
    }

    pub open spec fn wf(&self) -> bool {
        self.session matches Some(session) ==> session.idle_ticks < u32::MAX
    }

    pub fn new() -> (transfer: MetadataTransfer)
        ensures
            transfer.wf(),
            transfer.session is None,
            transfer.attempts == 0,
            transfer.decode_failures is None,
    {
        MetadataTransfer { session: None, attempts: 0, decode_failures: None }
    }

    /// Arm a fresh session against `peer`. The retry budgets outlive sessions.
    pub fn arm(&mut self, peer: u8, nonce: u128) -> (request: StateTransferRequest)
        ensures
            final(self).wf(),
            is_armed(*old(self), *final(self), peer, nonce, request),
    {
        self.session = Some(
            MetadataTransferSession {
                nonce,
                peer,
                commit_op: 0,
                generation: 0,
                artifacts: Vec::new(),
                target_accepted: false,
                idle_ticks: 0,
            },
        );
        StateTransferRequest { target: peer, nonce }
    }

    /// Burn one retry round; true once the budget is spent.
    pub fn burn_attempt(&mut self, stall_retries_max: u32) -> (exhausted: bool)
        ensures
            is_attempt_burnt(*old(self), *final(self), stall_retries_max, exhausted),
    {
        self.attempts = self.attempts.saturating_add(1);
        self.attempts > stall_retries_max
    }

    /// Charge one decode failure; true once the generation's budget is spent.
    pub fn burn_decode_failure(&mut self, generation: u64, decode_retries_max: u32) -> (exhausted: bool)
        ensures
            is_decode_failure_burnt(*old(self), *final(self), generation, decode_retries_max, exhausted),
    {
        let failures: u32 = match self.decode_failures {
            Some((seq, failures)) => if seq == generation {
                failures.saturating_add(1)
            } else {
                1
            },
            None => 1,
        };
        self.decode_failures = Some((generation, failures));
        failures > decode_retries_max
    }

    /// Whether the generation already spent its decode budget.
    pub fn decode_budget_exhausted(&self, generation: u64, decode_retries_max: u32) -> (exhausted: bool)
        ensures
            exhausted == budget_exhausted(self.decode_failures, generation, decode_retries_max),
    {
        match self.decode_failures {
            Some((seq, failures)) => seq == generation && failures > decode_retries_max,
            None => false,
        }
    }

    /// Take a descriptor. `manifest` is its decoded body, or nothing where the
    /// body does not decode.
    ///
    /// An oversized manifest, one without a metadata snapshot, and a
    /// generation whose decode budget is spent are ignored with the session
    /// left armed: the stall retry paces the next try, and the budget starts
    /// over once the peer offers a new generation.
    pub fn on_state_transfer_target(
        &mut self,
        stage: &mut StateTransferStage,
        header: &TargetHeader,
        manifest: Option<Vec<StateArtifact>>,
        decode_retries_max: u32,
    ) -> (step: MetadataTargetStep)
        requires
            old(self).wf(),
        ensures
            final(self).wf(),
            is_target_taken(*old(self), *final(self), *old(stage), *final(stage), *header, manifest, decode_retries_max, step),
    {
        let (matching, accepted): (bool, bool) = match &self.session {
            Some(session) => (session.nonce == header.nonce, session.target_accepted),
            None => (false, false),
        };
        if !matching {
            return MetadataTargetStep::Ignore;
        }
        if header.fields.available == 0 {
            self.session = None;
            *stage = StateTransferStage::Idle;
            return MetadataTargetStep::FallBack { peer: header.replica };
        }
        let entries: Vec<StateArtifact> = match manifest {
            Some(entries) => entries,
            None => {
                return MetadataTargetStep::Ignore;
            },
        };
        if !artifacts_within(&entries, METADATA_ARTIFACT_LEN_MAX) || declared_len(&entries) > METADATA_MANIFEST_LEN_MAX {
            return MetadataTargetStep::Ignore;
        }
        let generation: u64 = match snapshot_generation(&entries) {
            Some(generation) => generation,
            None => {
                return MetadataTargetStep::Ignore;
            },
        };
        proof {
            lemma_one_generation(entries@, generation);
        }
        if self.decode_budget_exhausted(generation, decode_retries_max) || accepted {
            return MetadataTargetStep::Ignore;
        }
        if let Some(session) = self.session.take() {
            self.session = Some(
                MetadataTransferSession {
                    nonce: session.nonce,
                    peer: session.peer,
                    commit_op: header.fields.commit_op,
                    generation,
                    artifacts: entries,
                    target_accepted: true,
                    idle_ticks: 0,
                },
            );
        }
        if matches!(*stage, StateTransferStage::AwaitingTarget) {
            *stage = StateTransferStage::Fetching;
        }
        MetadataTargetStep::Fetch
    }
    /// Whether a chunk under this nonce belongs to the pull in flight.
    pub fn expects_chunk(&self, nonce: u128) -> (expects: bool)
        ensures
            expects == self.pulls_under(nonce),
    {
        match &self.session {
            Some(session) => session.nonce == nonce && session.target_accepted,
            None => false,
        }
    }

    /// A chunk extended the pull: both the idle count and the stall budget
    /// start over. The budget bounds consecutive stalls, not lifetime ones.
    pub fn chunk_appended(&mut self)
        requires
            old(self).wf(),
        ensures
            final(self).wf(),
            is_pull_extended(*old(self), *final(self)),
    {
        self.attempts = 0;
        if let Some(session) = self.session.take() {
            self.session = Some(
                MetadataTransferSession {
                    nonce: session.nonce,
                    peer: session.peer,
                    commit_op: session.commit_op,
                    generation: session.generation,
                    artifacts: session.artifacts,
                    target_accepted: session.target_accepted,
                    idle_ticks: 0,
                },
            );
        }
    }

    /// Drive the pull: `complete` says that every artifact is here. A stage
    /// other than fetching means the transfer was abandoned elsewhere, and its
    /// session goes with it.
    pub fn on_transfer_progress(&mut self, stage: StateTransferStage, complete: bool) -> (step: MetadataProgress)
        requires
            old(self).wf(),
        ensures
            final(self).wf(),
            is_progress(*old(self), *final(self), stage, complete, step),
    {
        let accepted: bool = match &self.session {
            Some(session) => session.target_accepted,
            None => {
                return MetadataProgress::Nothing;
            },
        };
        if !matches!(stage, StateTransferStage::Fetching) {
            self.session = None;
            return MetadataProgress::Dropped;
        }
        if !accepted {
            return MetadataProgress::Nothing;
        }
        if !complete {
            return MetadataProgress::RequestChunk;
        }
        match self.session.take() {
            Some(session) => MetadataProgress::Install(session),
            None => MetadataProgress::Nothing,
        }
    }

    /// The ask for the next missing chunk. `pending` is the first gap in
    /// manifest order, cut to the chunk ceiling; nothing is asked before a
    /// manifest is accepted.
    pub fn request_pending_state_chunk(&self, pending: Option<(u32, u64, u32)>) -> (ask: Option<StateChunkAsk>)
        ensures
            ask == self.chunk_ask(pending),
    {
        match (&self.session, pending) {
            (Some(session), Some((artifact, offset, len))) => if session.target_accepted {
                Some(StateChunkAsk { target: session.peer, nonce: session.nonce, artifact, offset, len })
            } else {
                None
            },
            _ => None,
        }
    }

    /// The pulled artifacts did not verify or decode. Charged to the accepted
    /// generation: past its budget the transfer gives way to journal repair,
    /// otherwise it starts over against the same peer.
    pub fn on_undecodable(
        &mut self,
        stage: &mut StateTransferStage,
        peer: u8,
        generation: u64,
        nonce: u128,
        decode_retries_max: u32,
    ) -> (step: DecodeFailureStep)
        requires
            old(self).wf(),
        ensures
            final(self).wf(),
            is_decode_failure_settled(
                *old(self),
                *final(self),
                *old(stage),
                *final(stage),
                peer,
                generation,
                nonce,
                decode_retries_max,
                step,
            ),
    {
        if self.burn_decode_failure(generation, decode_retries_max) {
            *stage = StateTransferStage::Idle;
            return DecodeFailureStep::FallBack;
        }
        if matches!(*stage, StateTransferStage::Fetching) {
            *stage = StateTransferStage::AwaitingTarget;
        }
        let request: StateTransferRequest = self.arm(peer, nonce);
        DecodeFailureStep::Restart(request)
    }

    /// Settle an install attempt. Either way the stage is idle again, and the
    /// journal walk and tail repair follow; a completed install starts both
    /// budgets over.
    pub fn settle_install(&mut self, stage: &mut StateTransferStage, installed: bool)
        requires
            old(self).wf(),
        ensures
            final(self).wf(),
            is_install_settled(*old(self), *final(self), *final(stage), installed),
    {
        *stage = StateTransferStage::Idle;
        if installed {
            self.attempts = 0;
            self.decode_failures = None;
        }
    }

    /// Journal repair cannot close the gap: await a transfer from the peer
    /// that said so.
    pub fn convert_from_repair(&mut self, stage: &mut StateTransferStage, peer: u8, nonce: u128) -> (request: StateTransferRequest)
        ensures
            final(self).wf(),
            *final(stage) is AwaitingTarget,
            is_armed(*old(self), *final(self), peer, nonce, request),
    {
        *stage = StateTransferStage::AwaitingTarget;
        self.arm(peer, nonce)
    }

    /// Count one tick. Past the retry interval the missing piece is asked for
    /// again; past the retry budget the transfer is given up, and journal
    /// repair picks a peer anew.
    pub fn tick(&mut self, stage: &mut StateTransferStage, retry_ticks: u32, stall_retries_max: u32) -> (step: StallStep)
        requires
            old(self).wf(),
        ensures
            final(self).wf(),
            is_ticked(*old(self), *final(self), *old(stage), *final(stage), retry_ticks, stall_retries_max, step),
    {
        let session: MetadataTransferSession = match self.session.take() {
            Some(session) => session,
            None => {
                return StallStep::Quiet;
            },
        };
        let counted: u32 = session.idle_ticks + 1;
        let stalled: bool = counted >= retry_ticks;
        let request: StateTransferRequest = StateTransferRequest { target: session.peer, nonce: session.nonce };
        let accepted: bool = session.target_accepted;
        self.session = Some(
            MetadataTransferSession {
                nonce: session.nonce,
                peer: session.peer,
                commit_op: session.commit_op,
                generation: session.generation,
                artifacts: session.artifacts,
                target_accepted: session.target_accepted,
                idle_ticks: if stalled {
                    0
                } else {
                    counted
                },
            },
        );
        if !stalled {
            return StallStep::Quiet;
        }
        if self.burn_attempt(stall_retries_max) {
            self.session = None;
            *stage = StateTransferStage::Idle;
            return StallStep::Abandon;
        }
        if accepted {
            StallStep::RequestChunk
        } else {
            StallStep::RequestTarget(request)
        }
    }
}

/// The artifacts of a complete metadata pull are installable: each matches its
/// checksum and is a snapshot or a client table, and both kinds are there.
/// `snapshot` and `table` are the last of their kinds.
pub open spec fn installable_metadata(artifacts: Seq<StateArtifact>, checksums: Seq<u64>, snapshot: int, table: int) -> bool {
    &&& forall|i: int|
        #![trigger artifacts[i]]
        0 <= i < artifacts.len() ==> checksums[i] == artifacts[i].checksum && (artifacts[i].kind is MetadataSnapshot
            || artifacts[i].kind is ClientTable)
    &&& 0 <= snapshot < artifacts.len()
    &&& 0 <= table < artifacts.len()
    &&& artifacts[snapshot].kind is MetadataSnapshot
    &&& artifacts[table].kind is ClientTable
    &&& forall|i: int| #![trigger artifacts[i]] snapshot < i < artifacts.len() ==> artifacts[i].kind is ClientTable
    &&& forall|i: int| #![trigger artifacts[i]] table < i < artifacts.len() ==> artifacts[i].kind is MetadataSnapshot
}

/// Pick the artifacts a complete metadata pull installs: the positions of the
/// snapshot and the client table. `checksums` are those of the pulled bytes.
///
/// An unknown kind is refused, never skipped: the serving peer thought it
/// worth shipping.
pub fn pick_metadata_artifacts(artifacts: &Vec<StateArtifact>, checksums: &Vec<u64>) -> (picked: Option<(usize, usize)>)
    requires
        artifacts@.len() == checksums@.len(),
    ensures
        match picked {
            Some(pair) => installable_metadata(artifacts@, checksums@, pair.0 as int, pair.1 as int),
            None => forall|snapshot: int, table: int|
                !#[trigger] installable_metadata(artifacts@, checksums@, snapshot, table),
        },
{
    let mut snapshot: Option<usize> = None;
    let mut table: Option<usize> = None;
    let mut i: usize = 0;
    while i < artifacts.len()
        invariant
            i <= artifacts@.len(),
            artifacts@.len() == checksums@.len(),
            forall|j: int|
                #![trigger artifacts@[j]]
                0 <= j < i ==> checksums@[j] == artifacts@[j].checksum && (artifacts@[j].kind is MetadataSnapshot
                    || artifacts@[j].kind is ClientTable),
            match snapshot {
                Some(at) => {
                    &&& at < i
                    &&& artifacts@[at as int].kind is MetadataSnapshot
                    &&& forall|j: int| #![trigger artifacts@[j]] at < j < i ==> artifacts@[j].kind is ClientTable
                },
                None => forall|j: int| #![trigger artifacts@[j]] 0 <= j < i ==> artifacts@[j].kind is ClientTable,
            },
            match table {
                Some(at) => {
                    &&& at < i
                    &&& artifacts@[at as int].kind is ClientTable
                    &&& forall|j: int| #![trigger artifacts@[j]] at < j < i ==> artifacts@[j].kind is MetadataSnapshot
                },
                None => forall|j: int| #![trigger artifacts@[j]] 0 <= j < i ==> artifacts@[j].kind is MetadataSnapshot,
            },
        decreases artifacts@.len() - i,
    {
        if checksums[i] != artifacts[i].checksum {
            proof {
                let _ = artifacts@[i as int];
            }
            return None;
        }
        match artifacts[i].kind {
            ArtifactKind::MetadataSnapshot => {
                snapshot = Some(i);
            },
            ArtifactKind::ClientTable => {
                table = Some(i);
            },
            _ => {
                return None;
            },
        }
        i += 1;
    }
    match (snapshot, table) {
        (Some(snapshot_at), Some(table_at)) => Some((snapshot_at, table_at)),
        _ => None,
    }
}

/// A damaged artifact anywhere in the manifest refuses the whole install.
pub proof fn law_damaged_metadata_is_never_installed(
    artifacts: Seq<StateArtifact>,
    checksums: Seq<u64>,
    damaged: int,
    snapshot: int,
    table: int,
)
    requires
        0 <= damaged < artifacts.len(),
        checksums[damaged] != artifacts[damaged].checksum || artifacts[damaged].kind is Unknown,
    ensures
        !installable_metadata(artifacts, checksums, snapshot, table),
{
    let _ = artifacts[damaged];
}

/// Failures of one generation never count against another, so a peer
/// that checkpoints anew is worth full retries.
pub proof fn law_new_generation_has_a_full_decode_budget(
    decode_failures: Option<(u64, u32)>,
    failed: u64,
    fresh: u64,
    decode_retries_max: u32,
)
    requires
        fresh != failed,
    ensures
        !budget_exhausted(Some(charged(decode_failures, failed)), fresh, decode_retries_max),
{
}

/// A generation charged past its budget is refused when offered again.
pub proof fn law_exhausted_generation_is_refused(
    transfer: MetadataTransfer,
    header: TargetHeader,
    manifest: Vec<StateArtifact>,
    generation: u64,
    decode_retries_max: u32,
)
    requires
        budget_exhausted(transfer.decode_failures, generation, decode_retries_max),
        offers_generation(manifest@, generation),
    ensures
        !accepts_target(transfer, header, Some(manifest), decode_retries_max),
{
    lemma_one_generation(manifest@, generation);
}

proof fn lemma_one_generation(manifest: Seq<StateArtifact>, generation: u64)
    requires
        offers_generation(manifest, generation),
    ensures
        forall|other: u64| #[trigger] offers_generation(manifest, other) ==> other == generation,
{
    let i = choose|i: int| #[trigger] first_snapshot(manifest, i) && manifest[i].frontier == generation;
    assert forall|other: u64| #[trigger] offers_generation(manifest, other) implies other == generation by {
        let j = choose|j: int| #[trigger] first_snapshot(manifest, j) && manifest[j].frontier == other;
        if i < j {
            assert(!(manifest[i].kind is MetadataSnapshot));
        } else if j < i {
            assert(!(manifest[j].kind is MetadataSnapshot));
        }
    }
}

/// A fresh session waits for the descriptor of the peer it asked, under the
/// nonce it asked with, and the budgets carry over.
pub proof fn law_armed_session_waits_for_its_peer(
    before: MetadataTransfer,
    after: MetadataTransfer,
    peer: u8,
    nonce: u128,
    request: StateTransferRequest,
)
    requires
        is_armed(before, after, peer, nonce, request),
    ensures
        request.target == peer && request.nonce == nonce,
        after.session is Some,
        after.session->0.peer == request.target && after.session->0.nonce == request.nonce,
        !after.session->0.target_accepted && after.session->0.idle_ticks == 0 && after.session->0.artifacts@.len() == 0,
        after.session->0.generation == 0 && after.session->0.commit_op == 0,
        !after.pulls_under(nonce),
        after.attempts == before.attempts && after.decode_failures == before.decode_failures,
{
}

/// A descriptor moves its own session and no other. Where the peer cannot
/// serve, the transfer gives way to repair from that peer; where it offers a
/// manifest that fits, with a snapshot whose generation is worth a try, the
/// first one a waiting session gets is accepted; everything else is ignored and
/// changes nothing.
pub proof fn law_descriptor_moves_its_own_session(
    before: MetadataTransfer,
    after: MetadataTransfer,
    stage_before: StateTransferStage,
    stage_after: StateTransferStage,
    header: TargetHeader,
    manifest: Option<Vec<StateArtifact>>,
    decode_retries_max: u32,
    step: MetadataTargetStep,
    snapshot: int,
)
    requires
        is_target_taken(before, after, stage_before, stage_after, header, manifest, decode_retries_max, step),
    ensures
        ({
            let own = before.session is Some && before.session->0.nonce == header.nonce;
            let entries = manifest->0@;
            let fits = manifest is Some && manifest_len(entries) <= METADATA_MANIFEST_LEN_MAX && forall|i: int|
                #![trigger entries[i]]
                0 <= i < entries.len() ==> entries[i].len <= METADATA_ARTIFACT_LEN_MAX;
            let spent = |generation: u64|
                before.decode_failures is Some && (before.decode_failures->0).0 == generation && (before.decode_failures->0).1
                    > decode_retries_max;
            &&& step is FallBack <==> own && header.fields.available == 0
            &&& step is FallBack ==> step->peer == header.replica && after.session is None && stage_after is Idle
            &&& step is Ignore ==> after.session == before.session && stage_after == stage_before
            &&& own && header.fields.available != 0 && !before.session->0.target_accepted && fits && first_snapshot(
                entries,
                snapshot,
            ) ==> (step is Fetch <==> !spent(entries[snapshot].frontier))
            &&& step is Fetch ==> {
                &&& own && header.fields.available != 0 && !before.session->0.target_accepted && fits
                &&& after.session is Some
                &&& after.session->0.target_accepted
                &&& after.session->0.artifacts == manifest->0
                &&& after.session->0.commit_op == header.fields.commit_op
                &&& after.session->0.peer == before.session->0.peer
                &&& after.session->0.nonce == header.nonce
                &&& after.session->0.idle_ticks == 0
                &&& first_snapshot(entries, snapshot) ==> after.session->0.generation == entries[snapshot].frontier
                &&& stage_before is AwaitingTarget ==> stage_after is Fetching
                &&& !(stage_before is AwaitingTarget) ==> stage_after == stage_before
                &&& after.pulls_under(header.nonce)
            }
            &&& after.attempts == before.attempts && after.decode_failures == before.decode_failures
        }),
{
    if manifest is Some && first_snapshot(manifest->0@, snapshot) {
        let entries = manifest->0@;
        assert(offers_generation(entries, entries[snapshot].frontier));
        lemma_one_generation(entries, entries[snapshot].frontier);
    }
}

/// The declared bytes of a manifest are those of its parts.
pub proof fn law_manifest_len_adds_up(first: Seq<StateArtifact>, second: Seq<StateArtifact>, entry: StateArtifact)
    ensures
        manifest_len(first + second) == manifest_len(first) + manifest_len(second),
        manifest_len(seq![entry]) == entry.len,
        manifest_len(first) >= 0,
    decreases second.len(), first.len(),
{
    if second.len() == 0 {
        assert(first + second =~= first);
        if first.len() > 0 {
            law_manifest_len_adds_up(first.drop_last(), second, entry);
        }
    } else {
        law_manifest_len_adds_up(first, second.drop_last(), entry);
        assert((first + second).drop_last() =~= first + second.drop_last());
        assert((first + second).last() == second.last());
    }
    assert(seq![entry].drop_last() =~= Seq::empty());
    assert(seq![entry].last() == entry);
    reveal_with_fuel(manifest_len, 2);
}

/// The first artifact of the kind decides the generation, and only one can be
/// the first.
pub proof fn law_first_snapshot_is_the_first(manifest: Seq<StateArtifact>, i: int, other: int)
    requires
        first_snapshot(manifest, i),
        0 <= other < manifest.len(),
        manifest[other].kind is MetadataSnapshot,
    ensures
        i <= other,
        manifest[i].kind is MetadataSnapshot,
        first_snapshot(manifest, other) ==> other == i,
{
    if other < i {
        assert(!(manifest[other].kind is MetadataSnapshot));
    }
}

/// A chunk that extends the pull starts both counts over and changes nothing
/// else of it.
pub proof fn law_progress_renews_the_budget(before: MetadataTransfer, after: MetadataTransfer)
    requires
        is_pull_extended(before, after),
    ensures
        after.attempts == 0,
        after.session is Some <==> before.session is Some,
        before.session is Some ==> {
            &&& after.session->0.idle_ticks == 0
            &&& after.session->0.nonce == before.session->0.nonce && after.session->0.peer == before.session->0.peer
            &&& after.session->0.artifacts == before.session->0.artifacts
            &&& after.session->0.commit_op == before.session->0.commit_op
            &&& after.session->0.generation == before.session->0.generation
            &&& after.session->0.target_accepted == before.session->0.target_accepted
        },
        after.decode_failures == before.decode_failures,
{
}

/// An accepted pull that is complete is installed, whole and once; one that is
/// not asks for what it misses. A transfer that was abandoned elsewhere drops
/// its session, and nothing is asked or installed before a manifest is
/// accepted.
pub proof fn law_complete_pull_is_installed_once(
    before: MetadataTransfer,
    after: MetadataTransfer,
    stage: StateTransferStage,
    complete: bool,
    step: MetadataProgress,
)
    requires
        is_progress(before, after, stage, complete, step),
    ensures
        ({
            let pulling = before.session is Some && stage is Fetching && before.session->0.target_accepted;
            &&& step is Install <==> pulling && complete
            &&& step is Install ==> step->Install_0 == before.session->0 && after.session is None
            &&& step is RequestChunk <==> pulling && !complete
            &&& step is Dropped <==> before.session is Some && !(stage is Fetching)
            &&& step is Dropped ==> after.session is None
            &&& step is RequestChunk || step is Nothing ==> after.session == before.session
            &&& after.attempts == before.attempts && after.decode_failures == before.decode_failures
        }),
{
}

/// The gap is asked of the peer the session is with, under its nonce and with
/// the very bounds of the gap, once a manifest is accepted; without a gap or a
/// manifest nothing is asked.
pub proof fn law_gap_is_asked_of_the_serving_peer(transfer: MetadataTransfer, artifact: u32, offset: u64, len: u32)
    ensures
        transfer.chunk_ask(None) is None,
        ({
            let ask = transfer.chunk_ask(Some((artifact, offset, len)));
            &&& ask is Some <==> transfer.session is Some && transfer.session->0.target_accepted
            &&& ask is Some ==> {
                &&& ask->0.target == transfer.session->0.peer
                &&& ask->0.nonce == transfer.session->0.nonce
                &&& ask->0.artifact == artifact
                &&& ask->0.offset == offset
                &&& ask->0.len == len
            }
        }),
{
}

/// A chunk belongs to the pull exactly under the session's nonce and once its
/// manifest is accepted.
pub proof fn law_chunk_belongs_to_the_accepted_pull(transfer: MetadataTransfer, nonce: u128)
    ensures
        transfer.pulls_under(nonce) <==> transfer.session is Some && transfer.session->0.nonce == nonce
            && transfer.session->0.target_accepted,
{
}

/// A generation may fail to decode as often as its budget says; with the next
/// failure the transfer gives way to repair. Until then it starts over against
/// the same peer, under a new nonce.
pub proof fn law_decode_failures_are_bounded(
    before: MetadataTransfer,
    after: MetadataTransfer,
    stage_before: StateTransferStage,
    stage_after: StateTransferStage,
    peer: u8,
    generation: u64,
    nonce: u128,
    decode_retries_max: u32,
    step: DecodeFailureStep,
)
    requires
        decode_retries_max < u32::MAX,
        is_decode_failure_settled(
            before,
            after,
            stage_before,
            stage_after,
            peer,
            generation,
            nonce,
            decode_retries_max,
            step,
        ),
    ensures
        ({
            let failed: int = if before.decode_failures is Some && (before.decode_failures->0).0 == generation {
                (before.decode_failures->0).1 as int
            } else {
                0
            };
            &&& after.decode_failures is Some && (after.decode_failures->0).0 == generation
            &&& failed < u32::MAX ==> (after.decode_failures->0).1 == failed + 1
            &&& step is FallBack <==> failed >= decode_retries_max
            &&& step is FallBack <==> budget_exhausted(after.decode_failures, generation, decode_retries_max)
            &&& step is FallBack ==> stage_after is Idle && after.session == before.session
            &&& step is Restart ==> {
                &&& step->Restart_0.target == peer && step->Restart_0.nonce == nonce
                &&& after.session is Some
                &&& after.session->0.peer == peer && after.session->0.nonce == nonce && !after.session->0.target_accepted
                &&& stage_before is Fetching ==> stage_after is AwaitingTarget
                &&& !(stage_before is Fetching) ==> stage_after == stage_before
            }
            &&& after.attempts == before.attempts
        }),
{
}

/// The two budgets count one at a time: a round that is burnt is spent exactly
/// where it is one past what is allowed.
pub proof fn law_budget_counts_one_at_a_time(
    before: MetadataTransfer,
    burnt: MetadataTransfer,
    failed: MetadataTransfer,
    stall_retries_max: u32,
    stalled_out: bool,
    generation: u64,
    decode_retries_max: u32,
    undecodable: bool,
)
    requires
        before.attempts < u32::MAX,
        is_attempt_burnt(before, burnt, stall_retries_max, stalled_out),
        is_decode_failure_burnt(before, failed, generation, decode_retries_max, undecodable),
    ensures
        burnt.attempts == before.attempts + 1,
        stalled_out <==> before.attempts >= stall_retries_max,
        burnt.session == before.session && burnt.decode_failures == before.decode_failures,
        undecodable <==> budget_exhausted(failed.decode_failures, generation, decode_retries_max),
        failed.session == before.session && failed.attempts == before.attempts,
{
}

/// Settling an install ends the transfer either way; only a completed one
/// starts the budgets over.
pub proof fn law_completed_install_clears_the_budgets(
    before: MetadataTransfer,
    after: MetadataTransfer,
    stage_after: StateTransferStage,
    installed: bool,
    generation: u64,
    decode_retries_max: u32,
)
    requires
        is_install_settled(before, after, stage_after, installed),
    ensures
        stage_after is Idle,
        installed ==> after.attempts == 0 && !budget_exhausted(after.decode_failures, generation, decode_retries_max),
        !installed ==> after.attempts == before.attempts && after.decode_failures == before.decode_failures,
        after.session == before.session,
{
}

/// A stalled transfer asks again after the retry interval and not sooner, for
/// the piece it misses, as often as its budget allows; the next stall gives it
/// up. Without a session nothing happens.
pub proof fn law_stalled_transfer_asks_then_gives_up(
    before: MetadataTransfer,
    after: MetadataTransfer,
    stage_before: StateTransferStage,
    stage_after: StateTransferStage,
    retry_ticks: u32,
    stall_retries_max: u32,
    step: StallStep,
)
    requires
        before.wf(),
        before.attempts < u32::MAX,
        is_ticked(before, after, stage_before, stage_after, retry_ticks, stall_retries_max, step),
    ensures
        ({
            let stalled = before.session is Some && retry_ticks <= before.session->0.idle_ticks + 1;
            let over = before.attempts >= stall_retries_max;
            &&& step is Quiet <==> !stalled
            &&& step is Abandon <==> stalled && over
            &&& step is RequestChunk <==> stalled && !over && before.session->0.target_accepted
            &&& step is RequestTarget <==> stalled && !over && !before.session->0.target_accepted
            &&& step is RequestTarget ==> step->RequestTarget_0.target == before.session->0.peer && step->RequestTarget_0.nonce
                == before.session->0.nonce
            &&& after.session is Some <==> before.session is Some && !(step is Abandon)
            &&& after.session is Some ==> {
                &&& after.session->0.nonce == before.session->0.nonce && after.session->0.peer == before.session->0.peer
                &&& after.session->0.artifacts == before.session->0.artifacts
                &&& after.session->0.target_accepted == before.session->0.target_accepted
                &&& after.session->0.idle_ticks == if stalled { 0int } else { before.session->0.idle_ticks + 1 }
            }
            &&& after.attempts == before.attempts + if stalled { 1int } else { 0 }
            &&& step is Abandon ==> stage_after is Idle
            &&& !(step is Abandon) ==> stage_after == stage_before
        }),
{
}

/// A complete metadata pull is installed exactly where every artifact matches
/// its checksum, every kind is known to this plane and both kinds are there;
/// what is installed is then the last of each kind, and there is one choice.
pub proof fn law_sound_metadata_is_installed(artifacts: Seq<StateArtifact>, checksums: Seq<u64>, snapshot: int, table: int)
    requires
        0 <= snapshot < artifacts.len(),
        0 <= table < artifacts.len(),
        artifacts[snapshot].kind is MetadataSnapshot,
        artifacts[table].kind is ClientTable,
        forall|i: int|
            #![trigger artifacts[i]]
            0 <= i < artifacts.len() ==> checksums[i] == artifacts[i].checksum && (artifacts[i].kind is MetadataSnapshot
                || artifacts[i].kind is ClientTable),
    ensures
        exists|s: int, t: int| #[trigger] installable_metadata(artifacts, checksums, s, t),
        forall|s: int, t: int| #[trigger] installable_metadata(artifacts, checksums, s, t) ==> snapshot <= s && table <= t,
        forall|s: int, t: int, u: int, v: int|
            #[trigger] installable_metadata(artifacts, checksums, s, t) && #[trigger] installable_metadata(artifacts, checksums, u, v)
                ==> s == u && t == v,
    decreases artifacts.len() - snapshot + artifacts.len() - table,
{
    let _ = (artifacts[snapshot], artifacts[table]);
    if exists|i: int| #![trigger artifacts[i]] snapshot < i < artifacts.len() && artifacts[i].kind is MetadataSnapshot {
        let i = choose|i: int| #![trigger artifacts[i]] snapshot < i < artifacts.len() && artifacts[i].kind is MetadataSnapshot;
        law_sound_metadata_is_installed(artifacts, checksums, i, table);
    } else if exists|i: int| #![trigger artifacts[i]] table < i < artifacts.len() && artifacts[i].kind is ClientTable {
        let i = choose|i: int| #![trigger artifacts[i]] table < i < artifacts.len() && artifacts[i].kind is ClientTable;
        law_sound_metadata_is_installed(artifacts, checksums, snapshot, i);
    } else {
        assert forall|i: int| #![trigger artifacts[i]] snapshot < i < artifacts.len() implies artifacts[i].kind is ClientTable by {}
        assert forall|i: int| #![trigger artifacts[i]] table < i < artifacts.len() implies artifacts[i].kind is MetadataSnapshot by {}
        assert(installable_metadata(artifacts, checksums, snapshot, table));
    }
    assert forall|s: int, t: int, u: int, v: int|
        #[trigger] installable_metadata(artifacts, checksums, s, t) && #[trigger] installable_metadata(artifacts, checksums, u, v) implies s
        == u && t == v by {
        let _ = (artifacts[s], artifacts[t], artifacts[u], artifacts[v]);
    }
    assert forall|s: int, t: int| #[trigger] installable_metadata(artifacts, checksums, s, t) implies snapshot <= s && table <= t by {
        let _ = (artifacts[snapshot], artifacts[table]);
    }
}

/// A manifest that holds a snapshot has a first one, no further than that.
pub proof fn law_held_snapshot_is_found(manifest: Seq<StateArtifact>, at: int)
    requires
        0 <= at < manifest.len(),
        manifest[at].kind is MetadataSnapshot,
    ensures
        exists|i: int| 0 <= i <= at && #[trigger] first_snapshot(manifest, i),
    decreases at,
{
    if exists|j: int| #![trigger manifest[j]] 0 <= j < at && manifest[j].kind is MetadataSnapshot {
        let j = choose|j: int| #![trigger manifest[j]] 0 <= j < at && manifest[j].kind is MetadataSnapshot;
        law_held_snapshot_is_found(manifest, j);
    } else {
        assert(first_snapshot(manifest, at));
    }
}

} // verus!
