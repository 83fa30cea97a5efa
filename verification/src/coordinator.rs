//! Shard 0's connection coordinator: which shard the next connection goes to,
//! and which id the next client gets.
//!
//! A client id carries its owning shard in the top 16 bits, so any shard can
//! route a reply from the id alone. The 112 bits below count mints.

use std::rc::Rc;

use vstd::prelude::*;

use crate::channel::{
    canonical, classify_try_send_err, duplicate_senders, first_misplaced, is_recorded_send, law_send_is_delivered_or_counted, offered_at,
    outcome_of, own_lane_only, validate_sender_ordering, SendRefusal, ShardCtorError, TaggedSender,
};
use crate::frames::{ClientConnMeta, ClientTransportKind, LifecycleFrame, ShardFrame};
use crate::metrics::{frame_drop_reason, frame_drop_variant, ShardMetrics};

verus! {

/// Bit position of the shard tag in a client id.
pub const CLIENT_ID_SHARD_SHIFT: u32 = 112;

/// Ids per shard tag: two to the 112th.
pub const CLIENT_SEQUENCE_SPAN: u128 = 0x1_0000_0000_0000_0000_0000_0000_0000;

/// The largest mint sequence.
pub const CLIENT_SEQUENCE_MASK: u128 = 0xffff_ffff_ffff_ffff_ffff_ffff_ffff;

/// Which connections shard 0 keeps out of.
#[derive(Debug, Clone, Copy, PartialEq, Eq, Structural)]
pub struct CoordinatorConfig {
    pub skip_shard_zero_for_replicas: bool,
    pub skip_shard_zero_for_clients: bool,
}

impl Default for CoordinatorConfig {
    fn default() -> (config: CoordinatorConfig)
        ensures
            config.skip_shard_zero_for_replicas,
            !config.skip_shard_zero_for_clients,
    {
        CoordinatorConfig { skip_shard_zero_for_replicas: true, skip_shard_zero_for_clients: false }
    }
}

/// First shard the rotation visits.
pub open spec fn rr_offset(total_shards: u16, skip_zero: bool) -> int {
    if skip_zero && total_shards > 1 {
        1
    } else {
        0
    }
}

/// Shards the rotation visits.
pub open spec fn rr_width(total_shards: u16, skip_zero: bool) -> int {
    if total_shards - rr_offset(total_shards, skip_zero) >= 1 {
        total_shards - rr_offset(total_shards, skip_zero)
    } else {
        1
    }
}

/// The shard a counter reading picks.
pub open spec fn rr_target(reading: int, total_shards: u16, skip_zero: bool) -> int {
    rr_offset(total_shards, skip_zero) + reading % rr_width(total_shards, skip_zero)
}

/// The counter after a pick, wrapping at the top.
pub open spec fn rr_advanced(counter: u16) -> int {
    if counter == u16::MAX {
        0
    } else {
        counter + 1
    }
}

/// Advance the counter and pick the next target shard. Shard 0 is skipped only
/// where there is another.
pub fn rr_pick(counter: &mut u16, total_shards: u16, skip_zero: bool) -> (target: u16)
    ensures
        target == rr_target(*old(counter) as int, total_shards, skip_zero),
        *final(counter) == rr_advanced(*old(counter)),
{
    let offset: u16 = if skip_zero && total_shards > 1 {
        1
    } else {
        0
    };
    let span: u16 = total_shards.saturating_sub(offset);
    let width: u16 = if span >= 1 {
        span
    } else {
        1
    };
    let reading: u16 = *counter;
    *counter = reading.wrapping_add(1);
    offset + reading % width
}

/// A pick is a shard of this node, and not shard 0 where it is to be
/// skipped and another exists.
pub proof fn law_rr_target_is_a_shard(reading: int, total_shards: u16, skip_zero: bool)
    requires
        total_shards >= 1,
        reading >= 0,
    ensures
        0 <= rr_target(reading, total_shards, skip_zero) < total_shards,
        skip_zero && total_shards > 1 ==> rr_target(reading, total_shards, skip_zero) >= 1,
{
}

/// As many picks in a row as there are targets visit every one of them,
/// as long as the counter does not wrap meanwhile.
pub proof fn law_rr_visits_every_target(reading: int, total_shards: u16, skip_zero: bool, target: int) -> (step: int)
    requires
        total_shards >= 1,
        reading >= 0,
        rr_offset(total_shards, skip_zero) <= target < total_shards,
    ensures
        0 <= step < rr_width(total_shards, skip_zero),
        rr_target(reading + step, total_shards, skip_zero) == target,
{
    let width = rr_width(total_shards, skip_zero);
    let wanted = target - rr_offset(total_shards, skip_zero);
    let at = reading % width;
    let step = if wanted >= at {
        wanted - at
    } else {
        wanted - at + width
    };
    assert((reading + step) % width == wanted) by {
        let q = reading / width;
        vstd::arithmetic::div_mod::lemma_fundamental_div_mod(reading, width);
        if wanted >= at {
            assert(reading + step == width * q + wanted);
            vstd::arithmetic::div_mod::lemma_fundamental_div_mod_converse(reading + step, width, q, wanted);
        } else {
            assert(width * (q + 1) == width * q + width) by (nonlinear_arith);
            assert(reading + step == width * (q + 1) + wanted);
            vstd::arithmetic::div_mod::lemma_fundamental_div_mod_converse(reading + step, width, q + 1, wanted);
        }
    }
    step
}

/// Shard tag of a client id.
pub open spec fn id_tag(id: u128) -> int {
    id as int / CLIENT_SEQUENCE_SPAN as int
}

/// Mint sequence of a client id.
pub open spec fn id_sequence(id: u128) -> int {
    id as int % CLIENT_SEQUENCE_SPAN as int
}

/// The sequence the next mint takes: zero is no client id, so it is skipped.
pub open spec fn next_sequence(client_seq: u128) -> int {
    let seq = client_seq as int % CLIENT_SEQUENCE_SPAN as int;
    if seq == 0 {
        1
    } else {
        seq
    }
}

/// The id the next mint gives a client of `target_shard`.
pub open spec fn minted_id(target_shard: u16, client_seq: u128) -> int {
    target_shard * CLIENT_SEQUENCE_SPAN + next_sequence(client_seq)
}

/// Where the counter stands after a mint.
pub open spec fn sequence_after(client_seq: u128) -> int {
    (next_sequence(client_seq) + 1) % CLIENT_SEQUENCE_SPAN as int
}

/// The id belongs to a shard of this node.
pub open spec fn is_local_id(id: u128, total_shards: u16) -> bool {
    id_tag(id) < total_shards
}

/// `highest` is the highest sequence among this node's ids.
pub open spec fn is_highest_sequence(ids: Seq<u128>, total_shards: u16, highest: int) -> bool {
    &&& exists|i: int| #![trigger ids[i]] 0 <= i < ids.len() && is_local_id(ids[i], total_shards) && id_sequence(ids[i]) == highest
    &&& forall|i: int|
        #![trigger ids[i]]
        0 <= i < ids.len() && is_local_id(ids[i], total_shards) ==> id_sequence(ids[i]) <= highest
}

/// None of the ids is this node's.
pub open spec fn no_local_id(ids: Seq<u128>, total_shards: u16) -> bool {
    forall|i: int| #![trigger ids[i]] 0 <= i < ids.len() ==> !is_local_id(ids[i], total_shards)
}

/// Where the counter stands after it was seeded above `highest`.
pub open spec fn seeded_above(client_seq: u128, highest: int) -> int {
    let next = (highest + 1) % CLIENT_SEQUENCE_SPAN as int;
    if next > client_seq {
        next
    } else {
        client_seq as int
    }
}

/// Why a connection was not delegated. `E` is what the system says of a handle
/// it would not duplicate.
#[derive(Debug)]
pub enum DelegateError<E> {
    /// The connection could not be duplicated or its peer not read, and why.
    DupFailed(E),
    /// The target shard's inbox refused the frame.
    RoutingFailed(u16),
}

/// Coordinator of shard 0.
#[verifier::reject_recursive_types(F)]
pub struct ShardZeroCoordinator<F: 'static> {
    /// Its own senders of every shard's lanes, by shard id.
    pub senders: Vec<TaggedSender<F>>,
    pub total_shards: u16,
    pub cfg: CoordinatorConfig,
    pub replica_rr: u16,
    pub client_rr: u16,
    pub client_seq: u128,
    /// View the counter was last seeded for.
    pub seeded_view: Option<u32>,
}

fn local_sequence(id: u128, total_shards: u16) -> (sequence: Option<u128>)
    ensures
        sequence == if is_local_id(id, total_shards) {
            Some(id_sequence(id) as u128)
        } else {
            None
        },
{
    if id / CLIENT_SEQUENCE_SPAN < total_shards as u128 {
        Some(id % CLIENT_SEQUENCE_SPAN)
    } else {
        None
    }
}

fn highest_local_sequence(ids: &Vec<u128>, total_shards: u16) -> (highest: Option<u128>)
    ensures
        match highest {
            Some(value) => is_highest_sequence(ids@, total_shards, value as int) && value < CLIENT_SEQUENCE_SPAN,
            None => no_local_id(ids@, total_shards),
        },
{
    let mut highest: Option<u128> = None;
    let mut i: usize = 0;
    while i < ids.len()
        invariant
            i <= ids@.len(),
            match highest {
                Some(value) => {
                    &&& value < CLIENT_SEQUENCE_SPAN
                    &&& exists|j: int|
                        #![trigger ids@[j]]
                        0 <= j < i && is_local_id(ids@[j], total_shards) && id_sequence(ids@[j]) == value
                    &&& forall|j: int|
                        #![trigger ids@[j]]
                        0 <= j < i && is_local_id(ids@[j], total_shards) ==> id_sequence(ids@[j]) <= value
                },
                None => forall|j: int| #![trigger ids@[j]] 0 <= j < i ==> !is_local_id(ids@[j], total_shards),
            },
        decreases ids@.len() - i,
    {
        if let Some(sequence) = local_sequence(ids[i], total_shards) {
            let higher: bool = match highest {
                Some(value) => sequence > value,
                None => true,
            };
            if higher {
                highest = Some(sequence);
            }
        }
        i += 1;
    }
    highest
}

/// The replica rotation picked a shard.
pub open spec fn is_replica_pick<F>(before: ShardZeroCoordinator<F>, after: ShardZeroCoordinator<F>, target: u16) -> bool {
    &&& target == rr_target(before.replica_rr as int, before.total_shards, before.cfg.skip_shard_zero_for_replicas)
    &&& after == (ShardZeroCoordinator { replica_rr: after.replica_rr, ..before })
    &&& after.replica_rr == rr_advanced(before.replica_rr)
}

/// The client rotation picked a shard.
pub open spec fn is_client_pick<F>(before: ShardZeroCoordinator<F>, after: ShardZeroCoordinator<F>, target: u16) -> bool {
    &&& target == rr_target(before.client_rr as int, before.total_shards, before.cfg.skip_shard_zero_for_clients)
    &&& after == (ShardZeroCoordinator { client_rr: after.client_rr, ..before })
    &&& after.client_rr == rr_advanced(before.client_rr)
}

/// The counter was seeded for a view.
pub open spec fn is_seeding<F>(before: ShardZeroCoordinator<F>, after: ShardZeroCoordinator<F>, view: u32, ids: Seq<u128>) -> bool {
    &&& after == (ShardZeroCoordinator { seeded_view: Some(view), client_seq: after.client_seq, ..before })
    &&& before.seeded_view == Some(view) ==> after.client_seq == before.client_seq
    &&& before.seeded_view != Some(view) && no_local_id(ids, before.total_shards) ==> after.client_seq == before.client_seq
    &&& before.seeded_view != Some(view) && !no_local_id(ids, before.total_shards) ==> exists|highest: int|
        #[trigger] is_highest_sequence(ids, before.total_shards, highest) && after.client_seq == seeded_above(
            before.client_seq,
            highest,
        )
}

/// A replica connection was delegated: the rotation advanced, and the target
/// was offered `setup`, the frame of its handle.
pub open spec fn replica_delegation<F, E>(
    before: ShardZeroCoordinator<F>,
    after: ShardZeroCoordinator<F>,
    metrics_before: ShardMetrics,
    metrics_after: ShardMetrics,
    setup: Result<LifecycleFrame<F>, E>,
    delegated: Result<u16, DelegateError<E>>,
) -> bool {
    let target = rr_target(before.replica_rr as int, before.total_shards, before.cfg.skip_shard_zero_for_replicas);
    &&& after == (ShardZeroCoordinator { replica_rr: after.replica_rr, senders: after.senders, ..before })
    &&& after.replica_rr == rr_advanced(before.replica_rr)
    &&& match setup {
        Ok(setup) => {
            &&& is_recorded_send(
                before.senders@,
                after.senders@,
                target,
                ShardFrame::Lifecycle(setup),
                metrics_before@,
                metrics_after@,
                frame_drop_variant::FD_TRANSFER@,
                delegated is Ok,
            )
            &&& delegated is Ok ==> delegated->Ok_0 == target
            &&& delegated is Err ==> delegated->Err_0 == DelegateError::<E>::RoutingFailed(target as u16)
        },
        Err(cause) => {
            &&& after.senders == before.senders
            &&& metrics_after@ == metrics_before@
            &&& delegated == Err::<u16, _>(DelegateError::DupFailed(cause))
        },
    }
}

/// The frame of an accepted replica connection, where there is a handle.
pub open spec fn inbound_setup<F, E>(fd: Result<F, E>, slot: u64) -> Result<LifecycleFrame<F>, E> {
    match fd {
        Ok(fd) => Ok(LifecycleFrame::ReplicaInboundSetup { fd, slot }),
        Err(cause) => Err(cause),
    }
}

/// The frame of a dialed replica connection, where there is a handle.
pub open spec fn outbound_setup<F, E>(fd: Result<F, E>, replica_id: u8) -> Result<LifecycleFrame<F>, E> {
    match fd {
        Ok(fd) => Ok(LifecycleFrame::ReplicaOutboundSetup { fd, replica_id }),
        Err(cause) => Err(cause),
    }
}

/// The answer to a coordinator over these senders.
pub open spec fn is_coordinator<F>(
    senders: Seq<TaggedSender<F>>,
    total_shards: u16,
    cfg: CoordinatorConfig,
    built: Result<ShardZeroCoordinator<F>, ShardCtorError>,
) -> bool {
    match built {
        Ok(coordinator) => {
            &&& coordinator.wf()
            &&& coordinator == (ShardZeroCoordinator {
                senders: coordinator.senders,
                total_shards,
                cfg,
                replica_rr: 0,
                client_rr: 0,
                client_seq: 1,
                seeded_view: None,
            })
            &&& forall|i: int|
                #![trigger coordinator.senders@[i]]
                0 <= i < coordinator.senders@.len() ==> coordinator.senders@[i].is_fresh() && coordinator.senders@[i].same_lanes(
                    &senders[i],
                )
            &&& total_shards >= 1 && senders.len() == total_shards && canonical(senders)
        },
        Err(ShardCtorError::CoordinatorSendersMismatch { senders: count, total_shards: total }) => {
            &&& total == total_shards
            &&& count == senders.len()
            &&& total_shards == 0 || senders.len() != total_shards
        },
        Err(ShardCtorError::SenderOrderingInvalid { index, expected, actual }) => {
            &&& total_shards >= 1 && senders.len() == total_shards
            &&& first_misplaced(senders, index as int)
            &&& expected == index
            &&& actual == senders[index as int].shard_id
        },
        Err(_) => false,
    }
}

impl<F: 'static> ShardZeroCoordinator<F> {
    pub open spec fn wf(&self) -> bool {
        &&& self.total_shards >= 1
        &&& self.senders@.len() == self.total_shards
        &&& canonical(self.senders@)
        &&& self.client_seq < CLIENT_SEQUENCE_SPAN
    }

    pub fn new(senders: Rc<Vec<TaggedSender<F>>>, total_shards: u16, cfg: CoordinatorConfig) -> (built: Result<
        ShardZeroCoordinator<F>,
        ShardCtorError,
    >)
        ensures
            is_coordinator(senders@, total_shards, cfg, built),
    {
        if total_shards == 0 || senders.len() != total_shards as usize {
            return Err(ShardCtorError::CoordinatorSendersMismatch { senders: senders.len(), total_shards });
        }
        match validate_sender_ordering(&senders) {
            Ok(_) => Ok(
                ShardZeroCoordinator {
                    senders: duplicate_senders(&senders),
                    total_shards,
                    cfg,
                    replica_rr: 0,
                    client_rr: 0,
                    client_seq: 1,
                    seeded_view: None,
                },
            ),
            Err(error) => Err(error),
        }
    }

    pub fn total_shards(&self) -> (total: u16)
        ensures
            total == self.total_shards,
    {
        self.total_shards
    }

    /// The next target shard for a replica connection.
    pub fn next_replica_target(&mut self) -> (target: u16)
        requires
            old(self).wf(),
        ensures
            final(self).wf(),
            target < final(self).total_shards,
            is_replica_pick(*old(self), *final(self), target),
    {
        rr_pick(&mut self.replica_rr, self.total_shards, self.cfg.skip_shard_zero_for_replicas)
    }

    /// The next target shard for a client connection.
    pub fn next_client_target(&mut self) -> (target: u16)
        requires
            old(self).wf(),
        ensures
            final(self).wf(),
            target < final(self).total_shards,
            is_client_pick(*old(self), *final(self), target),
    {
        rr_pick(&mut self.client_rr, self.total_shards, self.cfg.skip_shard_zero_for_clients)
    }

    /// Mint a client id for a connection on `target_shard`.
    ///
    /// The sequence stays inside its half of the id, so it can never carry
    /// into the tag that routes the client's replies.
    pub fn mint_client_id(&mut self, target_shard: u16) -> (id: u128)
        requires
            old(self).wf(),
        ensures
            final(self).wf(),
            id == minted_id(target_shard, old(self).client_seq),
            *final(self) == (ShardZeroCoordinator { client_seq: final(self).client_seq, ..*old(self) }),
            final(self).client_seq == sequence_after(old(self).client_seq),
    {
        let mut seq: u128 = self.client_seq % CLIENT_SEQUENCE_SPAN;
        if seq == 0 {
            seq = 1;
        }
        self.client_seq = (seq + 1) % CLIENT_SEQUENCE_SPAN;
        target_shard as u128 * CLIENT_SEQUENCE_SPAN + seq
    }

    /// Mint a client id for a connection that stays on shard 0. Delegated and
    /// local connections draw from one counter, so their ids never collide.
    pub fn mint_shard_zero_client_id(&mut self) -> (id: u128)
        requires
            old(self).wf(),
        ensures
            final(self).wf(),
            id == minted_id(0, old(self).client_seq),
            id == next_sequence(old(self).client_seq),
            *final(self) == (ShardZeroCoordinator { client_seq: final(self).client_seq, ..*old(self) }),
            final(self).client_seq == sequence_after(old(self).client_seq),
    {
        self.mint_client_id(0)
    }

    /// Reseed the mint counter above every sequence the client table holds,
    /// once per view.
    ///
    /// Ids tagged with no shard of this node were chosen by a client and move
    /// nothing. The counter never goes down.
    pub fn seed_client_sequence(&mut self, view: u32, recovered_ids: &Vec<u128>)
        requires
            old(self).wf(),
        ensures
            final(self).wf(),
            is_seeding(*old(self), *final(self), view, recovered_ids@),
    {
        if let Some(seeded) = self.seeded_view {
            if seeded == view {
                return ;
            }
        }
        self.seeded_view = Some(view);
        if let Some(highest) = highest_local_sequence(recovered_ids, self.total_shards) {
            proof {
                assert(is_highest_sequence(recovered_ids@, self.total_shards, highest as int));
            }
            let next: u128 = (highest + 1) % CLIENT_SEQUENCE_SPAN;
            if next > self.client_seq {
                self.client_seq = next;
            }
        }
    }

    /// Send a setup frame to `target`, counting a refusal.
    fn ship(&mut self, metrics: &mut ShardMetrics, target: u16, setup: LifecycleFrame<F>) -> (outcome: Result<
        (),
        SendRefusal<ShardFrame<F>>,
    >)
        requires
            old(self).wf(),
            target < old(self).total_shards,
        ensures
            final(self).wf(),
            *final(self) == (ShardZeroCoordinator { senders: final(self).senders, ..*old(self) }),
            is_recorded_send(
                old(self).senders@,
                final(self).senders@,
                target as int,
                ShardFrame::Lifecycle(setup),
                old(metrics)@,
                final(metrics)@,
                frame_drop_variant::FD_TRANSFER@,
                outcome is Ok,
            ),
            outcome matches Err(refusal) ==> refusal.spec_item() == ShardFrame::Lifecycle(setup),
    {
        let result: Result<(), SendRefusal<ShardFrame<F>>> = self.senders[target as usize].try_send(
            ShardFrame::lifecycle(setup),
        );
        proof {
            assert(self.senders@ =~= offered_at(
                old(self).senders@,
                target as int,
                ShardFrame::Lifecycle(setup),
                outcome_of(result),
            ));
        }
        match result {
            Ok(_) => Ok(()),
            Err(refusal) => {
                metrics.record_frame_drop(frame_drop_variant::FD_TRANSFER, classify_try_send_err(&refusal));
                Err(refusal)
            },
        }
    }

    /// Delegate an accepted replica connection to the next target. `fd` is its
    /// duplicated handle, or why it could not be duplicated; the rotation
    /// advances either way.
    pub fn delegate_replica_inbound<E>(&mut self, metrics: &mut ShardMetrics, fd: Result<F, E>, slot: u64) -> (delegated: Result<
        u16,
        DelegateError<E>,
    >)
        requires
            old(self).wf(),
        ensures
            final(self).wf(),
            replica_delegation(*old(self), *final(self), *old(metrics), *final(metrics), inbound_setup(fd, slot), delegated),
    {
        let target: u16 = self.next_replica_target();
        match fd {
            Err(cause) => Err(DelegateError::DupFailed(cause)),
            Ok(fd) => match self.ship(metrics, target, LifecycleFrame::ReplicaInboundSetup { fd, slot }) {
                Ok(_) => Ok(target),
                Err(_) => Err(DelegateError::RoutingFailed(target)),
            },
        }
    }

    /// [`Self::delegate_replica_inbound`] for a dialed connection.
    pub fn delegate_replica_outbound<E>(&mut self, metrics: &mut ShardMetrics, fd: Result<F, E>, replica_id: u8) -> (delegated: Result<
        u16,
        DelegateError<E>,
    >)
        requires
            old(self).wf(),
        ensures
            final(self).wf(),
            replica_delegation(*old(self), *final(self), *old(metrics), *final(metrics), outbound_setup(fd, replica_id), delegated),
    {
        let target: u16 = self.next_replica_target();
        match fd {
            Err(cause) => Err(DelegateError::DupFailed(cause)),
            Ok(fd) => match self.ship(metrics, target, LifecycleFrame::ReplicaOutboundSetup { fd, replica_id }) {
                Ok(_) => Ok(target),
                Err(_) => Err(DelegateError::RoutingFailed(target)),
            },
        }
    }

    /// Delegate a client connection to the next target under a fresh id.
    /// `connection` is the peer's address and the duplicated handle, or
    /// why either could not be had; target and id are spent either
    /// way.
    fn delegate_client_as<E>(
        &mut self,
        metrics: &mut ShardMetrics,
        connection: Result<(String, F), E>,
        transport: ClientTransportKind,
    ) -> (delegated: Result<u128, DelegateError<E>>)
        requires
            old(self).wf(),
            transport is Tcp || transport is Ws,
        ensures
            final(self).wf(),
            client_delegation(*old(self), *final(self), *old(metrics), *final(metrics), connection, transport, delegated),
    {
        let target: u16 = self.next_client_target();
        let client_id: u128 = self.mint_client_id(target);
        match connection {
            Err(cause) => Err(DelegateError::DupFailed(cause)),
            Ok((peer_addr, fd)) => {
                let setup: LifecycleFrame<F> = client_setup(fd, ClientConnMeta { client_id, peer_addr, transport });
                match self.ship(metrics, target, setup) {
                    Ok(_) => Ok(client_id),
                    Err(_) => Err(DelegateError::RoutingFailed(target)),
                }
            },
        }
    }

    /// Delegate a client's TCP connection.
    pub fn delegate_client<E>(&mut self, metrics: &mut ShardMetrics, connection: Result<(String, F), E>) -> (delegated: Result<
        u128,
        DelegateError<E>,
    >)
        requires
            old(self).wf(),
        ensures
            final(self).wf(),
            client_delegation(
                *old(self),
                *final(self),
                *old(metrics),
                *final(metrics),
                connection,
                ClientTransportKind::Tcp,
                delegated,
            ),
    {
        self.delegate_client_as(metrics, connection, ClientTransportKind::Tcp)
    }

    /// Delegate a client's TCP connection that is yet to be upgraded to a
    /// WebSocket.
    pub fn delegate_ws_client<E>(&mut self, metrics: &mut ShardMetrics, connection: Result<(String, F), E>) -> (delegated: Result<
        u128,
        DelegateError<E>,
    >)
        requires
            old(self).wf(),
        ensures
            final(self).wf(),
            client_delegation(
                *old(self),
                *final(self),
                *old(metrics),
                *final(metrics),
                connection,
                ClientTransportKind::Ws,
                delegated,
            ),
    {
        self.delegate_client_as(metrics, connection, ClientTransportKind::Ws)
    }
}

/// The frame that carries a client connection.
pub open spec fn client_frame<F>(fd: F, meta: ClientConnMeta) -> LifecycleFrame<F> {
    if meta.transport is Ws {
        LifecycleFrame::ClientWsConnectionSetup { fd, meta }
    } else {
        LifecycleFrame::ClientConnectionSetup { fd, meta }
    }
}

/// The frame that carries a client connection to its shard: one that is to be
/// upgraded to a WebSocket travels as such.
pub fn client_setup<F>(fd: F, meta: ClientConnMeta) -> (setup: LifecycleFrame<F>)
    ensures
        setup == client_frame(fd, meta),
{
    match meta.transport {
        ClientTransportKind::Ws => LifecycleFrame::ClientWsConnectionSetup { fd, meta },
        _ => LifecycleFrame::ClientConnectionSetup { fd, meta },
    }
}

/// What delegating a client does: target and id are spent, the outcome names
/// them, and the target is offered the connection under that id.
pub open spec fn client_delegation<F, E>(
    before: ShardZeroCoordinator<F>,
    after: ShardZeroCoordinator<F>,
    metrics_before: ShardMetrics,
    metrics_after: ShardMetrics,
    connection: Result<(String, F), E>,
    transport: ClientTransportKind,
    delegated: Result<u128, DelegateError<E>>,
) -> bool {
    let target = rr_target(before.client_rr as int, before.total_shards, before.cfg.skip_shard_zero_for_clients);
    let client_id = (target * CLIENT_SEQUENCE_SPAN + next_sequence(before.client_seq)) as u128;
    &&& after == (ShardZeroCoordinator {
        client_rr: after.client_rr,
        client_seq: after.client_seq,
        senders: after.senders,
        ..before
    })
    &&& match connection {
        Ok((peer_addr, fd)) => {
            &&& is_recorded_send(
                before.senders@,
                after.senders@,
                target,
                ShardFrame::Lifecycle(client_frame(fd, ClientConnMeta { client_id, peer_addr, transport })),
                metrics_before@,
                metrics_after@,
                frame_drop_variant::FD_TRANSFER@,
                delegated is Ok,
            )
            &&& delegated is Ok ==> delegated->Ok_0 == target * CLIENT_SEQUENCE_SPAN + next_sequence(before.client_seq)
            &&& delegated is Err ==> delegated->Err_0 == DelegateError::<E>::RoutingFailed(target as u16)
        },
        Err(cause) => {
            &&& after.senders == before.senders
            &&& metrics_after@ == metrics_before@
            &&& delegated == Err::<u128, _>(DelegateError::DupFailed(cause))
        },
    }
    &&& after.client_rr == rr_advanced(before.client_rr)
    &&& after.client_seq == sequence_after(before.client_seq)
}

/// A minted id carries its shard's tag and its own sequence, and is never
/// zero.
pub proof fn law_minted_id_keeps_its_tag(client_seq: u128, target_shard: u16)
    ensures
        ({
            let id = target_shard * CLIENT_SEQUENCE_SPAN + next_sequence(client_seq);
            &&& 0 < id <= u128::MAX
            &&& id_tag(id as u128) == target_shard
            &&& id_sequence(id as u128) == next_sequence(client_seq)
        }),
{
    let span = CLIENT_SEQUENCE_SPAN as int;
    let seq = next_sequence(client_seq);
    let id = target_shard * span + seq;
    assert(id == span * target_shard + seq);
    vstd::arithmetic::div_mod::lemma_fundamental_div_mod_converse(id, span, target_shard as int, seq);
}

/// Where the counter stands after `count` mints.
pub open spec fn sequence_after_mints(client_seq: u128, count: nat) -> u128
    decreases count,
{
    if count == 0 {
        client_seq
    } else {
        sequence_after(sequence_after_mints(client_seq, (count - 1) as nat)) as u128
    }
}

/// The sequence of the mint that follows `count` others.
pub open spec fn minted_sequence(client_seq: u128, count: nat) -> int {
    next_sequence(sequence_after_mints(client_seq, count))
}

proof fn lemma_minted_sequence(client_seq: u128, count: nat)
    ensures
        minted_sequence(client_seq, count) == (next_sequence(client_seq) - 1 + count) % (CLIENT_SEQUENCE_MASK as int) + 1,
    decreases count,
{
    let mask = CLIENT_SEQUENCE_MASK as int;
    let first = next_sequence(client_seq);
    if count == 0 {
        vstd::arithmetic::div_mod::lemma_small_mod((first - 1) as nat, mask as nat);
    } else {
        let before = (count - 1) as nat;
        lemma_minted_sequence(client_seq, before);
        let value = minted_sequence(client_seq, before);
        let offset = first - 1 + before;
        assert(value == offset % mask + 1);
        let q = offset / mask;
        vstd::arithmetic::div_mod::lemma_fundamental_div_mod(offset, mask);
        if value < mask {
            assert(offset + 1 == mask * q + value);
            vstd::arithmetic::div_mod::lemma_fundamental_div_mod_converse(offset + 1, mask, q, value);
        } else {
            assert(offset + 1 == mask * q + mask);
            assert(mask * (q + 1) == mask * q + mask) by (nonlinear_arith);
            vstd::arithmetic::div_mod::lemma_fundamental_div_mod_converse(offset + 1, mask, q + 1, 0);
        }
    }
}

/// No two mints share a sequence until the counter went all the way
/// round, whichever shards they were for.
pub proof fn law_mints_never_repeat(client_seq: u128, earlier: nat, later: nat)
    requires
        earlier < later < earlier + CLIENT_SEQUENCE_MASK,
    ensures
        minted_sequence(client_seq, earlier) != minted_sequence(client_seq, later),
{
    let mask = CLIENT_SEQUENCE_MASK as int;
    lemma_minted_sequence(client_seq, earlier);
    lemma_minted_sequence(client_seq, later);
    let a = next_sequence(client_seq) - 1 + earlier;
    let b = next_sequence(client_seq) - 1 + later;
    if a % mask == b % mask {
        vstd::arithmetic::div_mod::lemma_fundamental_div_mod(a, mask);
        vstd::arithmetic::div_mod::lemma_fundamental_div_mod(b, mask);
        let p = a / mask;
        let q = b / mask;
        assert(b - a == mask * q - mask * p);
        assert(mask * q - mask * p == mask * (q - p)) by (nonlinear_arith);
        assert(mask * (q - p) >= mask || mask * (q - p) <= 0) by (nonlinear_arith)
            requires
                mask > 0,
        ;
        assert(false);
    }
}

/// What moves the mint counter.
pub enum CounterStep {
    Mint,
    /// A seeding: above the highest sequence this node has in the client table,
    /// or nowhere where it has none or the view was seeded before.
    Seed { highest: Option<int> },
}

/// Where the counter stands after one step.
pub open spec fn counter_after(client_seq: u128, step: CounterStep) -> u128 {
    match step {
        CounterStep::Mint => sequence_after(client_seq) as u128,
        CounterStep::Seed { highest: Some(highest) } => seeded_above(client_seq, highest) as u128,
        CounterStep::Seed { highest: None } => client_seq,
    }
}

/// Where the counter stands after several steps, in order.
pub open spec fn counter_after_all(client_seq: u128, steps: Seq<CounterStep>) -> u128
    decreases steps.len(),
{
    if steps.len() == 0 {
        client_seq
    } else {
        counter_after(counter_after_all(client_seq, steps.drop_last()), steps.last())
    }
}

/// How many sequences one step leaves behind: a mint its own, a seeding those
/// it skips.
pub open spec fn step_distance(client_seq: u128, step: CounterStep) -> int {
    match step {
        CounterStep::Mint => 1,
        CounterStep::Seed { .. } => next_sequence(counter_after(client_seq, step)) - next_sequence(client_seq),
    }
}

/// How many sequences several steps leave behind.
pub open spec fn distance(client_seq: u128, steps: Seq<CounterStep>) -> int
    decreases steps.len(),
{
    if steps.len() == 0 {
        0
    } else {
        distance(client_seq, steps.drop_last()) + step_distance(
            counter_after_all(client_seq, steps.drop_last()),
            steps.last(),
        )
    }
}

proof fn lemma_counter_step(client_seq: u128, step: CounterStep)
    requires
        client_seq < CLIENT_SEQUENCE_SPAN,
    ensures
        counter_after(client_seq, step) < CLIENT_SEQUENCE_SPAN,
        step_distance(client_seq, step) >= 0,
        next_sequence(counter_after(client_seq, step)) - 1 == (next_sequence(client_seq) - 1 + step_distance(client_seq, step))
            % (CLIENT_SEQUENCE_MASK as int),
{
    let mask = CLIENT_SEQUENCE_MASK as int;
    let after = counter_after(client_seq, step);
    vstd::arithmetic::div_mod::lemma_small_mod(client_seq as nat, CLIENT_SEQUENCE_SPAN as nat);
    match step {
        CounterStep::Mint => {
            lemma_minted_sequence(client_seq, 1);
            assert(sequence_after_mints(client_seq, 0) == client_seq);
            assert(sequence_after_mints(client_seq, 1) == after);
        },
        CounterStep::Seed { highest } => {
            if let Some(highest) = highest {
                assert(0 <= (highest + 1) % CLIENT_SEQUENCE_SPAN as int);
            }
            vstd::arithmetic::div_mod::lemma_small_mod(after as nat, CLIENT_SEQUENCE_SPAN as nat);
            vstd::arithmetic::div_mod::lemma_small_mod((next_sequence(after) - 1) as nat, mask as nat);
        },
    }
}

proof fn lemma_counter_steps(client_seq: u128, steps: Seq<CounterStep>)
    requires
        client_seq < CLIENT_SEQUENCE_SPAN,
    ensures
        counter_after_all(client_seq, steps) < CLIENT_SEQUENCE_SPAN,
        distance(client_seq, steps) >= 0,
        steps.len() > 0 && steps[0] is Mint ==> distance(client_seq, steps) >= 1,
        next_sequence(counter_after_all(client_seq, steps)) - 1 == (next_sequence(client_seq) - 1 + distance(client_seq, steps))
            % (CLIENT_SEQUENCE_MASK as int),
    decreases steps.len(),
{
    let mask = CLIENT_SEQUENCE_MASK as int;
    let first = next_sequence(client_seq) - 1;
    vstd::arithmetic::div_mod::lemma_small_mod(client_seq as nat, CLIENT_SEQUENCE_SPAN as nat);
    if steps.len() == 0 {
        vstd::arithmetic::div_mod::lemma_small_mod(first as nat, mask as nat);
    } else {
        let fewer = steps.drop_last();
        let before = counter_after_all(client_seq, fewer);
        lemma_counter_steps(client_seq, fewer);
        lemma_counter_step(before, steps.last());
        let travelled = first + distance(client_seq, fewer);
        let step = step_distance(before, steps.last());
        vstd::arithmetic::div_mod::lemma_add_mod_noop(travelled, step, mask);
        vstd::arithmetic::div_mod::lemma_add_mod_noop(travelled % mask, step, mask);
        vstd::arithmetic::div_mod::lemma_mod_twice(travelled, mask);
        if fewer.len() > 0 {
            assert(fewer[0] == steps[0]);
        } else {
            assert(steps[0] == steps.last());
        }
    }
}

/// No mint repeats a sequence, and so no id, until the counter went all the way
/// round, whichever mints and seedings come between the two and whichever
/// shards they were for.
pub proof fn law_mints_never_repeat_across_seedings(client_seq: u128, steps: Seq<CounterStep>)
    requires
        client_seq < CLIENT_SEQUENCE_SPAN,
        steps.len() > 0,
        steps[0] is Mint,
        distance(client_seq, steps) < CLIENT_SEQUENCE_MASK,
    ensures
        next_sequence(counter_after_all(client_seq, steps)) != next_sequence(client_seq),
        forall|earlier: u16, later: u16|
            #[trigger] minted_id(earlier, client_seq) != #[trigger] minted_id(later, counter_after_all(client_seq, steps)),
{
    let mask = CLIENT_SEQUENCE_MASK as int;
    let first = next_sequence(client_seq) - 1;
    let travelled = distance(client_seq, steps);
    vstd::arithmetic::div_mod::lemma_small_mod(client_seq as nat, CLIENT_SEQUENCE_SPAN as nat);
    lemma_counter_steps(client_seq, steps);
    if first + travelled < mask {
        vstd::arithmetic::div_mod::lemma_small_mod((first + travelled) as nat, mask as nat);
    } else {
        vstd::arithmetic::div_mod::lemma_fundamental_div_mod_converse(
            first + travelled,
            mask,
            1,
            first + travelled - mask,
        );
    }
}

/// Once seeded, the next mint lies above every id of this node in the
/// table, unless the table already holds the largest sequence there is.
pub proof fn law_seeded_counter_mints_above_the_table(
    client_seq: u128,
    ids: Seq<u128>,
    total_shards: u16,
    highest: int,
    index: int,
)
    requires
        client_seq < CLIENT_SEQUENCE_SPAN,
        is_highest_sequence(ids, total_shards, highest),
        highest < CLIENT_SEQUENCE_MASK,
        0 <= index < ids.len(),
        is_local_id(ids[index], total_shards),
    ensures
        next_sequence(seeded_above(client_seq, highest) as u128) > id_sequence(ids[index]),
{
    let span = CLIENT_SEQUENCE_SPAN as int;
    let _ = ids[index];
    vstd::arithmetic::div_mod::lemma_small_mod((highest + 1) as nat, span as nat);
    let seeded = seeded_above(client_seq, highest);
    vstd::arithmetic::div_mod::lemma_small_mod(seeded as nat, span as nat);
}

/// Seeding never takes the counter down.
pub proof fn law_seed_never_lowers_the_counter(client_seq: u128, highest: int)
    ensures
        seeded_above(client_seq, highest) >= client_seq,
{
}

/// An id tagged with no shard of this node moves nothing.
pub proof fn law_foreign_id_does_not_move_the_seed(ids: Seq<u128>, total_shards: u16, foreign: u128, highest: int)
    requires
        !is_local_id(foreign, total_shards),
    ensures
        is_highest_sequence(ids.push(foreign), total_shards, highest) == is_highest_sequence(ids, total_shards, highest),
        no_local_id(ids.push(foreign), total_shards) == no_local_id(ids, total_shards),
{
    let more = ids.push(foreign);
    if is_highest_sequence(more, total_shards, highest) {
        let i = choose|i: int|
            #![trigger more[i]]
            0 <= i < more.len() && is_local_id(more[i], total_shards) && id_sequence(more[i]) == highest;
        assert(ids[i] == more[i]);
        assert forall|j: int| #![trigger ids[j]] 0 <= j < ids.len() && is_local_id(ids[j], total_shards) implies id_sequence(
            ids[j],
        ) <= highest by {
            assert(more[j] == ids[j]);
        }
    }
    if is_highest_sequence(ids, total_shards, highest) {
        let i = choose|i: int|
            #![trigger ids[i]]
            0 <= i < ids.len() && is_local_id(ids[i], total_shards) && id_sequence(ids[i]) == highest;
        assert(more[i] == ids[i]);
    }
    if no_local_id(more, total_shards) {
        assert forall|j: int| #![trigger ids[j]] 0 <= j < ids.len() implies !is_local_id(ids[j], total_shards) by {
            assert(more[j] == ids[j]);
        }
    }
}

/// The rotation goes round: a pick is followed by the next shard, and the last
/// one by the first that is visited; shard 0 is passed over exactly where it
/// is to be and another shard exists.
pub proof fn law_rotation_goes_round(counter: u16, total_shards: u16, skip_zero: bool)
    requires
        total_shards >= 1,
        counter < u16::MAX,
    ensures
        ({
            let target = rr_target(counter as int, total_shards, skip_zero);
            let next = rr_target(rr_advanced(counter), total_shards, skip_zero);
            let first: int = if skip_zero && total_shards > 1 {
                1
            } else {
                0
            };
            &&& target < total_shards - 1 ==> next == target + 1
            &&& target == total_shards - 1 ==> next == first
            &&& rr_target(0, total_shards, skip_zero) == first
        }),
        rr_advanced(counter) == counter + 1,
        rr_advanced(u16::MAX) == 0,
{
    let width = rr_width(total_shards, skip_zero);
    let reading = counter as int;
    let q = reading / width;
    let at = reading % width;
    vstd::arithmetic::div_mod::lemma_fundamental_div_mod(reading, width);
    if at + 1 < width {
        vstd::arithmetic::div_mod::lemma_fundamental_div_mod_converse(reading + 1, width, q, at + 1);
    } else {
        assert(width * (q + 1) == width * q + width) by (nonlinear_arith);
        vstd::arithmetic::div_mod::lemma_fundamental_div_mod_converse(reading + 1, width, q + 1, 0);
    }
    vstd::arithmetic::div_mod::lemma_small_mod(0, width as nat);
}

/// Replicas and clients rotate on their own: a pick for one moves neither the
/// other's place nor the ids, and each goes by its own rule for shard 0.
pub proof fn law_rotations_are_independent<F>(
    before: ShardZeroCoordinator<F>,
    replica: ShardZeroCoordinator<F>,
    client: ShardZeroCoordinator<F>,
    replica_target: u16,
    client_target: u16,
)
    requires
        before.wf(),
        is_replica_pick(before, replica, replica_target),
        is_client_pick(before, client, client_target),
    ensures
        replica.client_rr == before.client_rr && replica.client_seq == before.client_seq,
        client.replica_rr == before.replica_rr && client.client_seq == before.client_seq,
        before.replica_rr < u16::MAX ==> replica.replica_rr == before.replica_rr + 1,
        before.client_rr < u16::MAX ==> client.client_rr == before.client_rr + 1,
        replica_target < before.total_shards && client_target < before.total_shards,
        before.cfg.skip_shard_zero_for_replicas && before.total_shards > 1 ==> replica_target != 0,
        before.cfg.skip_shard_zero_for_clients && before.total_shards > 1 ==> client_target != 0,
{
    law_rr_target_is_a_shard(before.replica_rr as int, before.total_shards, before.cfg.skip_shard_zero_for_replicas);
    law_rr_target_is_a_shard(before.client_rr as int, before.total_shards, before.cfg.skip_shard_zero_for_clients);
}

/// A replica connection arrives with its handle at the shard the rotation
/// picked, which is the one that is named; where its lane refused it, that is
/// counted and the same shard named. Without a handle nothing is sent and the
/// cause comes back. The rotation advances every time.
pub proof fn law_replica_connection_reaches_its_target<F, E>(
    before: ShardZeroCoordinator<F>,
    after: ShardZeroCoordinator<F>,
    metrics_before: ShardMetrics,
    metrics_after: ShardMetrics,
    setup: Result<LifecycleFrame<F>, E>,
    delegated: Result<u16, DelegateError<E>>,
)
    requires
        before.wf(),
        replica_delegation(before, after, metrics_before, metrics_after, setup, delegated),
    ensures
        ({
            let target = rr_target(before.replica_rr as int, before.total_shards, before.cfg.skip_shard_zero_for_replicas);
            &&& 0 <= target < before.total_shards
            &&& setup is Ok ==> own_lane_only(before.senders@, after.senders@, target)
            &&& delegated is Ok ==> {
                &&& setup is Ok && delegated->Ok_0 == target
                &&& after.senders@[target].inner.handed() == before.senders@[target].inner.handed().push(
                    ShardFrame::Lifecycle(setup->Ok_0),
                )
                &&& metrics_after@ == metrics_before@
            }
            &&& setup is Ok && delegated is Err ==> {
                &&& delegated->Err_0 is RoutingFailed && delegated->Err_0->RoutingFailed_0 == target
                &&& {
                    ||| metrics_after@ == metrics_before@.dropped(frame_drop_variant::FD_TRANSFER@, frame_drop_reason::FULL@)
                    ||| metrics_after@ == metrics_before@.dropped(
                        frame_drop_variant::FD_TRANSFER@,
                        frame_drop_reason::DISCONNECTED@,
                    )
                }
            }
            &&& setup is Err ==> {
                &&& delegated is Err && delegated->Err_0 is DupFailed && delegated->Err_0->DupFailed_0 == setup->Err_0
                &&& after.senders == before.senders && metrics_after@ == metrics_before@
            }
            &&& before.replica_rr < u16::MAX ==> after.replica_rr == before.replica_rr + 1
            &&& after.client_seq == before.client_seq && after.client_rr == before.client_rr
        }),
{
    let target = rr_target(before.replica_rr as int, before.total_shards, before.cfg.skip_shard_zero_for_replicas);
    law_rr_target_is_a_shard(before.replica_rr as int, before.total_shards, before.cfg.skip_shard_zero_for_replicas);
    if setup is Ok {
        law_send_is_delivered_or_counted(
            before.senders@,
            after.senders@,
            target,
            ShardFrame::Lifecycle(setup->Ok_0),
            metrics_before@,
            metrics_after@,
            frame_drop_variant::FD_TRANSFER@,
            delegated is Ok,
        );
    }
}

/// The setup frame of a replica connection carries its handle and what it is
/// to be known by.
pub proof fn law_replica_setup_carries_its_handle<F, E>(fd: Result<F, E>, slot: u64, replica_id: u8)
    ensures
        fd is Ok <==> inbound_setup(fd, slot) is Ok,
        fd is Ok <==> outbound_setup(fd, replica_id) is Ok,
        fd is Ok ==> {
            let inbound = inbound_setup(fd, slot)->Ok_0;
            let outbound = outbound_setup(fd, replica_id)->Ok_0;
            &&& inbound is ReplicaInboundSetup && inbound->ReplicaInboundSetup_fd == fd->Ok_0
            &&& inbound->ReplicaInboundSetup_slot == slot
            &&& outbound is ReplicaOutboundSetup && outbound->ReplicaOutboundSetup_fd == fd->Ok_0
            &&& outbound->ReplicaOutboundSetup_replica_id == replica_id
        },
        fd is Err ==> inbound_setup(fd, slot)->Err_0 == fd->Err_0 && outbound_setup(fd, replica_id)->Err_0 == fd->Err_0,
{
}

/// A client connection arrives at the shard the rotation picked, under an id
/// that names that shard and was never zero, with its address, its handle and
/// the frame its transport asks for; whoever delegated it learns that id. Where
/// the lane refused it, that is counted and the shard named. Target and id are
/// spent every time.
pub proof fn law_client_connection_reaches_its_target<F, E>(
    before: ShardZeroCoordinator<F>,
    after: ShardZeroCoordinator<F>,
    metrics_before: ShardMetrics,
    metrics_after: ShardMetrics,
    connection: Result<(String, F), E>,
    transport: ClientTransportKind,
    delegated: Result<u128, DelegateError<E>>,
)
    requires
        before.wf(),
        client_delegation(before, after, metrics_before, metrics_after, connection, transport, delegated),
    ensures
        ({
            let target = rr_target(before.client_rr as int, before.total_shards, before.cfg.skip_shard_zero_for_clients);
            let last = after.senders@[target].inner.handed().last();
            let setup = last->Lifecycle_0;
            let meta = if transport is Ws {
                setup->ClientWsConnectionSetup_meta
            } else {
                setup->ClientConnectionSetup_meta
            };
            &&& 0 <= target < before.total_shards
            &&& connection is Ok ==> own_lane_only(before.senders@, after.senders@, target)
            &&& delegated is Ok ==> {
                &&& connection is Ok
                &&& delegated->Ok_0 != 0
                &&& id_tag(delegated->Ok_0) == target
                &&& id_sequence(delegated->Ok_0) == next_sequence(before.client_seq)
                &&& after.senders@[target].inner.handed().len() == before.senders@[target].inner.handed().len() + 1
                &&& last is Lifecycle
                &&& transport is Ws ==> setup is ClientWsConnectionSetup && setup->ClientWsConnectionSetup_fd
                    == (connection->Ok_0).1
                &&& !(transport is Ws) ==> setup is ClientConnectionSetup && setup->ClientConnectionSetup_fd == (connection->Ok_0).1
                &&& meta.client_id == delegated->Ok_0
                &&& meta.peer_addr == (connection->Ok_0).0
                &&& meta.transport == transport
                &&& metrics_after@ == metrics_before@
            }
            &&& connection is Ok && delegated is Err ==> {
                &&& delegated->Err_0 is RoutingFailed && delegated->Err_0->RoutingFailed_0 == target
                &&& {
                    ||| metrics_after@ == metrics_before@.dropped(frame_drop_variant::FD_TRANSFER@, frame_drop_reason::FULL@)
                    ||| metrics_after@ == metrics_before@.dropped(
                        frame_drop_variant::FD_TRANSFER@,
                        frame_drop_reason::DISCONNECTED@,
                    )
                }
            }
            &&& connection is Err ==> {
                &&& delegated is Err && delegated->Err_0 is DupFailed && delegated->Err_0->DupFailed_0 == connection->Err_0
                &&& after.senders == before.senders && metrics_after@ == metrics_before@
            }
            &&& before.client_rr < u16::MAX ==> after.client_rr == before.client_rr + 1
            &&& after.client_seq == sequence_after(before.client_seq)
            &&& after.replica_rr == before.replica_rr
        }),
{
    let target = rr_target(before.client_rr as int, before.total_shards, before.cfg.skip_shard_zero_for_clients);
    law_rr_target_is_a_shard(before.client_rr as int, before.total_shards, before.cfg.skip_shard_zero_for_clients);
    law_minted_id_keeps_its_tag(before.client_seq, target as u16);
    if connection is Ok {
        let client_id = (target * CLIENT_SEQUENCE_SPAN + next_sequence(before.client_seq)) as u128;
        let frame = ShardFrame::Lifecycle(
            client_frame((connection->Ok_0).1, ClientConnMeta { client_id, peer_addr: (connection->Ok_0).0, transport }),
        );
        law_send_is_delivered_or_counted(
            before.senders@,
            after.senders@,
            target,
            frame,
            metrics_before@,
            metrics_after@,
            frame_drop_variant::FD_TRANSFER@,
            delegated is Ok,
        );
    }
}

/// The sequences go up one at a time from where the counter stands, past zero
/// and round at the top.
pub proof fn law_sequences_go_up_by_one(client_seq: u128)
    requires
        client_seq < CLIENT_SEQUENCE_SPAN,
    ensures
        client_seq > 0 ==> next_sequence(client_seq) == client_seq,
        next_sequence(client_seq) >= 1,
        next_sequence(client_seq) < CLIENT_SEQUENCE_MASK ==> sequence_after(client_seq) == next_sequence(client_seq) + 1,
        next_sequence(client_seq) == CLIENT_SEQUENCE_MASK ==> sequence_after(client_seq) == 0,
{
    let span = CLIENT_SEQUENCE_SPAN as int;
    vstd::arithmetic::div_mod::lemma_small_mod(client_seq as nat, span as nat);
    let next = next_sequence(client_seq) + 1;
    if next < span {
        vstd::arithmetic::div_mod::lemma_small_mod(next as nat, span as nat);
    } else {
        vstd::arithmetic::div_mod::lemma_mod_self_0(span);
    }
}

/// A view is seeded once: the first time the counter goes above every sequence
/// this node has in the table, unless it stands there already, and the second
/// time nothing moves.
pub proof fn law_view_is_seeded_once<F>(
    before: ShardZeroCoordinator<F>,
    after: ShardZeroCoordinator<F>,
    view: u32,
    ids: Seq<u128>,
    index: int,
)
    requires
        before.wf(),
        is_seeding(before, after, view, ids),
        0 <= index < ids.len(),
    ensures
        after.seeded_view == Some(view),
        before.seeded_view == Some(view) ==> after.client_seq == before.client_seq,
        after.client_seq >= before.client_seq,
        before.seeded_view != Some(view) && is_local_id(ids[index], before.total_shards) && (forall|i: int|
            #![trigger ids[i]]
            0 <= i < ids.len() ==> id_sequence(ids[i]) < CLIENT_SEQUENCE_MASK) ==> next_sequence(after.client_seq) > id_sequence(
            ids[index],
        ),
        no_local_id(ids, before.total_shards) ==> after.client_seq == before.client_seq,
        after.replica_rr == before.replica_rr && after.client_rr == before.client_rr,
{
    let _ = ids[index];
    if before.seeded_view != Some(view) && is_local_id(ids[index], before.total_shards) {
        let highest = choose|highest: int|
            #[trigger] is_highest_sequence(ids, before.total_shards, highest) && after.client_seq == seeded_above(
                before.client_seq,
                highest,
            );
        if highest < CLIENT_SEQUENCE_MASK {
            law_seeded_counter_mints_above_the_table(before.client_seq, ids, before.total_shards, highest, index);
        }
    }
}

/// A coordinator is built exactly over one sender per shard, each at its own
/// index. It starts both rotations at their first shard and mints its first id
/// with sequence one, on lanes of its own.
pub proof fn law_coordinator_needs_every_lane_in_place<F>(
    senders: Seq<TaggedSender<F>>,
    total_shards: u16,
    cfg: CoordinatorConfig,
    built: Result<ShardZeroCoordinator<F>, ShardCtorError>,
)
    requires
        is_coordinator(senders, total_shards, cfg, built),
    ensures
        built is Ok <==> total_shards >= 1 && senders.len() == total_shards && canonical(senders),
        built is Ok ==> {
            let coordinator = built->Ok_0;
            &&& coordinator.total_shards == total_shards && coordinator.cfg == cfg
            &&& coordinator.senders@.len() == senders.len()
            &&& coordinator.replica_rr == 0 && coordinator.client_rr == 0 && coordinator.seeded_view is None
            &&& next_sequence(coordinator.client_seq) == 1
        },
        built is Err && (total_shards == 0 || senders.len() != total_shards) ==> {
            &&& built->Err_0 is CoordinatorSendersMismatch
            &&& built->Err_0->senders == senders.len() && built->Err_0->total_shards == total_shards
        },
        built is Err && total_shards > 0 && senders.len() == total_shards ==> {
            let at = built->Err_0->index;
            &&& built->Err_0 is SenderOrderingInvalid
            &&& at < senders.len() && built->Err_0->expected == at
            &&& built->Err_0->actual == senders[at as int].shard_id && built->Err_0->actual != at
        },
{
    if built is Err && built->Err_0 is SenderOrderingInvalid {
        let _ = senders[built->Err_0->index as int];
    }
    vstd::arithmetic::div_mod::lemma_small_mod(1, CLIENT_SEQUENCE_SPAN as nat);
}

/// An id is this node's exactly where the shard it was minted for is.
pub proof fn law_id_is_local_to_its_shard(client_seq: u128, target_shard: u16, total_shards: u16)
    ensures
        is_local_id((target_shard * CLIENT_SEQUENCE_SPAN + next_sequence(client_seq)) as u128, total_shards) <==> target_shard
            < total_shards,
{
    law_minted_id_keeps_its_tag(client_seq, target_shard);
}

} // verus!
