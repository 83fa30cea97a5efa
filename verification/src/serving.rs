//! Serving side of state transfer: which offers a shard holds for which
//! requester, how many partition transfers it admits at once, what a chunk
//! request is answered, and when an abandoned offer goes away.

use std::collections::HashMap;
use std::rc::Rc;

use vstd::prelude::*;
use vstd::std_specs::hash::group_hash_axioms;

use crate::lists::{
    insert_sorted, keys_of, lemma_filter_is_subsequence, lemma_filter_keeps_keys_distinct, retain_where, strictly_sorted,
};
use crate::metrics::bumped;
use crate::segment_cache::{
    cache_key, holds_nothing, holds_payload, is_cache_read, is_insertion, law_inserted_payload_is_resident, other_namespaces,
    sweep_floor, swept_since, total_len, CachedSegmentPayload, ServedSegmentCache,
};

verus! {

broadcast use group_hash_axioms;

/// Largest payload of one state chunk.
pub const STATE_CHUNK_LEN: u32 = 256 * 1024;

/// Bus frame ceiling until configuration overrides it.
pub const DEFAULT_BUS_MAX_MESSAGE_SIZE: usize = 64 * 1024 * 1024;

/// Lifetime of an offer nobody pulls, in repair-retry intervals.
pub const STATE_TRANSFER_OFFER_EXPIRY_MULTIPLE: u32 = 10;

/// Lifetime of a fully served offer, in repair-retry intervals. It only has to
/// outlive the receiver asking for a lost final chunk again.
pub const STATE_TRANSFER_SERVED_EXPIRY_MULTIPLE: u32 = 3;

/// Largest segment size any configuration can set.
pub const SEGMENT_SIZE_CEILING_BYTES: u64 = 1024 * 1024 * 1024;

/// The most a segment overshoots its size: rotation checks after the append.
pub const SEGMENT_SIZE_OVERSHOOT_BYTES: u64 = 64 * 1024 * 1024;

/// Default ceiling for one received state-transfer artifact.
pub const PARTITION_ARTIFACT_LEN_DEFAULT: u64 = SEGMENT_SIZE_CEILING_BYTES + SEGMENT_SIZE_OVERSHOOT_BYTES;

/// Distinct largest segments the served-payload budget holds at once.
pub const CONCURRENT_SERVED_SEGMENTS: u64 = 2;

/// Default resident budget for served segment payloads.
pub const SERVED_SEGMENT_CACHE_BYTES_DEFAULT: u64 = PARTITION_ARTIFACT_LEN_DEFAULT * CONCURRENT_SERVED_SEGMENTS;

/// What a state-transfer artifact holds.
#[derive(Debug, Clone, Copy, PartialEq, Eq, Structural)]
pub enum ArtifactKind {
    MetadataSnapshot,
    ClientTable,
    SegmentLog,
    ConsumerOffsets,
    Unknown(u32),
}

/// One manifest entry.
#[derive(Debug, Clone, Copy, PartialEq, Eq, Structural)]
pub struct StateArtifact {
    pub kind: ArtifactKind,
    pub len: u64,
    pub checksum: u64,
    pub frontier: u64,
}

/// Where an artifact's bytes come from.
#[derive(Debug)]
pub enum ArtifactSource {
    /// Held by the offer.
    Bytes(Rc<Vec<u8>>),
    /// Loaded from the segment file on demand.
    Segment { log_path: String, entry: StateArtifact },
}

/// The plane an offer belongs to.
#[derive(Debug, Clone, Copy, PartialEq, Eq, Structural)]
pub enum OfferPlane {
    Metadata,
    Partition,
}

/// A built offer: its manifest and where the bytes come from, entry by entry.
#[derive(Debug)]
pub struct StateTransferOffer {
    pub plane: OfferPlane,
    pub commit_op: u64,
    pub manifest: Vec<StateArtifact>,
    pub artifacts: Vec<ArtifactSource>,
}

/// An offer served to one requester.
pub struct ServedStateTransfer {
    pub namespace: u64,
    pub requester: u8,
    pub nonce: u128,
    pub offer: Rc<StateTransferOffer>,
    /// Ticks since the offer last served anything.
    pub idle_ticks: u32,
    /// The last byte of the last artifact went out.
    pub fully_served: bool,
}

/// The answer to a state-transfer request: the offer if there is one, and what
/// the serving replica knows of its own progress either way.
pub struct TransferDescriptor {
    pub offer: Option<Rc<StateTransferOffer>>,
    pub view: u32,
    pub commit_max: u64,
    /// A refusal to retry soon, charging nothing.
    pub transient: bool,
}

impl TransferDescriptor {
    pub fn available(offer: Rc<StateTransferOffer>, view: u32, commit_max: u64) -> (descriptor: TransferDescriptor)
        ensures
            descriptor == (TransferDescriptor { offer: Some(offer), view, commit_max, transient: false }),
    {
        TransferDescriptor { offer: Some(offer), view, commit_max, transient: false }
    }

    pub fn unavailable(transient: bool, view: u32, commit_max: u64) -> (descriptor: TransferDescriptor)
        ensures
            descriptor == (TransferDescriptor { offer: None, view, commit_max, transient }),
    {
        TransferDescriptor { offer: None, view, commit_max, transient }
    }

    pub open spec fn spec_fields(self) -> TargetFields {
        TargetFields {
            available: if self.offer is Some {
                1u8
            } else {
                0u8
            },
            commit_op: match self.offer {
                Some(offer) => offer.commit_op,
                None => 0,
            },
            view: self.view,
            commit_max: self.commit_max,
            unavailable_transient: if self.transient {
                1u8
            } else {
                0u8
            },
        }
    }

    /// The fields the descriptor puts on the wire.
    pub fn target_fields(&self) -> (fields: TargetFields)
        ensures
            fields == self.spec_fields(),
    {
        let (available, commit_op): (u8, u64) = match &self.offer {
            Some(offer) => (1, offer.commit_op),
            None => (0, 0),
        };
        TargetFields {
            available,
            commit_op,
            view: self.view,
            commit_max: self.commit_max,
            unavailable_transient: if self.transient {
                1
            } else {
                0
            },
        }
    }
}

/// Wire fields of a state-transfer descriptor.
#[derive(Debug, Clone, Copy, PartialEq, Eq, Structural)]
pub struct TargetFields {
    pub available: u8,
    pub commit_op: u64,
    pub view: u32,
    pub commit_max: u64,
    pub unavailable_transient: u8,
}

/// A request for one chunk.
#[derive(Debug, Clone, Copy, PartialEq, Eq, Structural)]
pub struct ChunkRequest {
    pub group: u64,
    pub replica: u8,
    pub nonce: u128,
    pub artifact: u32,
    pub offset: u64,
    pub len: u32,
}

/// What a chunk request is answered.
pub enum ChunkAttempt {
    /// No such offer: the requester restarts, charging nothing.
    Unavailable,
    /// Out of the artifact's bounds; say nothing.
    Ignore,
    /// Send `bytes[start..end]`.
    Chunk { bytes: Rc<Vec<u8>>, start: usize, end: usize },
    /// The segment is not resident: load it, then resume.
    Load { log_path: String, entry: StateArtifact },
}

/// The chunk payload that fits a bus frame behind a header of this size.
pub open spec fn chunk_len_max_of(bus_max_message_size: usize, header_size: usize) -> int {
    if bus_max_message_size <= header_size {
        1
    } else if bus_max_message_size - header_size <= STATE_CHUNK_LEN {
        bus_max_message_size - header_size
    } else {
        STATE_CHUNK_LEN as int
    }
}

/// Largest chunk payload that keeps header and payload inside the bus
/// ceiling. Never zero: an empty chunk would be asked for again forever.
pub fn state_chunk_len_max(bus_max_message_size: usize, header_size: usize) -> (len: usize)
    ensures
        len == chunk_len_max_of(bus_max_message_size, header_size),
        1 <= len <= STATE_CHUNK_LEN,
{
    let budget: usize = bus_max_message_size.saturating_sub(header_size);
    if budget < 1 {
        1
    } else if budget > STATE_CHUNK_LEN as usize {
        STATE_CHUNK_LEN as usize
    } else {
        budget
    }
}

/// Bytes one served segment keeps resident at most.
pub open spec fn resident_len(artifact_len_max: u64, segment_size: u64) -> int {
    let sealed = if segment_size + SEGMENT_SIZE_OVERSHOOT_BYTES <= u64::MAX {
        segment_size + SEGMENT_SIZE_OVERSHOOT_BYTES
    } else {
        u64::MAX as int
    };
    if artifact_len_max >= sealed {
        artifact_len_max as int
    } else {
        sealed
    }
}

/// Concurrent partition transfers the served-payload budget holds: as many as
/// sealed segments fit it, and always one.
pub open spec fn admission_cap(cache_bytes_max: u64, artifact_len_max: u64, segment_size: u64) -> int {
    let slots = cache_bytes_max as int / resident_len(artifact_len_max, segment_size);
    if slots >= 1 {
        slots
    } else {
        1
    }
}

/// How many distinct partition transfers this shard serves at once.
pub fn partition_transfer_admission_cap(cache_bytes_max: u64, artifact_len_max: u64, segment_size: u64) -> (cap: u64)
    ensures
        cap == admission_cap(cache_bytes_max, artifact_len_max, segment_size),
        cap >= 1,
{
    let sealed: u64 = segment_size.saturating_add(SEGMENT_SIZE_OVERSHOOT_BYTES);
    let resident: u64 = if artifact_len_max >= sealed {
        artifact_len_max
    } else {
        sealed
    };
    let slots: u64 = cache_bytes_max / resident;
    if slots >= 1 {
        slots
    } else {
        1
    }
}

/// As many segments as transfers are admitted fit the budget together,
/// unless not even one does.
pub proof fn law_admitted_transfers_fit_the_budget(cache_bytes_max: u64, artifact_len_max: u64, segment_size: u64)
    ensures
        admission_cap(cache_bytes_max, artifact_len_max, segment_size) * resident_len(artifact_len_max, segment_size)
            <= cache_bytes_max || (admission_cap(cache_bytes_max, artifact_len_max, segment_size) == 1 && resident_len(
            artifact_len_max,
            segment_size,
        ) > cache_bytes_max),
{
    let resident = resident_len(artifact_len_max, segment_size);
    let bytes = cache_bytes_max as int;
    assert(resident > 0 && bytes >= 0 ==> (bytes / resident) * resident <= bytes) by (nonlinear_arith);
    assert(resident > 0 && bytes >= resident ==> bytes / resident >= 1) by (nonlinear_arith);
}

/// A default configuration admits exactly the transfers its budget was
/// sized for, whatever the segment size.
pub proof fn law_default_budget_admits_its_segments(segment_size: u64)
    requires
        segment_size <= SEGMENT_SIZE_CEILING_BYTES,
    ensures
        admission_cap(SERVED_SEGMENT_CACHE_BYTES_DEFAULT, PARTITION_ARTIFACT_LEN_DEFAULT, segment_size)
            == CONCURRENT_SERVED_SEGMENTS,
{
    assert(PARTITION_ARTIFACT_LEN_DEFAULT == 1140850688);
    assert(SERVED_SEGMENT_CACHE_BYTES_DEFAULT == 2281701376);
    assert(2281701376int / 1140850688int == 2);
}

pub open spec fn offer_key(served: ServedStateTransfer) -> (u64, u8) {
    (served.namespace, served.requester)
}

/// Position `i` serves this requester this very offer.
pub open spec fn serves_at(
    offers: Seq<ServedStateTransfer>,
    i: int,
    plane: OfferPlane,
    namespace: u64,
    requester: u8,
    nonce: u128,
) -> bool {
    &&& 0 <= i < offers.len()
    &&& offer_key(offers[i]) == (namespace, requester)
    &&& offers[i].nonce == nonce
    &&& offers[i].offer.plane == plane
}

/// Nobody serves this requester this offer.
pub open spec fn serves_nowhere(
    offers: Seq<ServedStateTransfer>,
    plane: OfferPlane,
    namespace: u64,
    requester: u8,
    nonce: u128,
) -> bool {
    forall|i: int| !#[trigger] serves_at(offers, i, plane, namespace, requester, nonce)
}

/// Offers under every other key.
pub open spec fn other_offers(offers: Seq<ServedStateTransfer>, namespace: u64, requester: u8) -> Seq<ServedStateTransfer> {
    offers.filter(|served: ServedStateTransfer| !(served.namespace == namespace && served.requester == requester))
}

/// Offers of every other namespace.
pub open spec fn offers_outside(offers: Seq<ServedStateTransfer>, namespace: u64) -> Seq<ServedStateTransfer> {
    offers.filter(|served: ServedStateTransfer| served.namespace != namespace)
}

/// The namespace has an offer out on the partition plane.
pub open spec fn offers_partition(offers: Seq<ServedStateTransfer>, namespace: u64) -> bool {
    exists|i: int|
        #![trigger offers[i]]
        0 <= i < offers.len() && offers[i].offer.plane is Partition && offers[i].namespace == namespace
}

/// The offer already served under a nonce was answered again, and its age
/// restarted; or there is none.
pub open spec fn is_reanswered(
    before: Seq<ServedStateTransfer>,
    after: Seq<ServedStateTransfer>,
    plane: OfferPlane,
    namespace: u64,
    requester: u8,
    nonce: u128,
    offer: Option<Rc<StateTransferOffer>>,
) -> bool {
    match offer {
        Some(offer) => exists|i: int|
            {
                &&& #[trigger] serves_at(before, i, plane, namespace, requester, nonce)
                &&& offer == before[i].offer
                &&& after == before.update(i, ServedStateTransfer { idle_ticks: 0, ..before[i] })
            },
        None => {
            &&& serves_nowhere(before, plane, namespace, requester, nonce)
            &&& after == before
        },
    }
}

/// The offers once a requester is served this one, in place of whatever it was
/// served before.
pub open spec fn offers_with(
    offers: Seq<ServedStateTransfer>,
    namespace: u64,
    requester: u8,
    nonce: u128,
    offer: Rc<StateTransferOffer>,
) -> Seq<ServedStateTransfer> {
    other_offers(offers, namespace, requester).push(
        ServedStateTransfer { namespace, requester, nonce, offer, idle_ticks: 0, fully_served: false },
    )
}

/// Another partition transfer may start.
pub open spec fn admits_transfer(offers: Seq<ServedStateTransfer>, builds: Map<u64, u32>, namespace: u64, cap: u64) -> bool {
    admitted_groups(offers, builds).contains(namespace) || admitted_groups(offers, builds).len() < cap
}

/// Partition groups that count against admission.
pub open spec fn admitted_groups(offers: Seq<ServedStateTransfer>, builds: Map<u64, u32>) -> Set<u64> {
    Set::new(|namespace: u64| offers_partition(offers, namespace) || builds.contains_key(namespace))
}

/// Serving side of state transfer on one shard.
pub struct StateTransferServer {
    /// One per namespace and requester.
    pub offers: Vec<ServedStateTransfer>,
    /// Admission slots of the offers still being built, by namespace, each
    /// with the ticks it has been idle.
    pub builds: HashMap<u64, u32>,
    pub cache: ServedSegmentCache,
}

impl StateTransferServer {
    pub open spec fn wf(&self) -> bool {
        &&& forall|i: int, j: int|
            #![trigger self.offers@[i], self.offers@[j]]
            0 <= i < j < self.offers@.len() ==> offer_key(self.offers@[i]) != offer_key(self.offers@[j])
        &&& forall|i: int| #![trigger self.offers@[i]] 0 <= i < self.offers@.len() ==> self.offers@[i].idle_ticks < u32::MAX
        &&& forall|namespace: u64| #[trigger] self.builds@.contains_key(namespace) ==> self.builds@[namespace] < u32::MAX
        &&& self.cache.wf()
    }

    pub fn new() -> (server: StateTransferServer)
        ensures
            server.wf(),
            server.offers@.len() == 0,
            server.builds@ == Map::<u64, u32>::empty(),
            server.cache.entries@.len() == 0,
            server.cache.use_seq == 0,
            server.cache.sweeps == 0,
    {
        StateTransferServer { offers: Vec::new(), builds: HashMap::new(), cache: ServedSegmentCache::new() }
    }

    fn find(&self, plane: OfferPlane, namespace: u64, requester: u8, nonce: u128) -> (found: Option<usize>)
        ensures
            found matches Some(index) ==> serves_at(self.offers@, index as int, plane, namespace, requester, nonce),
            found is None ==> serves_nowhere(self.offers@, plane, namespace, requester, nonce),
    {
        let mut i: usize = 0;
        while i < self.offers.len()
            invariant
                i <= self.offers@.len(),
                forall|j: int| j < i ==> !#[trigger] serves_at(self.offers@, j, plane, namespace, requester, nonce),
            decreases self.offers@.len() - i,
        {
            let served: &ServedStateTransfer = &self.offers[i];
            if served.namespace == namespace && served.requester == requester && served.nonce == nonce
                && served.offer.plane == plane {
                return Some(i);
            }
            i += 1;
        }
        None
    }

    /// The offer already served under this nonce, if any. A repeated request
    /// proves the requester alive, so the offer's age restarts.
    ///
    /// First wins: rebuilding under one nonce could hand the requester chunks
    /// of another offer than the manifest it accepted.
    pub fn reanswer(&mut self, plane: OfferPlane, namespace: u64, requester: u8, nonce: u128) -> (offer: Option<Rc<StateTransferOffer>>)
        requires
            old(self).wf(),
        ensures
            final(self).wf(),
            final(self).builds == old(self).builds,
            final(self).cache == old(self).cache,
            is_reanswered(old(self).offers@, final(self).offers@, plane, namespace, requester, nonce, offer),
            offer is None ==> final(self).offers == old(self).offers,
    {
        match self.find(plane, namespace, requester, nonce) {
            Some(index) => {
                self.offers[index].idle_ticks = 0;
                Some(Rc::clone(&self.offers[index].offer))
            },
            None => None,
        }
    }

    fn drop_offer(&mut self, namespace: u64, requester: u8)
        requires
            old(self).wf(),
        ensures
            final(self).wf(),
            final(self).offers@ == other_offers(old(self).offers@, namespace, requester),
            final(self).builds == old(self).builds,
            final(self).cache == old(self).cache,
    {
        let ghost all = self.offers@;
        let ghost kept = |served: ServedStateTransfer| !(served.namespace == namespace && served.requester == requester);
        let keep = |served: &ServedStateTransfer| -> (stays: bool)
            ensures
                stays == (served.namespace != namespace || served.requester != requester),
        {
            served.namespace != namespace || served.requester != requester
        };
        retain_where(&mut self.offers, keep, Ghost(kept));
        proof {
            lemma_filter_is_subsequence(all, kept);
            lemma_filter_keeps_keys_distinct(all, kept, |served: ServedStateTransfer| offer_key(served));
        }
    }

    /// Hand the requester this offer, replacing whatever it was served before.
    fn put_offer(&mut self, namespace: u64, requester: u8, nonce: u128, offer: Rc<StateTransferOffer>)
        requires
            old(self).wf(),
        ensures
            final(self).wf(),
            final(self).offers@ == offers_with(old(self).offers@, namespace, requester, nonce, offer),
            final(self).builds == old(self).builds,
            final(self).cache == old(self).cache,
    {
        let ghost all = self.offers@;
        self.drop_offer(namespace, requester);
        proof {
            lemma_filter_is_subsequence(
                all,
                |served: ServedStateTransfer| !(served.namespace == namespace && served.requester == requester),
            );
        }
        self.offers.push(ServedStateTransfer { namespace, requester, nonce, offer, idle_ticks: 0, fully_served: false });
    }

    fn clear_build(&mut self, namespace: u64)
        requires
            old(self).wf(),
        ensures
            final(self).wf(),
            final(self).builds@ == old(self).builds@.remove(namespace),
            final(self).offers == old(self).offers,
            final(self).cache == old(self).cache,
    {
        self.builds.remove(&namespace);
        proof {
            assert(self.builds@ =~= old(self).builds@.remove(namespace));
        }
    }

    /// Answer a metadata state-transfer request that no cached offer answers:
    /// `built` is the offer the plane just built, or nothing where it cannot
    /// serve. A fresh offer replaces what the requester was served before.
    pub fn answer_metadata_request(
        &mut self,
        group: u64,
        requester: u8,
        nonce: u128,
        built: Option<Rc<StateTransferOffer>>,
        view: u32,
        commit_max: u64,
    ) -> (descriptor: TransferDescriptor)
        requires
            old(self).wf(),
        ensures
            final(self).wf(),
            final(self).builds == old(self).builds,
            final(self).cache == old(self).cache,
            built is None ==> final(self).offers == old(self).offers,
            is_metadata_answer(
                old(self).offers@,
                final(self).offers@,
                group,
                requester,
                nonce,
                built,
                view,
                commit_max,
                descriptor,
            ),
    {
        match built {
            Some(offer) => {
                let shared: Rc<StateTransferOffer> = Rc::clone(&offer);
                self.put_offer(group, requester, nonce, shared);
                TransferDescriptor::available(offer, view, commit_max)
            },
            None => TransferDescriptor::unavailable(false, view, commit_max),
        }
    }

    /// Whether another partition transfer may start for `namespace`. A group
    /// already served or being built always may, so admission never revokes a
    /// transfer midway; groups are counted, not requesters.
    pub fn may_serve_another_partition_transfer(&self, namespace: u64, cap: u64) -> (may: bool)
        ensures
            admitted_groups(self.offers@, self.builds@).finite(),
            may == admits_transfer(self.offers@, self.builds@, namespace, cap),
    {
        let mut groups: Vec<u64> = Vec::new();
        let mut i: usize = 0;
        while i < self.offers.len()
            invariant
                i <= self.offers@.len(),
                groups@.no_duplicates(),
                forall|g: u64| #[trigger] groups@.contains(g) <==> offers_partition(self.offers@.take(i as int), g),
            decreases self.offers@.len() - i,
        {
            proof {
                lemma_offers_partition_step(self.offers@, i as int);
            }
            let served: &ServedStateTransfer = &self.offers[i];
            if matches!(served.offer.plane, OfferPlane::Partition) {
                push_distinct(&mut groups, served.namespace);
            }
            i += 1;
        }
        proof {
            assert(self.offers@.take(i as int) =~= self.offers@);
        }
        let building: Vec<u64> = keys_of(&self.builds);
        let mut j: usize = 0;
        while j < building.len()
            invariant
                j <= building@.len(),
                groups@.no_duplicates(),
                forall|g: u64|
                    #[trigger] groups@.contains(g) <==> offers_partition(self.offers@, g) || building@.take(j as int).contains(g),
            decreases building@.len() - j,
        {
            proof {
                assert(building@.take(j + 1) =~= building@.take(j as int).push(building@[j as int]));
                lemma_push_contains(building@.take(j as int), building@[j as int]);
            }
            push_distinct(&mut groups, building[j]);
            j += 1;
        }
        proof {
            assert(building@.take(j as int) =~= building@);
            assert forall|g: u64| #[trigger] building@.contains(g) == self.builds@.contains_key(g) by {
                assert(building@.to_set().contains(g) == building@.contains(g));
            }
            groups@.unique_seq_to_set();
            assert(groups@.to_set() =~= admitted_groups(self.offers@, self.builds@)) by {
                assert forall|g: u64| groups@.to_set().contains(g) == admitted_groups(self.offers@, self.builds@).contains(g) by {
                    assert(groups@.to_set().contains(g) == groups@.contains(g));
                }
            }
        }
        (groups.len() as u64) < cap || contains(&groups, namespace)
    }
    /// Take a partition state-transfer request. `known` says that the requester
    /// is a replica of this cluster and that this shard holds the partition.
    ///
    /// A build claims its admission slot before it starts: the checksum pass
    /// runs over several rounds and holds no offer meanwhile.
    pub fn open_partition_request(&mut self, known: bool, namespace: u64, requester: u8, nonce: u128, cap: u64) -> (step: PartitionRequestStep)
        requires
            old(self).wf(),
        ensures
            final(self).wf(),
            final(self).cache == old(self).cache,
            is_request_opened(*old(self), *final(self), known, namespace, requester, nonce, cap, step),
    {
        if !known {
            return PartitionRequestStep::Ignore;
        }
        match self.reanswer(OfferPlane::Partition, namespace, requester, nonce) {
            Some(offer) => PartitionRequestStep::Answer(offer),
            None => {
                if !self.may_serve_another_partition_transfer(namespace, cap) {
                    return PartitionRequestStep::Refuse;
                }
                self.builds.insert(namespace, 0);
                PartitionRequestStep::Build
            },
        }
    }

    /// Settle one build round. The admission slot survives only a round that
    /// ran out of budget and will resume.
    pub fn close_partition_build(
        &mut self,
        namespace: u64,
        requester: u8,
        nonce: u128,
        outcome: BuildOutcome,
        view: u32,
        commit_max: u64,
    ) -> (descriptor: TransferDescriptor)
        requires
            old(self).wf(),
        ensures
            final(self).wf(),
            final(self).cache == old(self).cache,
            is_build_closed(*old(self), *final(self), namespace, requester, nonce, outcome, view, commit_max, descriptor),
    {
        match outcome {
            BuildOutcome::Ready(offer) => {
                self.clear_build(namespace);
                let shared: Rc<StateTransferOffer> = Rc::clone(&offer);
                self.put_offer(namespace, requester, nonce, shared);
                TransferDescriptor::available(offer, view, commit_max)
            },
            BuildOutcome::Unavailable { in_progress, transient } => {
                if !in_progress {
                    self.clear_build(namespace);
                }
                TransferDescriptor::unavailable(transient, view, commit_max)
            },
        }
    }

    /// Answer one chunk request out of the offer served under its nonce.
    ///
    /// A range past the artifact, or an empty one, is ignored: an empty chunk
    /// would extend nothing and be asked for again forever. Only bytes that go
    /// out keep the offer alive.
    pub fn attempt_chunk(&mut self, plane: OfferPlane, request: &ChunkRequest, chunk_len_max: usize) -> (attempt: ChunkAttempt)
        requires
            old(self).wf(),
            chunk_len_max >= 1,
        ensures
            final(self).wf(),
            final(self).builds == old(self).builds,
            chunk_cache(old(self).offers@, old(self).cache, plane, *request, final(self).cache),
            chunk_answer(
                old(self).offers@,
                old(self).cache.entries@,
                plane,
                *request,
                chunk_len_max,
                final(self).offers@,
                attempt,
            ),
    {
        let index: usize = match self.find(plane, request.group, request.replica, request.nonce) {
            Some(index) => index,
            None => {
                return ChunkAttempt::Unavailable;
            },
        };
        let ghost pre = self.offers@;
        let ghost resident = self.cache.entries@;
        proof {
            assert(serves_at(pre, index as int, plane, request.group, request.replica, request.nonce));
            assert forall|i: int| #[trigger] serves_at(pre, i, plane, request.group, request.replica, request.nonce) implies i
                == index by {
                assert(offer_key(pre[i]) == offer_key(pre[index as int]));
            }
        }
        let offer: Rc<StateTransferOffer> = Rc::clone(&self.offers[index].offer);
        if request.artifact as u64 >= offer.artifacts.len() as u64 {
            return ChunkAttempt::Ignore;
        }
        let artifact: usize = request.artifact as usize;
        match &offer.artifacts[artifact] {
            ArtifactSource::Bytes(bytes) => {
                let held: Rc<Vec<u8>> = Rc::clone(bytes);
                self.serve_range(index, held, request, chunk_len_max)
            },
            ArtifactSource::Segment { log_path, entry } => match self.cache.get(request.group, entry.checksum) {
                Some(payload) => {
                    proof {
                        assert(holds_payload(resident, request.group, entry.checksum, payload));
                        assert(!holds_nothing(resident, request.group, entry.checksum));
                    }
                    self.serve_range(index, payload, request, chunk_len_max)
                },
                None => ChunkAttempt::Load { log_path: log_path.clone(), entry: *entry },
            },
        }
    }

    fn serve_range(&mut self, index: usize, bytes: Rc<Vec<u8>>, request: &ChunkRequest, chunk_len_max: usize) -> (attempt: ChunkAttempt)
        requires
            old(self).wf(),
            index < old(self).offers@.len(),
            request.artifact < old(self).offers@[index as int].offer.artifacts@.len(),
        ensures
            final(self).wf(),
            final(self).builds == old(self).builds,
            final(self).cache == old(self).cache,
            serves_bytes(
                old(self).offers@,
                index as int,
                bytes,
                *request,
                chunk_len_max,
                final(self).offers@,
                attempt,
            ),
    {
        let ghost pre = self.offers@;
        if request.offset >= bytes.len() as u64 || request.len == 0 {
            return ChunkAttempt::Ignore;
        }
        let start: usize = request.offset as usize;
        let asked: usize = if (request.len as u64) < chunk_len_max as u64 {
            request.len as usize
        } else {
            chunk_len_max
        };
        let end: usize = if asked < bytes.len() - start {
            start + asked
        } else {
            bytes.len()
        };
        let last: bool = request.artifact as usize == self.offers[index].offer.artifacts.len() - 1;
        if last && end == bytes.len() {
            self.offers[index].fully_served = true;
        }
        self.offers[index].idle_ticks = 0;
        proof {
            assert(self.offers@ =~= pre.update(
                index as int,
                ServedStateTransfer {
                    idle_ticks: 0,
                    fully_served: pre[index as int].fully_served || (last && end == bytes@.len()),
                    ..pre[index as int]
                },
            ));
        }
        ChunkAttempt::Chunk { bytes, start, end }
    }
    /// Store a loaded segment and go on with the chunk request that missed it.
    pub fn resume_chunk(
        &mut self,
        plane: OfferPlane,
        request: &ChunkRequest,
        entry: &StateArtifact,
        payload: Rc<Vec<u8>>,
        cache_bytes_max: u64,
        chunk_len_max: usize,
    ) -> (attempt: ChunkAttempt)
        requires
            old(self).wf(),
            total_len(old(self).cache.entries@) + payload@.len() <= u64::MAX,
            chunk_len_max >= 1,
        ensures
            final(self).wf(),
            final(self).builds == old(self).builds,
            is_chunk_resumed(*old(self), *final(self), plane, *request, *entry, payload, cache_bytes_max, chunk_len_max, attempt),
    {
        self.cache.insert(request.group, entry.checksum, payload, cache_bytes_max);
        self.attempt_chunk(plane, request, chunk_len_max)
    }

    /// A segment could not be loaded: evict the offer, so that the restarted
    /// requester gets one that reflects the current segments.
    pub fn segment_load_failed(&mut self, request: &ChunkRequest)
        requires
            old(self).wf(),
        ensures
            final(self).wf(),
            final(self).offers@ == other_offers(old(self).offers@, request.group, request.replica),
            final(self).builds == old(self).builds,
            final(self).cache == old(self).cache,
    {
        self.drop_offer(request.group, request.replica);
    }

    /// Forget everything served of a namespace, build slot included: its
    /// segments are no longer the bytes an offer describes.
    pub fn drop_served_state_for(&mut self, namespace: u64)
        requires
            old(self).wf(),
        ensures
            final(self).wf(),
            final(self).builds@ == old(self).builds@.remove(namespace),
            final(self).offers@ == offers_outside(old(self).offers@, namespace),
            final(self).cache.entries@ == other_namespaces(old(self).cache.entries@, namespace),
            final(self).cache.use_seq == old(self).cache.use_seq,
            final(self).cache.sweeps == old(self).cache.sweeps,
    {
        self.clear_build(namespace);
        let ghost all = self.offers@;
        let ghost kept = |served: ServedStateTransfer| served.namespace != namespace;
        let keep = |served: &ServedStateTransfer| -> (stays: bool)
            ensures
                stays == (served.namespace != namespace),
        {
            served.namespace != namespace
        };
        retain_where(&mut self.offers, keep, Ghost(kept));
        proof {
            lemma_filter_is_subsequence(all, kept);
            lemma_filter_keeps_keys_distinct(all, kept, |served: ServedStateTransfer| offer_key(served));
        }
        self.cache.evict_namespace(namespace);
    }

    fn age_offers(&mut self, idle_expiry: u32, served_expiry: u32)
        requires
            old(self).wf(),
        ensures
            final(self).wf(),
            final(self).offers@ == aged_offers(old(self).offers@).filter(
                |served: ServedStateTransfer|
                    served.idle_ticks < if served.fully_served {
                        served_expiry
                    } else {
                        idle_expiry
                    },
            ),
            final(self).builds == old(self).builds,
            final(self).cache == old(self).cache,
    {
        let ghost all = self.offers@;
        let mut i: usize = 0;
        while i < self.offers.len()
            invariant
                i <= self.offers@.len(),
                self.offers@.len() == all.len(),
                self.builds == old(self).builds,
                self.cache == old(self).cache,
                forall|j: int| #![trigger all[j]] 0 <= j < all.len() ==> all[j].idle_ticks < u32::MAX,
                forall|j: int|
                    #![trigger self.offers@[j]]
                    0 <= j < all.len() ==> self.offers@[j] == if j < i {
                        aged_offer(all[j])
                    } else {
                        all[j]
                    },
            decreases self.offers@.len() - i,
        {
            let ticks: u32 = self.offers[i].idle_ticks;
            self.offers[i].idle_ticks = ticks + 1;
            i += 1;
        }
        let ghost kept = |served: ServedStateTransfer|
            served.idle_ticks < if served.fully_served {
                served_expiry
            } else {
                idle_expiry
            };
        let ghost aged = self.offers@;
        proof {
            assert(aged =~= aged_offers(all));
        }
        let keep = |served: &ServedStateTransfer| -> (stays: bool)
            ensures
                stays == (served.idle_ticks < if served.fully_served {
                    served_expiry
                } else {
                    idle_expiry
                }),
        {
            let expiry: u32 = if served.fully_served {
                served_expiry
            } else {
                idle_expiry
            };
            served.idle_ticks < expiry
        };
        retain_where(&mut self.offers, keep, Ghost(kept));
        proof {
            lemma_filter_is_subsequence(aged, kept);
            assert forall|a: int, b: int| #![trigger aged[a], aged[b]] 0 <= a < b < aged.len() implies offer_key(aged[a]) != offer_key(
                aged[b],
            ) by {
                assert(offer_key(all[a]) != offer_key(all[b]));
            }
            lemma_filter_keeps_keys_distinct(aged, kept, |served: ServedStateTransfer| offer_key(served));
        }
    }

    fn age_builds(&mut self, idle_expiry: u32)
        requires
            old(self).wf(),
        ensures
            final(self).wf(),
            final(self).builds@ == aged_builds(old(self).builds@, idle_expiry as int),
            final(self).offers == old(self).offers,
            final(self).cache == old(self).cache,
    {
        let mut kept: HashMap<u64, u32> = HashMap::new();
        let building: Vec<u64> = keys_of(&self.builds);
        let ghost aged = aged_builds(self.builds@, idle_expiry as int);
        let mut i: usize = 0;
        proof {
            assert(kept@ =~= aged.restrict(building@.take(0).to_set()));
        }
        while i < building.len()
            invariant
                i <= building@.len(),
                *self == *old(self),
                self.wf(),
                building@.to_set() == self.builds@.dom(),
                aged == aged_builds(self.builds@, idle_expiry as int),
                kept@ == aged.restrict(building@.take(i as int).to_set()),
            decreases building@.len() - i,
        {
            let namespace: u64 = building[i];
            proof {
                assert(building@.to_set().contains(namespace));
                assert(building@.take(i + 1) =~= building@.take(i as int).push(namespace));
                lemma_push_contains(building@.take(i as int), namespace);
            }
            if let Some(ticks) = self.builds.get(&namespace) {
                let ticks: u32 = *ticks + 1;
                if ticks < idle_expiry {
                    kept.insert(namespace, ticks);
                }
            }
            proof {
                assert(kept@ =~= aged.restrict(building@.take(i + 1).to_set()));
            }
            i += 1;
        }
        proof {
            assert(building@.take(i as int) =~= building@);
            assert(aged.restrict(building@.to_set()) =~= aged);
        }
        self.builds = kept;
    }

    fn serves_namespace(&self, namespace: u64) -> (serves: bool)
        ensures
            serves == offers_namespace(self.offers@, namespace),
    {
        let mut i: usize = 0;
        while i < self.offers.len()
            invariant
                i <= self.offers@.len(),
                forall|j: int| #![trigger self.offers@[j]] 0 <= j < i ==> self.offers@[j].namespace != namespace,
            decreases self.offers@.len() - i,
        {
            if self.offers[i].namespace == namespace {
                return true;
            }
            i += 1;
        }
        false
    }

    /// One sweep: age every offer, build slot and resident payload, and drop
    /// those nobody pulled for their lifetime. Runs once per tick.
    ///
    /// The protocol has no completion frame, so an offer that stopped being
    /// pulled is all this side sees of a finished or abandoned transfer. A
    /// zero retry interval counts as one, or every offer would expire on the
    /// tick after it was built.
    pub fn expire_idle_state_transfer_offers(&mut self, retry_ticks: u32, metadata_group: Option<u64>) -> (released: ReleasedOffers)
        requires
            old(self).wf(),
        ensures
            final(self).wf(),
            is_swept(*old(self), *final(self), retry_ticks, metadata_group, released),
    {
        let retry: u32 = if retry_ticks >= 1 {
            retry_ticks
        } else {
            1
        };
        let payload_sweeps: u64 = retry as u64 * STATE_TRANSFER_OFFER_EXPIRY_MULTIPLE as u64;
        self.cache.expire_idle(payload_sweeps);
        let idle_expiry: u32 = expiry_ticks(retry, STATE_TRANSFER_OFFER_EXPIRY_MULTIPLE);
        let served_expiry: u32 = expiry_ticks(retry, STATE_TRANSFER_SERVED_EXPIRY_MULTIPLE);
        self.age_builds(idle_expiry);
        let before: Vec<u64> = self.offer_namespaces();
        self.age_offers(idle_expiry, served_expiry);
        proof {
            let direct = |served: ServedStateTransfer| offer_lives(served, retry_ticks);
            let computed = |served: ServedStateTransfer|
                served.idle_ticks < if served.fully_served {
                    served_expiry
                } else {
                    idle_expiry
                };
            assert(direct =~= computed);
        }
        let mut vanished: Vec<u64> = Vec::new();
        let mut i: usize = 0;
        while i < before.len()
            invariant
                i <= before@.len(),
                strictly_sorted(vanished@),
                forall|namespace: u64|
                    #[trigger] vanished@.contains(namespace) <==> before@.take(i as int).contains(namespace)
                        && !offers_namespace(self.offers@, namespace),
            decreases before@.len() - i,
        {
            let namespace: u64 = before[i];
            proof {
                assert(before@.take(i + 1) =~= before@.take(i as int).push(namespace));
                lemma_push_contains(before@.take(i as int), namespace);
            }
            if !self.serves_namespace(namespace) {
                insert_sorted(&mut vanished, namespace);
            }
            i += 1;
        }
        proof {
            assert(before@.take(i as int) =~= before@);
        }
        let metadata_served: bool = match metadata_group {
            Some(group) => self.serves_namespace(group),
            None => false,
        };
        ReleasedOffers { namespaces: vanished, metadata: !metadata_served }
    }

    fn offer_namespaces(&self) -> (namespaces: Vec<u64>)
        ensures
            forall|namespace: u64| #[trigger] namespaces@.contains(namespace) <==> offers_namespace(self.offers@, namespace),
    {
        let mut namespaces: Vec<u64> = Vec::new();
        let mut i: usize = 0;
        while i < self.offers.len()
            invariant
                i <= self.offers@.len(),
                namespaces@.len() == i,
                forall|j: int| #![trigger namespaces@[j]] 0 <= j < i ==> namespaces@[j] == self.offers@[j].namespace,
            decreases self.offers@.len() - i,
        {
            namespaces.push(self.offers[i].namespace);
            i += 1;
        }
        proof {
            assert forall|namespace: u64| #[trigger] namespaces@.contains(namespace) <==> offers_namespace(self.offers@, namespace) by {
                if namespaces@.contains(namespace) {
                    let k = namespaces@.index_of(namespace);
                    assert(self.offers@[k].namespace == namespace);
                }
                if offers_namespace(self.offers@, namespace) {
                    let k = choose|k: int|
                        #![trigger self.offers@[k]]
                        0 <= k < self.offers@.len() && self.offers@[k].namespace == namespace;
                    assert(namespaces@[k] == namespace);
                }
            }
        }
        namespaces
    }
}

proof fn lemma_push_contains(list: Seq<u64>, value: u64)
    ensures
        forall|x: u64| #[trigger] list.push(value).contains(x) <==> list.contains(x) || x == value,
{
    assert forall|x: u64| #[trigger] list.push(value).contains(x) <==> list.contains(x) || x == value by {
        if list.contains(x) {
            let k = list.index_of(x);
            assert(list.push(value)[k] == x);
        }
        if x == value {
            assert(list.push(value)[list.len() as int] == x);
        }
    }
}

/// Ticks after which something idle goes, for a retry interval of at least
/// one.
fn expiry_ticks(retry: u32, multiple: u32) -> (ticks: u32)
    requires
        retry >= 1,
    ensures
        ticks == lifetime(retry, multiple),
{
    proof {
        assert(0 <= retry * multiple <= u32::MAX * u32::MAX) by (nonlinear_arith);
    }
    let product: u64 = retry as u64 * multiple as u64;
    if product > u32::MAX as u64 {
        u32::MAX
    } else {
        product as u32
    }
}

/// Lifetime in ticks of something idle: so many retry intervals.
pub open spec fn lifetime(retry_ticks: u32, multiple: u32) -> int {
    let retry = if retry_ticks >= 1 {
        retry_ticks as int
    } else {
        1
    };
    if retry * multiple <= u32::MAX {
        retry * multiple
    } else {
        u32::MAX as int
    }
}

/// The sweep below which a resident payload is stale.
pub open spec fn payload_floor(sweeps: u64, retry_ticks: u32) -> u64 {
    let retry = if retry_ticks >= 1 {
        retry_ticks as int
    } else {
        1
    };
    sweep_floor(sweeps, (retry * STATE_TRANSFER_OFFER_EXPIRY_MULTIPLE) as u64)
}

pub open spec fn aged_offer(served: ServedStateTransfer) -> ServedStateTransfer {
    ServedStateTransfer { idle_ticks: (served.idle_ticks + 1) as u32, ..served }
}

/// Every offer one tick older.
pub open spec fn aged_offers(offers: Seq<ServedStateTransfer>) -> Seq<ServedStateTransfer> {
    Seq::new(offers.len(), |i: int| aged_offer(offers[i]))
}

/// The build slots one tick older, without those idle for `lifetime` ticks.
pub open spec fn aged_builds(builds: Map<u64, u32>, lifetime: int) -> Map<u64, u32> {
    Map::new(
        |namespace: u64| builds.contains_key(namespace) && builds[namespace] + 1 < lifetime,
        |namespace: u64| (builds[namespace] + 1) as u32,
    )
}

/// The offer is within its lifetime: the short one once fully served.
pub open spec fn offer_lives(served: ServedStateTransfer, retry_ticks: u32) -> bool {
    served.idle_ticks < lifetime(
        retry_ticks,
        if served.fully_served {
            STATE_TRANSFER_SERVED_EXPIRY_MULTIPLE
        } else {
            STATE_TRANSFER_OFFER_EXPIRY_MULTIPLE
        },
    )
}

/// What a sweep leaves of the offers.
pub open spec fn unexpired_offers(offers: Seq<ServedStateTransfer>, retry_ticks: u32) -> Seq<ServedStateTransfer> {
    aged_offers(offers).filter(|served: ServedStateTransfer| offer_lives(served, retry_ticks))
}

/// What a sweep leaves of the build slots.
pub open spec fn unexpired_builds(builds: Map<u64, u32>, retry_ticks: u32) -> Map<u64, u32> {
    aged_builds(builds, lifetime(retry_ticks, STATE_TRANSFER_OFFER_EXPIRY_MULTIPLE))
}

/// The namespace has an offer out.
pub open spec fn offers_namespace(offers: Seq<ServedStateTransfer>, namespace: u64) -> bool {
    exists|i: int| #![trigger offers[i]] 0 <= i < offers.len() && offers[i].namespace == namespace
}

/// Builder caches a sweep releases.
pub struct ReleasedOffers {
    /// Namespaces whose last offer went away, in increasing order.
    pub namespaces: Vec<u64>,
    /// Nobody pulls from the metadata plane any more.
    pub metadata: bool,
}

/// What a partition request asks of the shard.
pub enum PartitionRequestStep {
    /// Unknown requester or partition; say nothing.
    Ignore,
    /// Answer with the offer already served.
    Answer(Rc<StateTransferOffer>),
    /// As many transfers as the budget holds are under way: refuse, transient.
    Refuse,
    /// Run a build round and settle it with
    /// [`StateTransferServer::close_partition_build`].
    Build,
}

/// How a build round ended.
pub enum BuildOutcome {
    Ready(Rc<StateTransferOffer>),
    /// No offer; `in_progress` says the round only ran out of budget.
    Unavailable { in_progress: bool, transient: bool },
}

/// A metadata request that no cached offer answers was answered.
pub open spec fn is_metadata_answer(
    before: Seq<ServedStateTransfer>,
    after: Seq<ServedStateTransfer>,
    group: u64,
    requester: u8,
    nonce: u128,
    built: Option<Rc<StateTransferOffer>>,
    view: u32,
    commit_max: u64,
    descriptor: TransferDescriptor,
) -> bool {
    &&& descriptor == (TransferDescriptor { offer: built, view, commit_max, transient: false })
    &&& after == match built {
        Some(offer) => offers_with(before, group, requester, nonce, offer),
        None => before,
    }
}

/// A partition request was taken.
pub open spec fn is_request_opened(
    before: StateTransferServer,
    after: StateTransferServer,
    known: bool,
    namespace: u64,
    requester: u8,
    nonce: u128,
    cap: u64,
    step: PartitionRequestStep,
) -> bool {
    let unserved = serves_nowhere(before.offers@, OfferPlane::Partition, namespace, requester, nonce);
    match step {
        PartitionRequestStep::Ignore => !known && after.offers == before.offers && after.builds == before.builds,
        PartitionRequestStep::Answer(offer) => {
            &&& known
            &&& after.builds == before.builds
            &&& is_reanswered(before.offers@, after.offers@, OfferPlane::Partition, namespace, requester, nonce, Some(offer))
        },
        PartitionRequestStep::Refuse => {
            &&& known && unserved
            &&& !admits_transfer(before.offers@, before.builds@, namespace, cap)
            &&& after.offers == before.offers
            &&& after.builds == before.builds
        },
        PartitionRequestStep::Build => {
            &&& known && unserved
            &&& admits_transfer(before.offers@, before.builds@, namespace, cap)
            &&& after.offers == before.offers
            &&& after.builds@ == before.builds@.insert(namespace, 0)
        },
    }
}

/// A build round was settled.
pub open spec fn is_build_closed(
    before: StateTransferServer,
    after: StateTransferServer,
    namespace: u64,
    requester: u8,
    nonce: u128,
    outcome: BuildOutcome,
    view: u32,
    commit_max: u64,
    descriptor: TransferDescriptor,
) -> bool {
    match outcome {
        BuildOutcome::Ready(offer) => {
            &&& descriptor == (TransferDescriptor { offer: Some(offer), view, commit_max, transient: false })
            &&& after.builds@ == before.builds@.remove(namespace)
            &&& after.offers@ == offers_with(before.offers@, namespace, requester, nonce, offer)
        },
        BuildOutcome::Unavailable { in_progress, transient } => {
            &&& descriptor == (TransferDescriptor { offer: None, view, commit_max, transient })
            &&& after.offers == before.offers
            &&& after.builds@ == if in_progress {
                before.builds@
            } else {
                before.builds@.remove(namespace)
            }
        },
    }
}

/// One sweep over what is served.
pub open spec fn is_swept(
    before: StateTransferServer,
    after: StateTransferServer,
    retry_ticks: u32,
    metadata_group: Option<u64>,
    released: ReleasedOffers,
) -> bool {
    &&& after.offers@ == unexpired_offers(before.offers@, retry_ticks)
    &&& after.builds@ == unexpired_builds(before.builds@, retry_ticks)
    &&& after.cache.sweeps == bumped(before.cache.sweeps)
    &&& after.cache.use_seq == before.cache.use_seq
    &&& after.cache.entries@ == swept_since(before.cache.entries@, payload_floor(before.cache.sweeps, retry_ticks))
    &&& released.metadata == !(metadata_group matches Some(group) && offers_namespace(after.offers@, group))
    &&& strictly_sorted(released.namespaces@)
    &&& forall|namespace: u64|
        #[trigger] released.namespaces@.contains(namespace) <==> offers_namespace(before.offers@, namespace)
            && !offers_namespace(after.offers@, namespace)
}

/// The bytes of an artifact that a request covers.
pub open spec fn chunk_range(bytes_len: int, request: ChunkRequest, chunk_len_max: usize) -> Option<(int, int)> {
    if request.offset >= bytes_len || request.len == 0 {
        None
    } else {
        let asked = if request.len < chunk_len_max {
            request.len as int
        } else {
            chunk_len_max as int
        };
        let end = if request.offset + asked < bytes_len {
            request.offset + asked
        } else {
            bytes_len
        };
        Some((request.offset as int, end))
    }
}

/// Serving `request` out of `bytes`, for the offer at position `i`.
pub open spec fn serves_bytes(
    pre: Seq<ServedStateTransfer>,
    i: int,
    bytes: Rc<Vec<u8>>,
    request: ChunkRequest,
    chunk_len_max: usize,
    post: Seq<ServedStateTransfer>,
    attempt: ChunkAttempt,
) -> bool {
    match chunk_range(bytes@.len() as int, request, chunk_len_max) {
        None => attempt is Ignore && post == pre,
        Some(range) => {
            &&& attempt == (ChunkAttempt::Chunk { bytes, start: range.0 as usize, end: range.1 as usize })
            &&& post == pre.update(
                i,
                ServedStateTransfer {
                    idle_ticks: 0,
                    fully_served: pre[i].fully_served || (request.artifact + 1 == pre[i].offer.artifacts@.len() && range.1
                        == bytes@.len()),
                    ..pre[i]
                },
            )
        },
    }
}

/// The answer to a chunk request, over the offers and the resident payloads.
pub open spec fn chunk_answer(
    pre: Seq<ServedStateTransfer>,
    resident: Seq<CachedSegmentPayload>,
    plane: OfferPlane,
    request: ChunkRequest,
    chunk_len_max: usize,
    post: Seq<ServedStateTransfer>,
    attempt: ChunkAttempt,
) -> bool {
    if serves_nowhere(pre, plane, request.group, request.replica, request.nonce) {
        attempt is Unavailable && post == pre
    } else {
        exists|i: int|
            {
                &&& #[trigger] serves_at(pre, i, plane, request.group, request.replica, request.nonce)
                &&& if request.artifact >= pre[i].offer.artifacts@.len() {
                    attempt is Ignore && post == pre
                } else {
                    match pre[i].offer.artifacts@[request.artifact as int] {
                        ArtifactSource::Bytes(bytes) => serves_bytes(pre, i, bytes, request, chunk_len_max, post, attempt),
                        ArtifactSource::Segment { log_path, entry } => if holds_nothing(resident, request.group, entry.checksum) {
                            &&& attempt matches ChunkAttempt::Load { log_path: path, entry: wanted } && path@ == log_path@
                                && wanted == entry
                            &&& post == pre
                        } else {
                            exists|payload: Rc<Vec<u8>>|
                                #[trigger] holds_payload(resident, request.group, entry.checksum, payload) && serves_bytes(
                                    pre,
                                    i,
                                    payload,
                                    request,
                                    chunk_len_max,
                                    post,
                                    attempt,
                                )
                        },
                    }
                }
            }
    }
}

/// A loaded segment was stored and the request that missed it answered.
pub open spec fn is_chunk_resumed(
    before: StateTransferServer,
    after: StateTransferServer,
    plane: OfferPlane,
    request: ChunkRequest,
    entry: StateArtifact,
    payload: Rc<Vec<u8>>,
    cache_bytes_max: u64,
    chunk_len_max: usize,
    attempt: ChunkAttempt,
) -> bool {
    exists|stored: ServedSegmentCache|
        {
            &&& #[trigger] is_insertion(
                before.cache.entries@,
                stored.entries@,
                CachedSegmentPayload {
                    namespace: request.group,
                    checksum: entry.checksum,
                    payload,
                    last_use: bumped(before.cache.use_seq),
                    last_use_sweep: before.cache.sweeps,
                },
                cache_bytes_max,
            )
            &&& stored.use_seq == bumped(before.cache.use_seq)
            &&& stored.sweeps == before.cache.sweeps
            &&& chunk_cache(before.offers@, stored, plane, request, after.cache)
            &&& chunk_answer(before.offers@, stored.entries@, plane, request, chunk_len_max, after.offers@, attempt)
        }
}

/// The resident payloads after a chunk request: a request for a segment reads
/// it, and any other leaves them alone.
pub open spec fn chunk_cache(
    offers: Seq<ServedStateTransfer>,
    before: ServedSegmentCache,
    plane: OfferPlane,
    request: ChunkRequest,
    after: ServedSegmentCache,
) -> bool {
    &&& serves_nowhere(offers, plane, request.group, request.replica, request.nonce) ==> after == before
    &&& forall|i: int|
        #[trigger] serves_at(offers, i, plane, request.group, request.replica, request.nonce) ==> {
            let artifacts = offers[i].offer.artifacts@;
            if request.artifact < artifacts.len() && artifacts[request.artifact as int] is Segment {
                is_cache_read(before, after, request.group, artifacts[request.artifact as int]->entry.checksum)
            } else {
                after == before
            }
        }
}

fn contains(list: &Vec<u64>, value: u64) -> (found: bool)
    ensures
        found == list@.contains(value),
{
    let mut i: usize = 0;
    while i < list.len()
        invariant
            i <= list@.len(),
            forall|j: int| #![trigger list@[j]] 0 <= j < i ==> list@[j] != value,
        decreases list@.len() - i,
    {
        if list[i] == value {
            return true;
        }
        i += 1;
    }
    false
}

fn push_distinct(list: &mut Vec<u64>, value: u64)
    requires
        old(list)@.no_duplicates(),
    ensures
        final(list)@.no_duplicates(),
        forall|x: u64| #[trigger] final(list)@.contains(x) <==> old(list)@.contains(x) || x == value,
{
    if !contains(list, value) {
        let ghost before = list@;
        list.push(value);
        proof {
            assert forall|x: u64| #[trigger] list@.contains(x) <==> before.contains(x) || x == value by {
                if before.contains(x) {
                    let k = before.index_of(x);
                    assert(list@[k] == x);
                }
                if x == value {
                    assert(list@[before.len() as int] == x);
                }
            }
        }
    }
}

proof fn lemma_offers_partition_step(offers: Seq<ServedStateTransfer>, i: int)
    requires
        0 <= i < offers.len(),
    ensures
        forall|g: u64|
            #![trigger offers_partition(offers.take(i + 1), g)]
            offers_partition(offers.take(i + 1), g) <==> offers_partition(offers.take(i), g) || (offers[i].offer.plane is Partition
                && offers[i].namespace == g),
{
    let next = offers.take(i + 1);
    let front = offers.take(i);
    assert forall|g: u64|
        #![trigger offers_partition(next, g)]
        offers_partition(next, g) <==> offers_partition(front, g) || (offers[i].offer.plane is Partition && offers[i].namespace == g) by {
        if offers_partition(next, g) {
            let k = choose|k: int|
                #![trigger next[k]]
                0 <= k < next.len() && next[k].offer.plane is Partition && next[k].namespace == g;
            if k < i {
                assert(front[k] == next[k]);
            }
        }
        if offers_partition(front, g) {
            let k = choose|k: int|
                #![trigger front[k]]
                0 <= k < front.len() && front[k].offer.plane is Partition && front[k].namespace == g;
            assert(next[k] == front[k]);
        }
        assert(next[i] == offers[i]);
    }
}

/// A served range lies inside the artifact, starts where it was asked,
/// holds at least one byte, and stays within the chunk ceiling.
pub proof fn law_served_range_is_bounded_and_progresses(bytes_len: int, request: ChunkRequest, chunk_len_max: usize)
    requires
        chunk_len_max >= 1,
        chunk_range(bytes_len, request, chunk_len_max) is Some,
    ensures
        ({
            let range = chunk_range(bytes_len, request, chunk_len_max)->0;
            &&& range.0 == request.offset
            &&& range.0 < range.1 <= bytes_len
            &&& range.1 - range.0 <= chunk_len_max
            &&& range.1 - range.0 <= request.len
        }),
{
}

/// Once a segment is loaded, the request that missed it is served out of
/// it and never asks for it again.
pub proof fn law_loaded_segment_is_served(
    before: Seq<CachedSegmentPayload>,
    stored: Seq<CachedSegmentPayload>,
    loaded: CachedSegmentPayload,
    cache_bytes_max: u64,
    offers: Seq<ServedStateTransfer>,
    i: int,
    plane: OfferPlane,
    request: ChunkRequest,
    chunk_len_max: usize,
    after: Seq<ServedStateTransfer>,
    attempt: ChunkAttempt,
)
    requires
        is_insertion(before, stored, loaded, cache_bytes_max),
        loaded.namespace == request.group,
        forall|a: int, b: int|
            #![trigger offers[a], offers[b]]
            0 <= a < b < offers.len() ==> offer_key(offers[a]) != offer_key(offers[b]),
        serves_at(offers, i, plane, request.group, request.replica, request.nonce),
        request.artifact < offers[i].offer.artifacts@.len(),
        offers[i].offer.artifacts@[request.artifact as int] matches ArtifactSource::Segment { log_path, entry }
            && entry.checksum == loaded.checksum,
        chunk_answer(offers, stored, plane, request, chunk_len_max, after, attempt),
    ensures
        serves_bytes(offers, i, loaded.payload, request, chunk_len_max, after, attempt),
        !(attempt is Load),
{
    law_inserted_payload_is_resident(before, stored, loaded, cache_bytes_max);
    let index = choose|index: int|
        #![trigger stored[index]]
        0 <= index < stored.len() && cache_key(stored[index]) == (loaded.namespace, loaded.checksum)
            && stored[index].payload == loaded.payload;
    assert(!holds_nothing(stored, request.group, loaded.checksum)) by {
        assert(cache_key(stored[index]) == (request.group, loaded.checksum));
    }
    assert forall|k: int| #[trigger] serves_at(offers, k, plane, request.group, request.replica, request.nonce) implies k == i by {
        if k < i {
            assert(offer_key(offers[k]) != offer_key(offers[i]));
        } else if i < k {
            assert(offer_key(offers[i]) != offer_key(offers[k]));
        }
    }
}

/// An offer pulled within its lifetime survives the sweep, one tick
/// older.
pub proof fn law_pulled_offer_survives_the_sweep(offers: Seq<ServedStateTransfer>, retry_ticks: u32, i: int)
    requires
        0 <= i < offers.len(),
        offers[i].idle_ticks < u32::MAX,
        offer_lives(aged_offer(offers[i]), retry_ticks),
    ensures
        unexpired_offers(offers, retry_ticks).contains(aged_offer(offers[i])),
{
    let aged = aged_offers(offers);
    let kept = |served: ServedStateTransfer| offer_lives(served, retry_ticks);
    lemma_filter_is_subsequence(aged, kept);
    assert(aged[i] == aged_offer(offers[i]));
}

/// A fresh offer outlives the sweep that follows its building, whatever
/// the retry interval.
pub proof fn law_fresh_offer_survives_its_first_sweep(served: ServedStateTransfer, retry_ticks: u32)
    requires
        served.idle_ticks == 0,
    ensures
        offer_lives(aged_offer(served), retry_ticks),
{
    let retry = if retry_ticks >= 1 {
        retry_ticks as int
    } else {
        1
    };
    assert(retry * STATE_TRANSFER_SERVED_EXPIRY_MULTIPLE >= 3) by (nonlinear_arith)
        requires
            retry >= 1,
    ;
    assert(retry * STATE_TRANSFER_OFFER_EXPIRY_MULTIPLE >= 10) by (nonlinear_arith)
        requires
            retry >= 1,
    ;
}

/// After a namespace's served state is dropped, no requester is served
/// out of it and no payload of it is resident.
pub proof fn law_dropped_namespace_serves_nothing(
    offers: Seq<ServedStateTransfer>,
    entries: Seq<CachedSegmentPayload>,
    plane: OfferPlane,
    namespace: u64,
    requester: u8,
    nonce: u128,
    checksum: u64,
)
    ensures
        serves_nowhere(offers_outside(offers, namespace), plane, namespace, requester, nonce),
        holds_nothing(other_namespaces(entries, namespace), namespace, checksum),
{
    lemma_filter_is_subsequence(offers, |served: ServedStateTransfer| served.namespace != namespace);
    lemma_filter_is_subsequence(entries, |entry: CachedSegmentPayload| entry.namespace != namespace);
}

/// Answering a repeated request leaves the very same offer in place, so
/// the next repeat is answered alike.
pub proof fn law_reanswering_is_idempotent(
    offers: Seq<ServedStateTransfer>,
    i: int,
    plane: OfferPlane,
    namespace: u64,
    requester: u8,
    nonce: u128,
)
    requires
        serves_at(offers, i, plane, namespace, requester, nonce),
    ensures
        ({
            let once = offers.update(i, ServedStateTransfer { idle_ticks: 0, ..offers[i] });
            &&& serves_at(once, i, plane, namespace, requester, nonce)
            &&& once[i].offer == offers[i].offer
            &&& once.update(i, ServedStateTransfer { idle_ticks: 0, ..once[i] }) == once
        }),
{
    let once = offers.update(i, ServedStateTransfer { idle_ticks: 0, ..offers[i] });
    assert(once.update(i, ServedStateTransfer { idle_ticks: 0, ..once[i] }) =~= once);
}

/// A requester's fresh offer replaces its stale one: the old nonce is
/// served no more, every other requester is served as before.
pub proof fn law_fresh_offer_replaces_the_stale_one(
    offers: Seq<ServedStateTransfer>,
    fresh: ServedStateTransfer,
    plane: OfferPlane,
    stale_nonce: u128,
    other: int,
)
    requires
        stale_nonce != fresh.nonce,
        0 <= other < offers.len(),
        offer_key(offers[other]) != offer_key(fresh),
    ensures
        serves_nowhere(
            other_offers(offers, fresh.namespace, fresh.requester).push(fresh),
            plane,
            fresh.namespace,
            fresh.requester,
            stale_nonce,
        ),
        other_offers(offers, fresh.namespace, fresh.requester).push(fresh).contains(offers[other]),
{
    let kept = |served: ServedStateTransfer| !(served.namespace == fresh.namespace && served.requester == fresh.requester);
    lemma_filter_is_subsequence(offers, kept);
    let others = other_offers(offers, fresh.namespace, fresh.requester);
    let after = others.push(fresh);
    assert forall|i: int| !#[trigger] serves_at(after, i, plane, fresh.namespace, fresh.requester, stale_nonce) by {
        if 0 <= i < others.len() {
            assert(after[i] == others[i]);
            assert(kept(others[i]));
        }
    }
    let k = choose|k: int| #![trigger others[k]] 0 <= k < others.len() && others[k] == offers[other];
    assert(after[k] == offers[other]);
}

/// A descriptor that offers something says so and names the offer's frontier;
/// one that does not says whether to come back soon. Both tell how far this
/// replica is.
pub proof fn law_descriptor_fields_tell_what_is_offered(descriptor: TransferDescriptor)
    ensures
        ({
            let fields = descriptor.spec_fields();
            &&& fields.available == 1 <==> descriptor.offer is Some
            &&& fields.available == 0 <==> descriptor.offer is None
            &&& descriptor.offer is Some ==> fields.commit_op == descriptor.offer->0.commit_op
            &&& descriptor.offer is None ==> fields.commit_op == 0
            &&& fields.unavailable_transient == 1 <==> descriptor.transient
            &&& fields.unavailable_transient <= 1
            &&& fields.view == descriptor.view
            &&& fields.commit_max == descriptor.commit_max
        }),
{
}

/// A chunk with its header fits the bus frame, no longer chunk would, and a
/// chunk is never empty.
pub proof fn law_chunk_fills_the_bus_frame(bus_max_message_size: usize, header_size: usize, longer: int)
    ensures
        ({
            let len = chunk_len_max_of(bus_max_message_size, header_size);
            &&& 1 <= len <= STATE_CHUNK_LEN
            &&& header_size < bus_max_message_size ==> header_size + len <= bus_max_message_size
            &&& header_size < bus_max_message_size && len < longer ==> longer > STATE_CHUNK_LEN || header_size + longer
                > bus_max_message_size
        }),
{
}

/// No more transfers than admitted would fit: one more segment is over the
/// budget. A segment counts with what it may overshoot, or with the artifact
/// ceiling where that is more.
pub proof fn law_admission_uses_the_whole_budget(cache_bytes_max: u64, artifact_len_max: u64, segment_size: u64)
    ensures
        (admission_cap(cache_bytes_max, artifact_len_max, segment_size) + 1) * resident_len(artifact_len_max, segment_size)
            > cache_bytes_max,
        admission_cap(cache_bytes_max, artifact_len_max, segment_size) >= 1,
        resident_len(artifact_len_max, segment_size) >= artifact_len_max,
        segment_size + SEGMENT_SIZE_OVERSHOOT_BYTES <= u64::MAX ==> {
            &&& resident_len(artifact_len_max, segment_size) >= segment_size + SEGMENT_SIZE_OVERSHOOT_BYTES
            &&& resident_len(artifact_len_max, segment_size) == artifact_len_max || resident_len(artifact_len_max, segment_size)
                == segment_size + SEGMENT_SIZE_OVERSHOOT_BYTES
        },
{
    let resident = resident_len(artifact_len_max, segment_size);
    let bytes = cache_bytes_max as int;
    let slots = bytes / resident;
    assert((slots + 1) * resident > bytes) by (nonlinear_arith)
        requires
            resident > 0,
            bytes >= 0,
            slots == bytes / resident,
    ;
    assert(slots < 1 ==> 2 * resident > bytes) by (nonlinear_arith)
        requires
            resident > 0,
            bytes >= 0,
            slots == bytes / resident,
    ;
}

/// A group counts against admission once, however many requesters pull from
/// it, and exactly while it has an offer out on the partition plane or a build
/// under way; a group that counts is never refused.
pub proof fn law_admission_counts_groups(offers: Seq<ServedStateTransfer>, builds: Map<u64, u32>, namespace: u64, cap: u64)
    ensures
        admitted_groups(offers, builds).contains(namespace) <==> builds.contains_key(namespace) || exists|i: int|
            #![trigger offers[i]]
            0 <= i < offers.len() && offers[i].namespace == namespace && offers[i].offer.plane is Partition,
        admitted_groups(offers, builds).contains(namespace) ==> admits_transfer(offers, builds, namespace, cap),
        !admitted_groups(offers, builds).contains(namespace) ==> (admits_transfer(offers, builds, namespace, cap) <==> admitted_groups(
            offers,
            builds,
        ).len() < cap),
{
}

/// A partition request is ignored exactly where the requester or the partition
/// is unknown, answered with the cached offer exactly where one is served under
/// its nonce, and else built where admission allows it and refused where not. A
/// build claims its slot afresh and takes nothing from anybody.
pub proof fn law_partition_request_is_settled(
    before: StateTransferServer,
    after: StateTransferServer,
    known: bool,
    namespace: u64,
    requester: u8,
    nonce: u128,
    cap: u64,
    step: PartitionRequestStep,
    other: u64,
)
    requires
        before.wf(),
        is_request_opened(before, after, known, namespace, requester, nonce, cap, step),
    ensures
        ({
            let served = exists|i: int|
                #[trigger] serves_at(before.offers@, i, OfferPlane::Partition, namespace, requester, nonce);
            let admitted = admits_transfer(before.offers@, before.builds@, namespace, cap);
            &&& step is Ignore <==> !known
            &&& step is Answer <==> known && served
            &&& step is Build <==> known && !served && admitted
            &&& step is Refuse <==> known && !served && !admitted
        }),
        step is Ignore || step is Refuse ==> after.offers@ == before.offers@ && after.builds@ == before.builds@,
        step is Build ==> {
            &&& after.builds@.contains_key(namespace) && after.builds@[namespace] == 0
            &&& after.offers@ == before.offers@
            &&& admitted_groups(after.offers@, after.builds@).contains(namespace)
            &&& other != namespace ==> after.builds@.contains_key(other) == before.builds@.contains_key(other)
        },
        forall|i: int|
            #[trigger] serves_at(before.offers@, i, OfferPlane::Partition, namespace, requester, nonce) && step is Answer ==> {
                &&& step->Answer_0 == before.offers@[i].offer
                &&& after.offers@[i].idle_ticks == 0
                &&& after.offers@[i].offer == before.offers@[i].offer
            },
        step is Answer ==> after.builds@ == before.builds@,
{
    assert forall|i: int|
        #[trigger] serves_at(before.offers@, i, OfferPlane::Partition, namespace, requester, nonce) && step is Answer implies {
        &&& step->Answer_0 == before.offers@[i].offer
        &&& after.offers@[i].idle_ticks == 0
        &&& after.offers@[i].offer == before.offers@[i].offer
    } by {
        let offers = before.offers@;
        let k = choose|k: int|
            {
                &&& #[trigger] serves_at(offers, k, OfferPlane::Partition, namespace, requester, nonce)
                &&& step->Answer_0 == offers[k].offer
                &&& after.offers@ == offers.update(k, ServedStateTransfer { idle_ticks: 0, ..offers[k] })
            };
        if k < i {
            assert(offer_key(offers[k]) != offer_key(offers[i]));
        } else if i < k {
            assert(offer_key(offers[i]) != offer_key(offers[k]));
        }
    }
}

/// An offer that is ready is handed out and served under its nonce from then
/// on, unpulled; its build slot is free. A round without one hands nothing out
/// and keeps its slot exactly where it will resume. No other slot is touched.
pub proof fn law_build_slot_outlives_only_an_unfinished_round(
    before: StateTransferServer,
    after: StateTransferServer,
    namespace: u64,
    requester: u8,
    nonce: u128,
    outcome: BuildOutcome,
    view: u32,
    commit_max: u64,
    descriptor: TransferDescriptor,
    other: u64,
)
    requires
        is_build_closed(before, after, namespace, requester, nonce, outcome, view, commit_max, descriptor),
        other != namespace,
    ensures
        descriptor.view == view && descriptor.commit_max == commit_max,
        descriptor.offer is Some <==> outcome is Ready,
        outcome is Ready ==> {
            let last = after.offers@.len() - 1;
            &&& descriptor.offer == Some(outcome->Ready_0)
            &&& !descriptor.transient
            &&& !after.builds@.contains_key(namespace)
            &&& serves_at(after.offers@, last, outcome->Ready_0.plane, namespace, requester, nonce)
            &&& after.offers@[last].offer == outcome->Ready_0
            &&& after.offers@[last].idle_ticks == 0
            &&& !after.offers@[last].fully_served
        },
        outcome is Unavailable ==> {
            &&& descriptor.transient == outcome->transient
            &&& after.offers == before.offers
            &&& after.builds@.contains_key(namespace) <==> outcome->in_progress && before.builds@.contains_key(namespace)
        },
        after.builds@.contains_key(other) == before.builds@.contains_key(other),
        before.builds@.contains_key(other) ==> after.builds@[other] == before.builds@[other],
{
}

/// The metadata plane's offer is handed out as it was built and served under
/// the nonce from then on; where none was built the refusal is not transient
/// and nothing changes.
pub proof fn law_metadata_offer_is_served_as_built(
    before: Seq<ServedStateTransfer>,
    after: Seq<ServedStateTransfer>,
    group: u64,
    requester: u8,
    nonce: u128,
    built: Option<Rc<StateTransferOffer>>,
    view: u32,
    commit_max: u64,
    descriptor: TransferDescriptor,
)
    requires
        is_metadata_answer(before, after, group, requester, nonce, built, view, commit_max, descriptor),
    ensures
        descriptor.offer == built,
        descriptor.view == view && descriptor.commit_max == commit_max && !descriptor.transient,
        built is None ==> after == before,
        built is Some ==> {
            &&& serves_at(after, after.len() - 1, built->0.plane, group, requester, nonce)
            &&& after.last().offer == built->0
            &&& after.last().idle_ticks == 0 && !after.last().fully_served
        },
{
}

/// What is offered is what is served: the request that follows an offer, under
/// its nonce, finds that offer and no other.
pub proof fn law_offer_is_found_under_its_nonce(
    before: Seq<ServedStateTransfer>,
    namespace: u64,
    requester: u8,
    nonce: u128,
    offer: Rc<StateTransferOffer>,
    after: Seq<ServedStateTransfer>,
    found: Option<Rc<StateTransferOffer>>,
)
    requires
        is_reanswered(
            offers_with(before, namespace, requester, nonce, offer),
            after,
            offer.plane,
            namespace,
            requester,
            nonce,
            found,
        ),
    ensures
        found == Some(offer),
        after.len() == offers_with(before, namespace, requester, nonce, offer).len(),
{
    let offers = offers_with(before, namespace, requester, nonce, offer);
    let last = offers.len() - 1;
    assert(serves_at(offers, last, offer.plane, namespace, requester, nonce));
    let kept = |served: ServedStateTransfer| !(served.namespace == namespace && served.requester == requester);
    lemma_filter_is_subsequence(before, kept);
    let others = other_offers(before, namespace, requester);
    assert forall|i: int| #[trigger] serves_at(offers, i, offer.plane, namespace, requester, nonce) implies i == last by {
        if i < last {
            assert(offers[i] == others[i]);
            assert(kept(others[i]));
        }
    }
}

/// A served chunk is as long as the request, the ceiling and the artifact
/// allow, and out of an artifact there is a chunk exactly where the request is
/// not empty and starts inside it.
pub proof fn law_chunk_is_as_long_as_allowed(bytes_len: int, request: ChunkRequest, chunk_len_max: usize)
    requires
        chunk_len_max >= 1,
        bytes_len >= 0,
    ensures
        chunk_range(bytes_len, request, chunk_len_max) is Some <==> request.len > 0 && request.offset < bytes_len,
        chunk_range(bytes_len, request, chunk_len_max) is Some ==> {
            let range = chunk_range(bytes_len, request, chunk_len_max)->0;
            ||| range.1 == bytes_len
            ||| range.1 - range.0 == request.len
            ||| range.1 - range.0 == chunk_len_max
        },
{
}

/// A chunk request is answered out of the artifact it names of the offer under
/// its nonce: unavailable exactly where there is no such offer, with the bytes
/// the offer holds or the segment's resident payload, or with the segment to
/// load. Only bytes that go out renew the offer, and it is fully served once
/// the last byte of its last artifact went out.
pub proof fn law_chunk_comes_from_the_named_artifact(
    offers: Seq<ServedStateTransfer>,
    resident: Seq<CachedSegmentPayload>,
    plane: OfferPlane,
    request: ChunkRequest,
    chunk_len_max: usize,
    after: Seq<ServedStateTransfer>,
    attempt: ChunkAttempt,
    i: int,
)
    requires
        chunk_len_max >= 1,
        forall|a: int, b: int|
            #![trigger offers[a], offers[b]]
            0 <= a < b < offers.len() ==> offer_key(offers[a]) != offer_key(offers[b]),
        chunk_answer(offers, resident, plane, request, chunk_len_max, after, attempt),
    ensures
        attempt is Unavailable <==> serves_nowhere(offers, plane, request.group, request.replica, request.nonce),
        !(attempt is Chunk) ==> after == offers,
        serves_at(offers, i, plane, request.group, request.replica, request.nonce) ==> {
            let artifacts = offers[i].offer.artifacts@;
            let named = artifacts[request.artifact as int];
            &&& request.artifact >= artifacts.len() ==> attempt is Ignore
            &&& request.artifact < artifacts.len() && named is Bytes ==> {
                let held = named->Bytes_0;
                &&& attempt is Chunk <==> request.len > 0 && request.offset < held@.len()
                &&& attempt is Chunk ==> attempt->bytes == held
            }
            &&& request.artifact < artifacts.len() && named is Segment && holds_nothing(
                resident,
                request.group,
                named->entry.checksum,
            ) ==> attempt is Load && attempt->Load_entry == named->entry && attempt->Load_log_path@ == named->log_path@
            &&& request.artifact < artifacts.len() && named is Segment && attempt is Chunk ==> holds_payload(
                resident,
                request.group,
                named->entry.checksum,
                attempt->bytes,
            )
            &&& attempt is Chunk ==> {
                &&& attempt->start == request.offset
                &&& attempt->start < attempt->end <= attempt->bytes@.len()
                &&& after.len() == offers.len()
                &&& after[i].idle_ticks == 0
                &&& after[i].offer == offers[i].offer && after[i].nonce == offers[i].nonce && offer_key(after[i]) == offer_key(
                    offers[i],
                )
                &&& after[i].fully_served <==> offers[i].fully_served || (request.artifact == artifacts.len() - 1
                    && attempt->end == attempt->bytes@.len())
                &&& forall|other: int| #![trigger after[other]] 0 <= other < offers.len() && other != i ==> after[other] == offers[other]
            }
        },
{
    if serves_at(offers, i, plane, request.group, request.replica, request.nonce) {
        assert forall|k: int| #[trigger] serves_at(offers, k, plane, request.group, request.replica, request.nonce) implies k == i by {
            if k < i {
                assert(offer_key(offers[k]) != offer_key(offers[i]));
            } else if i < k {
                assert(offer_key(offers[i]) != offer_key(offers[k]));
            }
        }
        let artifacts = offers[i].offer.artifacts@;
        if request.artifact < artifacts.len() {
            match artifacts[request.artifact as int] {
                ArtifactSource::Bytes(bytes) => {
                    assert(bytes.len() == bytes@.len());
                },
                ArtifactSource::Segment { log_path, entry } => {
                    if !holds_nothing(resident, request.group, entry.checksum) {
                        let payload = choose|payload: Rc<Vec<u8>>|
                            #[trigger] holds_payload(resident, request.group, entry.checksum, payload) && serves_bytes(
                                offers,
                                i,
                                payload,
                                request,
                                chunk_len_max,
                                after,
                                attempt,
                            );
                        assert(payload.len() == payload@.len());
                    }
                },
            }
        }
    }
}

/// A loaded segment answers the request that missed it: it is not asked for
/// again, and a chunk of it is a chunk of the very payload that was loaded.
pub proof fn law_resumed_chunk_is_served_from_the_load(
    before: StateTransferServer,
    after: StateTransferServer,
    plane: OfferPlane,
    request: ChunkRequest,
    entry: StateArtifact,
    payload: Rc<Vec<u8>>,
    cache_bytes_max: u64,
    chunk_len_max: usize,
    attempt: ChunkAttempt,
    i: int,
)
    requires
        before.wf(),
        chunk_len_max >= 1,
        is_chunk_resumed(before, after, plane, request, entry, payload, cache_bytes_max, chunk_len_max, attempt),
        serves_at(before.offers@, i, plane, request.group, request.replica, request.nonce),
        request.artifact < before.offers@[i].offer.artifacts@.len(),
        before.offers@[i].offer.artifacts@[request.artifact as int] is Segment,
        before.offers@[i].offer.artifacts@[request.artifact as int]->entry.checksum == entry.checksum,
    ensures
        !(attempt is Load) && !(attempt is Unavailable),
        attempt is Chunk <==> request.len > 0 && request.offset < payload@.len(),
        attempt is Chunk ==> attempt->bytes == payload && attempt->start == request.offset,
{
    let loaded = CachedSegmentPayload {
        namespace: request.group,
        checksum: entry.checksum,
        payload,
        last_use: bumped(before.cache.use_seq),
        last_use_sweep: before.cache.sweeps,
    };
    let stored = choose|stored: ServedSegmentCache|
        {
            &&& #[trigger] is_insertion(before.cache.entries@, stored.entries@, loaded, cache_bytes_max)
            &&& stored.use_seq == bumped(before.cache.use_seq)
            &&& stored.sweeps == before.cache.sweeps
            &&& chunk_cache(before.offers@, stored, plane, request, after.cache)
            &&& chunk_answer(before.offers@, stored.entries@, plane, request, chunk_len_max, after.offers@, attempt)
        };
    law_loaded_segment_is_served(
        before.cache.entries@,
        stored.entries@,
        loaded,
        cache_bytes_max,
        before.offers@,
        i,
        plane,
        request,
        chunk_len_max,
        after.offers@,
        attempt,
    );
    assert(payload.len() == payload@.len());
}

/// A sweep drops an offer exactly where it was idle for its lifetime, which is
/// so many retry intervals, fewer once it is fully served, and an interval of
/// zero counts as one. Build slots live as long as offers that are still
/// pulled from.
pub proof fn law_sweep_drops_what_is_idle(
    before: StateTransferServer,
    after: StateTransferServer,
    retry_ticks: u32,
    metadata_group: Option<u64>,
    released: ReleasedOffers,
    i: int,
    namespace: u64,
)
    requires
        before.wf(),
        is_swept(before, after, retry_ticks, metadata_group, released),
        0 <= i < before.offers@.len(),
    ensures
        ({
            let served = before.offers@[i];
            let multiple = if served.fully_served {
                STATE_TRANSFER_SERVED_EXPIRY_MULTIPLE
            } else {
                STATE_TRANSFER_OFFER_EXPIRY_MULTIPLE
            };
            let aged = ServedStateTransfer { idle_ticks: (served.idle_ticks + 1) as u32, ..served };
            let lives = served.idle_ticks + 1 < lifetime(retry_ticks, multiple);
            after.offers@.contains(aged) <==> lives
        }),
        after.builds@.contains_key(namespace) <==> before.builds@.contains_key(namespace) && before.builds@[namespace] + 1 < lifetime(
            retry_ticks,
            STATE_TRANSFER_OFFER_EXPIRY_MULTIPLE,
        ),
        after.builds@.contains_key(namespace) ==> after.builds@[namespace] == before.builds@[namespace] + 1,
        STATE_TRANSFER_SERVED_EXPIRY_MULTIPLE < STATE_TRANSFER_OFFER_EXPIRY_MULTIPLE,
{
    let offers = before.offers@;
    let aged = aged_offers(offers);
    let kept = |served: ServedStateTransfer| offer_lives(served, retry_ticks);
    lemma_filter_is_subsequence(aged, kept);
    let one = aged_offer(offers[i]);
    assert(aged[i] == one);
    let left = aged.filter(kept);
    if kept(one) {
        let k = choose|k: int| #![trigger left[k]] 0 <= k < left.len() && left[k] == aged[i];
        assert(left[k] == one);
    } else if left.contains(one) {
        let k = left.index_of(one);
        assert(kept(left[k]));
    }
    assert(before.builds@.contains_key(namespace) ==> before.builds@[namespace] < u32::MAX);
}

/// Lifetimes grow with the retry interval and start at one interval.
pub proof fn law_lifetime_is_so_many_intervals(retry_ticks: u32, multiple: u32)
    requires
        retry_ticks * multiple <= u32::MAX,
    ensures
        retry_ticks >= 1 ==> lifetime(retry_ticks, multiple) == retry_ticks * multiple,
        lifetime(0, multiple) == lifetime(1, multiple),
        lifetime(1, multiple) == multiple,
{
    assert(1 * multiple == multiple);
}

/// The sweep reports a namespace exactly where its last offer just went, and
/// the metadata plane exactly where nobody pulls from it any more.
pub proof fn law_sweep_reports_what_nobody_pulls(
    before: StateTransferServer,
    after: StateTransferServer,
    retry_ticks: u32,
    metadata_group: Option<u64>,
    released: ReleasedOffers,
    namespace: u64,
)
    requires
        is_swept(before, after, retry_ticks, metadata_group, released),
    ensures
        released.namespaces@.contains(namespace) <==> {
            &&& exists|i: int| #![trigger before.offers@[i]] 0 <= i < before.offers@.len() && before.offers@[i].namespace == namespace
            &&& forall|i: int| #![trigger after.offers@[i]] 0 <= i < after.offers@.len() ==> after.offers@[i].namespace != namespace
        },
        metadata_group is None ==> released.metadata,
        metadata_group is Some ==> (released.metadata <==> forall|i: int|
            #![trigger after.offers@[i]]
            0 <= i < after.offers@.len() ==> after.offers@[i].namespace != metadata_group->0),
{
}

/// A chunk of a segment counts as a use of its payload where that is resident,
/// and of no other; any other request leaves the resident payloads alone.
pub proof fn law_served_segment_counts_as_used(
    offers: Seq<ServedStateTransfer>,
    before: ServedSegmentCache,
    plane: OfferPlane,
    request: ChunkRequest,
    after: ServedSegmentCache,
    i: int,
    held: int,
)
    requires
        chunk_cache(offers, before, plane, request, after),
        serves_at(offers, i, plane, request.group, request.replica, request.nonce),
        0 <= held < before.entries@.len(),
    ensures
        ({
            let artifacts = offers[i].offer.artifacts@;
            let segment = request.artifact < artifacts.len() && artifacts[request.artifact as int] is Segment;
            let entry = before.entries@[held];
            let named = entry.namespace == request.group && entry.checksum == artifacts[request.artifact as int]->entry.checksum;
            &&& !segment ==> after == before
            &&& after.entries@.len() == before.entries@.len()
            &&& after.entries@[held].payload == entry.payload
            &&& segment && named ==> after.entries@[held].last_use_sweep == before.sweeps
            &&& segment && named && before.use_seq < u64::MAX ==> after.entries@[held].last_use == before.use_seq + 1
            &&& !named ==> after.entries@[held] == entry
        }),
{
    let _ = after.entries@[held];
}

/// A request no offer answers uses no resident payload.
pub proof fn law_unserved_request_uses_nothing(
    offers: Seq<ServedStateTransfer>,
    before: ServedSegmentCache,
    plane: OfferPlane,
    request: ChunkRequest,
    after: ServedSegmentCache,
)
    requires
        chunk_cache(offers, before, plane, request, after),
        forall|i: int|
            !#[trigger] serves_at(offers, i, plane, request.group, request.replica, request.nonce),
    ensures
        after == before,
{
    assert(serves_nowhere(offers, plane, request.group, request.replica, request.nonce));
}

/// A resident payload lives as long unused as an offer does: it goes with the
/// sweep that finds it idle for longer, and with no other.
pub proof fn law_resident_payload_lives_as_long_as_an_offer(
    before: StateTransferServer,
    after: StateTransferServer,
    retry_ticks: u32,
    metadata_group: Option<u64>,
    released: ReleasedOffers,
    held: int,
)
    requires
        is_swept(before, after, retry_ticks, metadata_group, released),
        0 <= held < before.cache.entries@.len(),
        before.cache.sweeps < u64::MAX,
    ensures
        ({
            let entry = before.cache.entries@[held];
            let interval: int = if retry_ticks == 0 {
                1
            } else {
                retry_ticks as int
            };
            after.cache.entries@.contains(entry) <==> before.cache.sweeps + 1 - entry.last_use_sweep <= interval
                * STATE_TRANSFER_OFFER_EXPIRY_MULTIPLE
        }),
{
    let entry = before.cache.entries@[held];
    let floor = payload_floor(before.cache.sweeps, retry_ticks);
    let interval: int = if retry_ticks == 0 {
        1
    } else {
        retry_ticks as int
    };
    let span = interval * STATE_TRANSFER_OFFER_EXPIRY_MULTIPLE;
    assert(0 <= span <= u64::MAX) by (nonlinear_arith)
        requires
            span == interval * STATE_TRANSFER_OFFER_EXPIRY_MULTIPLE,
            0 <= interval <= u32::MAX,
            STATE_TRANSFER_OFFER_EXPIRY_MULTIPLE <= u32::MAX,
    ;
    let keep = |entry: CachedSegmentPayload| entry.last_use_sweep >= floor;
    lemma_filter_is_subsequence(before.cache.entries@, keep);
    if after.cache.entries@.contains(entry) {
        let i = after.cache.entries@.index_of(entry);
        assert(keep(after.cache.entries@[i]));
    }
    if keep(entry) {
        assert(before.cache.entries@[held] == entry);
    }
}

/// A request nothing is served for finds no offer and leaves all of them as
/// they are; one that finds its offer renews that one's time and no other's.
pub proof fn law_reanswer_renews_its_own_offer(
    before: Seq<ServedStateTransfer>,
    after: Seq<ServedStateTransfer>,
    plane: OfferPlane,
    namespace: u64,
    requester: u8,
    nonce: u128,
    offer: Option<Rc<StateTransferOffer>>,
    other: int,
)
    requires
        is_reanswered(before, after, plane, namespace, requester, nonce, offer),
        0 <= other < before.len(),
    ensures
        offer is None ==> after == before && !serves_at(before, other, plane, namespace, requester, nonce),
        offer is Some ==> after.len() == before.len(),
        offer is Some && !serves_at(before, other, plane, namespace, requester, nonce) ==> after[other] == before[other],
        after[other] == (ServedStateTransfer { idle_ticks: after[other].idle_ticks, ..before[other] }),
{
}

} // verus!
