//! What a view change says about the log, and how this replica's own log
//! compares: the suffix a replica advertises, the first op it cannot serve,
//! and the entries it has to drop.

use std::collections::HashMap;

use vstd::prelude::*;

use crate::wire::{dvc_blank, is_blank, PrepareHeader, CHECKSUM_UNSEALED};

verus! {

broadcast use vstd::std_specs::hash::group_hash_axioms;

/// Most headers one advertised suffix describes.
pub const DVC_HEADERS_MAX: u64 = 128;

/// Journal headers by op: the slice of a journal a handler works on.
pub struct HeaderWindow {
    entries: HashMap<u64, PrepareHeader>,
}

impl View for HeaderWindow {
    type V = Map<u64, PrepareHeader>;

    closed spec fn view(&self) -> Map<u64, PrepareHeader> {
        self.entries@
    }
}

impl HeaderWindow {
    pub fn new() -> (window: HeaderWindow)
        ensures
            window@ == Map::<u64, PrepareHeader>::empty(),
    {
        HeaderWindow { entries: HashMap::new() }
    }

    /// Record that the journal holds `header` at `header.op`.
    pub fn insert(&mut self, header: PrepareHeader)
        ensures
            final(self)@ == old(self)@.insert(header.op, header),
    {
        self.entries.insert(header.op, header);
    }

    /// The header the journal holds at `op`.
    pub fn header(&self, op: u64) -> (found: Option<PrepareHeader>)
        ensures
            found == held_at(self@, op),
    {
        match self.entries.get(&op) {
            Some(header) => Some(*header),
            None => None,
        }
    }
}

/// The header `journal` holds at `op`.
pub open spec fn held_at(journal: Map<u64, PrepareHeader>, op: u64) -> Option<PrepareHeader> {
    if journal.contains_key(op) {
        Some(journal[op])
    } else {
        None
    }
}

/// The log a view change decided.
pub struct MergedLog {
    pub op_head: u64,
    pub commit_max: u64,
    /// High to low from `op_head`.
    pub headers: Vec<PrepareHeader>,
    /// Headers inherited from senders behind the canonical log.
    pub committed_elsewhere: Vec<PrepareHeader>,
}

/// The uncommitted suffix a replica advertises: headers high to low, and per
/// slot whether the replica nacks the op or can serve its body.
pub struct DvcSuffix {
    pub headers: Vec<PrepareHeader>,
    pub nack_bitset: u128,
    pub present_bitset: u128,
}

/// Bit `index` of `bits`.
pub open spec fn bit_at(bits: u128, index: int) -> bool {
    (bits >> (index as u128)) & 1 == 1
}

proof fn lemma_set_bit(bits: u128, index: u128)
    requires
        index < 128,
    ensures
        forall|j: int|
            #![trigger bit_at(bits | (1u128 << index), j)]
            0 <= j < 128 ==> bit_at(bits | (1u128 << index), j) == (j == index || bit_at(bits, j)),
{
    assert forall|j: int|
        #![trigger bit_at(bits | (1u128 << index), j)]
        0 <= j < 128 implies bit_at(bits | (1u128 << index), j) == (j == index || bit_at(bits, j)) by {
        let k: u128 = j as u128;
        assert(((bits | (1u128 << index)) >> k) & 1 == 1 <==> (k == index || (bits >> k) & 1 == 1)) by (bit_vector)
            requires
                index < 128,
                k < 128,
        ;
    }
}

proof fn lemma_no_bits()
    ensures
        forall|j: int| 0 <= j < 128 ==> !bit_at(0u128, j),
{
    assert forall|j: int| 0 <= j < 128 implies !bit_at(0u128, j) by {
        let k: u128 = j as u128;
        assert((0u128 >> k) & 1 == 0) by (bit_vector)
            requires
                k < 128,
        ;
    }
}

/// The view's header at `op`, where its headers run high to low from the head.
pub open spec fn view_header_spec(view_headers: Seq<PrepareHeader>, op: u64) -> Option<PrepareHeader> {
    if view_headers.len() == 0 || view_headers[0].op < op {
        None
    } else {
        let index = view_headers[0].op - op;
        if index >= view_headers.len() {
            None
        } else if view_headers[index].op != op || view_headers[index] == crate::wire::blank_header(op) {
            None
        } else {
            Some(view_headers[index])
        }
    }
}

/// The adopted view's header at `op`, or `None` when the view says nothing
/// about it. The op is re-checked rather than assumed: a mismatch means the
/// range is not the contiguous run this indexing needs.
pub fn view_header_at(view_headers: &Vec<PrepareHeader>, op: u64) -> (found: Option<PrepareHeader>)
    ensures
        found == view_header_spec(view_headers@, op),
{
    if view_headers.len() == 0 {
        return None;
    }
    let head: u64 = view_headers[0].op;
    if head < op {
        return None;
    }
    let index: u64 = head - op;
    if index >= view_headers.len() as u64 {
        return None;
    }
    let header: PrepareHeader = view_headers[index as usize];
    if header.op != op || is_blank(&header) {
        return None;
    }
    Some(header)
}


impl DvcSuffix {
    /// Slot of `op` in a window whose slot 0 is `op_head`.
    pub open spec fn slot_of(self, op_head: u64, op: u64) -> Option<usize> {
        if op <= op_head && op_head - op < self.headers@.len() {
            Some((op_head - op) as usize)
        } else {
            None
        }
    }

    /// The header in a slot that is not blank.
    pub open spec fn known_at(self, index: int) -> Option<PrepareHeader> {
        if 0 <= index < self.headers@.len() && self.headers@[index] != crate::wire::blank_header(self.headers@[index].op) {
            Some(self.headers@[index])
        } else {
            None
        }
    }

    pub fn empty() -> (suffix: DvcSuffix)
        ensures
            suffix.headers@.len() == 0,
            suffix.nack_bitset == 0,
            suffix.present_bitset == 0,
    {
        DvcSuffix { headers: Vec::new(), nack_bitset: 0, present_bitset: 0 }
    }

    pub fn len(&self) -> (len: usize)
        ensures
            len == self.headers@.len(),
    {
        self.headers.len()
    }

    /// Slot of `op` in a window whose slot 0 is `op_head`.
    pub fn index_of(&self, op_head: u64, op: u64) -> (index: Option<usize>)
        ensures
            index == self.slot_of(op_head, op),
    {
        if op > op_head {
            return None;
        }
        let distance: u64 = op_head - op;
        if distance < self.headers.len() as u64 {
            Some(distance as usize)
        } else {
            None
        }
    }

    /// The header in slot `index`, unless the slot is blank.
    pub fn valid_header_at(&self, index: usize) -> (header: Option<PrepareHeader>)
        ensures
            header == self.known_at(index as int),
    {
        if index >= self.headers.len() {
            return None;
        }
        let header: PrepareHeader = self.headers[index];
        if is_blank(&header) {
            None
        } else {
            Some(header)
        }
    }

    /// Whether the sender can serve the body of slot `index`.
    pub fn offers_body(&self, index: usize) -> (res: bool)
        requires
            index < 128,
        ensures
            res == bit_at(self.present_bitset, index as int),
    {
        (self.present_bitset >> (index as u128)) & 1 == 1
    }

    /// Whether the sender nacks slot `index`.
    pub fn nacks(&self, index: usize) -> (res: bool)
        requires
            index < 128,
        ensures
            res == bit_at(self.nack_bitset, index as int),
    {
        (self.nack_bitset >> (index as u128)) & 1 == 1
    }
}

pub open spec fn max_u64(a: u64, b: u64) -> u64 {
    if a >= b {
        a
    } else {
        b
    }
}

pub open spec fn min_u64(a: u64, b: u64) -> u64 {
    if a <= b {
        a
    } else {
        b
    }
}

/// Op of the first header of an adopted view, 0 without one.
pub open spec fn view_head(view_headers: Option<Seq<PrepareHeader>>) -> u64 {
    match view_headers {
        Some(headers) => if headers.len() > 0 {
            headers[0].op
        } else {
            0
        },
        None => 0,
    }
}

/// Highest op a suffix window reaches: the journal head or the adopted view's
/// head, whichever is higher.
pub open spec fn suffix_head(op: u64, view_headers: Option<Seq<PrepareHeader>>) -> u64 {
    max_u64(op, view_head(view_headers))
}

/// Lowest op of a suffix window that ends at `head`: the commit point, floored
/// at op 1, and never more than `DVC_HEADERS_MAX` ops below the head.
pub open spec fn suffix_low(commit: u64, head: u64) -> int {
    let low = max_u64(commit, 1);
    if head - low + 1 > DVC_HEADERS_MAX {
        head - DVC_HEADERS_MAX + 1
    } else {
        low as int
    }
}

/// What slot `index` of a suffix says about the op `op`.
pub open spec fn slot_describes(
    suffix: DvcSuffix,
    index: int,
    op: u64,
    commit: u64,
    journal: Map<u64, PrepareHeader>,
    view_headers: Option<Seq<PrepareHeader>>,
) -> bool {
    if journal.contains_key(op) {
        &&& suffix.headers@[index] == journal[op]
        &&& bit_at(suffix.present_bitset, index)
        &&& !bit_at(suffix.nack_bitset, index)
    } else if view_headers is Some && view_header_spec(view_headers->0, op) is Some {
        &&& suffix.headers@[index] == view_header_spec(view_headers->0, op)->0
        &&& !bit_at(suffix.present_bitset, index)
        &&& !bit_at(suffix.nack_bitset, index)
    } else {
        &&& suffix.headers@[index] == crate::wire::blank_header(op)
        &&& !bit_at(suffix.present_bitset, index)
        &&& bit_at(suffix.nack_bitset, index) == (op > commit)
    }
}

/// `suffix` describes, slot by slot, what a replica with this journal and this
/// adopted view knows between its commit point and its head.
pub open spec fn suffix_describes(
    suffix: DvcSuffix,
    commit: u64,
    op: u64,
    journal: Map<u64, PrepareHeader>,
    view_headers: Option<Seq<PrepareHeader>>,
) -> bool {
    let head = suffix_head(op, view_headers);
    if head == 0 || max_u64(commit, 1) > head {
        &&& suffix.headers@.len() == 0
        &&& suffix.nack_bitset == 0
        &&& suffix.present_bitset == 0
    } else {
        let low = suffix_low(commit, head);
        &&& suffix.headers@.len() == head - low + 1
        &&& forall|i: int|
            #![trigger suffix.headers@[i]]
            0 <= i < suffix.headers@.len() ==> slot_describes(
                suffix,
                i,
                (head - i) as u64,
                commit,
                journal,
                view_headers,
            )
        &&& forall|i: int|
            suffix.headers@.len() <= i < 128 ==> !#[trigger] bit_at(suffix.nack_bitset, i)
        &&& forall|i: int|
            suffix.headers@.len() <= i < 128 ==> !#[trigger] bit_at(suffix.present_bitset, i)
    }
}

pub open spec fn headers_view(headers: Option<&Vec<PrepareHeader>>) -> Option<Seq<PrepareHeader>> {
    match headers {
        Some(list) => Some(list@),
        None => None,
    }
}

/// Read the suffix a replica advertises for the window from its commit point
/// to its head.
///
/// The adopted view's headers are stitched over the journal: an op the journal
/// lacks but the view decided is reported with its header, neither nacked nor
/// offered. A hole that only the journal could fill is nacked above the commit
/// point and left blank at it.
pub fn build_dvc_suffix(
    commit: u64,
    op: u64,
    journal: &HeaderWindow,
    view_headers: Option<&Vec<PrepareHeader>>,
) -> (suffix: DvcSuffix)
    ensures
        suffix_describes(suffix, commit, op, journal@, headers_view(view_headers)),
{
    let view_head: u64 = match view_headers {
        Some(headers) => if headers.len() > 0 {
            headers[0].op
        } else {
            0
        },
        None => 0,
    };
    let head: u64 = if op >= view_head {
        op
    } else {
        view_head
    };
    if head == 0 {
        return DvcSuffix::empty();
    }
    let mut low: u64 = if commit >= 1 {
        commit
    } else {
        1
    };
    if low > head {
        return DvcSuffix::empty();
    }
    if head - low >= DVC_HEADERS_MAX {
        low = head - DVC_HEADERS_MAX + 1;
    }
    let len: usize = (head - low + 1) as usize;
    let mut suffix: DvcSuffix = DvcSuffix { headers: Vec::new(), nack_bitset: 0, present_bitset: 0 };
    proof {
        lemma_no_bits();
    }
    let mut index: usize = 0;
    while index < len
        invariant
            head == suffix_head(op, headers_view(view_headers)),
            low == suffix_low(commit, head),
            1 <= low <= head,
            len == head - low + 1,
            len <= 128,
            index <= len,
            suffix.headers@.len() == index,
            forall|i: int|
                #![trigger suffix.headers@[i]]
                0 <= i < index ==> slot_describes(
                    suffix,
                    i,
                    (head - i) as u64,
                    commit,
                    journal@,
                    headers_view(view_headers),
                ),
            forall|i: int| index <= i < 128 ==> !#[trigger] bit_at(suffix.nack_bitset, i),
            forall|i: int| index <= i < 128 ==> !#[trigger] bit_at(suffix.present_bitset, i),
        decreases len - index,
    {
        let entry_op: u64 = head - index as u64;
        let ghost before = suffix;
        let from_view: Option<PrepareHeader> = match view_headers {
            Some(headers) => view_header_at(headers, entry_op),
            None => None,
        };
        match journal.header(entry_op) {
            Some(header) => {
                suffix.headers.push(header);
                suffix.present_bitset = suffix.present_bitset | (1u128 << (index as u128));
                proof {
                    lemma_set_bit(before.present_bitset, index as u128);
                }
            },
            None => match from_view {
                Some(header) => {
                    suffix.headers.push(header);
                },
                None => {
                    suffix.headers.push(dvc_blank(entry_op));
                    if entry_op > commit {
                        suffix.nack_bitset = suffix.nack_bitset | (1u128 << (index as u128));
                        proof {
                            lemma_set_bit(before.nack_bitset, index as u128);
                        }
                    }
                },
            },
        }
        proof {
            assert forall|i: int| #![trigger suffix.headers@[i]] 0 <= i < index + 1 implies slot_describes(
                suffix,
                i,
                (head - i) as u64,
                commit,
                journal@,
                headers_view(view_headers),
            ) by {
                if i < index {
                    assert(suffix.headers@[i] == before.headers@[i]);
                }
            }
        }
        index += 1;
    }
    suffix
}


/// A replica never nacks an op at or below its own commit point.
pub proof fn law_commit_point_is_never_nacked(
    suffix: DvcSuffix,
    commit: u64,
    op: u64,
    journal: Map<u64, PrepareHeader>,
    view_headers: Option<Seq<PrepareHeader>>,
    index: int,
)
    requires
        suffix_describes(suffix, commit, op, journal, view_headers),
        0 <= index < suffix.headers@.len(),
        suffix_head(op, view_headers) - index <= commit,
    ensures
        !bit_at(suffix.nack_bitset, index),
{
    let _ = suffix.headers@[index];
}

/// No slot is both nacked and offered.
pub proof fn law_nacked_slot_offers_no_body(
    suffix: DvcSuffix,
    commit: u64,
    op: u64,
    journal: Map<u64, PrepareHeader>,
    view_headers: Option<Seq<PrepareHeader>>,
    index: int,
)
    requires
        suffix_describes(suffix, commit, op, journal, view_headers),
        0 <= index < 128,
    ensures
        !(bit_at(suffix.nack_bitset, index) && bit_at(suffix.present_bitset, index)),
{
    if index < suffix.headers@.len() {
        let _ = suffix.headers@[index];
    } else {
        lemma_no_bits();
    }
}

/// An op the adopted view decided is never nacked, whatever the journal
/// holds.
pub proof fn law_adopted_view_op_is_never_nacked(
    suffix: DvcSuffix,
    commit: u64,
    op: u64,
    journal: Map<u64, PrepareHeader>,
    view_headers: Seq<PrepareHeader>,
    index: int,
)
    requires
        suffix_describes(suffix, commit, op, journal, Some(view_headers)),
        0 <= index < suffix.headers@.len(),
        view_header_spec(view_headers, (suffix_head(op, Some(view_headers)) - index) as u64) is Some,
    ensures
        !bit_at(suffix.nack_bitset, index),
{
    let _ = suffix.headers@[index];
}

/// A suffix never describes more ops than its bitsets can carry, reaches
/// down to the commit point unless that takes more than the ceiling, and its
/// slots run one op at a time from the head down.
pub proof fn law_suffix_window_is_bounded_and_contiguous(
    suffix: DvcSuffix,
    commit: u64,
    op: u64,
    journal: Map<u64, PrepareHeader>,
    view_headers: Option<Seq<PrepareHeader>>,
)
    requires
        suffix_describes(suffix, commit, op, journal, view_headers),
        journal_is_keyed_by_op(journal),
    ensures
        suffix.headers@.len() <= DVC_HEADERS_MAX,
        forall|i: int|
            #![trigger suffix.headers@[i]]
            0 <= i < suffix.headers@.len() ==> suffix.headers@[i].op == suffix_head(op, view_headers) - i,
        1 <= commit <= suffix_head(op, view_headers) && suffix_head(op, view_headers) - commit < DVC_HEADERS_MAX
            ==> suffix.headers@.len() == suffix_head(op, view_headers) - commit + 1,
{
}

/// A journal window files every header under its own op.
pub open spec fn journal_is_keyed_by_op(journal: Map<u64, PrepareHeader>) -> bool {
    forall|op: u64| #[trigger] journal.contains_key(op) ==> journal[op].op == op
}

/// Whether a locally journaled header is the entry the view's log names at
/// that op. An unsealed checksum on either side is no evidence of a
/// difference.
pub open spec fn is_view_entry(local: PrepareHeader, canonical: PrepareHeader) -> bool {
    local.checksum == CHECKSUM_UNSEALED || canonical.checksum == CHECKSUM_UNSEALED || local.checksum
        == canonical.checksum
}

pub fn header_is_view_entry(local: &PrepareHeader, canonical: &PrepareHeader) -> (res: bool)
    ensures
        res == is_view_entry(*local, *canonical),
{
    local.checksum == CHECKSUM_UNSEALED || canonical.checksum == CHECKSUM_UNSEALED || local.checksum
        == canonical.checksum
}

/// First header of `headers` at or after `from` that sits at `op`.
pub open spec fn first_at_op(headers: Seq<PrepareHeader>, op: u64, from: int) -> Option<PrepareHeader>
    decreases headers.len() - from,
{
    if from < 0 || from >= headers.len() {
        None
    } else if headers[from].op == op {
        Some(headers[from])
    } else {
        first_at_op(headers, op, from + 1)
    }
}

/// The header the merged log names at `op`: from its own window first, else
/// from the headers committed elsewhere.
pub open spec fn canonical_at(pending: MergedLog, op: u64) -> Option<PrepareHeader> {
    match first_at_op(pending.headers@, op, 0) {
        Some(header) => Some(header),
        None => first_at_op(pending.committed_elsewhere@, op, 0),
    }
}

fn find_at_op(headers: &Vec<PrepareHeader>, op: u64) -> (found: Option<PrepareHeader>)
    ensures
        found == first_at_op(headers@, op, 0),
{
    let mut i: usize = 0;
    while i < headers.len()
        invariant
            i <= headers.len(),
            first_at_op(headers@, op, 0) == first_at_op(headers@, op, i as int),
        decreases headers.len() - i,
    {
        if headers[i].op == op {
            return Some(headers[i]);
        }
        i += 1;
    }
    None
}

/// The header the merged log names at `op`.
pub fn canonical_header(pending: &MergedLog, op: u64) -> (found: Option<PrepareHeader>)
    ensures
        found == canonical_at(*pending, op),
{
    match find_at_op(&pending.headers, op) {
        Some(header) => Some(header),
        None => find_at_op(&pending.committed_elsewhere, op),
    }
}

/// Coverage is identity, not presence: the journal holds `op`, and where the
/// merged log names an entry there, it is that entry.
pub open spec fn covers(pending: MergedLog, journal: Map<u64, PrepareHeader>, op: u64) -> bool {
    journal.contains_key(op) && match canonical_at(pending, op) {
        Some(canonical) => is_view_entry(journal[op], canonical),
        None => true,
    }
}

fn op_is_covered(pending: &MergedLog, journal: &HeaderWindow, op: u64) -> (res: bool)
    ensures
        res == covers(*pending, journal@, op),
{
    match journal.header(op) {
        Some(local) => match canonical_header(pending, op) {
            Some(canonical) => header_is_view_entry(&local, &canonical),
            None => true,
        },
        None => false,
    }
}

/// Lowest op of the merged window a replica has to hold: everything at or
/// below `repair_floor` is settled already.
pub open spec fn coverage_low(pending: MergedLog, repair_floor: u64) -> int {
    let low = max_u64(pending.commit_max, 1);
    if repair_floor + 1 > low {
        repair_floor + 1
    } else {
        low as int
    }
}

/// Every op of the merged window above the floor is covered.
pub open spec fn window_covered(pending: MergedLog, repair_floor: u64, journal: Map<u64, PrepareHeader>, below: int) -> bool {
    forall|op: u64|
        coverage_low(pending, repair_floor) <= op < below && op <= pending.op_head ==> #[trigger] covers(pending, journal, op)
}

/// Every header committed elsewhere, before index `below` and above the floor,
/// is covered.
pub open spec fn elsewhere_covered(pending: MergedLog, repair_floor: u64, journal: Map<u64, PrepareHeader>, below: int) -> bool {
    forall|i: int|
        #![trigger pending.committed_elsewhere@[i]]
        0 <= i < below && pending.committed_elsewhere@[i].op > repair_floor ==> covers(
            pending,
            journal,
            pending.committed_elsewhere@[i].op,
        )
}

/// The merged log names `op` above the floor: in its window, or as a header
/// committed elsewhere.
pub open spec fn needs_op(pending: MergedLog, repair_floor: u64, op: u64) -> bool {
    ||| coverage_low(pending, repair_floor) <= op <= pending.op_head
    ||| op > repair_floor && exists|i: int|
        0 <= i < pending.committed_elsewhere@.len() && (#[trigger] pending.committed_elsewhere@[i]).op == op
}

/// `missing` is the op a view waits for: the lowest op the merged log names
/// above the floor that the journal does not cover.
pub open spec fn is_first_uncovered(
    pending: MergedLog,
    repair_floor: u64,
    journal: Map<u64, PrepareHeader>,
    missing: u64,
) -> bool {
    &&& needs_op(pending, repair_floor, missing)
    &&& !covers(pending, journal, missing)
    &&& forall|op: u64| #[trigger] needs_op(pending, repair_floor, op) && op < missing ==> covers(pending, journal, op)
}

/// The view can start: nothing the merged log names above the floor is
/// missing.
pub open spec fn view_is_serveable(pending: MergedLog, repair_floor: u64, journal: Map<u64, PrepareHeader>) -> bool {
    &&& window_covered(pending, repair_floor, journal, pending.op_head + 1)
    &&& elsewhere_covered(pending, repair_floor, journal, pending.committed_elsewhere@.len() as int)
}

/// `missing` is the lowest uncovered op of the merged window, if it has one.
spec fn lowest_in_window(
    pending: MergedLog,
    repair_floor: u64,
    journal: Map<u64, PrepareHeader>,
    missing: Option<u64>,
) -> bool {
    match missing {
        Some(op) => {
            &&& coverage_low(pending, repair_floor) <= op <= pending.op_head
            &&& !covers(pending, journal, op)
            &&& window_covered(pending, repair_floor, journal, op as int)
        },
        None => window_covered(pending, repair_floor, journal, pending.op_head + 1),
    }
}

/// `missing` is the lowest uncovered op among the merged window and the first
/// `seen` headers committed elsewhere.
spec fn lowest_so_far(
    pending: MergedLog,
    repair_floor: u64,
    journal: Map<u64, PrepareHeader>,
    seen: int,
    missing: Option<u64>,
) -> bool {
    match missing {
        Some(op) => {
            &&& needs_op(pending, repair_floor, op)
            &&& !covers(pending, journal, op)
            &&& window_covered(pending, repair_floor, journal, op as int)
            &&& forall|i: int|
                #![trigger pending.committed_elsewhere@[i]]
                0 <= i < seen && repair_floor < pending.committed_elsewhere@[i].op < op ==> covers(
                    pending,
                    journal,
                    pending.committed_elsewhere@[i].op,
                )
        },
        None => {
            &&& window_covered(pending, repair_floor, journal, pending.op_head + 1)
            &&& elsewhere_covered(pending, repair_floor, journal, seen)
        },
    }
}

/// The lowest op of the merged log this replica cannot serve, or `None` when
/// the view can start.
pub fn first_op_not_covered(
    pending: &MergedLog,
    repair_floor: u64,
    journal: &HeaderWindow,
) -> (missing: Option<u64>)
    requires
        repair_floor < u64::MAX,
    ensures
        missing is None <==> view_is_serveable(*pending, repair_floor, journal@),
        missing matches Some(op) ==> is_first_uncovered(*pending, repair_floor, journal@, op),
{
    let mut low: u64 = if pending.commit_max >= 1 {
        pending.commit_max
    } else {
        1
    };
    if repair_floor + 1 > low {
        low = repair_floor + 1;
    }
    let mut missing: Option<u64> = None;
    if low <= pending.op_head {
        let mut op: u64 = low;
        loop
            invariant_except_break
                missing is None,
            invariant
                low == coverage_low(*pending, repair_floor),
                low <= op <= pending.op_head,
                window_covered(*pending, repair_floor, journal@, op as int),
            ensures
                lowest_in_window(*pending, repair_floor, journal@, missing),
            decreases pending.op_head - op,
        {
            if !op_is_covered(pending, journal, op) {
                missing = Some(op);
                break;
            }
            if op == pending.op_head {
                break;
            }
            op += 1;
        }
    }
    let mut i: usize = 0;
    while i < pending.committed_elsewhere.len()
        invariant
            i <= pending.committed_elsewhere@.len(),
            lowest_so_far(*pending, repair_floor, journal@, i as int, missing),
        decreases pending.committed_elsewhere@.len() - i,
    {
        let op: u64 = pending.committed_elsewhere[i].op;
        let lower: bool = match missing {
            Some(found) => op < found,
            None => true,
        };
        if op > repair_floor && lower && !op_is_covered(pending, journal, op) {
            missing = Some(op);
        }
        i += 1;
    }
    missing
}

/// Raising the floor never makes a serveable view wait.
pub proof fn law_higher_floor_keeps_a_view_serveable(
    pending: MergedLog,
    floor: u64,
    higher: u64,
    journal: Map<u64, PrepareHeader>,
)
    requires
        view_is_serveable(pending, floor, journal),
        floor <= higher,
    ensures
        view_is_serveable(pending, higher, journal),
{
}

/// A journal that holds exactly the merged log's entries never waits.
pub proof fn law_journal_of_the_view_is_serveable(
    pending: MergedLog,
    floor: u64,
    journal: Map<u64, PrepareHeader>,
)
    requires
        forall|op: u64|
            #![trigger journal.contains_key(op)]
            (coverage_low(pending, floor) <= op <= pending.op_head || exists|i: int|
                #![trigger pending.committed_elsewhere@[i]]
                0 <= i < pending.committed_elsewhere@.len() && pending.committed_elsewhere@[i].op == op)
                ==> journal.contains_key(op) && (canonical_at(pending, op) is Some ==> journal[op]
                == canonical_at(pending, op)->0),
    ensures
        view_is_serveable(pending, floor, journal),
{
    assert forall|op: u64|
        coverage_low(pending, floor) <= op < pending.op_head + 1 && op <= pending.op_head implies #[trigger] covers(
        pending,
        journal,
        op,
    ) by {
        assert(journal.contains_key(op));
    }
    assert forall|i: int|
        #![trigger pending.committed_elsewhere@[i]]
        0 <= i < pending.committed_elsewhere@.len() && pending.committed_elsewhere@[i].op > floor implies covers(
        pending,
        journal,
        pending.committed_elsewhere@[i].op,
    ) by {
        assert(journal.contains_key(pending.committed_elsewhere@[i].op));
    }
}

/// Range a repaired prepare has to fall into.
pub open spec fn in_repair_scope(pending: Option<MergedLog>, is_primary_elect: bool, commit_min: u64, op: u64) -> bool {
    if pending is Some && is_primary_elect {
        let log = pending->0;
        ||| max_u64(log.commit_max, 1) <= op <= log.op_head
        ||| exists|i: int|
            #![trigger log.committed_elsewhere@[i]]
            0 <= i < log.committed_elsewhere@.len() && log.committed_elsewhere@[i].op == op
    } else {
        op > commit_min
    }
}

pub open spec fn log_of(pending: Option<&MergedLog>) -> Option<MergedLog> {
    match pending {
        Some(log) => Some(*log),
        None => None,
    }
}

/// Whether a repaired prepare at `op` falls inside the range this replica is
/// repairing. Only a primary-elect's parked log is a repair window; a backup's
/// is what its ingest verifies bodies against.
pub fn repair_op_in_scope(
    pending: Option<&MergedLog>,
    is_primary_elect: bool,
    commit_min: u64,
    op: u64,
) -> (res: bool)
    ensures
        res == in_repair_scope(log_of(pending), is_primary_elect, commit_min, op),
{
    match pending {
        Some(log) => {
            if !is_primary_elect {
                return op > commit_min;
            }
            let low: u64 = if log.commit_max >= 1 {
                log.commit_max
            } else {
                1
            };
            if low <= op && op <= log.op_head {
                return true;
            }
            let mut i: usize = 0;
            while i < log.committed_elsewhere.len()
                invariant
                    log_of(pending) == Some(*log),
                    is_primary_elect,
                    i <= log.committed_elsewhere@.len(),
                    forall|j: int|
                        #![trigger log.committed_elsewhere@[j]]
                        0 <= j < i ==> log.committed_elsewhere@[j].op != op,
                decreases log.committed_elsewhere@.len() - i,
            {
                if log.committed_elsewhere[i].op == op {
                    return true;
                }
                i += 1;
            }
            false
        },
        None => op > commit_min,
    }
}

/// The op a parked view waits for is one the primary-elect may ingest,
/// whatever it has committed.
pub proof fn law_missing_op_is_in_the_primary_elects_scope(
    pending: MergedLog,
    floor: u64,
    journal: Map<u64, PrepareHeader>,
    commit_min: u64,
    missing: u64,
)
    requires
        is_first_uncovered(pending, floor, journal, missing),
    ensures
        in_repair_scope(Some(pending), true, commit_min, missing),
{
}

/// The merged log names another entry than `checksum` at `op`.
pub open spec fn disagrees_with_view(pending: Option<MergedLog>, op: u64, checksum: u128) -> bool {
    match pending {
        Some(log) => match canonical_at(log, op) {
            Some(expected) => expected.checksum != checksum,
            None => false,
        },
        None => false,
    }
}

/// Whether a repaired prepare is another one than the view decided for its op.
pub fn repair_disagrees_with_view(pending: Option<&MergedLog>, op: u64, checksum: u128) -> (res: bool)
    ensures
        res == disagrees_with_view(log_of(pending), op, checksum),
{
    match pending {
        Some(log) => match canonical_header(log, op) {
            Some(expected) => expected.checksum != checksum,
            None => false,
        },
        None => false,
    }
}

/// What a replica does about local entries that differ from the view's log.
pub struct DivergencePlan {
    /// Drop every journaled entry from this op on.
    pub truncate_from: Option<u64>,
    /// Ops applied here as something other than what the view names. Log
    /// repair cannot reconcile them.
    pub committed_conflicts: Vec<u64>,
}

/// The applied floor: nothing at or below it may be dropped.
pub open spec fn applied_floor(pending: Option<MergedLog>, commit_min: u64) -> u64 {
    max_u64(
        match pending {
            Some(log) => log.commit_max,
            None => 0,
        },
        commit_min,
    )
}

/// The head the view announced; without a parked log, the adopted sequencer.
pub open spec fn announced_head(pending: Option<MergedLog>, sequence: u64) -> u64 {
    match pending {
        Some(log) => log.op_head,
        None => sequence,
    }
}

/// The local entry at the op of `canonical` is another one.
pub open spec fn diverges(journal: Map<u64, PrepareHeader>, canonical: PrepareHeader) -> bool {
    journal.contains_key(canonical.op) && !is_view_entry(journal[canonical.op], canonical)
}

pub open spec fn view_entries(pending: Option<MergedLog>) -> Seq<PrepareHeader> {
    match pending {
        Some(log) => log.headers@,
        None => Seq::empty(),
    }
}

/// Some entry from `op` on has to go: the view names another one there above
/// the applied floor, or `op` is just above everything the view announced and
/// the journal reaches it.
pub open spec fn must_drop(
    pending: Option<MergedLog>,
    commit_min: u64,
    sequence: u64,
    last_op: Option<u64>,
    journal: Map<u64, PrepareHeader>,
    op: u64,
) -> bool {
    let floor = applied_floor(pending, commit_min);
    let above_head = max_u64(announced_head(pending, sequence), floor) + 1;
    ||| op == above_head && last_op is Some && last_op->0 >= above_head
    ||| exists|i: int|
        #![trigger view_entries(pending)[i]]
        {
            &&& 0 <= i < view_entries(pending).len()
            &&& view_entries(pending)[i].op == op
            &&& op > floor
            &&& diverges(journal, view_entries(pending)[i])
        }
}

/// Ops of the first `upto` view entries that conflict at or below the floor.
pub open spec fn conflicts_below(entries: Seq<PrepareHeader>, journal: Map<u64, PrepareHeader>, floor: u64, upto: int) -> Seq<u64>
    decreases upto,
{
    if upto <= 0 {
        Seq::empty()
    } else {
        let earlier = conflicts_below(entries, journal, floor, upto - 1);
        if diverges(journal, entries[upto - 1]) && entries[upto - 1].op <= floor {
            earlier.push(entries[upto - 1].op)
        } else {
            earlier
        }
    }
}


/// What a replica has to drop, and what it cannot.
pub open spec fn is_divergence_plan(
    pending: Option<MergedLog>,
    commit_min: u64,
    sequence: u64,
    last_op: Option<u64>,
    journal: Map<u64, PrepareHeader>,
    plan: DivergencePlan,
) -> bool {
    &&& plan.truncate_from matches Some(from) ==> {
        &&& must_drop(pending, commit_min, sequence, last_op, journal, from)
        &&& forall|op: u64| #[trigger] must_drop(pending, commit_min, sequence, last_op, journal, op) ==> from <= op
    }
    &&& plan.truncate_from is None ==> forall|op: u64|
        !#[trigger] must_drop(pending, commit_min, sequence, last_op, journal, op)
    &&& plan.committed_conflicts@ == conflicts_below(
        view_entries(pending),
        journal,
        applied_floor(pending, commit_min),
        view_entries(pending).len() as int,
    )
}

/// Compare this replica's log against the headers the view decided.
///
/// Above the applied floor a disagreement is ordinary and the entries from the
/// lowest one on are dropped; at or below it this replica applied something
/// else, which is reported and left alone. Entries above everything the view
/// announced are dropped too.
pub fn plan_divergence(
    pending: Option<&MergedLog>,
    commit_min: u64,
    sequence: u64,
    last_op: Option<u64>,
    journal: &HeaderWindow,
) -> (plan: DivergencePlan)
    requires
        max_u64(announced_head(log_of(pending), sequence), applied_floor(log_of(pending), commit_min)) < u64::MAX,
    ensures
        is_divergence_plan(log_of(pending), commit_min, sequence, last_op, journal@, plan),
{
    let ghost log = log_of(pending);
    let announced_commit: u64 = match pending {
        Some(log) => log.commit_max,
        None => 0,
    };
    let floor: u64 = if announced_commit >= commit_min {
        announced_commit
    } else {
        commit_min
    };
    let mut repairable_from: Option<u64> = None;
    let mut committed_conflicts: Vec<u64> = Vec::new();
    if let Some(merged) = pending {
        let mut i: usize = 0;
        while i < merged.headers.len()
            invariant
                log == Some(*merged),
                floor == applied_floor(log, commit_min),
                i <= merged.headers@.len(),
                committed_conflicts@ == conflicts_below(merged.headers@, journal@, floor, i as int),
                repairable_from matches Some(from) ==> exists|j: int|
                    #![trigger merged.headers@[j]]
                    0 <= j < i && merged.headers@[j].op == from && from > floor && diverges(journal@, merged.headers@[j]),
                forall|j: int|
                    #![trigger merged.headers@[j]]
                    0 <= j < i && merged.headers@[j].op > floor && diverges(journal@, merged.headers@[j])
                        ==> repairable_from is Some && repairable_from->0 <= merged.headers@[j].op,
            decreases merged.headers@.len() - i,
        {
            let canonical: PrepareHeader = merged.headers[i];
            let differs: bool = match journal.header(canonical.op) {
                Some(local) => !header_is_view_entry(&local, &canonical),
                None => false,
            };
            if differs {
                if canonical.op <= floor {
                    committed_conflicts.push(canonical.op);
                } else {
                    repairable_from = match repairable_from {
                        Some(from) => if from <= canonical.op {
                            Some(from)
                        } else {
                            Some(canonical.op)
                        },
                        None => Some(canonical.op),
                    };
                }
            }
            i += 1;
        }
    }
    let op_head: u64 = match pending {
        Some(merged) => merged.op_head,
        None => sequence,
    };
    let above_head: u64 = if op_head >= floor {
        op_head + 1
    } else {
        floor + 1
    };
    let ghost in_window = repairable_from;
    let reaches_above: bool = match last_op {
        Some(last) => last >= above_head,
        None => false,
    };
    if reaches_above {
        repairable_from = match repairable_from {
            Some(from) => if from <= above_head {
                Some(from)
            } else {
                Some(above_head)
            },
            None => Some(above_head),
        };
    }
    proof {
        if let Some(from) = in_window {
            let j = choose|j: int|
                #![trigger view_entries(log)[j]]
                0 <= j < view_entries(log).len() && view_entries(log)[j].op == from && from > floor && diverges(
                    journal@,
                    view_entries(log)[j],
                );
            assert(view_entries(log)[j].op == from);
            assert(must_drop(log, commit_min, sequence, last_op, journal@, from));
        }
        if reaches_above {
            assert(must_drop(log, commit_min, sequence, last_op, journal@, above_head));
        }
        assert forall|op: u64| #[trigger] must_drop(log, commit_min, sequence, last_op, journal@, op) implies repairable_from is Some
            && repairable_from->0 <= op by {
            if !(op == above_head && reaches_above) {
                let j = choose|j: int|
                    #![trigger view_entries(log)[j]]
                    0 <= j < view_entries(log).len() && view_entries(log)[j].op == op && op > floor && diverges(
                        journal@,
                        view_entries(log)[j],
                    );
                assert(in_window is Some && in_window->0 <= view_entries(log)[j].op);
            }
        }
    }
    DivergencePlan { truncate_from: repairable_from, committed_conflicts }
}

/// Reconciling never drops an op this replica applied or the view
/// committed.
pub proof fn law_divergence_never_drops_an_applied_op(
    pending: Option<MergedLog>,
    commit_min: u64,
    sequence: u64,
    last_op: Option<u64>,
    journal: Map<u64, PrepareHeader>,
    from: u64,
)
    requires
        must_drop(pending, commit_min, sequence, last_op, journal, from),
    ensures
        from > commit_min,
        pending is Some ==> from > pending->0.commit_max,
{
}

/// A log that agrees with the view and ends at its head keeps every entry.
pub proof fn law_agreeing_log_keeps_every_entry(
    pending: MergedLog,
    commit_min: u64,
    sequence: u64,
    last_op: Option<u64>,
    journal: Map<u64, PrepareHeader>,
    op: u64,
)
    requires
        forall|i: int|
            #![trigger pending.headers@[i]]
            0 <= i < pending.headers@.len() ==> !diverges(journal, pending.headers@[i]),
        last_op is Some ==> last_op->0 <= pending.op_head,
    ensures
        !must_drop(Some(pending), commit_min, sequence, last_op, journal, op),
{
    if must_drop(Some(pending), commit_min, sequence, last_op, journal, op) {
        let i = choose|i: int|
            #![trigger view_entries(Some(pending))[i]]
            0 <= i < view_entries(Some(pending)).len() && view_entries(Some(pending))[i].op == op && diverges(
                journal,
                view_entries(Some(pending))[i],
            );
        assert(view_entries(Some(pending))[i] == pending.headers@[i]);
    }
}

/// The entries a new primary's pipeline is rebuilt from, and the gap that cut
/// the rebuild short.
pub struct PipelineRebuild {
    pub entries: Vec<PrepareHeader>,
    pub gap_at: Option<u64>,
}

/// `entries` are the journal's headers at consecutive ops from `from_op` on.
pub open spec fn runs_from(entries: Seq<PrepareHeader>, from_op: u64, journal: Map<u64, PrepareHeader>) -> bool {
    forall|i: int|
        #![trigger entries[i]]
        0 <= i < entries.len() ==> held_at(journal, (from_op + i) as u64) == Some(entries[i])
}

/// `entries` are the longest run `journal` holds from `from_op` up to `to_op`,
/// and `gap_at` is the op that ended it early.
pub open spec fn is_rebuild_of(
    entries: Seq<PrepareHeader>,
    gap_at: Option<u64>,
    from_op: u64,
    to_op: u64,
    journal: Map<u64, PrepareHeader>,
) -> bool {
    &&& runs_from(entries, from_op, journal)
    &&& if from_op > to_op {
        entries.len() == 0 && gap_at is None
    } else {
        match gap_at {
            Some(gap) => gap == from_op + entries.len() && gap <= to_op && !journal.contains_key(gap),
            None => entries.len() == to_op - from_op + 1,
        }
    }
}

/// Rebuild the pipeline over `from_op..=to_op` from local journal headers.
///
/// Stops at the first op the journal lacks: nothing past a gap is taken, and
/// nothing is truncated.
pub fn rebuild_pipeline_entries(from_op: u64, to_op: u64, journal: &HeaderWindow) -> (rebuild: PipelineRebuild)
    ensures
        is_rebuild_of(rebuild.entries@, rebuild.gap_at, from_op, to_op, journal@),
{
    let mut entries: Vec<PrepareHeader> = Vec::new();
    if from_op > to_op {
        return PipelineRebuild { entries, gap_at: None };
    }
    let mut op: u64 = from_op;
    loop
        invariant
            from_op <= op <= to_op,
            entries@.len() == op - from_op,
            runs_from(entries@, from_op, journal@),
        decreases to_op - op,
    {
        let ghost before = entries@;
        match journal.header(op) {
            Some(header) => {
                entries.push(header);
            },
            None => {
                return PipelineRebuild { entries, gap_at: Some(op) };
            },
        }
        proof {
            assert forall|i: int| #![trigger entries@[i]] 0 <= i < entries@.len() implies held_at(
                journal@,
                (from_op + i) as u64,
            ) == Some(entries@[i]) by {
                if i < before.len() {
                    assert(entries@[i] == before[i]);
                } else {
                    assert((from_op + i) as u64 == op);
                }
            }
        }
        if op == to_op {
            return PipelineRebuild { entries, gap_at: None };
        }
        op += 1;
    }
}

/// A pipeline rebuild is unique; no two answers fit one journal.
pub proof fn law_rebuild_is_unique(
    left: Seq<PrepareHeader>,
    left_gap: Option<u64>,
    right: Seq<PrepareHeader>,
    right_gap: Option<u64>,
    from_op: u64,
    to_op: u64,
    journal: Map<u64, PrepareHeader>,
)
    requires
        is_rebuild_of(left, left_gap, from_op, to_op, journal),
        is_rebuild_of(right, right_gap, from_op, to_op, journal),
    ensures
        left == right,
        left_gap == right_gap,
{
    if left.len() < right.len() {
        let _ = right[left.len() as int];
    }
    if right.len() < left.len() {
        let _ = left[right.len() as int];
    }
    assert forall|i: int| 0 <= i < left.len() && 0 <= i < right.len() implies left[i] == right[i] by {
    }
    assert(left =~= right);
}

/// The adopted view's headers, when they describe a log this replica has not
/// itself decided.
pub open spec fn adopted_headers(pending: Option<MergedLog>, is_primary: bool) -> Option<Seq<PrepareHeader>> {
    if is_primary || pending is None {
        None
    } else {
        Some(pending->0.headers@)
    }
}

/// The view headers to stitch into this replica's suffix. A primary-elect's
/// own merge is a proposal it is still repairing toward, so it stitches none.
pub fn adopted_view_headers<'a>(pending: Option<&'a MergedLog>, is_primary: bool) -> (headers: Option<&'a Vec<PrepareHeader>>)
    ensures
        headers_view(headers) == adopted_headers(log_of(pending), is_primary),
{
    if is_primary {
        return None;
    }
    match pending {
        Some(log) => Some(&log.headers),
        None => None,
    }
}

/// The headers a journal holds, where there is one.
pub open spec fn window_view(journal: Option<&HeaderWindow>) -> Option<Map<u64, PrepareHeader>> {
    match journal {
        Some(window) => Some(window@),
        None => None,
    }
}

/// A suffix as a replica reports it: over its journal, or empty without one.
pub open spec fn suffix_reports(
    suffix: DvcSuffix,
    commit: u64,
    op: u64,
    journal: Option<Map<u64, PrepareHeader>>,
    view_headers: Option<Seq<PrepareHeader>>,
) -> bool {
    match journal {
        Some(held) => suffix_describes(suffix, commit, op, held, view_headers),
        None => suffix.headers@.len() == 0 && suffix.nack_bitset == 0 && suffix.present_bitset == 0,
    }
}

/// The suffix of a metadata group. Without a journal it reports nothing: a
/// blank there would deny what the replica never looked at.
pub fn build_metadata_dvc_suffix(
    journal: Option<&HeaderWindow>,
    commit: u64,
    op: u64,
    view_headers: Option<&Vec<PrepareHeader>>,
) -> (suffix: DvcSuffix)
    ensures
        suffix_reports(suffix, commit, op, window_view(journal), headers_view(view_headers)),
{
    match journal {
        Some(held) => build_dvc_suffix(commit, op, held, view_headers),
        None => DvcSuffix::empty(),
    }
}

/// A suffix snapshot was taken where the last one is stale.
pub open spec fn is_refreshed(
    stale: bool,
    sequence: u64,
    commit_max: u64,
    is_primary: bool,
    pending: Option<MergedLog>,
    journal: Option<Map<u64, PrepareHeader>>,
    refreshed: Option<DvcSuffix>,
) -> bool {
    &&& refreshed is Some <==> stale
    &&& refreshed matches Some(suffix) ==> suffix_reports(
        suffix,
        min_u64(commit_max, sequence),
        sequence,
        journal,
        adopted_headers(pending, is_primary),
    )
}

/// The range of ops a suffix refresh reads.
pub open spec fn refresh_range(sequence: u64, commit_max: u64, is_primary: bool, pending: Option<MergedLog>) -> (u64, u64) {
    (max_u64(min_u64(commit_max, sequence), 1), suffix_head(sequence, adopted_headers(pending, is_primary)))
}

/// Snapshot this replica's uncommitted suffix, if the journal moved since the
/// last snapshot. `None` means the snapshot at hand still holds.
pub fn refresh_dvc_suffix(
    stale: bool,
    sequence: u64,
    commit_max: u64,
    is_primary: bool,
    pending: Option<&MergedLog>,
    journal: Option<&HeaderWindow>,
) -> (refreshed: Option<DvcSuffix>)
    ensures
        is_refreshed(stale, sequence, commit_max, is_primary, log_of(pending), window_view(journal), refreshed),
{
    if !stale {
        return None;
    }
    let commit: u64 = if commit_max <= sequence {
        commit_max
    } else {
        sequence
    };
    Some(build_metadata_dvc_suffix(journal, commit, sequence, adopted_view_headers(pending, is_primary)))
}

/// The ops whose headers a suffix refresh reads, lowest first; the pair is
/// empty when its first exceeds its second.
pub fn dvc_window_range(
    sequence: u64,
    commit_max: u64,
    is_primary: bool,
    pending: Option<&MergedLog>,
) -> (range: (u64, u64))
    ensures
        range == refresh_range(sequence, commit_max, is_primary, log_of(pending)),
{
    let commit: u64 = if commit_max <= sequence {
        commit_max
    } else {
        sequence
    };
    let low: u64 = if commit >= 1 {
        commit
    } else {
        1
    };
    let view_head: u64 = match adopted_view_headers(pending, is_primary) {
        Some(headers) => if headers.len() > 0 {
            headers[0].op
        } else {
            0
        },
        None => 0,
    };
    let head: u64 = if sequence >= view_head {
        sequence
    } else {
        view_head
    };
    (low, head)
}

/// Headers outside the refresh range never change the suffix.
pub proof fn law_suffix_reads_only_its_range(
    suffix: DvcSuffix,
    commit: u64,
    sequence: u64,
    journal: Map<u64, PrepareHeader>,
    wider: Map<u64, PrepareHeader>,
    view_headers: Option<Seq<PrepareHeader>>,
)
    requires
        suffix_describes(suffix, commit, sequence, journal, view_headers),
        forall|op: u64|
            max_u64(commit, 1) <= op <= suffix_head(sequence, view_headers) ==> #[trigger] held_at(journal, op) == held_at(
                wider,
                op,
            ),
    ensures
        suffix_describes(suffix, commit, sequence, wider, view_headers),
{
    let head = suffix_head(sequence, view_headers);
    if head != 0 && max_u64(commit, 1) <= head {
        assert forall|i: int| #![trigger suffix.headers@[i]] 0 <= i < suffix.headers@.len() implies slot_describes(
            suffix,
            i,
            (head - i) as u64,
            commit,
            wider,
            view_headers,
        ) by {
            let op = (head - i) as u64;
            assert(held_at(journal, op) == held_at(wider, op));
        }
    }
}

/// The window runs from the higher of the journal's and the adopted view's head
/// down to the commit point, the first op at the lowest, as far as one suffix
/// reaches. A journaled op is reported with its header and offered; one that
/// only the adopted view decided is reported with that header; any other is
/// blank, and denied exactly above the commit point.
pub proof fn law_suffix_reports_what_is_known(
    suffix: DvcSuffix,
    commit: u64,
    sequence: u64,
    journal: Map<u64, PrepareHeader>,
    view_headers: Option<Seq<PrepareHeader>>,
    head: u64,
    op: u64,
)
    requires
        suffix_describes(suffix, commit, sequence, journal, view_headers),
        head == if view_headers is Some && view_headers->0.len() > 0 && view_headers->0[0].op > sequence {
            view_headers->0[0].op
        } else {
            sequence
        },
        1 <= op <= head,
        commit <= op,
        head - op < DVC_HEADERS_MAX,
    ensures
        ({
            let slot = head - op;
            let decided = view_headers is Some && view_header_spec(view_headers->0, op) is Some;
            &&& slot < suffix.headers@.len()
            &&& journal.contains_key(op) ==> suffix.headers@[slot] == journal[op]
            &&& bit_at(suffix.present_bitset, slot) <==> journal.contains_key(op)
            &&& !journal.contains_key(op) && decided ==> suffix.headers@[slot] == view_header_spec(view_headers->0, op)->0
            &&& !journal.contains_key(op) && !decided ==> suffix.known_at(slot) is None && suffix.headers@[slot].op == op
            &&& bit_at(suffix.nack_bitset, slot) <==> !journal.contains_key(op) && !decided && op > commit
            &&& suffix.slot_of(head, op) == Some(slot as usize)
        }),
        commit >= 1 && op == commit ==> suffix.headers@.len() == head - op + 1,
{
    let slot = head - op;
    let _ = suffix.headers@[slot];
}

/// A suffix whose commit point lies past its head, or that has no head, says
/// nothing.
pub proof fn law_settled_log_reports_nothing(
    suffix: DvcSuffix,
    commit: u64,
    sequence: u64,
    journal: Map<u64, PrepareHeader>,
    view_headers: Option<Seq<PrepareHeader>>,
    index: int,
)
    requires
        suffix_describes(suffix, commit, sequence, journal, view_headers),
        0 <= index < 128,
    ensures
        suffix.headers@.len() == 0 <==> commit > suffix_head(sequence, view_headers) || suffix_head(sequence, view_headers) == 0,
        index >= suffix.headers@.len() ==> !bit_at(suffix.nack_bitset, index) && !bit_at(suffix.present_bitset, index),
        suffix_head(sequence, view_headers) >= sequence,
{
    lemma_no_bits();
}

/// The adopted view answers for an op exactly where its run of headers reaches
/// it and names an entry there; the header it answers with is that op's.
pub proof fn law_view_answers_for_its_own_run(view_headers: Seq<PrepareHeader>, op: u64)
    requires
        forall|i: int|
            #![trigger view_headers[i]]
            0 <= i < view_headers.len() ==> view_headers[i].op == view_headers[0].op - i,
    ensures
        view_header_spec(view_headers, op) is Some <==> exists|i: int|
            #![trigger view_headers[i]]
            0 <= i < view_headers.len() && view_headers[i].op == op && view_headers[i] != crate::wire::blank_header(op),
        view_header_spec(view_headers, op) is Some ==> {
            &&& view_header_spec(view_headers, op)->0.op == op
            &&& view_headers.contains(view_header_spec(view_headers, op)->0)
        },
{
    if view_headers.len() > 0 && op <= view_headers[0].op && view_headers[0].op - op < view_headers.len() {
        let _ = view_headers[view_headers[0].op - op];
    }
    if view_headers.len() > 0 {
        let _ = view_headers[0];
    }
}

proof fn lemma_first_at_op(headers: Seq<PrepareHeader>, op: u64, from: int)
    requires
        0 <= from <= headers.len(),
    ensures
        match first_at_op(headers, op, from) {
            Some(header) => header.op == op && exists|i: int|
                #![trigger headers[i]]
                from <= i < headers.len() && headers[i] == header && (forall|j: int|
                    #![trigger headers[j]]
                    from <= j < i ==> headers[j].op != op),
            None => forall|i: int| #![trigger headers[i]] from <= i < headers.len() ==> headers[i].op != op,
        },
    decreases headers.len() - from,
{
    if from < headers.len() && headers[from].op != op {
        lemma_first_at_op(headers, op, from + 1);
    } else if from < headers.len() {
        let _ = headers[from];
    }
}

/// The merged log names an entry at an op exactly where its window or the
/// headers committed elsewhere hold one for it. The window speaks first, and
/// the entry named is one for that op.
pub proof fn law_merged_log_names_its_own_entry(pending: MergedLog, op: u64, i: int, j: int)
    requires
        0 <= i < pending.headers@.len() || pending.headers@.len() == 0,
        0 <= j < pending.committed_elsewhere@.len() || pending.committed_elsewhere@.len() == 0,
    ensures
        canonical_at(pending, op) is Some ==> canonical_at(pending, op)->0.op == op && (pending.headers@.contains(
            canonical_at(pending, op)->0,
        ) || pending.committed_elsewhere@.contains(canonical_at(pending, op)->0)),
        0 <= i < pending.headers@.len() && pending.headers@[i].op == op ==> canonical_at(pending, op) is Some
            && pending.headers@.contains(canonical_at(pending, op)->0),
        0 <= j < pending.committed_elsewhere@.len() && pending.committed_elsewhere@[j].op == op ==> canonical_at(pending, op) is Some,
{
    lemma_first_at_op(pending.headers@, op, 0);
    lemma_first_at_op(pending.committed_elsewhere@, op, 0);
    if 0 <= i < pending.headers@.len() {
        let _ = pending.headers@[i];
    }
    if 0 <= j < pending.committed_elsewhere@.len() {
        let _ = pending.committed_elsewhere@[j];
    }
}

/// Two sealed entries are the same exactly where their checksums are; an
/// unsealed one is no evidence of a difference.
pub proof fn law_sealed_checksums_tell_entries_apart(local: PrepareHeader, canonical: PrepareHeader)
    ensures
        is_view_entry(local, local),
        is_view_entry(local, canonical) == is_view_entry(canonical, local),
        local.checksum != CHECKSUM_UNSEALED && canonical.checksum != CHECKSUM_UNSEALED ==> (is_view_entry(local, canonical)
            <==> local.checksum == canonical.checksum),
        local.checksum == CHECKSUM_UNSEALED ==> is_view_entry(local, canonical),
{
}

/// An op is covered exactly where the journal holds it, as the entry the merged
/// log names there if it names one.
pub proof fn law_coverage_is_identity(pending: MergedLog, journal: Map<u64, PrepareHeader>, op: u64)
    ensures
        !journal.contains_key(op) ==> !covers(pending, journal, op),
        journal.contains_key(op) && canonical_at(pending, op) is None ==> covers(pending, journal, op),
        journal.contains_key(op) && canonical_at(pending, op) is Some ==> (covers(pending, journal, op) <==> is_view_entry(
            journal[op],
            canonical_at(pending, op)->0,
        )),
{
}

/// A view is serveable exactly where nothing above the floor that its log names
/// is missing: no op of its window from the commit point on, the first op at
/// the lowest, and no op committed elsewhere.
pub proof fn law_serveable_view_misses_nothing(pending: MergedLog, repair_floor: u64, journal: Map<u64, PrepareHeader>, op: u64)
    ensures
        view_is_serveable(pending, repair_floor, journal) && needs_op(pending, repair_floor, op) ==> covers(pending, journal, op),
        (forall|wanted: u64| #[trigger] needs_op(pending, repair_floor, wanted) ==> covers(pending, journal, wanted))
            ==> view_is_serveable(pending, repair_floor, journal),
        needs_op(pending, repair_floor, op) <==> op > repair_floor && ({
            ||| op >= 1 && pending.commit_max <= op <= pending.op_head
            ||| exists|i: int|
                0 <= i < pending.committed_elsewhere@.len() && (#[trigger] pending.committed_elsewhere@[i]).op == op
        }),
{
    if forall|wanted: u64| #[trigger] needs_op(pending, repair_floor, wanted) ==> covers(pending, journal, wanted) {
        assert forall|wanted: u64|
            coverage_low(pending, repair_floor) <= wanted < pending.op_head + 1 && wanted <= pending.op_head implies #[trigger] covers(
            pending,
            journal,
            wanted,
        ) by {
            assert(needs_op(pending, repair_floor, wanted));
        }
        assert forall|i: int|
            #![trigger pending.committed_elsewhere@[i]]
            0 <= i < pending.committed_elsewhere@.len() && pending.committed_elsewhere@[i].op > repair_floor implies covers(
            pending,
            journal,
            pending.committed_elsewhere@[i].op,
        ) by {
            assert(needs_op(pending, repair_floor, pending.committed_elsewhere@[i].op));
        }
    }
}

/// A repaired prepare is in scope above what was applied; for a primary-elect
/// with a parked log, exactly where that log names its op, applied or not.
pub proof fn law_repair_scope_follows_the_parked_log(pending: Option<MergedLog>, is_primary_elect: bool, commit_min: u64, op: u64)
    ensures
        !is_primary_elect || pending is None ==> (in_repair_scope(pending, is_primary_elect, commit_min, op) <==> op > commit_min),
        is_primary_elect && pending is Some ==> (in_repair_scope(pending, is_primary_elect, commit_min, op) <==> {
            ||| op >= 1 && pending->0.commit_max <= op <= pending->0.op_head
            ||| exists|i: int|
                #![trigger pending->0.committed_elsewhere@[i]]
                0 <= i < pending->0.committed_elsewhere@.len() && pending->0.committed_elsewhere@[i].op == op
        }),
{
}

/// A prepare disagrees with the view exactly where the parked log names an
/// entry at its op and that entry's checksum is another one.
pub proof fn law_only_a_named_entry_is_disagreed_with(pending: Option<MergedLog>, op: u64, checksum: u128)
    ensures
        pending is None ==> !disagrees_with_view(pending, op, checksum),
        pending is Some && canonical_at(pending->0, op) is None ==> !disagrees_with_view(pending, op, checksum),
        pending is Some && canonical_at(pending->0, op) is Some ==> (disagrees_with_view(pending, op, checksum) <==> canonical_at(
            pending->0,
            op,
        )->0.checksum != checksum),
{
}

proof fn lemma_conflicts(entries: Seq<PrepareHeader>, journal: Map<u64, PrepareHeader>, floor: u64, upto: int, op: u64)
    requires
        0 <= upto <= entries.len(),
    ensures
        conflicts_below(entries, journal, floor, upto).contains(op) <==> exists|i: int|
            #![trigger entries[i]]
            0 <= i < upto && entries[i].op == op && op <= floor && diverges(journal, entries[i]),
    decreases upto,
{
    if upto > 0 {
        lemma_conflicts(entries, journal, floor, upto - 1, op);
        let earlier = conflicts_below(entries, journal, floor, upto - 1);
        let all = conflicts_below(entries, journal, floor, upto);
        let last = entries[upto - 1];
        if earlier.contains(op) {
            let k = earlier.index_of(op);
            assert(all[k] == op);
        }
        if last.op == op && op <= floor && diverges(journal, last) {
            assert(all[earlier.len() as int] == op);
        }
        if all.contains(op) && !earlier.contains(op) {
            let k = all.index_of(op);
            if k < earlier.len() {
                assert(earlier[k] == op);
            }
        }
    }
}

/// The log is cut at the lowest op that has to go. Wherever the view decided
/// another entry above what was applied and committed, or the journal reaches
/// past everything the view announced, the cut lies no higher; where neither
/// holds, nothing is cut. Below that a different entry is reported, every one
/// and nothing else.
pub proof fn law_divergence_cuts_at_the_lowest_conflict(
    pending: Option<MergedLog>,
    commit_min: u64,
    sequence: u64,
    last_op: Option<u64>,
    journal: Map<u64, PrepareHeader>,
    plan: DivergencePlan,
    i: int,
)
    requires
        max_u64(announced_head(pending, sequence), applied_floor(pending, commit_min)) < u64::MAX,
        is_divergence_plan(pending, commit_min, sequence, last_op, journal, plan),
    ensures
        ({
            let committed = match pending {
                Some(log) => log.commit_max,
                None => 0,
            };
            let head = match pending {
                Some(log) => log.op_head,
                None => sequence,
            };
            &&& pending is Some && 0 <= i < pending->0.headers@.len() ==> {
                let entry = pending->0.headers@[i];
                let differs = journal.contains_key(entry.op) && !is_view_entry(journal[entry.op], entry);
                let settled = entry.op <= commit_min || entry.op <= committed;
                &&& differs && !settled ==> plan.truncate_from is Some && plan.truncate_from->0 <= entry.op
                &&& differs && settled ==> plan.committed_conflicts@.contains(entry.op)
            }
            &&& last_op is Some && last_op->0 > head && last_op->0 > commit_min && last_op->0 > committed
                ==> plan.truncate_from is Some && plan.truncate_from->0 <= last_op->0
            &&& plan.truncate_from is Some ==> plan.truncate_from->0 > commit_min && plan.truncate_from->0 > committed
            &&& pending is None ==> plan.committed_conflicts@.len() == 0
            &&& pending is None && (last_op is None || last_op->0 <= sequence || last_op->0 <= commit_min)
                ==> plan.truncate_from is None
        }),
{
    let floor = applied_floor(pending, commit_min);
    let entries = view_entries(pending);
    if pending is Some && 0 <= i < entries.len() {
        let entry = entries[i];
        lemma_conflicts(entries, journal, floor, entries.len() as int, entry.op);
        if diverges(journal, entry) && entry.op > floor {
            assert(must_drop(pending, commit_min, sequence, last_op, journal, entry.op));
        }
    }
    let above_head = (max_u64(announced_head(pending, sequence), floor) + 1) as u64;
    if last_op is Some && last_op->0 >= above_head {
        assert(must_drop(pending, commit_min, sequence, last_op, journal, above_head));
    }
}

/// The pipeline is rebuilt from every journaled op of the range up to the first
/// one that is missing, in order; without a gap it is the whole range.
pub proof fn law_rebuild_stops_at_the_first_gap(
    entries: Seq<PrepareHeader>,
    gap_at: Option<u64>,
    from_op: u64,
    to_op: u64,
    journal: Map<u64, PrepareHeader>,
    op: u64,
)
    requires
        is_rebuild_of(entries, gap_at, from_op, to_op, journal),
        from_op <= op <= to_op,
    ensures
        (forall|below: u64| from_op <= below <= op ==> #[trigger] journal.contains_key(below)) ==> op - from_op < entries.len()
            && entries[op - from_op] == journal[op],
        !journal.contains_key(op) ==> gap_at is Some && gap_at->0 <= op && entries.len() <= op - from_op,
        gap_at is Some ==> from_op <= gap_at->0 <= to_op && !journal.contains_key(gap_at->0),
{
    if op - from_op < entries.len() {
        let _ = entries[op - from_op];
    }
    if gap_at is Some {
        let _ = journal.contains_key(gap_at->0);
    }
}

/// A snapshot is taken exactly where the last one is stale, over a journal if
/// there is one; the view a primary-elect proposes itself is not stitched in,
/// the one a backup adopted is. What is read for it lies in the refresh range.
pub proof fn law_refresh_snapshots_a_stale_suffix(
    stale: bool,
    sequence: u64,
    commit_max: u64,
    is_primary: bool,
    pending: Option<MergedLog>,
    journal: Option<Map<u64, PrepareHeader>>,
    refreshed: Option<DvcSuffix>,
    slot: int,
)
    requires
        is_refreshed(stale, sequence, commit_max, is_primary, pending, journal, refreshed),
    ensures
        refreshed is Some <==> stale,
        stale && journal is None ==> refreshed->0.headers@.len() == 0,
        is_primary || pending is None ==> adopted_headers(pending, is_primary) is None,
        !is_primary && pending is Some ==> adopted_headers(pending, is_primary) == Some(pending->0.headers@),
        ({
            let range = refresh_range(sequence, commit_max, is_primary, pending);
            &&& range.0 >= 1 && range.1 >= sequence
            &&& range.0 <= commit_max || commit_max == 0
            &&& range.0 <= sequence || sequence == 0
            &&& stale && journal is Some && 0 <= slot < refreshed->0.headers@.len() ==> range.0 <= range.1 - slot
            &&& is_primary ==> range.1 == sequence
        }),
{
}

/// Only what differs is cut or reported: the cut is at an op where the view
/// decided another entry than the journal holds, or past everything it
/// announced and the journal reaches, and a reported op is one where the
/// journal holds an entry with another seal.
pub proof fn law_only_a_different_entry_is_dropped(
    pending: MergedLog,
    commit_min: u64,
    sequence: u64,
    last_op: Option<u64>,
    journal: Map<u64, PrepareHeader>,
    plan: DivergencePlan,
    op: u64,
)
    requires
        is_divergence_plan(Some(pending), commit_min, sequence, last_op, journal, plan),
        plan.truncate_from == Some(op) || plan.committed_conflicts@.contains(op),
    ensures
        ({
            let differs = exists|i: int|
                #![trigger pending.headers@[i]]
                {
                    &&& 0 <= i < pending.headers@.len()
                    &&& pending.headers@[i].op == op
                    &&& journal.contains_key(op)
                    &&& journal[op].checksum != pending.headers@[i].checksum
                    &&& journal[op].checksum != CHECKSUM_UNSEALED && pending.headers@[i].checksum != CHECKSUM_UNSEALED
                };
            &&& plan.committed_conflicts@.contains(op) && plan.truncate_from != Some(op) ==> differs && (op <= commit_min || op
                <= pending.commit_max)
            &&& plan.truncate_from == Some(op) ==> differs || op > pending.op_head && last_op is Some && last_op->0 >= op
        }),
{
    let floor = applied_floor(Some(pending), commit_min);
    let entries = view_entries(Some(pending));
    lemma_conflicts(entries, journal, floor, entries.len() as int, op);
    if plan.committed_conflicts@.contains(op) {
        let i = choose|i: int|
            #![trigger entries[i]]
            0 <= i < entries.len() && entries[i].op == op && op <= floor && diverges(journal, entries[i]);
        let _ = pending.headers@[i];
    }
    if plan.truncate_from == Some(op) {
        assert(must_drop(Some(pending), commit_min, sequence, last_op, journal, op));
        if exists|i: int|
            #![trigger entries[i]]
            0 <= i < entries.len() && entries[i].op == op && op > floor && diverges(journal, entries[i]) {
            let i = choose|i: int|
                #![trigger entries[i]]
                0 <= i < entries.len() && entries[i].op == op && op > floor && diverges(journal, entries[i]);
            let _ = pending.headers@[i];
        }
    }
}

/// A slot is the distance of its op from the head: a head and its ops below
/// fill the slots in order, every slot is that of one op, and an op above the
/// head or below the last slot has none. What a slot knows is its header,
/// unless that is a placeholder.
pub proof fn law_slot_counts_down_from_the_head(suffix: DvcSuffix, op_head: u64, op: u64, slot: usize)
    ensures
        suffix.slot_of(op_head, op) == Some(slot) <==> slot < suffix.headers@.len() && op + slot == op_head,
        suffix.slot_of(op_head, op) is None <==> op > op_head || op + suffix.headers@.len() <= op_head,
        slot < suffix.headers@.len() && (suffix.headers@[slot as int].checksum != CHECKSUM_UNSEALED || !(
        suffix.headers@[slot as int].operation is Reserved)) ==> suffix.known_at(slot as int) == Some(suffix.headers@[slot as int]),
        suffix.known_at(slot as int) is Some ==> slot < suffix.headers@.len() && suffix.known_at(slot as int)->0
            == suffix.headers@[slot as int],
        slot < suffix.headers@.len() && suffix.headers@[slot as int] == crate::wire::blank_header(op) ==> suffix.known_at(
            slot as int,
        ) is None,
        slot >= suffix.headers@.len() ==> suffix.known_at(slot as int) is None,
{
    assert(suffix.headers@.len() == suffix.headers.len());
}

/// What is read is what was handed in: a list or a journal that is there is
/// read as it is, one that is not is not made up.
pub proof fn law_optional_inputs_are_read_as_given(headers: Vec<PrepareHeader>, window: HeaderWindow)
    ensures
        headers_view(Some(&headers)) == Some(headers@),
        headers_view(None) is None,
        window_view(Some(&window)) == Some(window@),
        window_view(None) is None,
{
}

/// The first op a view misses is one it needs and the journal does not cover,
/// and there is only one such.
pub proof fn law_first_missing_op_is_needed(
    pending: MergedLog,
    repair_floor: u64,
    journal: Map<u64, PrepareHeader>,
    missing: u64,
    other: u64,
)
    requires
        is_first_uncovered(pending, repair_floor, journal, missing),
    ensures
        needs_op(pending, repair_floor, missing),
        !covers(pending, journal, missing),
        needs_op(pending, repair_floor, other) && !covers(pending, journal, other) ==> missing <= other,
        is_first_uncovered(pending, repair_floor, journal, other) ==> other == missing,
{
    let _ = needs_op(pending, repair_floor, other);
}

/// A metadata group reports over its journal what any group would, and without
/// one reports nothing at all.
pub proof fn law_metadata_suffix_needs_a_journal(
    suffix: DvcSuffix,
    commit: u64,
    sequence: u64,
    journal: Option<Map<u64, PrepareHeader>>,
    op: u64,
    index: int,
)
    requires
        suffix_reports(suffix, commit, sequence, journal, None),
        1 <= op <= sequence,
        commit <= op,
        sequence - op < DVC_HEADERS_MAX,
        0 <= index < 128,
    ensures
        journal is None ==> suffix.headers@.len() == 0 && !bit_at(suffix.nack_bitset, index) && !bit_at(
            suffix.present_bitset,
            index,
        ),
        journal is Some && journal->0.contains_key(op) ==> suffix.headers@[sequence - op] == journal->0[op],
        journal is Some ==> (bit_at(suffix.present_bitset, sequence - op) <==> journal->0.contains_key(op)),
        journal is Some ==> (bit_at(suffix.nack_bitset, sequence - op) <==> !journal->0.contains_key(op) && op > commit),
{
    lemma_no_bits();
    if journal is Some {
        law_suffix_reports_what_is_known(suffix, commit, sequence, journal->0, None, sequence, op);
    }
}

} // verus!
