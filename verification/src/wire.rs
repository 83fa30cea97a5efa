//! Plain values the protocol handlers read off frames and journals.

use vstd::prelude::*;

verus! {

/// Operation carried by a request or a prepare, by plane. The payload of the
/// two data-plane variants is the operation's code within its plane.
#[derive(Debug, Clone, Copy, PartialEq, Eq, Structural)]
pub enum Operation {
    Reserved,
    Register,
    Logout,
    Metadata(u8),
    Partition(u8),
}

impl Operation {
    pub open spec fn spec_is_partition(self) -> bool {
        self is Partition
    }

    pub open spec fn spec_is_metadata(self) -> bool {
        self is Metadata
    }

    /// Operations the metadata plane replicates: its own mutations plus the
    /// session operations.
    pub open spec fn spec_is_metadata_plane(self) -> bool {
        self is Metadata || self is Register || self is Logout
    }

    pub fn is_partition(&self) -> (res: bool)
        ensures
            res == self.spec_is_partition(),
    {
        matches!(self, Operation::Partition(_))
    }

    pub fn is_metadata(&self) -> (res: bool)
        ensures
            res == self.spec_is_metadata(),
    {
        matches!(self, Operation::Metadata(_))
    }

    pub fn is_metadata_plane(&self) -> (res: bool)
        ensures
            res == self.spec_is_metadata_plane(),
    {
        matches!(self, Operation::Metadata(_) | Operation::Register | Operation::Logout)
    }
}

/// Checksum value of a header nobody sealed.
pub const CHECKSUM_UNSEALED: u128 = 0;

/// The fields of a stored prepare that the view-change and repair logic reads.
#[derive(Debug, Clone, Copy, PartialEq, Eq, Structural)]
pub struct PrepareHeader {
    pub op: u64,
    pub view: u32,
    pub group: u64,
    pub operation: Operation,
    pub checksum: u128,
    pub parent: u128,
    pub request: u64,
    pub timestamp: u64,
}

/// The header that stands for "no header here" at `op`.
pub open spec fn blank_header(op: u64) -> PrepareHeader {
    PrepareHeader {
        op,
        view: 0,
        group: 0,
        operation: Operation::Reserved,
        checksum: CHECKSUM_UNSEALED,
        parent: 0,
        request: 0,
        timestamp: 0,
    }
}

/// Build the placeholder a suffix carries where its sender holds no header.
pub fn dvc_blank(op: u64) -> (header: PrepareHeader)
    ensures
        header == blank_header(op),
{
    PrepareHeader {
        op,
        view: 0,
        group: 0,
        operation: Operation::Reserved,
        checksum: CHECKSUM_UNSEALED,
        parent: 0,
        request: 0,
        timestamp: 0,
    }
}

/// Whether `header` is the placeholder for its own op.
pub fn is_blank(header: &PrepareHeader) -> (res: bool)
    ensures
        res == (*header == blank_header(header.op)),
{
    *header == dvc_blank(header.op)
}

/// Copy a header list element by element.
pub fn copy_headers(headers: &Vec<PrepareHeader>) -> (out: Vec<PrepareHeader>)
    ensures
        out@ == headers@,
{
    let mut out: Vec<PrepareHeader> = Vec::new();
    let mut i: usize = 0;
    while i < headers.len()
        invariant
            i <= headers.len(),
            out@ == headers@.take(i as int),
        decreases headers.len() - i,
    {
        out.push(headers[i]);
        proof {
            assert(headers@.take(i + 1) =~= headers@.take(i as int).push(headers@[i as int]));
        }
        i += 1;
    }
    proof {
        assert(headers@.take(headers@.len() as int) =~= headers@);
    }
    out
}

/// The planes share no operation, and the sessions belong to the metadata
/// plane without being its mutations.
pub proof fn law_planes_are_disjoint(operation: Operation, code: u8)
    ensures
        Operation::Partition(code).spec_is_partition() && !Operation::Partition(code).spec_is_metadata_plane(),
        Operation::Metadata(code).spec_is_metadata() && Operation::Metadata(code).spec_is_metadata_plane(),
        Operation::Register.spec_is_metadata_plane() && !Operation::Register.spec_is_metadata(),
        Operation::Logout.spec_is_metadata_plane() && !Operation::Logout.spec_is_metadata(),
        !Operation::Reserved.spec_is_metadata_plane() && !Operation::Reserved.spec_is_partition(),
        !(operation.spec_is_partition() && operation.spec_is_metadata_plane()),
        operation.spec_is_metadata() ==> operation.spec_is_metadata_plane() && !operation.spec_is_partition(),
{
}

/// The placeholder keeps its op and carries nothing of an entry: no header that
/// was sealed is taken for one.
pub proof fn law_placeholder_is_no_entry(op: u64, header: PrepareHeader)
    ensures
        blank_header(op).op == op,
        blank_header(op).checksum == CHECKSUM_UNSEALED,
        blank_header(op).operation is Reserved,
        header.checksum != CHECKSUM_UNSEALED || !(header.operation is Reserved) ==> header != blank_header(header.op),
{
}

} // verus!
