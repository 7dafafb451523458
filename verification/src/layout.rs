//! The on-disk record formats.
//!
//! Every record — superblock header, node, sector-list fragment — is exactly
//! one 512-byte sector.  Fields sit at fixed offsets and integers are stored
//! little-endian.  The spec functions here read a field straight out of a
//! 512-byte sector image; the exec codecs decode a sector into an owned
//! record and encode a record back into a sector, each proved against those
//! field readers.
//!
//! A sector address of 0 is the "absent" sentinel throughout the format: it
//! terminates fragment chains and marks unused extent slots.

use vstd::prelude::*;

use crate::SECTOR_BYTES;
use crate::codec::copy_range;
use crate::codec::le32_at;
use crate::codec::le64_at;
use crate::codec::push_bytes;
use crate::codec::push_u32;
use crate::codec::push_u64;
use crate::codec::read_u32;
use crate::codec::read_u64;

verus! {

/// Number of extent slots in one sector-list fragment.
pub const EXTENTS_PER_FRAGMENT: usize = 30;

/// A 64-bit sector address.  Address 0 never denotes a real sector: it means
/// "absent" (an unused extent slot, or the end of a fragment chain).
#[derive(Clone, Copy, Debug, PartialEq, Eq, Structural)]
pub struct Block {
    pub address: u64,
}

impl Block {
    /// Whether this block denotes no sector at all.
    pub open spec fn is_absent(self) -> bool {
        self.address == 0
    }
}

/// A contiguous run of `length` sectors starting at `block`.
#[derive(Clone, Copy, Debug, PartialEq, Eq, Structural)]
pub struct Extent {
    pub block: Block,
    pub length: u64,
}

impl Extent {
    /// An extent slot contributes sectors only when its block is present.
    pub open spec fn is_used(self) -> bool {
        !self.block.is_absent()
    }
}

/// The superblock: sector 1 of every volume.
///
/// `signature` must spell "UnFS" for the volume to be considered valid.
/// `free_sector_list` is recorded by the format but consumed by no operation
/// here: free-space tracking is outside this engine.
#[derive(Clone, Debug)]
pub struct Header {
    pub signature: Vec<u8>,
    pub version: u32,
    pub root_sector_list: Block,
    pub free_sector_list: Block,
    pub name: Vec<u8>,
    pub reserved: Vec<u8>,
}

/// One directory entry (file or directory), analogous to an inode.
///
/// `name` is a fixed 256-byte buffer; the logical name ends at its first
/// zero byte.  `data_sector_list` roots the chain describing the node's
/// data sectors, or is absent when the node has none.
#[derive(Clone, Debug)]
pub struct Node {
    pub parent_collection: Block,
    pub data_sector_list: Block,
    pub data_size: u64,
    pub user_id: u64,
    pub group_id: u64,
    pub mode: u64,
    pub modify_time: u64,
    pub access_time: u64,
    pub create_time: u64,
    pub name: Vec<u8>,
    pub reserved: Vec<u8>,
}

/// One fragment of a sector list: up to 30 extents plus the link to the
/// next fragment.  `next_fragment.address == 0` ends the chain.
#[derive(Clone, Debug)]
pub struct SectorList {
    pub parent_node: Block,
    pub fragment_number: u64,
    pub next_fragment: Block,
    pub last_fragment: Block,
    pub extents: Vec<Extent>,
}

// Field offsets within a header sector.
pub const HEADER_SIGNATURE_AT: usize = 0;
pub const HEADER_VERSION_AT: usize = 4;
pub const HEADER_ROOT_AT: usize = 8;
pub const HEADER_FREE_AT: usize = 16;
pub const HEADER_NAME_AT: usize = 24;
pub const HEADER_RESERVED_AT: usize = 280;

// Field offsets within a node sector.
pub const NODE_PARENT_AT: usize = 0;
pub const NODE_DATA_LIST_AT: usize = 8;
pub const NODE_DATA_SIZE_AT: usize = 16;
pub const NODE_USER_AT: usize = 24;
pub const NODE_GROUP_AT: usize = 32;
pub const NODE_MODE_AT: usize = 40;
pub const NODE_MODIFY_AT: usize = 48;
pub const NODE_ACCESS_AT: usize = 56;
pub const NODE_CREATE_AT: usize = 64;
pub const NODE_NAME_AT: usize = 72;
pub const NODE_RESERVED_AT: usize = 328;

// Field offsets within a sector-list fragment sector.
pub const LIST_PARENT_AT: usize = 0;
pub const LIST_NUMBER_AT: usize = 8;
pub const LIST_NEXT_AT: usize = 16;
pub const LIST_LAST_AT: usize = 24;
pub const LIST_EXTENTS_AT: usize = 32;

/// The four signature bytes of a valid volume: "UnFS" in ASCII.
pub open spec fn unfs_signature() -> Seq<u8> {
    seq![85u8, 110u8, 70u8, 83u8]
}

/// The signature field of a header sector.
pub open spec fn header_signature(s: Seq<u8>) -> Seq<u8> {
    s.subrange(0, 4)
}

/// The version field of a header sector.
pub open spec fn header_version(s: Seq<u8>) -> u32 {
    le32_at(s, HEADER_VERSION_AT as int)
}

/// The root sector-list address of a header sector: where the directory
/// chain starts.
pub open spec fn header_root(s: Seq<u8>) -> u64 {
    le64_at(s, HEADER_ROOT_AT as int)
}

/// The free sector-list address of a header sector.
pub open spec fn header_free(s: Seq<u8>) -> u64 {
    le64_at(s, HEADER_FREE_AT as int)
}

/// The volume-name field of a header sector.
pub open spec fn header_name(s: Seq<u8>) -> Seq<u8> {
    s.subrange(HEADER_NAME_AT as int, HEADER_RESERVED_AT as int)
}

/// The reserved tail of a header sector.
pub open spec fn header_reserved(s: Seq<u8>) -> Seq<u8> {
    s.subrange(HEADER_RESERVED_AT as int, SECTOR_BYTES as int)
}

/// The data sector-list address of a node sector: where the node's data
/// chain starts, 0 when it has none.
pub open spec fn node_data_list(s: Seq<u8>) -> u64 {
    le64_at(s, NODE_DATA_LIST_AT as int)
}

/// The name field of a node sector: the raw 256-byte buffer.
pub open spec fn node_name(s: Seq<u8>) -> Seq<u8> {
    s.subrange(NODE_NAME_AT as int, NODE_RESERVED_AT as int)
}

/// The next-fragment address of a sector-list sector; 0 ends the chain.
pub open spec fn list_next(s: Seq<u8>) -> u64 {
    le64_at(s, LIST_NEXT_AT as int)
}

/// Extent slot `i` of a sector-list sector, for `0 <= i < 30`.
pub open spec fn list_extent(s: Seq<u8>, i: int) -> Extent {
    Extent {
        block: Block { address: le64_at(s, LIST_EXTENTS_AT + 16 * i) },
        length: le64_at(s, LIST_EXTENTS_AT + 16 * i + 8),
    }
}

impl Header {
    /// The buffers hold exactly the widths the format gives them.
    pub open spec fn wf(&self) -> bool {
        self.signature@.len() == 4 && self.name@.len() == 256 && self.reserved@.len() == 232
    }

    /// Whether this header equals the decoding of the header sector `s`.
    pub open spec fn decodes(&self, s: Seq<u8>) -> bool {
        &&& self.signature@ == header_signature(s)
        &&& self.version == header_version(s)
        &&& self.root_sector_list.address == header_root(s)
        &&& self.free_sector_list.address == header_free(s)
        &&& self.name@ == header_name(s)
        &&& self.reserved@ == header_reserved(s)
    }
}

impl Node {
    /// The buffers hold exactly the widths the format gives them.
    pub open spec fn wf(&self) -> bool {
        self.name@.len() == 256 && self.reserved@.len() == 184
    }

    /// Whether this node equals the decoding of the node sector `s`.
    pub open spec fn decodes(&self, s: Seq<u8>) -> bool {
        &&& self.parent_collection.address == le64_at(s, NODE_PARENT_AT as int)
        &&& self.data_sector_list.address == node_data_list(s)
        &&& self.data_size == le64_at(s, NODE_DATA_SIZE_AT as int)
        &&& self.user_id == le64_at(s, NODE_USER_AT as int)
        &&& self.group_id == le64_at(s, NODE_GROUP_AT as int)
        &&& self.mode == le64_at(s, NODE_MODE_AT as int)
        &&& self.modify_time == le64_at(s, NODE_MODIFY_AT as int)
        &&& self.access_time == le64_at(s, NODE_ACCESS_AT as int)
        &&& self.create_time == le64_at(s, NODE_CREATE_AT as int)
        &&& self.name@ == node_name(s)
        &&& self.reserved@ == s.subrange(NODE_RESERVED_AT as int, SECTOR_BYTES as int)
    }
}

impl SectorList {
    /// The extent table holds exactly 30 slots.
    pub open spec fn wf(&self) -> bool {
        self.extents@.len() == EXTENTS_PER_FRAGMENT
    }

    /// Whether this fragment equals the decoding of the sector `s`.
    pub open spec fn decodes(&self, s: Seq<u8>) -> bool {
        &&& self.parent_node.address == le64_at(s, LIST_PARENT_AT as int)
        &&& self.fragment_number == le64_at(s, LIST_NUMBER_AT as int)
        &&& self.next_fragment.address == list_next(s)
        &&& self.last_fragment.address == le64_at(s, LIST_LAST_AT as int)
        &&& self.extents@.len() == EXTENTS_PER_FRAGMENT
        &&& forall|i: int|
            0 <= i < EXTENTS_PER_FRAGMENT ==> self.extents@[i] == list_extent(s, i)
    }
}

/// Decodes a header sector into an owned record.
pub fn decode_header(s: &[u8]) -> (h: Header)
    requires
        s@.len() == SECTOR_BYTES,
    ensures
        h.wf(),
        h.decodes(s@),
{
    Header {
        signature: copy_range(s, HEADER_SIGNATURE_AT, HEADER_VERSION_AT),
        version: read_u32(s, HEADER_VERSION_AT),
        root_sector_list: Block { address: read_u64(s, HEADER_ROOT_AT) },
        free_sector_list: Block { address: read_u64(s, HEADER_FREE_AT) },
        name: copy_range(s, HEADER_NAME_AT, HEADER_RESERVED_AT),
        reserved: copy_range(s, HEADER_RESERVED_AT, SECTOR_BYTES),
    }
}

/// Encodes a header record as one 512-byte sector; decoding the result
/// gives the record back.
pub fn encode_header(h: &Header) -> (r: Vec<u8>)
    requires
        h.wf(),
    ensures
        r@.len() == SECTOR_BYTES,
        h.decodes(r@),
{
    let mut out: Vec<u8> = Vec::new();
    push_bytes(&mut out, h.signature.as_slice());
    push_u32(&mut out, h.version);
    push_u64(&mut out, h.root_sector_list.address);
    push_u64(&mut out, h.free_sector_list.address);
    push_bytes(&mut out, h.name.as_slice());
    push_bytes(&mut out, h.reserved.as_slice());
    proof {
        crate::codec::lemma_le32_roundtrip(h.version);
        crate::codec::lemma_le64_roundtrip(h.root_sector_list.address);
        crate::codec::lemma_le64_roundtrip(h.free_sector_list.address);
        assert(out@.subrange(0, 4) =~= h.signature@);
        assert(out@.subrange(4, 8) =~= vstd::bytes::spec_u32_to_le_bytes(h.version));
        assert(out@.subrange(8, 16) =~= vstd::bytes::spec_u64_to_le_bytes(
            h.root_sector_list.address,
        ));
        assert(out@.subrange(16, 24) =~= vstd::bytes::spec_u64_to_le_bytes(
            h.free_sector_list.address,
        ));
        assert(out@.subrange(24, 280) =~= h.name@);
        assert(out@.subrange(280, 512) =~= h.reserved@);
    }
    out
}

/// Decodes a node sector into an owned record.
pub fn decode_node(s: &[u8]) -> (n: Node)
    requires
        s@.len() == SECTOR_BYTES,
    ensures
        n.wf(),
        n.decodes(s@),
{
    Node {
        parent_collection: Block { address: read_u64(s, NODE_PARENT_AT) },
        data_sector_list: Block { address: read_u64(s, NODE_DATA_LIST_AT) },
        data_size: read_u64(s, NODE_DATA_SIZE_AT),
        user_id: read_u64(s, NODE_USER_AT),
        group_id: read_u64(s, NODE_GROUP_AT),
        mode: read_u64(s, NODE_MODE_AT),
        modify_time: read_u64(s, NODE_MODIFY_AT),
        access_time: read_u64(s, NODE_ACCESS_AT),
        create_time: read_u64(s, NODE_CREATE_AT),
        name: copy_range(s, NODE_NAME_AT, NODE_RESERVED_AT),
        reserved: copy_range(s, NODE_RESERVED_AT, SECTOR_BYTES),
    }
}

/// Encodes a node record as one 512-byte sector; decoding the result gives
/// the record back.
pub fn encode_node(n: &Node) -> (r: Vec<u8>)
    requires
        n.wf(),
    ensures
        r@.len() == SECTOR_BYTES,
        n.decodes(r@),
{
    let mut out: Vec<u8> = Vec::new();
    push_u64(&mut out, n.parent_collection.address);
    push_u64(&mut out, n.data_sector_list.address);
    push_u64(&mut out, n.data_size);
    push_u64(&mut out, n.user_id);
    push_u64(&mut out, n.group_id);
    push_u64(&mut out, n.mode);
    push_u64(&mut out, n.modify_time);
    push_u64(&mut out, n.access_time);
    push_u64(&mut out, n.create_time);
    push_bytes(&mut out, n.name.as_slice());
    push_bytes(&mut out, n.reserved.as_slice());
    proof {
        lemma_node_encoding(n, out@);
    }
    out
}

/// Splits the proof that a byte image laid out field after field decodes to
/// the node it was built from.
proof fn lemma_node_encoding(n: &Node, s: Seq<u8>)
    requires
        n.wf(),
        s =~= vstd::bytes::spec_u64_to_le_bytes(n.parent_collection.address)
            + vstd::bytes::spec_u64_to_le_bytes(n.data_sector_list.address)
            + vstd::bytes::spec_u64_to_le_bytes(n.data_size) + vstd::bytes::spec_u64_to_le_bytes(
            n.user_id,
        ) + vstd::bytes::spec_u64_to_le_bytes(n.group_id) + vstd::bytes::spec_u64_to_le_bytes(
            n.mode,
        ) + vstd::bytes::spec_u64_to_le_bytes(n.modify_time) + vstd::bytes::spec_u64_to_le_bytes(
            n.access_time,
        ) + vstd::bytes::spec_u64_to_le_bytes(n.create_time) + n.name@ + n.reserved@,
    ensures
        s.len() == SECTOR_BYTES,
        n.decodes(s),
{
    vstd::bytes::lemma_auto_spec_u64_to_from_le_bytes();
    assert(s.subrange(0, 8) =~= vstd::bytes::spec_u64_to_le_bytes(n.parent_collection.address));
    assert(s.subrange(8, 16) =~= vstd::bytes::spec_u64_to_le_bytes(n.data_sector_list.address));
    assert(s.subrange(16, 24) =~= vstd::bytes::spec_u64_to_le_bytes(n.data_size));
    assert(s.subrange(24, 32) =~= vstd::bytes::spec_u64_to_le_bytes(n.user_id));
    assert(s.subrange(32, 40) =~= vstd::bytes::spec_u64_to_le_bytes(n.group_id));
    assert(s.subrange(40, 48) =~= vstd::bytes::spec_u64_to_le_bytes(n.mode));
    assert(s.subrange(48, 56) =~= vstd::bytes::spec_u64_to_le_bytes(n.modify_time));
    assert(s.subrange(56, 64) =~= vstd::bytes::spec_u64_to_le_bytes(n.access_time));
    assert(s.subrange(64, 72) =~= vstd::bytes::spec_u64_to_le_bytes(n.create_time));
    assert(s.subrange(72, 328) =~= n.name@);
    assert(s.subrange(328, 512) =~= n.reserved@);
}

/// Decodes a sector-list fragment sector into an owned record.
pub fn decode_sector_list(s: &[u8]) -> (l: SectorList)
    requires
        s@.len() == SECTOR_BYTES,
    ensures
        l.wf(),
        l.decodes(s@),
{
    let mut extents: Vec<Extent> = Vec::new();
    let mut i: usize = 0;
    while i < EXTENTS_PER_FRAGMENT
        invariant
            i <= EXTENTS_PER_FRAGMENT,
            s@.len() == SECTOR_BYTES,
            extents@.len() == i,
            forall|j: int| 0 <= j < i ==> extents@[j] == list_extent(s@, j),
        decreases EXTENTS_PER_FRAGMENT - i,
    {
        let address = read_u64(s, LIST_EXTENTS_AT + 16 * i);
        let length = read_u64(s, LIST_EXTENTS_AT + 16 * i + 8);
        extents.push(Extent { block: Block { address }, length });
        i += 1;
    }
    SectorList {
        parent_node: Block { address: read_u64(s, LIST_PARENT_AT) },
        fragment_number: read_u64(s, LIST_NUMBER_AT),
        next_fragment: Block { address: read_u64(s, LIST_NEXT_AT) },
        last_fragment: Block { address: read_u64(s, LIST_LAST_AT) },
        extents,
    }
}

/// Encodes a sector-list fragment as one 512-byte sector; decoding the
/// result gives the record back.
pub fn encode_sector_list(l: &SectorList) -> (r: Vec<u8>)
    requires
        l.wf(),
    ensures
        r@.len() == SECTOR_BYTES,
        l.decodes(r@),
{
    let mut out: Vec<u8> = Vec::new();
    push_u64(&mut out, l.parent_node.address);
    push_u64(&mut out, l.fragment_number);
    push_u64(&mut out, l.next_fragment.address);
    push_u64(&mut out, l.last_fragment.address);
    let ghost prefix = out@;
    proof {
        vstd::bytes::lemma_auto_spec_u64_to_from_le_bytes();
        assert(prefix.subrange(0, 8) =~= vstd::bytes::spec_u64_to_le_bytes(l.parent_node.address));
        assert(prefix.subrange(8, 16) =~= vstd::bytes::spec_u64_to_le_bytes(l.fragment_number));
        assert(prefix.subrange(16, 24) =~= vstd::bytes::spec_u64_to_le_bytes(
            l.next_fragment.address,
        ));
        assert(prefix.subrange(24, 32) =~= vstd::bytes::spec_u64_to_le_bytes(
            l.last_fragment.address,
        ));
    }
    let mut i: usize = 0;
    while i < EXTENTS_PER_FRAGMENT
        invariant
            i <= EXTENTS_PER_FRAGMENT,
            l.wf(),
            out@.len() == 32 + 16 * i,
            out@.subrange(0, 32) == prefix,
            prefix.len() == 32,
            prefix.subrange(0, 8) == vstd::bytes::spec_u64_to_le_bytes(l.parent_node.address),
            prefix.subrange(8, 16) == vstd::bytes::spec_u64_to_le_bytes(l.fragment_number),
            prefix.subrange(16, 24) == vstd::bytes::spec_u64_to_le_bytes(l.next_fragment.address),
            prefix.subrange(24, 32) == vstd::bytes::spec_u64_to_le_bytes(l.last_fragment.address),
            forall|j: int|
                0 <= j < i ==> out@.subrange(32 + 16 * j, 40 + 16 * j)
                    == vstd::bytes::spec_u64_to_le_bytes(l.extents@[j].block.address)
                    && out@.subrange(40 + 16 * j, 48 + 16 * j) == vstd::bytes::spec_u64_to_le_bytes(
                    l.extents@[j].length,
                ),
        decreases EXTENTS_PER_FRAGMENT - i,
    {
        let e = l.extents[i];
        let ghost before = out@;
        push_u64(&mut out, e.block.address);
        push_u64(&mut out, e.length);
        proof {
            vstd::bytes::lemma_auto_spec_u64_to_from_le_bytes();
            assert(out@.subrange(0, 32) =~= prefix);
            assert(out@.subrange(32 + 16 * i, 40 + 16 * i) =~= vstd::bytes::spec_u64_to_le_bytes(
                e.block.address,
            ));
            assert(out@.subrange(40 + 16 * i, 48 + 16 * i) =~= vstd::bytes::spec_u64_to_le_bytes(
                e.length,
            ));
            assert forall|j: int| 0 <= j < i implies out@.subrange(32 + 16 * j, 40 + 16 * j)
                == vstd::bytes::spec_u64_to_le_bytes(l.extents@[j].block.address) && out@.subrange(
                40 + 16 * j,
                48 + 16 * j,
            ) == vstd::bytes::spec_u64_to_le_bytes(l.extents@[j].length) by {
                assert(out@.subrange(32 + 16 * j, 40 + 16 * j) =~= before.subrange(
                    32 + 16 * j,
                    40 + 16 * j,
                ));
                assert(out@.subrange(40 + 16 * j, 48 + 16 * j) =~= before.subrange(
                    40 + 16 * j,
                    48 + 16 * j,
                ));
            }
        }
        i += 1;
    }
    proof {
        vstd::bytes::lemma_auto_spec_u64_to_from_le_bytes();
        assert forall|k: int| 0 <= k < 32 implies out@[k] == prefix[k] by {
            assert(out@.subrange(0, 32)[k] == out@[k]);
        }
        assert(out@.subrange(0, 8) =~= prefix.subrange(0, 8));
        assert(out@.subrange(8, 16) =~= prefix.subrange(8, 16));
        assert(out@.subrange(16, 24) =~= prefix.subrange(16, 24));
        assert(out@.subrange(24, 32) =~= prefix.subrange(24, 32));
        assert forall|j: int| 0 <= j < EXTENTS_PER_FRAGMENT implies l.extents@[j] == list_extent(
            out@,
            j,
        ) by {
            assert(out@.subrange(32 + 16 * j, 40 + 16 * j) == vstd::bytes::spec_u64_to_le_bytes(
                l.extents@[j].block.address,
            ));
            assert(out@.subrange(40 + 16 * j, 48 + 16 * j) == vstd::bytes::spec_u64_to_le_bytes(
                l.extents@[j].length,
            ));
        }
    }
    out
}

/// The index of the first zero byte of `s` at or after position `i`, or
/// `s.len()` when none follows.
pub open spec fn first_zero_from(s: Seq<u8>, i: int) -> int
    decreases s.len() - i when 0 <= i <= s.len()
{
    if i >= s.len() {
        s.len() as int
    } else if s[i] == 0 {
        i
    } else {
        first_zero_from(s, i + 1)
    }
}

/// The index of the first zero byte of `s`, or `s.len()` when `s` has none.
pub open spec fn first_zero(s: Seq<u8>) -> int {
    first_zero_from(s, 0)
}

/// The logical name stored in a fixed-width name buffer: everything before
/// the first zero byte.
pub open spec fn logical_name(name: Seq<u8>) -> Seq<u8> {
    name.subrange(0, first_zero(name))
}

/// Whether `p` is a prefix of `s`.
pub open spec fn is_prefix_of(p: Seq<u8>, s: Seq<u8>) -> bool {
    p.len() <= s.len() && s.subrange(0, p.len() as int) == p
}

/// Exact-match semantics on a fixed-width name buffer: the stored bytes
/// equal the query for its whole length and the byte right after is zero.
/// This is how a lookup matches, as opposed to the prefix semantics a
/// listing uses.
pub open spec fn name_matches_exact(name: Seq<u8>, q: Seq<u8>) -> bool {
    &&& q.len() < name.len()
    &&& name.subrange(0, q.len() as int) == q
    &&& name[q.len() as int] == 0
}

/// Position and context of the first zero byte: it lies within the buffer,
/// nothing before it is zero, and it is zero itself unless the buffer has
/// none at all.
pub proof fn lemma_first_zero(s: Seq<u8>, i: int)
    requires
        0 <= i <= s.len(),
    ensures
        i <= first_zero_from(s, i) <= s.len(),
        forall|j: int| i <= j < first_zero_from(s, i) ==> s[j] != 0,
        first_zero_from(s, i) < s.len() ==> s[first_zero_from(s, i)] == 0,
    decreases s.len() - i,
{
    if i < s.len() && s[i] != 0 {
        lemma_first_zero(s, i + 1);
    }
}

/// Finds the index of the first zero byte, or the buffer length when there
/// is none.
pub fn find_zero(name: &[u8]) -> (z: usize)
    ensures
        z == first_zero(name@),
{
    let n = name.len();
    let mut i: usize = 0;
    while i < n
        invariant
            0 <= i <= n,
            n == name@.len(),
            first_zero(name@) == first_zero_from(name@, i as int),
        decreases n - i,
    {
        if name[i] == 0 {
            return i;
        }
        i += 1;
    }
    i
}

/// Copies the logical name out of a fixed-width name buffer.
pub fn trimmed_name(name: &[u8]) -> (r: Vec<u8>)
    ensures
        r@ == logical_name(name@),
{
    let z = find_zero(name);
    proof {
        lemma_first_zero(name@, 0);
    }
    copy_range(name, 0, z)
}

/// Decides exact-match lookup semantics: `q` equals the stored name up to
/// `q`'s length and the next stored byte is zero.
pub fn match_exact(name: &[u8], q: &[u8]) -> (r: bool)
    ensures
        r == name_matches_exact(name@, q@),
{
    let qn = q.len();
    if qn >= name.len() {
        return false;
    }
    let mut i: usize = 0;
    while i < qn
        invariant
            0 <= i <= qn < name@.len(),
            qn == q@.len(),
            name@.subrange(0, i as int) == q@.subrange(0, i as int),
        decreases qn - i,
    {
        if name[i] != q[i] {
            proof {
                assert(name@.subrange(0, qn as int)[i as int] == name@[i as int]);
            }
            return false;
        }
        i += 1;
        proof {
            assert(name@.subrange(0, i as int) =~= q@.subrange(0, i as int));
        }
    }
    proof {
        assert(q@.subrange(0, qn as int) =~= q@);
    }
    name[qn] == 0
}

/// Decides listing semantics: `p` is a prefix of the stored logical name.
pub fn match_prefix(name: &[u8], p: &[u8]) -> (r: bool)
    ensures
        r == is_prefix_of(p@, logical_name(name@)),
{
    let z = find_zero(name);
    proof {
        lemma_first_zero(name@, 0);
    }
    let pn = p.len();
    if pn > z {
        return false;
    }
    let mut i: usize = 0;
    while i < pn
        invariant
            0 <= i <= pn <= z <= name@.len(),
            z == first_zero(name@),
            pn == p@.len(),
            name@.subrange(0, i as int) == p@.subrange(0, i as int),
        decreases pn - i,
    {
        if name[i] != p[i] {
            proof {
                assert(logical_name(name@).subrange(0, pn as int)[i as int] == name@[i as int]);
            }
            return false;
        }
        i += 1;
        proof {
            assert(name@.subrange(0, i as int) =~= p@.subrange(0, i as int));
        }
    }
    proof {
        assert(logical_name(name@).subrange(0, pn as int) =~= name@.subrange(0, pn as int));
        assert(p@.subrange(0, pn as int) =~= p@);
    }
    true
}

} // verus!
