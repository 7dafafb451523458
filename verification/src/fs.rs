//! The filesystem engine: mount, lookup, listing, load and save.
//!
//! Every operation is a stateless function of the device contents and its
//! arguments: each walks the directory chain afresh from the mounted
//! header's root pointer, holding no cache between calls.  Contracts are
//! stated over the device's byte content through the chain model; the
//! traversal preconditions are the format's own invariants on a sound
//! volume (terminating chains, valid sector addresses).
//!
//! Mounting is permissive: it never fails on a bad signature, and callers
//! are expected to consult [`UnFS::valid`] before trusting anything else.

use vstd::prelude::*;

use crate::FsError;
use crate::SECTOR_BYTES;
use crate::chain::as_int_seq;
use crate::chain::chain_nodes;
use crate::chain::chain_usable;
use crate::chain::collect_chain;
use crate::chain::sector_at;
use crate::chain::sector_in_range;
use crate::disk::Disk;
use crate::disk::splice_bytes;
use crate::layout::Header;
use crate::layout::Node;
use crate::layout::decode_header;
use crate::layout::decode_node;
use crate::layout::decode_sector_list;
use crate::layout::is_prefix_of;
use crate::layout::list_extent;
use crate::layout::list_next;
use crate::layout::logical_name;
use crate::layout::match_exact;
use crate::layout::match_prefix;
use crate::layout::name_matches_exact;
use crate::layout::node_data_list;
use crate::layout::node_name;
use crate::layout::trimmed_name;
use crate::layout::unfs_signature;

verus! {

/// The stored 256-byte name buffer of the node record in sector `a`.
pub open spec fn node_name_at(d: Seq<u8>, a: int) -> Seq<u8> {
    node_name(sector_at(d, a))
}

/// Whether directory entry `j` (in on-disk order) matches `q` exactly.
pub open spec fn entry_matches(d: Seq<u8>, root: int, q: Seq<u8>, j: int) -> bool {
    name_matches_exact(node_name_at(d, chain_nodes(d, root)[j]), q)
}

/// Whether the directory chain rooted at `root` holds a node whose stored
/// name matches `q` exactly.
pub open spec fn dir_has(d: Seq<u8>, root: int, q: Seq<u8>) -> bool {
    exists|j: int|
        0 <= j < chain_nodes(d, root).len() && #[trigger] entry_matches(d, root, q, j)
}

/// Whether entry `j` is the first exact match for `q` in on-disk order.
pub open spec fn is_first_match(d: Seq<u8>, root: int, q: Seq<u8>, j: int) -> bool {
    &&& 0 <= j < chain_nodes(d, root).len()
    &&& entry_matches(d, root, q, j)
    &&& forall|jj: int| 0 <= jj < j ==> !#[trigger] entry_matches(d, root, q, jj)
}

/// The position of the first exact match for `q` in on-disk order.
pub open spec fn first_match_at(d: Seq<u8>, root: int, q: Seq<u8>) -> int {
    choose|j: int| is_first_match(d, root, q, j)
}

/// The sector of the node a lookup for `q` returns: the first match in
/// fragment-then-extent-then-sector order.
pub open spec fn resolved_sector(d: Seq<u8>, root: int, q: Seq<u8>) -> int {
    chain_nodes(d, root)[first_match_at(d, root, q)]
}

/// The logical names of all directory entries, in on-disk order.
pub open spec fn dir_names(d: Seq<u8>, root: int) -> Seq<Seq<u8>> {
    chain_nodes(d, root).map_values(|s: int| logical_name(node_name_at(d, s)))
}

/// The listing predicate: whether a logical name starts with `p`.
pub open spec fn prefix_pred(p: Seq<u8>) -> spec_fn(Seq<u8>) -> bool {
    |nm: Seq<u8>| is_prefix_of(p, nm)
}

/// The names a listing with prefix `p` returns: exactly the subsequence of
/// the full on-disk-order listing whose names start with `p`.
pub open spec fn dir_listing(d: Seq<u8>, root: int, p: Seq<u8>) -> Seq<Seq<u8>> {
    dir_names(d, root).filter(prefix_pred(p))
}

/// One step of a filtered listing: filtering a sequence extended by `x`
/// keeps the old result and appends `x` exactly when `x` passes.
pub proof fn lemma_filter_push<A>(s: Seq<A>, pred: spec_fn(A) -> bool, x: A)
    ensures
        (s.push(x)).filter(pred) == if pred(x) {
            s.filter(pred).push(x)
        } else {
            s.filter(pred)
        },
{
    reveal_with_fuel(Seq::filter, 2);
    assert((s.push(x)).drop_last() =~= s);
    assert((s.push(x)).last() == x);
}

/// A match somewhere pins down a unique first match.
pub proof fn lemma_first_match_from(d: Seq<u8>, root: int, q: Seq<u8>, j0: int)
    requires
        0 <= j0 < chain_nodes(d, root).len(),
        entry_matches(d, root, q, j0),
    ensures
        dir_has(d, root, q),
        is_first_match(d, root, q, first_match_at(d, root, q)),
        first_match_at(d, root, q) <= j0,
    decreases j0,
{
    if forall|jj: int| 0 <= jj < j0 ==> !#[trigger] entry_matches(d, root, q, jj) {
        assert(is_first_match(d, root, q, j0));
        lemma_first_match_unique(d, root, q, j0);
    } else {
        let jj = choose|jj: int|
            0 <= jj < j0 && #[trigger] entry_matches(d, root, q, jj);
        lemma_first_match_from(d, root, q, jj);
    }
}

/// The first match is unique, so any witness for it names the same entry.
pub proof fn lemma_first_match_unique(d: Seq<u8>, root: int, q: Seq<u8>, j: int)
    requires
        is_first_match(d, root, q, j),
    ensures
        dir_has(d, root, q),
        first_match_at(d, root, q) == j,
{
    assert(dir_has(d, root, q));
    let j2 = first_match_at(d, root, q);
    assert(is_first_match(d, root, q, j2));
    if j2 < j {
        assert(entry_matches(d, root, q, j2));
        assert(false);
    } else if j < j2 {
        assert(entry_matches(d, root, q, j));
        assert(false);
    }
}

/// The format invariants load and save need of a resolved node's data
/// chain: a present data-list fragment lies on the device, and a used first
/// extent lies on the device and fits a single transfer (at most 65535
/// sectors, the device's 16-bit count).
pub open spec fn node_data_usable(d: Seq<u8>, ns: int) -> bool {
    let dla = node_data_list(sector_at(d, ns)) as int;
    dla != 0 ==> {
        &&& sector_in_range(d, dla)
        &&& {
            let e = list_extent(sector_at(d, dla), 0);
            (e.block.address != 0 && e.length != 0) ==> {
                &&& e.length <= u16::MAX
                &&& (e.block.address + e.length) * (SECTOR_BYTES as int) <= d.len()
            }
        }
    }
}

/// The bytes a load of the node in sector `ns` hands back: the content of
/// the first extent of the first data-chain fragment, or nothing when the
/// node has no data chain or that extent slot is unused.  Data past the
/// first extent of the first fragment is unreachable by design.
pub open spec fn file_bytes(d: Seq<u8>, ns: int) -> Seq<u8> {
    let dla = node_data_list(sector_at(d, ns)) as int;
    if dla == 0 {
        Seq::empty()
    } else {
        let e = list_extent(sector_at(d, dla), 0);
        if e.block.address == 0 || e.length == 0 {
            Seq::empty()
        } else {
            d.subrange(
                e.block.address * (SECTOR_BYTES as int),
                (e.block.address + e.length) * (SECTOR_BYTES as int),
            )
        }
    }
}

/// Whether every byte of the node's data is reachable through load and
/// save: false as soon as the data chain has a second fragment or a used
/// extent slot past the first.
pub open spec fn data_fully_mapped(d: Seq<u8>, ns: int) -> bool {
    let dla = node_data_list(sector_at(d, ns)) as int;
    dla == 0 || {
        &&& list_next(sector_at(d, dla)) == 0
        &&& forall|i: int|
            1 <= i < crate::layout::EXTENTS_PER_FRAGMENT ==> !(#[trigger] list_extent(
                sector_at(d, dla),
                i,
            )).is_used()
    }
}

/// A mounted filesystem: the device and the superblock copied out of its
/// sector 1 at mount time.  The header is never written back.
pub struct UnFS {
    pub disk: Disk,
    pub header: Header,
}

impl UnFS {
    /// The root of the directory chain, as mounted.
    pub open spec fn root(&self) -> int {
        self.header.root_sector_list.address as int
    }

    /// The traversal invariants every directory-walking operation relies
    /// on: the chain terminates and names only sectors on the device.
    pub open spec fn dir_usable(&self) -> bool {
        chain_usable(self.disk@, self.root())
    }

    /// Mounts a filesystem: reads the superblock from sector 1 and keeps a
    /// copy.  Mounting never fails: on a device too small to hold sector 1
    /// the header reads as all zeroes (an invalid volume with no root).
    pub fn from_disk(disk: Disk) -> (fs: UnFS)
        ensures
            fs.disk@ == disk@,
            fs.header.wf(),
            2 * SECTOR_BYTES <= disk@.len() ==> fs.header.decodes(sector_at(disk@, 1)),
            disk@.len() < 2 * SECTOR_BYTES ==> fs.header.decodes(
                Seq::new(SECTOR_BYTES as nat, |i: int| 0u8),
            ),
    {
        let header = match disk.read(1, 1) {
            Ok(buf) => {
                proof {
                    assert(buf@ =~= sector_at(disk@, 1));
                }
                decode_header(buf.as_slice())
            },
            Err(_) => {
                let zeroes: Vec<u8> = vec![0u8; SECTOR_BYTES];
                proof {
                    assert(zeroes@ =~= Seq::new(SECTOR_BYTES as nat, |i: int| 0u8));
                }
                decode_header(zeroes.as_slice())
            },
        };
        UnFS { disk, header }
    }

    /// Whether the mounted volume is valid: exactly when its signature
    /// bytes spell "UnFS".  Any other content gives false, never an error.
    pub fn valid(&self) -> (r: bool)
        ensures
            r == (self.header.signature@ == unfs_signature()),
    {
        let sig = &self.header.signature;
        let r = sig.len() == 4 && sig[0] == 85 && sig[1] == 110 && sig[2] == 70 && sig[3] == 83;
        proof {
            if r {
                assert(sig@ =~= unfs_signature());
            } else {
                if sig@ == unfs_signature() {
                    assert(sig@[0] == 85 && sig@[1] == 110 && sig@[2] == 70 && sig@[3] == 83);
                }
            }
        }
        r
    }

    /// Looks a node up by exact name: the stored name must equal `name`
    /// byte for byte and be terminated right there by a zero.  Returns the
    /// first match in fragment-then-extent-then-sector order; the walk
    /// stops at it, so later duplicates are unreachable.  Misses give
    /// `NotFound`.
    pub fn node(&self, name: &[u8]) -> (r: Result<Node, FsError>)
        requires
            self.dir_usable(),
        ensures
            r is Ok <==> dir_has(self.disk@, self.root(), name@),
            r matches Ok(n) ==> n.wf() && n.decodes(
                sector_at(self.disk@, resolved_sector(self.disk@, self.root(), name@)),
            ),
            r is Err ==> r == Err::<Node, FsError>(FsError::NotFound),
    {
        let ghost d = self.disk@;
        let ghost root = self.root();
        let ghost q = name@;
        let addrs = collect_chain(&self.disk, self.header.root_sector_list.address);
        let n_entries = addrs.len();
        let mut idx: usize = 0;
        while idx < n_entries
            invariant
                self.dir_usable(),
                d == self.disk@,
                root == self.root(),
                q == name@,
                n_entries == addrs@.len(),
                as_int_seq(addrs@) == chain_nodes(d, root),
                0 <= idx <= n_entries,
                forall|jj: int| 0 <= jj < idx ==> !#[trigger] entry_matches(d, root, q, jj),
            decreases n_entries - idx,
        {
            let a = addrs[idx];
            proof {
                assert(chain_nodes(d, root)[idx as int] == a as int);
                assert(sector_in_range(d, a as int));
            }
            let buf = match self.disk.read(a, 1) {
                Ok(b) => b,
                Err(_) => {
                    proof {
                        assert(false);
                    }
                    return Err(FsError::NotFound);
                },
            };
            proof {
                assert(buf@ =~= sector_at(d, a as int));
            }
            let node = decode_node(buf.as_slice());
            if match_exact(node.name.as_slice(), name) {
                proof {
                    assert(entry_matches(d, root, q, idx as int));
                    assert(is_first_match(d, root, q, idx as int));
                    lemma_first_match_unique(d, root, q, idx as int);
                    assert(resolved_sector(d, root, q) == a as int);
                }
                return Ok(node);
            }
            proof {
                assert(!entry_matches(d, root, q, idx as int));
            }
            idx += 1;
        }
        proof {
            if dir_has(d, root, q) {
                let j = choose|j: int|
                    0 <= j < chain_nodes(d, root).len() && #[trigger] entry_matches(d, root, q, j);
                assert(false);
            }
        }
        Err(FsError::NotFound)
    }

    /// Lists the logical names of every node whose name starts with
    /// `prefix`, in on-disk order: fragment chain order, then extent slot
    /// order, then ascending sector order.  The walk always runs to chain
    /// exhaustion; an empty prefix lists every node.
    pub fn list(&self, prefix: &[u8]) -> (r: Vec<Vec<u8>>)
        requires
            self.dir_usable(),
        ensures
            r@.map_values(|v: Vec<u8>| v@) == dir_listing(self.disk@, self.root(), prefix@),
    {
        let ghost d = self.disk@;
        let ghost root = self.root();
        let ghost p = prefix@;
        let ghost names = dir_names(d, root);
        let addrs = collect_chain(&self.disk, self.header.root_sector_list.address);
        let n_entries = addrs.len();
        let mut out: Vec<Vec<u8>> = Vec::new();
        let mut idx: usize = 0;
        proof {
            assert(names.subrange(0, 0) =~= Seq::<Seq<u8>>::empty());
            reveal_with_fuel(Seq::filter, 1);
            assert(out@.map_values(|v: Vec<u8>| v@) =~= names.subrange(0, 0).filter(
                prefix_pred(p),
            ));
        }
        while idx < n_entries
            invariant
                self.dir_usable(),
                d == self.disk@,
                root == self.root(),
                p == prefix@,
                names == dir_names(d, root),
                n_entries == addrs@.len(),
                as_int_seq(addrs@) == chain_nodes(d, root),
                0 <= idx <= n_entries,
                out@.map_values(|v: Vec<u8>| v@) == names.subrange(0, idx as int).filter(
                    prefix_pred(p),
                ),
            decreases n_entries - idx,
        {
            let a = addrs[idx];
            proof {
                assert(chain_nodes(d, root)[idx as int] == a as int);
                assert(sector_in_range(d, a as int));
            }
            let buf = match self.disk.read(a, 1) {
                Ok(b) => b,
                Err(_) => {
                    proof {
                        assert(false);
                    }
                    return out;
                },
            };
            proof {
                assert(buf@ =~= sector_at(d, a as int));
                assert(buf@.subrange(
                    crate::layout::NODE_NAME_AT as int,
                    crate::layout::NODE_RESERVED_AT as int,
                ) =~= node_name_at(d, a as int));
            }
            let node = decode_node(buf.as_slice());
            let ghost seen = out@.map_values(|v: Vec<u8>| v@);
            let name = trimmed_name(node.name.as_slice());
            if match_prefix(node.name.as_slice(), prefix) {
                out.push(name);
            }
            proof {
                let cl = prefix_pred(p);
                let nm = logical_name(node_name_at(d, a as int));
                let pref = names.subrange(0, idx + 1);
                assert(pref =~= names.subrange(0, idx as int).push(nm));
                lemma_filter_push(names.subrange(0, idx as int), cl, nm);
                if is_prefix_of(p, nm) {
                    assert(out@.map_values(|v: Vec<u8>| v@) =~= seen.push(nm));
                }
            }
            idx += 1;
        }
        proof {
            assert(names.subrange(0, n_entries as int) =~= names);
        }
        out
    }

    /// Loads a file's content: the bytes of the first extent of the first
    /// fragment of the node's data chain.  A node with no data chain, or
    /// an unused first extent slot, loads as an empty buffer.  Data past
    /// that single extent is unreachable by this operation; see
    /// [`UnFS::fully_mapped`] to detect it.  An unknown name gives
    /// `NotFound`.
    pub fn load(&self, name: &[u8]) -> (r: Result<Vec<u8>, FsError>)
        requires
            self.dir_usable(),
            dir_has(self.disk@, self.root(), name@) ==> node_data_usable(
                self.disk@,
                resolved_sector(self.disk@, self.root(), name@),
            ),
        ensures
            r is Ok <==> dir_has(self.disk@, self.root(), name@),
            r matches Ok(buf) ==> buf@ == file_bytes(
                self.disk@,
                resolved_sector(self.disk@, self.root(), name@),
            ),
            r is Err ==> r == Err::<Vec<u8>, FsError>(FsError::NotFound),
    {
        let ghost d = self.disk@;
        let ghost ns = resolved_sector(self.disk@, self.root(), name@);
        let node = match self.node(name) {
            Ok(n) => n,
            Err(e) => {
                return Err(e);
            },
        };
        let dla = node.data_sector_list.address;
        if dla == 0 {
            return Ok(Vec::new());
        }
        let fbuf = match self.disk.read(dla, 1) {
            Ok(b) => b,
            Err(_) => {
                proof {
                    assert(false);
                }
                return Err(FsError::NotFound);
            },
        };
        proof {
            assert(fbuf@ =~= sector_at(d, dla as int));
        }
        let frag = decode_sector_list(fbuf.as_slice());
        let e = frag.extents[0];
        proof {
            assert(e == list_extent(sector_at(d, dla as int), 0));
        }
        if e.block.address == 0 || e.length == 0 {
            return Ok(Vec::new());
        }
        let count: u16 = e.length as u16;
        proof {
            assert(count == e.length);
        }
        match self.disk.read(e.block.address, count) {
            Ok(data) => Ok(data),
            Err(_) => {
                proof {
                    assert(false);
                }
                Err(FsError::NotFound)
            },
        }
    }

    /// Saves a file's content over its existing single extent.  The buffer
    /// must hold exactly the extent's capacity in bytes: anything else is
    /// `SizeMismatch` and nothing is written.  A node without a data chain
    /// or a used first extent cannot be grown here: `Unsupported`.  An
    /// unknown name gives `NotFound`.  On every failure the device is left
    /// untouched.
    pub fn save(&mut self, name: &[u8], content: &[u8]) -> (r: Result<(), FsError>)
        requires
            old(self).dir_usable(),
            dir_has(old(self).disk@, old(self).root(), name@) ==> node_data_usable(
                old(self).disk@,
                resolved_sector(old(self).disk@, old(self).root(), name@),
            ),
        ensures
            final(self).header == old(self).header,
            r is Err ==> final(self).disk@ == old(self).disk@,
            !dir_has(old(self).disk@, old(self).root(), name@) ==> r == Err::<(), FsError>(
                FsError::NotFound,
            ),
            dir_has(old(self).disk@, old(self).root(), name@) ==> ({
                let d = old(self).disk@;
                let ns = resolved_sector(d, old(self).root(), name@);
                let dla = node_data_list(sector_at(d, ns)) as int;
                let e = list_extent(sector_at(d, dla), 0);
                &&& (dla == 0 ==> r == Err::<(), FsError>(FsError::Unsupported))
                &&& (dla != 0 && (e.block.address == 0 || e.length == 0) ==> r == Err::<(),
                FsError>(FsError::Unsupported))
                &&& (dla != 0 && e.block.address != 0 && e.length != 0 && content@.len()
                    != e.length * (SECTOR_BYTES as int) ==> r == Err::<(), FsError>(
                    FsError::SizeMismatch,
                ))
                &&& (dla != 0 && e.block.address != 0 && e.length != 0 && content@.len()
                    == e.length * (SECTOR_BYTES as int) ==> r is Ok && final(self).disk@
                    == splice_bytes(d, e.block.address, content@))
            }),
    {
        let ghost d = self.disk@;
        let node = match self.node(name) {
            Ok(n) => n,
            Err(_) => {
                return Err(FsError::NotFound);
            },
        };
        let dla = node.data_sector_list.address;
        if dla == 0 {
            return Err(FsError::Unsupported);
        }
        let fbuf = match self.disk.read(dla, 1) {
            Ok(b) => b,
            Err(_) => {
                proof {
                    assert(false);
                }
                return Err(FsError::Unsupported);
            },
        };
        proof {
            assert(fbuf@ =~= sector_at(d, dla as int));
        }
        let frag = decode_sector_list(fbuf.as_slice());
        let e = frag.extents[0];
        proof {
            assert(e == list_extent(sector_at(d, dla as int), 0));
        }
        if e.block.address == 0 || e.length == 0 {
            return Err(FsError::Unsupported);
        }
        let capacity: u64 = e.length * (SECTOR_BYTES as u64);
        if content.len() as u64 != capacity {
            return Err(FsError::SizeMismatch);
        }
        let count: u16 = e.length as u16;
        match self.disk.write(e.block.address, count, content) {
            Ok(_) => Ok(()),
            Err(_) => {
                proof {
                    assert(false);
                }
                Err(FsError::SizeMismatch)
            },
        }
    }

    /// Reports whether load and save reach all of the node's data: false
    /// exactly when the data chain continues past its first fragment or
    /// holds a used extent slot after the first, the data this engine
    /// leaves unreachable.
    pub fn fully_mapped(&self, name: &[u8]) -> (r: Result<bool, FsError>)
        requires
            self.dir_usable(),
            dir_has(self.disk@, self.root(), name@) ==> node_data_usable(
                self.disk@,
                resolved_sector(self.disk@, self.root(), name@),
            ),
        ensures
            r is Ok <==> dir_has(self.disk@, self.root(), name@),
            r matches Ok(b) ==> b == data_fully_mapped(
                self.disk@,
                resolved_sector(self.disk@, self.root(), name@),
            ),
            r is Err ==> r == Err::<bool, FsError>(FsError::NotFound),
    {
        let ghost d = self.disk@;
        let ghost ns = resolved_sector(self.disk@, self.root(), name@);
        let node = match self.node(name) {
            Ok(n) => n,
            Err(e) => {
                return Err(e);
            },
        };
        let dla = node.data_sector_list.address;
        if dla == 0 {
            return Ok(true);
        }
        let fbuf = match self.disk.read(dla, 1) {
            Ok(b) => b,
            Err(_) => {
                proof {
                    assert(false);
                }
                return Err(FsError::NotFound);
            },
        };
        proof {
            assert(fbuf@ =~= sector_at(d, dla as int));
        }
        let frag = decode_sector_list(fbuf.as_slice());
        if frag.next_fragment.address != 0 {
            return Ok(false);
        }
        let mut i: usize = 1;
        while i < crate::layout::EXTENTS_PER_FRAGMENT
            invariant
                d == self.disk@,
                ns == resolved_sector(d, self.root(), name@),
                dir_has(d, self.root(), name@),
                dla != 0,
                dla == node_data_list(sector_at(d, ns)),
                1 <= i <= crate::layout::EXTENTS_PER_FRAGMENT,
                frag.wf(),
                frag.decodes(sector_at(d, dla as int)),
                forall|jj: int|
                    1 <= jj < i ==> !(#[trigger] list_extent(sector_at(d, dla as int), jj)).is_used(),
            decreases crate::layout::EXTENTS_PER_FRAGMENT - i,
        {
            if frag.extents[i].block.address != 0 {
                proof {
                    assert(list_extent(sector_at(d, dla as int), i as int).is_used());
                }
                return Ok(false);
            }
            i += 1;
        }
        Ok(true)
    }
}

} // verus!
