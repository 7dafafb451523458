//! The engine's stated laws.
//!
//! Each proof function here is a property of the filesystem as a whole,
//! stated over the same spec functions the operations' own contracts use:
//! what validity means at the byte level, how exact lookup relates to the
//! stored names and to prefix listing, how a listing orders its output,
//! and that a full-extent save followed by a load returns the bytes that
//! were written.

use vstd::prelude::*;

use crate::SECTOR_BYTES;
use crate::chain::chain_frag_list;
use crate::chain::chain_frags;
use crate::chain::chain_nodes;
use crate::chain::chain_usable;
use crate::chain::chain_wf;
use crate::chain::lemma_chain_frag_list_is;
use crate::chain::lemma_chain_frame;
use crate::chain::lemma_chain_nodes_is;
use crate::chain::sector_at;
use crate::chain::sector_in_range;
use crate::disk::splice_bytes;
use crate::fs::dir_has;
use crate::fs::dir_listing;
use crate::fs::dir_names;
use crate::fs::entry_matches;
use crate::fs::file_bytes;
use crate::fs::first_match_at;
use crate::fs::is_first_match;
use crate::fs::lemma_first_match_unique;
use crate::fs::node_data_usable;
use crate::fs::node_name_at;
use crate::fs::prefix_pred;
use crate::fs::resolved_sector;
use crate::layout::Header;
use crate::layout::first_zero;
use crate::layout::lemma_first_zero;
use crate::layout::list_extent;
use crate::layout::logical_name;
use crate::layout::name_matches_exact;
use crate::layout::node_data_list;
use crate::layout::unfs_signature;

verus! {

/// A mounted volume is valid exactly when the first four bytes of its
/// superblock sector spell "UnFS"; any other content makes it invalid
/// without being an error.
pub proof fn lemma_valid_iff_signature(d: Seq<u8>, h: Header)
    requires
        h.decodes(sector_at(d, 1)),
    ensures
        (h.signature@ == unfs_signature()) <==> sector_at(d, 1).subrange(0, 4)
            == unfs_signature(),
{
}

/// A name buffer matches a zero-free query exactly iff its logical name is
/// that query: exact-match semantics read the stored name up to its
/// terminator, nothing shorter and nothing longer.
pub proof fn lemma_exact_match_is_logical_name(name: Seq<u8>, q: Seq<u8>)
    requires
        forall|i: int| 0 <= i < q.len() ==> q[i] != 0,
    ensures
        name_matches_exact(name, q) <==> (q.len() < name.len() && logical_name(name) == q),
{
    lemma_first_zero(name, 0);
    let fz = first_zero(name);
    if name_matches_exact(name, q) {
        assert forall|i: int| 0 <= i < q.len() implies name[i] == q[i] by {
            assert(name.subrange(0, q.len() as int)[i] == name[i]);
        }
        if fz < q.len() {
            assert(name[fz] == q[fz]);
            assert(false);
        }
        if fz > q.len() {
            assert(name[q.len() as int] != 0);
            assert(false);
        }
        assert(logical_name(name) =~= q);
    }
    if q.len() < name.len() && logical_name(name) == q {
        assert(fz == q.len());
        assert(name.subrange(0, q.len() as int) == q);
        assert(name[q.len() as int] == 0);
    }
}

/// Exact lookup versus stored names: a name some node stores resolves,
/// while that name with a suffix appended resolves only when some node
/// stores the longer name itself — it never matches the node that stored
/// the shorter one.
pub proof fn lemma_resolve_exact_vs_extended(d: Seq<u8>, root: int, q: Seq<u8>, ext: Seq<u8>)
    requires
        forall|i: int| 0 <= i < q.len() ==> q[i] != 0,
        forall|i: int| 0 <= i < ext.len() ==> ext[i] != 0,
        ext.len() > 0,
        dir_has(d, root, q),
        forall|j: int|
            0 <= j < chain_nodes(d, root).len() ==> logical_name(
                node_name_at(d, #[trigger] chain_nodes(d, root)[j]),
            ) != q + ext,
    ensures
        dir_has(d, root, q),
        !dir_has(d, root, q + ext),
{
    let long = q + ext;
    assert forall|i: int| 0 <= i < long.len() implies long[i] != 0 by {
        if i < q.len() {
            assert(long[i] == q[i]);
        } else {
            assert(long[i] == ext[i - q.len()]);
        }
    }
    if dir_has(d, root, long) {
        let j = choose|j: int|
            0 <= j < chain_nodes(d, root).len() && #[trigger] entry_matches(d, root, long, j);
        lemma_exact_match_is_logical_name(node_name_at(d, chain_nodes(d, root)[j]), long);
        assert(false);
    }
}

/// Filtering keeps a sequence whole when every element passes.
proof fn lemma_filter_all<A>(s: Seq<A>, pred: spec_fn(A) -> bool)
    requires
        forall|i: int| 0 <= i < s.len() ==> pred(#[trigger] s[i]),
    ensures
        s.filter(pred) == s,
    decreases s.len(),
{
    reveal_with_fuel(Seq::filter, 2);
    if s.len() > 0 {
        assert forall|i: int| 0 <= i < s.drop_last().len() implies pred(
            #[trigger] s.drop_last()[i],
        ) by {
            assert(s.drop_last()[i] == s[i]);
        }
        lemma_filter_all(s.drop_last(), pred);
        assert(pred(s.last()));
        assert(s.drop_last().push(s.last()) =~= s);
    }
}

/// Listing order: the empty prefix lists every node in on-disk order, and
/// any prefix lists exactly the subsequence of that same order whose names
/// start with it.
pub proof fn lemma_listing_order(d: Seq<u8>, root: int, p: Seq<u8>)
    ensures
        dir_listing(d, root, Seq::empty()) == dir_names(d, root),
        dir_listing(d, root, p) == dir_names(d, root).filter(prefix_pred(p)),
{
    let names = dir_names(d, root);
    let empty = Seq::<u8>::empty();
    assert forall|i: int| 0 <= i < names.len() implies prefix_pred(empty)(
        #[trigger] names[i],
    ) by {
        assert(names[i].subrange(0, 0) =~= empty);
    }
    lemma_filter_all(names, prefix_pred(empty));
}

/// Whether sector `s` lies outside a written window of `n` sectors
/// starting at sector `w`.
pub open spec fn outside_write(s: int, w: int, n: int) -> bool {
    s + 1 <= w || w + n <= s
}

/// A sector outside the window of a sector-aligned write keeps its bytes.
pub proof fn lemma_sector_frame(d: Seq<u8>, w: u64, content: Seq<u8>, n: int, s: int)
    requires
        content.len() == n * (SECTOR_BYTES as int),
        0 <= n,
        outside_write(s, w as int, n),
        sector_in_range(d, s),
    ensures
        sector_at(splice_bytes(d, w, content), s) == sector_at(d, s),
{
    assert(sector_at(splice_bytes(d, w, content), s) =~= sector_at(d, s));
}

/// Round trip: writing a buffer that exactly fills a node's single data
/// extent, then loading that node, returns the buffer, for any buffer of
/// exactly the extent's capacity in bytes.  The file's data sectors must
/// be distinct from the volume's metadata sectors — the directory's
/// fragment and node-record sectors and the node's data-list fragment —
/// as they are on any sound volume.
pub proof fn lemma_save_then_load(d: Seq<u8>, root: int, q: Seq<u8>, content: Seq<u8>)
    requires
        chain_usable(d, root),
        dir_has(d, root, q),
        node_data_usable(d, resolved_sector(d, root, q)),
        ({
            let ns = resolved_sector(d, root, q);
            let dla = node_data_list(sector_at(d, ns)) as int;
            let e = list_extent(sector_at(d, dla), 0);
            let w = e.block.address as int;
            let n = e.length as int;
            &&& dla != 0
            &&& e.block.address != 0
            &&& e.length != 0
            &&& content.len() == n * (SECTOR_BYTES as int)
            &&& forall|f: int| chain_frag_list(d, root).contains(f) ==> outside_write(f, w, n)
            &&& forall|s: int| chain_nodes(d, root).contains(s) ==> outside_write(s, w, n)
            &&& outside_write(dla, w, n)
        }),
    ensures
        ({
            let ns = resolved_sector(d, root, q);
            let dla = node_data_list(sector_at(d, ns)) as int;
            let e = list_extent(sector_at(d, dla), 0);
            let d2 = splice_bytes(d, e.block.address, content);
            &&& chain_usable(d2, root)
            &&& dir_has(d2, root, q)
            &&& resolved_sector(d2, root, q) == ns
            &&& node_data_usable(d2, ns)
            &&& file_bytes(d2, ns) == content
        }),
{
    let ns = resolved_sector(d, root, q);
    let dla = node_data_list(sector_at(d, ns)) as int;
    let e = list_extent(sector_at(d, dla), 0);
    let w = e.block.address as int;
    let n = e.length as int;
    let d2 = splice_bytes(d, e.block.address, content);
    assert(d2.len() == d.len());

    let fuel = choose|f: nat| chain_wf(d, root, f);
    assert(chain_wf(d, root, fuel));
    lemma_chain_frag_list_is(d, root, fuel);
    lemma_chain_nodes_is(d, root, fuel);
    crate::chain::lemma_chain_frags_in_range(d, root, fuel);

    assert forall|f: int| chain_frags(d, root, fuel).contains(f) implies sector_at(d2, f)
        == sector_at(d, f) by {
        lemma_sector_frame(d, e.block.address, content, n, f);
    }
    lemma_chain_frame(d, d2, root, fuel);
    lemma_chain_nodes_is(d2, root, fuel);
    assert(chain_nodes(d2, root) == chain_nodes(d, root));

    let nodes = chain_nodes(d, root);
    assert forall|j: int| 0 <= j < nodes.len() implies sector_at(d2, #[trigger] nodes[j])
        == sector_at(d, nodes[j]) by {
        assert(nodes.contains(nodes[j]));
        assert(sector_in_range(d, nodes[j]));
        lemma_sector_frame(d, e.block.address, content, n, nodes[j]);
    }
    assert(chain_usable(d2, root)) by {
        assert forall|j: int| 0 <= j < chain_nodes(d2, root).len() implies sector_in_range(
            d2,
            #[trigger] chain_nodes(d2, root)[j],
        ) by {
            assert(sector_in_range(d, nodes[j]));
        }
    }

    assert forall|j: int| 0 <= j < nodes.len() implies #[trigger] entry_matches(d2, root, q, j)
        == entry_matches(d, root, q, j) by {
        assert(sector_at(d2, nodes[j]) == sector_at(d, nodes[j]));
    }

    let jw = choose|j: int|
        0 <= j < chain_nodes(d, root).len() && #[trigger] entry_matches(d, root, q, j);
    crate::fs::lemma_first_match_from(d, root, q, jw);
    let fm = first_match_at(d, root, q);
    assert(is_first_match(d, root, q, fm));
    assert(is_first_match(d2, root, q, fm));
    lemma_first_match_unique(d2, root, q, fm);
    assert(resolved_sector(d2, root, q) == ns);

    assert(nodes.contains(ns));
    assert(sector_at(d2, ns) == sector_at(d, ns));
    assert(node_data_list(sector_at(d2, ns)) as int == dla);
    assert(sector_in_range(d, dla));
    lemma_sector_frame(d, e.block.address, content, n, dla);
    assert(sector_at(d2, dla) == sector_at(d, dla));
    assert(list_extent(sector_at(d2, dla), 0) == e);

    assert(file_bytes(d2, ns) =~= content);
}

} // verus!
