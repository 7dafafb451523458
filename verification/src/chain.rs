//! Fragment-chain traversal.
//!
//! Both the directory (rooted at the header's root sector list) and every
//! node's data run are described by the same structure: a singly-linked
//! chain of sector-list fragments, each holding up to 30 extents.  The spec
//! functions here say, over the raw device bytes, which sectors such a chain
//! enumerates and when a chain is traversable; the exec walker collects that
//! enumeration and is the single primitive under both lookup and listing.
//!
//! A chain is traversable when it reaches its 0 terminator after finitely
//! many links — the format's invariant that every traversal loop ends on the
//! absent sentinel — and when every sector it names lies on the device (the
//! format's invariant that any nonzero address is a valid sector index).

use vstd::prelude::*;

use crate::SECTOR_BYTES;
use crate::disk::Disk;
use crate::layout::EXTENTS_PER_FRAGMENT;
use crate::layout::Extent;
use crate::layout::decode_sector_list;
use crate::layout::list_extent;
use crate::layout::list_next;

verus! {

/// Whether `a` is a usable sector address on a device of `d.len()` bytes:
/// nonzero (0 is the absent sentinel) and fully on the device.
pub open spec fn sector_in_range(d: Seq<u8>, a: int) -> bool {
    0 < a && (a + 1) * (SECTOR_BYTES as int) <= d.len()
}

/// The 512 bytes of sector `a`.
pub open spec fn sector_at(d: Seq<u8>, a: int) -> Seq<u8> {
    d.subrange(a * (SECTOR_BYTES as int), (a + 1) * (SECTOR_BYTES as int))
}

/// The sector addresses one extent slot enumerates: none when the slot is
/// unused, else `length` consecutive addresses starting at its block.  An
/// unused slot is skipped, never a terminator: later slots still count.
pub open spec fn extent_sectors(e: Extent) -> Seq<int> {
    if e.block.address == 0 {
        Seq::empty()
    } else {
        Seq::new(e.length as nat, |k: int| e.block.address + k)
    }
}

/// The node sectors of fragment `a`, extent slots `i..30`, in slot order.
pub open spec fn fragment_sectors_from(d: Seq<u8>, a: int, i: int) -> Seq<int>
    decreases EXTENTS_PER_FRAGMENT - i
    when 0 <= i <= EXTENTS_PER_FRAGMENT
{
    if i >= EXTENTS_PER_FRAGMENT {
        Seq::empty()
    } else {
        extent_sectors(list_extent(sector_at(d, a), i)) + fragment_sectors_from(d, a, i + 1)
    }
}

/// The node sectors of fragment `a`, extent slots in array order.
pub open spec fn fragment_sectors(d: Seq<u8>, a: int) -> Seq<int> {
    fragment_sectors_from(d, a, 0)
}

/// Whether the chain rooted at `a` reaches its 0 terminator within `fuel`
/// links, every fragment sector lying on the device.
pub open spec fn chain_wf(d: Seq<u8>, a: int, fuel: nat) -> bool
    decreases fuel,
{
    a == 0 || (fuel > 0 && sector_in_range(d, a) && chain_wf(
        d,
        list_next(sector_at(d, a)) as int,
        (fuel - 1) as nat,
    ))
}

/// The node sectors of the whole chain rooted at `a`, within `fuel` links,
/// in on-disk order: chain order, then extent slot order, then ascending
/// inside an extent.
pub open spec fn chain_sectors(d: Seq<u8>, a: int, fuel: nat) -> Seq<int>
    decreases fuel,
{
    if a == 0 || fuel == 0 {
        Seq::empty()
    } else {
        fragment_sectors(d, a) + chain_sectors(d, list_next(sector_at(d, a)) as int, (fuel
            - 1) as nat)
    }
}

/// A chain terminates: some finite number of links reaches the 0 sentinel.
pub open spec fn chain_ok(d: Seq<u8>, a: int) -> bool {
    exists|fuel: nat| chain_wf(d, a, fuel)
}

/// The canonical enumeration of a terminating chain's node sectors.
pub open spec fn chain_nodes(d: Seq<u8>, a: int) -> Seq<int> {
    chain_sectors(d, a, choose|fuel: nat| chain_wf(d, a, fuel))
}

/// Every sector the chain enumerates lies on the device.
pub open spec fn chain_nodes_in_range(d: Seq<u8>, a: int) -> bool {
    forall|j: int|
        0 <= j < chain_nodes(d, a).len() ==> sector_in_range(d, #[trigger] chain_nodes(d, a)[j])
}

/// A chain the engine can traverse: it terminates, and every fragment and
/// enumerated sector lies on the device.  These are the format's own
/// invariants on a sound volume.
pub open spec fn chain_usable(d: Seq<u8>, a: int) -> bool {
    chain_ok(d, a) && chain_nodes_in_range(d, a)
}

/// Fuel beyond what a chain needs does not change its enumeration.
pub proof fn lemma_chain_sectors_fuel(d: Seq<u8>, a: int, f1: nat, f2: nat)
    requires
        chain_wf(d, a, f1),
        chain_wf(d, a, f2),
    ensures
        chain_sectors(d, a, f1) == chain_sectors(d, a, f2),
    decreases f1,
{
    if a == 0 {
        assert(chain_sectors(d, a, f1) =~= chain_sectors(d, a, f2));
    } else {
        lemma_chain_sectors_fuel(
            d,
            list_next(sector_at(d, a)) as int,
            (f1 - 1) as nat,
            (f2 - 1) as nat,
        );
    }
}

/// Any fuel that lets the chain terminate computes its canonical
/// enumeration.
pub proof fn lemma_chain_nodes_is(d: Seq<u8>, a: int, fuel: nat)
    requires
        chain_wf(d, a, fuel),
    ensures
        chain_ok(d, a),
        chain_nodes(d, a) == chain_sectors(d, a, fuel),
{
    assert(chain_ok(d, a));
    let f0 = choose|f: nat| chain_wf(d, a, f);
    lemma_chain_sectors_fuel(d, a, f0, fuel);
}

/// Maps collected sector addresses to their mathematical values.
pub open spec fn as_int_seq(v: Seq<u64>) -> Seq<int> {
    v.map_values(|x: u64| x as int)
}

/// The fragment sectors themselves of the chain rooted at `a`, within
/// `fuel` links, in chain order.
pub open spec fn chain_frags(d: Seq<u8>, a: int, fuel: nat) -> Seq<int>
    decreases fuel,
{
    if a == 0 || fuel == 0 {
        Seq::empty()
    } else {
        seq![a] + chain_frags(d, list_next(sector_at(d, a)) as int, (fuel - 1) as nat)
    }
}

/// The canonical fragment list of a terminating chain.
pub open spec fn chain_frag_list(d: Seq<u8>, a: int) -> Seq<int> {
    chain_frags(d, a, choose|fuel: nat| chain_wf(d, a, fuel))
}

/// Fuel beyond what a chain needs does not change its fragment list.
pub proof fn lemma_chain_frags_fuel(d: Seq<u8>, a: int, f1: nat, f2: nat)
    requires
        chain_wf(d, a, f1),
        chain_wf(d, a, f2),
    ensures
        chain_frags(d, a, f1) == chain_frags(d, a, f2),
    decreases f1,
{
    if a == 0 {
        assert(chain_frags(d, a, f1) =~= chain_frags(d, a, f2));
    } else {
        lemma_chain_frags_fuel(
            d,
            list_next(sector_at(d, a)) as int,
            (f1 - 1) as nat,
            (f2 - 1) as nat,
        );
    }
}

/// Any fuel that lets the chain terminate computes its canonical fragment
/// list.
pub proof fn lemma_chain_frag_list_is(d: Seq<u8>, a: int, fuel: nat)
    requires
        chain_wf(d, a, fuel),
    ensures
        chain_frag_list(d, a) == chain_frags(d, a, fuel),
{
    assert(chain_ok(d, a));
    let f0 = choose|f: nat| chain_wf(d, a, f);
    lemma_chain_frags_fuel(d, a, f0, fuel);
}

/// A fragment's enumeration depends only on that fragment's own sector.
pub proof fn lemma_fragment_sectors_same(d: Seq<u8>, d2: Seq<u8>, a: int, i: int)
    requires
        sector_at(d2, a) == sector_at(d, a),
        0 <= i <= EXTENTS_PER_FRAGMENT,
    ensures
        fragment_sectors_from(d2, a, i) == fragment_sectors_from(d, a, i),
    decreases EXTENTS_PER_FRAGMENT - i,
{
    if i < EXTENTS_PER_FRAGMENT {
        lemma_fragment_sectors_same(d, d2, a, i + 1);
    }
}

/// Position `k` of a chain's fragment list starts the chain's own suffix:
/// the tail from any fragment is itself a terminating chain.
proof fn lemma_chain_suffix(d: Seq<u8>, a: int, fuel: nat, k: int)
    requires
        chain_wf(d, a, fuel),
        0 <= k < chain_frags(d, a, fuel).len(),
    ensures
        fuel >= k,
        chain_wf(d, chain_frags(d, a, fuel)[k], (fuel - k) as nat),
        chain_frags(d, chain_frags(d, a, fuel)[k], (fuel - k) as nat) == chain_frags(
            d,
            a,
            fuel,
        ).skip(k),
    decreases k,
{
    let frags = chain_frags(d, a, fuel);
    if k == 0 {
        assert(frags[0] == a);
        assert(frags.skip(0) =~= frags);
    } else {
        let next = list_next(sector_at(d, a)) as int;
        let rest = chain_frags(d, next, (fuel - 1) as nat);
        lemma_chain_suffix(d, next, (fuel - 1) as nat, k - 1);
        assert(frags[k] == rest[k - 1]);
        assert(rest.skip(k - 1) =~= frags.skip(k));
    }
}

/// A terminating chain passes through each fragment exactly once: were a
/// fragment repeated, the chain's suffix from it would have two different
/// lengths.
pub proof fn lemma_chain_visits_once(d: Seq<u8>, a: int, fuel: nat)
    requires
        chain_wf(d, a, fuel),
    ensures
        chain_frags(d, a, fuel).no_duplicates(),
{
    let frags = chain_frags(d, a, fuel);
    assert forall|i: int, j: int|
        0 <= i < frags.len() && 0 <= j < frags.len() && i != j implies frags[i] != frags[j] by {
        if frags[i] == frags[j] {
            lemma_chain_suffix(d, a, fuel, i);
            lemma_chain_suffix(d, a, fuel, j);
            lemma_chain_frags_fuel(d, frags[i], (fuel - i) as nat, (fuel - j) as nat);
            assert(frags.skip(i).len() == frags.len() - i);
            assert(frags.skip(j).len() == frags.len() - j);
            assert(false);
        }
    }
}

/// Traversal of a terminating chain is finite and repetition-free: its
/// canonical fragment list names each visited fragment exactly once, ending
/// at the fragment whose next link is the 0 sentinel.  (That the exec
/// walker halts is checked directly by its loop's termination measure.)
pub proof fn lemma_traversal_visits_each_fragment_once(d: Seq<u8>, a: int)
    requires
        chain_ok(d, a),
    ensures
        chain_frag_list(d, a).no_duplicates(),
{
    let fuel = choose|f: nat| chain_wf(d, a, f);
    lemma_chain_frag_list_is(d, a, fuel);
    lemma_chain_visits_once(d, a, fuel);
}

/// Every fragment sector of a well-formed chain lies on the device.
pub proof fn lemma_chain_frags_in_range(d: Seq<u8>, a: int, fuel: nat)
    requires
        chain_wf(d, a, fuel),
    ensures
        forall|f: int| chain_frags(d, a, fuel).contains(f) ==> sector_in_range(d, f),
    decreases fuel,
{
    if a != 0 {
        let frags = chain_frags(d, a, fuel);
        let next = list_next(sector_at(d, a)) as int;
        let rest = chain_frags(d, next, (fuel - 1) as nat);
        lemma_chain_frags_in_range(d, next, (fuel - 1) as nat);
        assert forall|f: int| frags.contains(f) implies sector_in_range(d, f) by {
            let k = choose|k: int| 0 <= k < frags.len() && frags[k] == f;
            if k == 0 {
                assert(f == a);
            } else {
                assert(rest[k - 1] == f);
                assert(rest.contains(f));
            }
        }
    }
}

/// The chain model is framed by its fragment sectors: a second device of
/// the same size whose bytes agree on every fragment sector of the chain
/// carries the same chain, enumerating the same sectors.
pub proof fn lemma_chain_frame(d: Seq<u8>, d2: Seq<u8>, a: int, fuel: nat)
    requires
        chain_wf(d, a, fuel),
        d2.len() == d.len(),
        forall|f: int|
            chain_frags(d, a, fuel).contains(f) ==> sector_at(d2, f) == sector_at(d, f),
    ensures
        chain_wf(d2, a, fuel),
        chain_frags(d2, a, fuel) == chain_frags(d, a, fuel),
        chain_sectors(d2, a, fuel) == chain_sectors(d, a, fuel),
    decreases fuel,
{
    if a != 0 {
        let frags = chain_frags(d, a, fuel);
        assert(frags[0] == a);
        assert(frags.contains(a));
        let next = list_next(sector_at(d, a)) as int;
        let rest = chain_frags(d, next, (fuel - 1) as nat);
        assert forall|f: int| rest.contains(f) implies sector_at(d2, f) == sector_at(d, f) by {
            let k = choose|k: int| 0 <= k < rest.len() && rest[k] == f;
            assert(frags[k + 1] == f);
            assert(frags.contains(f));
        }
        lemma_chain_frame(d, d2, next, (fuel - 1) as nat);
        lemma_fragment_sectors_same(d, d2, a, 0);
        assert(chain_frags(d2, a, fuel) =~= chain_frags(d, a, fuel));
        assert(chain_sectors(d2, a, fuel) =~= chain_sectors(d, a, fuel));
    } else {
        assert(chain_frags(d2, a, fuel) =~= chain_frags(d, a, fuel));
        assert(chain_sectors(d2, a, fuel) =~= chain_sectors(d, a, fuel));
    }
}

/// Walks the fragment chain rooted at `root` and collects every node sector
/// it enumerates, in on-disk order.  Each fragment is visited exactly once:
/// the traversal follows `next_fragment` links and stops at the 0 sentinel,
/// skipping unused extent slots without stopping on them.
pub fn collect_chain(disk: &Disk, root: u64) -> (r: Vec<u64>)
    requires
        chain_usable(disk@, root as int),
    ensures
        as_int_seq(r@) == chain_nodes(disk@, root as int),
{
    let ghost d = disk@;
    let device_bytes = disk.size();
    proof {
        let f0 = choose|f: nat| chain_wf(d, root as int, f);
        lemma_chain_nodes_is(d, root as int, f0);
    }
    let ghost fuel0 = choose|f: nat| chain_wf(d, root as int, f);
    let ghost mut fuel = fuel0;
    let mut out: Vec<u64> = Vec::new();
    let mut cur: u64 = root;
    proof {
        assert(chain_nodes(d, root as int) =~= as_int_seq(out@) + chain_sectors(
            d,
            root as int,
            fuel,
        ));
    }
    while cur != 0
        invariant
            disk@ == d,
            d.len() <= usize::MAX,
            chain_usable(d, root as int),
            chain_wf(d, cur as int, fuel),
            chain_nodes(d, root as int) == as_int_seq(out@) + chain_sectors(d, cur as int, fuel),
        decreases fuel,
    {
        let buf = match disk.read(cur, 1) {
            Ok(b) => b,
            Err(_) => {
                proof {
                    assert(false);
                }
                return out;
            },
        };
        proof {
            assert(buf@ =~= sector_at(d, cur as int));
        }
        let frag = decode_sector_list(buf.as_slice());
        let ghost rest = chain_sectors(d, list_next(sector_at(d, cur as int)) as int, (fuel
            - 1) as nat);
        proof {
            assert(chain_sectors(d, cur as int, fuel) == fragment_sectors(d, cur as int) + rest);
            assert(chain_nodes(d, root as int) =~= as_int_seq(out@) + fragment_sectors_from(
                d,
                cur as int,
                0,
            ) + rest);
        }
        let mut i: usize = 0;
        while i < EXTENTS_PER_FRAGMENT
            invariant
                disk@ == d,
                d.len() <= usize::MAX,
                chain_usable(d, root as int),
                cur != 0,
                0 <= i <= EXTENTS_PER_FRAGMENT,
                frag.wf(),
                frag.decodes(sector_at(d, cur as int)),
                chain_nodes(d, root as int) == as_int_seq(out@) + fragment_sectors_from(
                    d,
                    cur as int,
                    i as int,
                ) + rest,
            decreases EXTENTS_PER_FRAGMENT - i,
        {
            let e = frag.extents[i];
            proof {
                assert(e == list_extent(sector_at(d, cur as int), i as int));
                assert(fragment_sectors_from(d, cur as int, i as int) == extent_sectors(e)
                    + fragment_sectors_from(d, cur as int, i as int + 1));
            }
            if e.block.address > 0 {
                let mut k: u64 = 0;
                proof {
                    assert(extent_sectors(e) =~= Seq::new(
                        (e.length - k) as nat,
                        |j: int| e.block.address + k + j,
                    ));
                }
                while k < e.length
                    invariant
                        disk@ == d,
                        d.len() <= usize::MAX,
                        chain_usable(d, root as int),
                        e.block.address > 0,
                        0 <= k <= e.length,
                        chain_nodes(d, root as int) == as_int_seq(out@) + Seq::new(
                            (e.length - k) as nat,
                            |j: int| e.block.address + k + j,
                        ) + fragment_sectors_from(d, cur as int, i as int + 1) + rest,
                    decreases e.length - k,
                {
                    proof {
                        let idx = as_int_seq(out@).len() as int;
                        assert(chain_nodes(d, root as int)[idx] == e.block.address + k);
                        assert(sector_in_range(d, e.block.address + k));
                    }
                    let s64: u64 = e.block.address + k;
                    out.push(s64);
                    k = k + 1;
                    proof {
                        assert(chain_nodes(d, root as int) =~= as_int_seq(out@) + Seq::new(
                            (e.length - k) as nat,
                            |j: int| e.block.address + k + j,
                        ) + fragment_sectors_from(d, cur as int, i as int + 1) + rest);
                    }
                }
                proof {
                    assert(chain_nodes(d, root as int) =~= as_int_seq(out@)
                        + fragment_sectors_from(d, cur as int, i as int + 1) + rest);
                }
            } else {
                proof {
                    assert(extent_sectors(e) =~= Seq::<int>::empty());
                    assert(chain_nodes(d, root as int) =~= as_int_seq(out@)
                        + fragment_sectors_from(d, cur as int, i as int + 1) + rest);
                }
            }
            i += 1;
        }
        proof {
            assert(fragment_sectors_from(d, cur as int, EXTENTS_PER_FRAGMENT as int)
                =~= Seq::<int>::empty());
            assert(chain_nodes(d, root as int) =~= as_int_seq(out@) + rest);
        }
        cur = frag.next_fragment.address;
        proof {
            fuel = (fuel - 1) as nat;
        }
    }
    proof {
        assert(chain_sectors(d, cur as int, fuel) =~= Seq::<int>::empty());
        assert(as_int_seq(out@) =~= chain_nodes(d, root as int));
    }
    out
}

} // verus!
