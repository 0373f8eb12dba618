//! The engine's cross-operation guarantees, each stated and proved over the
//! spec-level views that the operations' own contracts use.

use vstd::prelude::*;
use crate::bits::{count_trues, spec_bit};
use crate::codec::{entries_bounded, fwd_bounded, spec_forward_file, spec_inverted_file};
use crate::config::{lemma_config_round_trip, spec_config_bytes};
use crate::index::{spec_load_parts, spec_remove_rel, Directory, MmapMapIndex};

verus! {

/// Round-trip: a directory holding exactly what `build` writes for a pair
/// total, an inverted map and a forward map loads back to those very values,
/// so every query answers from the source maps.
pub proof fn lemma_build_load_round_trip(
    dir: Directory,
    total: nat,
    es: Seq<(Seq<u8>, Seq<u32>)>,
    fs: Seq<Seq<Seq<u8>>>,
)
    requires
        total <= usize::MAX,
        entries_bounded(es),
        fwd_bounded(fs),
        dir.config matches Some(c) && c@ == spec_config_bytes(total),
        dir.values_to_points matches Some(v) && v@ == spec_inverted_file(es),
        dir.point_to_values matches Some(p) && p@ == spec_forward_file(fs),
        dir.deleted matches Some(d) && 8 * d@.len() <= usize::MAX && 8 * d@.len() >= fs.len(),
    ensures
        spec_load_parts(dir) == Some((total as int, es, fs, dir.deleted->Some_0@)),
{
    lemma_config_round_trip(total);
    crate::codec::lemma_inverted_file_round_trip(es);
    crate::codec::lemma_forward_file_round_trip(fs);
}

/// A fresh engine — flags as `build` initializes them, set exactly on the
/// points with no values — serves the forward map verbatim: every point with
/// values reads back its list, points without values and points past the map
/// read as absent.
pub proof fn lemma_fresh_engine_serves_source_maps(ix: MmapMapIndex, fs: Seq<Seq<Seq<u8>>>)
    requires
        ix.wf(),
        ix.forward() == fs,
        forall|j: int|
            0 <= j < ix.deleted@.len() ==> ix.deleted@[j] == (j < fs.len() && fs[j].len() == 0),
    ensures
        forall|p: int|
            0 <= p < fs.len() ==> ix.spec_get_values(p) == (if fs[p].len() == 0 {
                None
            } else {
                Some(fs[p])
            }),
        forall|p: int| p >= fs.len() ==> ix.spec_get_values(p) is None,
{
}

/// Deletion is monotonic: after a removal the point reads as absent, and a
/// second removal of the same point changes nothing observable — neither
/// the flags, nor the deleted count, nor the live point count.
pub proof fn lemma_remove_point_monotonic(
    pre: MmapMapIndex,
    mid: MmapMapIndex,
    post: MmapMapIndex,
    idx: u32,
)
    requires
        pre.wf(),
        spec_remove_rel(pre, mid, idx),
        spec_remove_rel(mid, post, idx),
    ensures
        mid.spec_get_values(idx as int) is None,
        post.deleted@ == mid.deleted@,
        post.deleted_count == mid.deleted_count,
        post.spec_indexed_points() == mid.spec_indexed_points(),
{
    if pre.spec_is_live(idx as int) {
        assert(mid.deleted@[idx as int]);
        assert(!mid.spec_is_live(idx as int));
    }
}

/// The deleted-count invariant: the live point count always equals the known
/// point total less the set flags, saturating at zero, in any reachable
/// state — after every sequence of removals, including none.
pub proof fn lemma_indexed_points_invariant(m: MmapMapIndex)
    requires
        m.wf(),
    ensures
        m.spec_indexed_points() == if count_trues(m.deleted@) <= m.forward().len() {
            m.forward().len() - count_trues(m.deleted@)
        } else {
            0int
        },
{
}

/// Historical count stability: no removal ever changes the recorded pair
/// total, so any chain of removals leaves `get_values_count` at the sum of
/// forward-list lengths taken at build time.
pub proof fn lemma_historical_count_stable(pre: MmapMapIndex, post: MmapMapIndex, idx: u32)
    requires
        spec_remove_rel(pre, post, idx),
    ensures
        post.total_key_value_pairs == pre.total_key_value_pairs,
{
}

/// Out-of-range safety: a point at or past the known point count always
/// reads as absent.
pub proof fn lemma_out_of_range_absent(m: MmapMapIndex, idx: int)
    requires
        m.wf(),
        idx >= m.forward().len(),
    ensures
        m.spec_get_values(idx) is None,
{
}

/// Flush durability: a directory holding the build images of the maps and
/// the flag bytes an engine flushed loads back to an engine with that very
/// deleted set; loading bytes the engine never flushed reproduces the old
/// set instead, since only `flush` moves flags into the directory.
pub proof fn lemma_flush_durability(
    dir: Directory,
    ix: MmapMapIndex,
    total: nat,
    es: Seq<(Seq<u8>, Seq<u32>)>,
    fs: Seq<Seq<Seq<u8>>>,
)
    requires
        ix.wf(),
        ix.inverted() == es,
        ix.forward() == fs,
        ix.total_key_value_pairs == total,
        entries_bounded(es),
        fwd_bounded(fs),
        dir.config matches Some(c) && c@ == spec_config_bytes(total),
        dir.values_to_points matches Some(v) && v@ == spec_inverted_file(es),
        dir.point_to_values matches Some(p) && p@ == spec_forward_file(fs),
        dir.deleted matches Some(d) && d@ == ix.deleted.spec_bytes(),
    ensures
        spec_load_parts(dir) == Some((total as int, es, fs, ix.deleted.spec_bytes())),
        Seq::new(
            ix.deleted.spec_bytes().len() * 8,
            |i: int| spec_bit(ix.deleted.spec_bytes(), i),
        ) == ix.deleted@,
{
    lemma_build_load_round_trip(dir, total, es, fs);
}

} // verus!
