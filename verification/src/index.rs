//! The frozen field index: an immutable inverted index over one payload
//! field, mapping value keys to point identifiers and back, with a mutable
//! deleted-flags buffer as its only runtime state.
//!
//! A `Directory` value stands for the on-disk index directory: each field is
//! one file's byte image, `None` when the file is absent. The surrounding
//! program mirrors these images to real files.

use vstd::prelude::*;
use vstd::slice::slice_to_vec;
use vstd::arithmetic::div_mod::lemma_fundamental_div_mod;
use crate::OperationError;
use crate::bits::{BitBuffer, count_trues, lemma_count_trues_le_len, lemma_count_trues_update, spec_bit};
use crate::codec::{
    blocks_view, decode_forward_file, decode_inverted_file, encode_forward_file,
    encode_inverted_file, entries_view, fwd_view, spec_dec_forward_file, spec_dec_inverted_file,
};
use crate::config::{encode_config, parse_config, spec_parse_config};

verus! {

/// The byte images of the files an index directory holds.
pub struct Directory {
    /// `mmap_field_index_config.json`: the persisted pair total.
    pub config: Option<Vec<u8>>,
    /// `values_to_points.bin`: the value-to-points map.
    pub values_to_points: Option<Vec<u8>>,
    /// `point_to_values.bin`: the forward point-to-values store.
    pub point_to_values: Option<Vec<u8>>,
    /// `deleted.bin`: the raw deleted-flags bit vector.
    pub deleted: Option<Vec<u8>>,
}

impl Directory {
    /// A directory with no files.
    pub fn empty() -> (r: Directory)
        ensures
            r.config is None,
            r.values_to_points is None,
            r.point_to_values is None,
            r.deleted is None,
    {
        Directory { config: None, values_to_points: None, point_to_values: None, deleted: None }
    }
}

/// Total number of (point, value) pairs in a forward map.
pub open spec fn spec_total_pairs(fs: Seq<Seq<Seq<u8>>>) -> nat
    decreases fs.len(),
{
    if fs.len() == 0 {
        0
    } else {
        spec_total_pairs(fs.drop_last()) + fs.last().len()
    }
}

/// A prefix never holds more pairs than the whole map.
pub proof fn lemma_total_pairs_prefix(fs: Seq<Seq<Seq<u8>>>, j: int)
    requires
        0 <= j <= fs.len(),
    ensures
        spec_total_pairs(fs.take(j)) <= spec_total_pairs(fs),
    decreases fs.len() - j,
{
    if j == fs.len() {
        assert(fs.take(j) =~= fs);
    } else {
        lemma_total_pairs_prefix(fs, j + 1);
        assert(fs.take(j + 1).drop_last() =~= fs.take(j));
    }
}

/// First entry whose key is `key`, scanning in storage order.
pub open spec fn spec_find(es: Seq<(Seq<u8>, Seq<u32>)>, key: Seq<u8>) -> Option<Seq<u32>>
    decreases es.len(),
{
    if es.len() == 0 {
        None
    } else if es[0].0 == key {
        Some(es[0].1)
    } else {
        spec_find(es.skip(1), key)
    }
}

/// No two entries share a key.
pub open spec fn keys_distinct(es: Seq<(Seq<u8>, Seq<u32>)>) -> bool {
    forall|i: int, j: int| 0 <= i < j < es.len() ==> (#[trigger] es[i]).0 != (#[trigger] es[j]).0
}

/// Number of deleted-flag bits covering `n` points: `n` rounded up to a
/// multiple of 64, the file's alignment unit.
pub open spec fn spec_deleted_bits(n: nat) -> nat {
    64 * ((n + 63) / 64)
}

/// The frozen index over one field, generic in nothing but holding each
/// value key as its stable byte encoding.
#[derive(Debug)]
pub struct MmapMapIndex {
    /// Inverted entries: value key bytes to the points carrying that value.
    pub value_to_points: Vec<(Vec<u8>, Vec<u32>)>,
    /// Forward store: each point's value keys, indexed by point identifier.
    pub point_to_values: Vec<Vec<Vec<u8>>>,
    /// One flag per point slot; set means the point is removed.
    pub deleted: BitBuffer,
    /// How many flags are currently set.
    pub deleted_count: usize,
    /// Pair total recorded at build time; never decremented.
    pub total_key_value_pairs: usize,
}

impl MmapMapIndex {
    /// The inverted map, as sequences.
    pub open spec fn inverted(&self) -> Seq<(Seq<u8>, Seq<u32>)> {
        entries_view(self.value_to_points@)
    }

    /// The forward map, as sequences.
    pub open spec fn forward(&self) -> Seq<Seq<Seq<u8>>> {
        fwd_view(self.point_to_values@)
    }

    /// Internal consistency: the deleted count mirrors the flags, and the
    /// flag buffer covers every known point slot.
    pub open spec fn wf(&self) -> bool {
        &&& self.deleted.wf()
        &&& self.deleted_count == count_trues(self.deleted@)
        &&& self.deleted@.len() >= self.forward().len()
    }

    /// A point is live when it lies within the known point range and its
    /// flag is clear; anything at or past the known point count — the flag
    /// buffer's padding slots included — reads as deleted, the fail-safe
    /// default.
    pub open spec fn spec_is_live(&self, idx: int) -> bool {
        &&& 0 <= idx < self.forward().len()
        &&& idx < self.deleted@.len()
        &&& !self.deleted@[idx]
    }

    /// What `get_values` yields for a point.
    pub open spec fn spec_get_values(&self, idx: int) -> Option<Seq<Seq<u8>>> {
        if self.spec_is_live(idx) {
            Some(self.forward()[idx])
        } else {
            None
        }
    }

    /// What `get_indexed_points` yields: known points minus deletions,
    /// saturating at zero.
    pub open spec fn spec_indexed_points(&self) -> nat {
        if self.deleted_count <= self.forward().len() {
            (self.forward().len() - self.deleted_count) as nat
        } else {
            0
        }
    }
}

/// All four files are on hand.
pub open spec fn all_present(dir: Directory) -> bool {
    dir.config is Some && dir.values_to_points is Some && dir.point_to_values is Some
        && dir.deleted is Some
}

/// What a directory's files denote, when every file is present and
/// well-formed: the recorded pair total, the inverted entries, the forward
/// map, and the deleted-flags bytes. The flag file must be addressable bit
/// by bit and must cover every known point slot.
pub open spec fn spec_load_parts(dir: Directory) -> Option<
    (int, Seq<(Seq<u8>, Seq<u32>)>, Seq<Seq<Seq<u8>>>, Seq<u8>),
> {
    if all_present(dir) {
        let c = dir.config->Some_0;
        let v = dir.values_to_points->Some_0;
        let p = dir.point_to_values->Some_0;
        let d = dir.deleted->Some_0;
        match spec_parse_config(c@) {
            Some(total) => match spec_dec_inverted_file(v@) {
                Some(es) => match spec_dec_forward_file(p@) {
                    Some(fs) => if 8 * d@.len() <= usize::MAX && 8 * d@.len() >= fs.len() {
                        Some((total, es, fs, d@))
                    } else {
                        None
                    },
                    None => None,
                },
                None => None,
            },
            None => None,
        }
    } else {
        None
    }
}

impl MmapMapIndex {
    /// Opens an index from the files of an existing directory, recomputing
    /// the live deleted count by scanning the flag file. Fails with
    /// `NotFound` when a file is missing and with `Format` when one is
    /// malformed; trusts, as the build wrote it, that the two maps agree.
    pub fn load(dir: &Directory) -> (r: Result<MmapMapIndex, OperationError>)
        ensures
            r is Ok <==> spec_load_parts(*dir) is Some,
            r == Err::<MmapMapIndex, OperationError>(OperationError::NotFound) <==> !all_present(
                *dir,
            ),
            (match r {
                Ok(ix) => {
                    let (total, es, fs, db) = spec_load_parts(*dir)->Some_0;
                    &&& ix.total_key_value_pairs == total
                    &&& ix.inverted() == es
                    &&& ix.forward() == fs
                    &&& ix.deleted.spec_bytes() == db
                    &&& ix.deleted@ == Seq::new(db.len() * 8, |i: int| spec_bit(db, i))
                    &&& ix.deleted_count == count_trues(ix.deleted@)
                    &&& ix.wf()
                },
                Err(_) => true,
            }),
    {
        let c = match &dir.config {
            Some(c) => c,
            None => { return Err(OperationError::NotFound) },
        };
        let v = match &dir.values_to_points {
            Some(v) => v,
            None => { return Err(OperationError::NotFound) },
        };
        let p = match &dir.point_to_values {
            Some(p) => p,
            None => { return Err(OperationError::NotFound) },
        };
        let d = match &dir.deleted {
            Some(d) => d,
            None => { return Err(OperationError::NotFound) },
        };
        let total = match parse_config(c.as_slice()) {
            Some(t) => t,
            None => { return Err(OperationError::Format) },
        };
        let entries = match decode_inverted_file(v.as_slice()) {
            Some(es) => es,
            None => { return Err(OperationError::Format) },
        };
        let fwd = match decode_forward_file(p.as_slice()) {
            Some(fs) => fs,
            None => { return Err(OperationError::Format) },
        };
        if d.len() > usize::MAX / 8 {
            proof {
                lemma_fundamental_div_mod(usize::MAX as int, 8);
            }
            return Err(OperationError::Format);
        }
        proof {
            lemma_fundamental_div_mod(usize::MAX as int, 8);
        }
        let bits = 8 * d.len();
        if bits < fwd.len() {
            return Err(OperationError::Format);
        }
        let deleted = BitBuffer::from_bytes(slice_to_vec(d.as_slice()));
        let deleted_count = deleted.count_ones();
        Ok(
            MmapMapIndex {
                value_to_points: entries,
                point_to_values: fwd,
                deleted,
                deleted_count,
                total_key_value_pairs: total,
            },
        )
    }

    /// Builds the index from scratch in `dir`: persists the config record
    /// with the summed per-point list lengths, writes the inverted map and
    /// the forward store, sizes the deleted-flag file to cover every point
    /// slot — marking exactly the points with no values — and then opens the
    /// result as a fresh load. Both maps must come from the same source
    /// data; each value's entry carries its own key.
    pub fn build(
        dir: &mut Directory,
        point_to_values: Vec<Vec<Vec<u8>>>,
        values_to_points: Vec<(Vec<u8>, Vec<u32>)>,
    ) -> (r: Result<MmapMapIndex, OperationError>)
        requires
            spec_total_pairs(fwd_view(point_to_values@)) <= usize::MAX,
            spec_deleted_bits(point_to_values@.len() as nat) <= usize::MAX,
            keys_distinct(entries_view(values_to_points@)),
        ensures
            r is Ok,
            final(dir).config matches Some(c) && c@ == crate::config::spec_config_bytes(
                spec_total_pairs(fwd_view(point_to_values@)),
            ),
            final(dir).values_to_points matches Some(v) && v@ == crate::codec::spec_inverted_file(
                entries_view(values_to_points@),
            ),
            final(dir).point_to_values matches Some(p) && p@ == crate::codec::spec_forward_file(
                fwd_view(point_to_values@),
            ),
            final(dir).deleted matches Some(d) && 8 * d@.len() == spec_deleted_bits(
                point_to_values@.len() as nat,
            ),
            (match r {
                Ok(ix) => {
                    &&& ix.wf()
                    &&& ix.inverted() == entries_view(values_to_points@)
                    &&& ix.forward() == fwd_view(point_to_values@)
                    &&& ix.total_key_value_pairs == spec_total_pairs(fwd_view(point_to_values@))
                    &&& ix.deleted@.len() == spec_deleted_bits(point_to_values@.len() as nat)
                    &&& forall|j: int|
                        0 <= j < ix.deleted@.len() ==> ix.deleted@[j] == (j
                            < point_to_values@.len() && fwd_view(point_to_values@)[j].len() == 0)
                    &&& ix.deleted.spec_bytes() == final(dir).deleted->Some_0@
                },
                Err(_) => false,
            }),
    {
        let n = point_to_values.len();
        let ghost fv = fwd_view(point_to_values@);
        let mut total: usize = 0;
        let mut i: usize = 0;
        assert(fv.take(0) =~= Seq::<Seq<Seq<u8>>>::empty());
        while i < n
            invariant
                i <= n,
                n == point_to_values@.len(),
                fv == fwd_view(point_to_values@),
                spec_total_pairs(fv) <= usize::MAX,
                total == spec_total_pairs(fv.take(i as int)),
            decreases n - i,
        {
            proof {
                assert(fv.take(i + 1).drop_last() =~= fv.take(i as int));
                assert(fv.take(i + 1).last() == fv[i as int]);
                assert(fv[i as int].len() == point_to_values@[i as int]@.len());
                lemma_total_pairs_prefix(fv, i + 1);
            }
            total += point_to_values[i].len();
            i += 1;
        }
        assert(fv.take(n as int) =~= fv);

        let cfg = encode_config(total);
        let inv_file = encode_inverted_file(&values_to_points);
        let fwd_file = encode_forward_file(&point_to_values);

        let words = if n % 64 == 0 {
            n / 64
        } else {
            proof {
                lemma_fundamental_div_mod(n as int, 64);
            }
            n / 64 + 1
        };
        proof {
            lemma_fundamental_div_mod(n as int, 64);
            assert(64 * words == spec_deleted_bits(n as nat));
            assert(64 * words >= n);
        }
        let nbytes = 8 * words;
        let mut deleted = BitBuffer::zeroed(nbytes);
        proof {
            crate::bits::lemma_count_trues_zero(deleted@);
        }
        let mut deleted_count: usize = 0;
        let mut i2: usize = 0;
        while i2 < n
            invariant
                i2 <= n,
                n == point_to_values@.len(),
                fv == fwd_view(point_to_values@),
                n <= deleted@.len(),
                deleted.wf(),
                deleted@.len() == 64 * words,
                deleted.spec_bytes().len() == nbytes,
                deleted_count == count_trues(deleted@),
                deleted_count <= i2,
                forall|j: int|
                    0 <= j < deleted@.len() ==> deleted@[j] == (j < i2 && fv[j].len() == 0),
            decreases n - i2,
        {
            if point_to_values[i2].len() == 0 {
                proof {
                    lemma_count_trues_update(deleted@, i2 as int);
                }
                deleted.set(i2);
                deleted_count += 1;
            }
            i2 += 1;
        }

        dir.config = Some(cfg);
        dir.values_to_points = Some(inv_file);
        dir.point_to_values = Some(fwd_file);
        dir.deleted = Some(slice_to_vec(deleted.as_bytes().as_slice()));

        proof {
            crate::config::lemma_config_round_trip(total as nat);
            lemma_entries_bounded(&values_to_points);
            crate::codec::lemma_inverted_file_round_trip(entries_view(values_to_points@));
            lemma_fwd_bounded(&point_to_values);
            crate::codec::lemma_forward_file_round_trip(fwd_view(point_to_values@));
        }
        match Self::load(dir) {
            Ok(ix) => {
                proof {
                    assert(ix.deleted@ =~= deleted@);
                }
                Ok(ix)
            },
            Err(e) => {
                proof {
                    assert(false);
                }
                Err(e)
            },
        }
    }
}

/// Byte-wise slice equality.
fn bytes_eq(a: &[u8], b: &[u8]) -> (r: bool)
    ensures
        r == (a@ == b@),
{
    if a.len() != b.len() {
        assert(a@ != b@);
        return false;
    }
    let mut i: usize = 0;
    while i < a.len()
        invariant
            i <= a.len(),
            a@.len() == b@.len(),
            forall|j: int| 0 <= j < i ==> a@[j] == b@[j],
        decreases a.len() - i,
    {
        if a[i] != b[i] {
            return false;
        }
        i += 1;
    }
    assert(a@ =~= b@);
    true
}

/// How `remove_point` changes an index: a live point — one within the known
/// point count whose flag is clear — has its flag set and the count stepped
/// once; anything else, a deleted point or an index at or past the known
/// count, leaves the index untouched. Nothing but the flags and their count
/// ever changes.
pub open spec fn spec_remove_rel(pre: MmapMapIndex, post: MmapMapIndex, idx: u32) -> bool {
    &&& post.value_to_points == pre.value_to_points
    &&& post.point_to_values == pre.point_to_values
    &&& post.total_key_value_pairs == pre.total_key_value_pairs
    &&& if pre.spec_is_live(idx as int) {
        &&& post.deleted@ == pre.deleted@.update(idx as int, true)
        &&& post.deleted_count == pre.deleted_count + 1
        &&& post.deleted.spec_bytes().len() == pre.deleted.spec_bytes().len()
    } else {
        post == pre
    }
}

impl MmapMapIndex {
    /// Finds the entry holding `key`, if any.
    fn find_entry(&self, key: &[u8]) -> (r: Option<usize>)
        ensures
            (match r {
                Some(i) => i < self.inverted().len() && self.inverted()[i as int].0 == key@
                    && spec_find(self.inverted(), key@) == Some(self.inverted()[i as int].1),
                None => spec_find(self.inverted(), key@) is None,
            }),
    {
        let ghost es = self.inverted();
        let mut i: usize = 0;
        assert(es.skip(0) =~= es);
        while i < self.value_to_points.len()
            invariant
                i <= self.value_to_points@.len(),
                es == self.inverted(),
                spec_find(es, key@) == spec_find(es.skip(i as int), key@),
            decreases self.value_to_points@.len() - i,
        {
            proof {
                assert(es.skip(i as int)[0] == es[i as int]);
                assert(es.skip(i as int).skip(1) =~= es.skip(i + 1));
            }
            if bytes_eq(self.value_to_points[i].0.as_slice(), key) {
                return Some(i);
            }
            i += 1;
        }
        assert(es.skip(es.len() as int) =~= Seq::<(Seq<u8>, Seq<u32>)>::empty());
        None
    }

    /// The values of a live point, or nothing when the point is deleted or
    /// out of the known range — never a failure.
    pub fn get_values(&self, idx: u32) -> (r: Option<&Vec<Vec<u8>>>)
        requires
            self.wf(),
        ensures
            (match r {
                Some(v) => self.spec_get_values(idx as int) == Some(blocks_view(v@)),
                None => self.spec_get_values(idx as int) is None,
            }),
    {
        let i = idx as usize;
        if i < self.deleted.len() && !self.deleted.get(i) {
            if i < self.point_to_values.len() {
                Some(&self.point_to_values[i])
            } else {
                None
            }
        } else {
            None
        }
    }

    /// How many values a live point carries; absent when deleted or unknown.
    pub fn values_count(&self, idx: u32) -> (r: Option<usize>)
        requires
            self.wf(),
        ensures
            (match r {
                Some(c) => self.spec_get_values(idx as int) matches Some(vals) && c == vals.len(),
                None => self.spec_get_values(idx as int) is None,
            }),
    {
        let i = idx as usize;
        if i < self.deleted.len() && !self.deleted.get(i) {
            if i < self.point_to_values.len() {
                Some(self.point_to_values[i].len())
            } else {
                None
            }
        } else {
            None
        }
    }

    /// True exactly when the point is live and at least one of its values
    /// satisfies the predicate; stops at the first match.
    pub fn check_values_any<F: Fn(&Vec<u8>) -> bool>(&self, idx: u32, check_fn: F) -> (r: bool)
        requires
            self.wf(),
            forall|v: &Vec<u8>| #[trigger] check_fn.requires((v,)),
        ensures
            r ==> (self.spec_get_values(idx as int) matches Some(vals) && exists|k: int|
                0 <= k < vals.len() && check_fn.ensures(
                    (&self.point_to_values@[idx as int]@[k],),
                    true,
                )),
            !r ==> (self.spec_get_values(idx as int) matches Some(vals) ==> forall|k: int|
                0 <= k < vals.len() ==> check_fn.ensures(
                    (&self.point_to_values@[idx as int]@[k],),
                    false,
                )),
    {
        let i = idx as usize;
        if i < self.deleted.len() && !self.deleted.get(i) && i < self.point_to_values.len() {
            let vals = &self.point_to_values[i];
            let mut k: usize = 0;
            while k < vals.len()
                invariant
                    i == idx as usize,
                    i < self.point_to_values@.len(),
                    self.spec_is_live(i as int),
                    k <= vals@.len(),
                    vals@ == self.point_to_values@[i as int]@,
                    forall|v: &Vec<u8>| #[trigger] check_fn.requires((v,)),
                    forall|j: int|
                        0 <= j < k ==> check_fn.ensures(
                            (&self.point_to_values@[i as int]@[j],),
                            false,
                        ),
                decreases vals@.len() - k,
            {
                if check_fn(&vals[k]) {
                    assert(check_fn.ensures((&self.point_to_values@[i as int]@[k as int],), true));
                    return true;
                }
                k += 1;
            }
            false
        } else {
            false
        }
    }

    /// Live point count: known points minus tracked deletions.
    pub fn get_indexed_points(&self) -> (r: usize)
        ensures
            r == self.spec_indexed_points(),
    {
        let n = self.point_to_values.len();
        if self.deleted_count <= n {
            n - self.deleted_count
        } else {
            0
        }
    }

    /// The pair total recorded at build time; deletions never lower it.
    pub fn get_values_count(&self) -> (r: usize)
        ensures
            r == self.total_key_value_pairs,
    {
        self.total_key_value_pairs
    }

    /// Number of distinct values held; not adjusted for deletions.
    pub fn get_unique_values_count(&self) -> (r: usize)
        ensures
            r == self.inverted().len(),
    {
        self.value_to_points.len()
    }

    /// How many points carry `value`, deleted points included; absent when
    /// the value is unindexed.
    pub fn get_count_for_value(&self, value: &[u8]) -> (r: Option<usize>)
        ensures
            (match r {
                Some(c) => spec_find(self.inverted(), value@) matches Some(ps) && c == ps.len(),
                None => spec_find(self.inverted(), value@) is None,
            }),
    {
        match self.find_entry(value) {
            Some(i) => Some(self.value_to_points[i].1.len()),
            None => None,
        }
    }

    /// The points carrying `value`, deleted points included; empty when the
    /// value is unindexed. Callers filtering for liveness check the deleted
    /// flag themselves.
    pub fn get_iterator(&self, value: &[u8]) -> (r: Vec<u32>)
        ensures
            r@ == (match spec_find(self.inverted(), value@) {
                Some(ps) => ps,
                None => Seq::<u32>::empty(),
            }),
    {
        match self.find_entry(value) {
            Some(i) => slice_to_vec(self.value_to_points[i].1.as_slice()),
            None => Vec::new(),
        }
    }

    /// Every indexed value, in storage order.
    pub fn iter_values(&self) -> (r: Vec<Vec<u8>>)
        ensures
            r@.len() == self.inverted().len(),
            forall|i: int| 0 <= i < r@.len() ==> r@[i]@ == self.inverted()[i].0,
    {
        let mut out: Vec<Vec<u8>> = Vec::new();
        let mut i: usize = 0;
        while i < self.value_to_points.len()
            invariant
                i <= self.value_to_points@.len(),
                out@.len() == i,
                forall|j: int| 0 <= j < i ==> out@[j]@ == self.inverted()[j].0,
            decreases self.value_to_points@.len() - i,
        {
            out.push(slice_to_vec(self.value_to_points[i].0.as_slice()));
            i += 1;
        }
        out
    }

    /// Every indexed value with the size of its point list, in storage
    /// order; counts are not adjusted for deletions.
    pub fn iter_counts_per_value(&self) -> (r: Vec<(Vec<u8>, usize)>)
        ensures
            r@.len() == self.inverted().len(),
            forall|i: int|
                0 <= i < r@.len() ==> (#[trigger] r@[i]).0@ == self.inverted()[i].0 && r@[i].1
                    == self.inverted()[i].1.len(),
    {
        let mut out: Vec<(Vec<u8>, usize)> = Vec::new();
        let mut i: usize = 0;
        while i < self.value_to_points.len()
            invariant
                i <= self.value_to_points@.len(),
                out@.len() == i,
                forall|j: int|
                    0 <= j < i ==> (#[trigger] out@[j]).0@ == self.inverted()[j].0 && out@[j].1
                        == self.inverted()[j].1.len(),
            decreases self.value_to_points@.len() - i,
        {
            let key = slice_to_vec(self.value_to_points[i].0.as_slice());
            let count = self.value_to_points[i].1.len();
            out.push((key, count));
            i += 1;
        }
        out
    }

    /// Every indexed value with its full point list, in storage order.
    pub fn iter_values_map(&self) -> (r: Vec<(Vec<u8>, Vec<u32>)>)
        ensures
            entries_view(r@) == self.inverted(),
    {
        let mut out: Vec<(Vec<u8>, Vec<u32>)> = Vec::new();
        let mut i: usize = 0;
        assert(entries_view(out@) =~= self.inverted().take(0));
        while i < self.value_to_points.len()
            invariant
                i <= self.value_to_points@.len(),
                out@.len() == i,
                entries_view(out@) == self.inverted().take(i as int),
            decreases self.value_to_points@.len() - i,
        {
            let key = slice_to_vec(self.value_to_points[i].0.as_slice());
            let ps = slice_to_vec(self.value_to_points[i].1.as_slice());
            proof {
                assert(entries_view(out@.push((key, ps))) =~= entries_view(out@).push(
                    (key@, ps@),
                ));
                assert(self.inverted().take(i + 1) =~= self.inverted().take(i as int).push(
                    self.inverted()[i as int],
                ));
            }
            out.push((key, ps));
            i += 1;
        }
        assert(self.inverted().take(self.inverted().len() as int) =~= self.inverted());
        out
    }

    /// Marks a point deleted if it is live and within the known point count;
    /// idempotent, counted once per point, and never undone. An index at or
    /// past the known count is a no-op.
    pub fn remove_point(&mut self, idx: u32)
        requires
            old(self).wf(),
        ensures
            final(self).wf(),
            spec_remove_rel(*old(self), *final(self), idx),
    {
        let i = idx as usize;
        if i < self.point_to_values.len() && !self.deleted.get(i) {
            proof {
                lemma_count_trues_update(self.deleted@, i as int);
                lemma_count_trues_le_len(self.deleted@.update(i as int, true));
            }
            self.deleted.set(i);
            self.deleted_count += 1;
        }
    }

    /// The deferred persistence step for the deleted flags — the only
    /// mutable state this engine writes after build: invoking it stores the
    /// flag bytes as they stand into the directory.
    pub fn flusher(&self, dir: &mut Directory)
        ensures
            final(dir).deleted matches Some(d) && d@ == self.deleted.spec_bytes(),
            final(dir).config == old(dir).config,
            final(dir).values_to_points == old(dir).values_to_points,
            final(dir).point_to_values == old(dir).point_to_values,
    {
        dir.deleted = Some(slice_to_vec(self.deleted.as_bytes().as_slice()));
    }

    /// The directory-relative names of every file this index owns; kept in
    /// step with what `build` writes.
    pub fn files(&self) -> (r: Vec<&'static str>)
        ensures
            r@.len() == 4,
            r@[0]@ == "values_to_points.bin"@,
            r@[1]@ == "deleted.bin"@,
            r@[2]@ == "mmap_field_index_config.json"@,
            r@[3]@ == "point_to_values.bin"@,
    {
        let mut out: Vec<&'static str> = Vec::new();
        out.push("values_to_points.bin");
        out.push("deleted.bin");
        out.push("mmap_field_index_config.json");
        out.push("point_to_values.bin");
        out
    }

    /// Drops the index and removes every file it owns from the directory.
    pub fn clear(self, dir: &mut Directory) -> (r: Result<(), OperationError>)
        ensures
            r is Ok,
            final(dir).config is None,
            final(dir).values_to_points is None,
            final(dir).point_to_values is None,
            final(dir).deleted is None,
    {
        dir.config = None;
        dir.values_to_points = None;
        dir.point_to_values = None;
        dir.deleted = None;
        Ok(())
    }
}

/// Entry lists held in vectors always fit their `u64` length prefixes.
pub proof fn lemma_entries_bounded(v: &Vec<(Vec<u8>, Vec<u32>)>)
    ensures
        crate::codec::entries_bounded(entries_view(v@)),
{
    vstd::std_specs::vec::axiom_spec_len(v);
    let es = entries_view(v@);
    assert forall|i: int|
        0 <= i < es.len() implies (#[trigger] es[i]).0.len() <= u64::MAX && es[i].1.len()
        <= u64::MAX by {
        vstd::std_specs::vec::axiom_spec_len(&v@[i].0);
        vstd::std_specs::vec::axiom_spec_len(&v@[i].1);
    }
}

/// Forward maps held in vectors always fit their `u64` length prefixes.
pub proof fn lemma_fwd_bounded(v: &Vec<Vec<Vec<u8>>>)
    ensures
        crate::codec::fwd_bounded(fwd_view(v@)),
{
    vstd::std_specs::vec::axiom_spec_len(v);
    let fs = fwd_view(v@);
    assert forall|i: int|
        0 <= i < fs.len() implies (#[trigger] fs[i]).len() <= u64::MAX && (forall|j: int|
        0 <= j < fs[i].len() ==> (#[trigger] fs[i][j]).len() <= u64::MAX) by {
        vstd::std_specs::vec::axiom_spec_len(&v@[i]);
        assert forall|j: int| 0 <= j < fs[i].len() implies (#[trigger] fs[i][j]).len()
            <= u64::MAX by {
            vstd::std_specs::vec::axiom_spec_len(&v@[i]@[j]);
        }
    }
}

} // verus!
