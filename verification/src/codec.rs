//! Binary codecs for the on-disk index files: little-endian integers,
//! length-prefixed byte blocks, and the lists built from them.

use vstd::prelude::*;
use vstd::bytes::{
    spec_u32_to_le_bytes, spec_u32_from_le_bytes, lemma_auto_spec_u32_to_from_le_bytes,
    spec_u64_to_le_bytes, spec_u64_from_le_bytes, lemma_auto_spec_u64_to_from_le_bytes,
    u32_from_le_bytes, u32_to_le_bytes, u64_from_le_bytes, u64_to_le_bytes,
};
use vstd::slice::{slice_subrange, slice_to_vec};

verus! {

/// Appends the eight little-endian bytes of `v` to `out`.
pub fn write_u64(out: &mut Vec<u8>, v: u64)
    ensures
        final(out)@ == old(out)@ + spec_u64_to_le_bytes(v),
{
    let bytes = u64_to_le_bytes(v);
    let mut i: usize = 0;
    while i < bytes.len()
        invariant
            i <= bytes.len(),
            bytes@ == spec_u64_to_le_bytes(v),
            out@ == old(out)@ + bytes@.take(i as int),
        decreases bytes.len() - i,
    {
        out.push(bytes[i]);
        assert(bytes@.take(i + 1) == bytes@.take(i as int).push(bytes@[i as int]));
        i += 1;
    }
    assert(bytes@.take(bytes@.len() as int) == bytes@);
}

/// Reads a little-endian `u64` at `pos`; `None` when fewer than eight bytes remain.
pub fn read_u64(s: &[u8], pos: usize) -> (r: Option<(u64, usize)>)
    ensures
        (match r {
            Some((v, p)) => spec_read_u64(s@, pos as int) == Some((v, p as int)),
            None => spec_read_u64(s@, pos as int) is None,
        }),
{
    if pos <= s.len() && s.len() - pos >= 8 {
        let v = u64_from_le_bytes(slice_subrange(s, pos, pos + 8));
        Some((v, pos + 8))
    } else {
        None
    }
}

/// What `read_u64` yields: the value and the position just past it.
pub open spec fn spec_read_u64(s: Seq<u8>, pos: int) -> Option<(u64, int)> {
    if 0 <= pos && pos + 8 <= s.len() {
        Some((spec_u64_from_le_bytes(s.subrange(pos, pos + 8)), pos + 8))
    } else {
        None
    }
}

/// Reading back an encoded `u64` embedded in a larger buffer recovers it.
pub proof fn lemma_read_write_u64(s: Seq<u8>, pos: int, v: u64)
    requires
        0 <= pos,
        pos + 8 <= s.len(),
        s.subrange(pos, pos + 8) == spec_u64_to_le_bytes(v),
    ensures
        spec_read_u64(s, pos) == Some((v, pos + 8)),
{
    lemma_auto_spec_u64_to_from_le_bytes();
}

/// Splitting a subrange known to equal a concatenation into its two halves.
pub proof fn lemma_subrange_split(s: Seq<u8>, pos: int, a: Seq<u8>, b: Seq<u8>)
    requires
        0 <= pos,
        pos + a.len() + b.len() <= s.len(),
        s.subrange(pos, pos + a.len() + b.len()) == a + b,
    ensures
        s.subrange(pos, pos + a.len()) == a,
        s.subrange(pos + a.len(), pos + a.len() + b.len()) == b,
{
    let ab = s.subrange(pos, pos + a.len() + b.len());
    assert forall|i: int| 0 <= i < a.len() implies s.subrange(pos, pos + a.len())[i] == a[i] by {
        assert(ab[i] == (a + b)[i]);
    }
    assert(s.subrange(pos, pos + a.len()) =~= a);
    assert forall|i: int| 0 <= i < b.len() implies s.subrange(
        pos + a.len(),
        pos + a.len() + b.len(),
    )[i] == b[i] by {
        assert(ab[a.len() + i] == (a + b)[a.len() + i]);
    }
    assert(s.subrange(pos + a.len(), pos + a.len() + b.len()) =~= b);
}

/// Appends the four little-endian bytes of `v` to `out`.
pub fn write_u32(out: &mut Vec<u8>, v: u32)
    ensures
        final(out)@ == old(out)@ + spec_u32_to_le_bytes(v),
{
    let bytes = u32_to_le_bytes(v);
    let mut i: usize = 0;
    while i < bytes.len()
        invariant
            i <= bytes.len(),
            bytes@ == spec_u32_to_le_bytes(v),
            out@ == old(out)@ + bytes@.take(i as int),
        decreases bytes.len() - i,
    {
        out.push(bytes[i]);
        assert(bytes@.take(i + 1) == bytes@.take(i as int).push(bytes@[i as int]));
        i += 1;
    }
    assert(bytes@.take(bytes@.len() as int) == bytes@);
}

/// Encoding of a point list: four little-endian bytes per point, in order.
pub open spec fn spec_enc_points(ps: Seq<u32>) -> Seq<u8>
    decreases ps.len(),
{
    if ps.len() == 0 {
        Seq::empty()
    } else {
        spec_enc_points(ps.drop_last()) + spec_u32_to_le_bytes(ps.last())
    }
}

pub proof fn lemma_enc_points_len(ps: Seq<u32>)
    ensures
        spec_enc_points(ps).len() == 4 * ps.len(),
    decreases ps.len(),
{
    vstd::bytes::lemma_auto_spec_u32_to_from_le_bytes();
    if ps.len() > 0 {
        lemma_enc_points_len(ps.drop_last());
    }
}

/// Appends the encoding of `ps` to `out`.
pub fn write_points(out: &mut Vec<u8>, ps: &[u32])
    ensures
        final(out)@ == old(out)@ + spec_enc_points(ps@),
{
    let mut i: usize = 0;
    while i < ps.len()
        invariant
            i <= ps.len(),
            out@ == old(out)@ + spec_enc_points(ps@.take(i as int)),
        decreases ps.len() - i,
    {
        let ghost pre = out@;
        write_u32(out, ps[i]);
        proof {
            assert(ps@.take(i + 1).drop_last() == ps@.take(i as int));
            assert(ps@.take(i + 1).last() == ps@[i as int]);
            assert(out@ =~= old(out)@ + spec_enc_points(ps@.take(i + 1)));
        }
        i += 1;
    }
    assert(ps@.take(ps@.len() as int) == ps@);
}

/// What decoding `count` points at `pos` yields.
pub open spec fn spec_dec_points(s: Seq<u8>, pos: int, count: nat) -> Option<(Seq<u32>, int)>
    decreases count,
{
    if count == 0 {
        if 0 <= pos && pos <= s.len() {
            Some((Seq::empty(), pos))
        } else {
            None
        }
    } else {
        match spec_dec_points(s, pos, (count - 1) as nat) {
            Some((init, p)) => if p + 4 <= s.len() {
                Some((init.push(spec_u32_from_le_bytes(s.subrange(p, p + 4))), p + 4))
            } else {
                None
            },
            None => None,
        }
    }
}

/// A decode that has already failed on a prefix count stays failed.
pub proof fn lemma_dec_points_none(s: Seq<u8>, pos: int, j: nat, count: nat)
    requires
        j <= count,
        spec_dec_points(s, pos, j) is None,
    ensures
        spec_dec_points(s, pos, count) is None,
    decreases count,
{
    if count > j {
        lemma_dec_points_none(s, pos, j, (count - 1) as nat);
    }
}

/// A successful point decode consumes exactly four bytes per point.
pub proof fn lemma_dec_points_pos(s: Seq<u8>, pos: int, count: nat)
    requires
        spec_dec_points(s, pos, count) is Some,
    ensures
        ({
            let (v, p) = spec_dec_points(s, pos, count)->Some_0;
            v.len() == count && p == pos + 4 * count && 0 <= pos && p <= s.len()
        }),
    decreases count,
{
    if count > 0 {
        lemma_dec_points_pos(s, pos, (count - 1) as nat);
    }
}

/// Decodes `count` points at `pos`, mirroring `spec_dec_points`.
pub fn read_points(s: &[u8], pos: usize, count: usize) -> (r: Option<(Vec<u32>, usize)>)
    ensures
        (match r {
            Some((v, p)) => spec_dec_points(s@, pos as int, count as nat) == Some((v@, p as int)),
            None => spec_dec_points(s@, pos as int, count as nat) is None,
        }),
{
    if pos > s.len() {
        proof {
            lemma_dec_points_none(s@, pos as int, 0, count as nat);
        }
        return None;
    }
    let mut v: Vec<u32> = Vec::new();
    let mut p: usize = pos;
    let mut i: usize = 0;
    while i < count
        invariant
            i <= count,
            pos <= s@.len(),
            spec_dec_points(s@, pos as int, i as nat) == Some((v@, p as int)),
            p <= s@.len(),
        decreases count - i,
    {
        if s.len() - p < 4 {
            proof {
                lemma_dec_points_none(s@, pos as int, (i + 1) as nat, count as nat);
            }
            return None;
        }
        let x = u32_from_le_bytes(slice_subrange(s, p, p + 4));
        v.push(x);
        p += 4;
        i += 1;
    }
    Some((v, p))
}

/// Encoding of a byte block: the length as a little-endian `u64`, then the bytes.
pub open spec fn spec_enc_block(b: Seq<u8>) -> Seq<u8> {
    spec_u64_to_le_bytes(b.len() as u64) + b
}

/// What decoding one length-prefixed byte block at `pos` yields.
pub open spec fn spec_dec_block(s: Seq<u8>, pos: int) -> Option<(Seq<u8>, int)> {
    match spec_read_u64(s, pos) {
        Some((n, p)) => if p + n <= s.len() {
            Some((s.subrange(p, p + n), p + n))
        } else {
            None
        },
        None => None,
    }
}

/// Appends the encoding of the block `b` to `out`.
pub fn write_block(out: &mut Vec<u8>, b: &[u8])
    ensures
        final(out)@ == old(out)@ + spec_enc_block(b@),
{
    let ghost start = out@;
    write_u64(out, b.len() as u64);
    let mut i: usize = 0;
    while i < b.len()
        invariant
            i <= b.len(),
            out@ == start + spec_u64_to_le_bytes(b@.len() as u64) + b@.take(i as int),
        decreases b.len() - i,
    {
        out.push(b[i]);
        assert(b@.take(i + 1) == b@.take(i as int).push(b@[i as int]));
        i += 1;
    }
    assert(b@.take(b@.len() as int) == b@);
    assert(out@ =~= start + spec_enc_block(b@));
}

/// Decodes one length-prefixed byte block at `pos`, mirroring `spec_dec_block`.
pub fn read_block(s: &[u8], pos: usize) -> (r: Option<(Vec<u8>, usize)>)
    ensures
        (match r {
            Some((v, p)) => spec_dec_block(s@, pos as int) == Some((v@, p as int)),
            None => spec_dec_block(s@, pos as int) is None,
        }),
{
    match read_u64(s, pos) {
        None => None,
        Some((n, p)) => {
            if n > (s.len() - p) as u64 {
                None
            } else {
                let nn = n as usize;
                let v = slice_to_vec(slice_subrange(s, p, p + nn));
                Some((v, p + nn))
            }
        },
    }
}

/// Decoding an encoded block embedded in a larger buffer recovers it.
pub proof fn lemma_dec_enc_block(s: Seq<u8>, pos: int, b: Seq<u8>)
    requires
        0 <= pos,
        b.len() <= u64::MAX,
        pos + spec_enc_block(b).len() <= s.len(),
        s.subrange(pos, pos + spec_enc_block(b).len()) == spec_enc_block(b),
    ensures
        spec_dec_block(s, pos) == Some((b, pos + spec_enc_block(b).len())),
{
    lemma_auto_spec_u64_to_from_le_bytes();
    let lenb = spec_u64_to_le_bytes(b.len() as u64);
    lemma_subrange_split(s, pos, lenb, b);
    lemma_read_write_u64(s, pos, b.len() as u64);
}

/// Encoding of a list of byte blocks, in order.
pub open spec fn spec_enc_blocks(bs: Seq<Seq<u8>>) -> Seq<u8>
    decreases bs.len(),
{
    if bs.len() == 0 {
        Seq::empty()
    } else {
        spec_enc_blocks(bs.drop_last()) + spec_enc_block(bs.last())
    }
}

/// What decoding `count` blocks at `pos` yields.
pub open spec fn spec_dec_blocks(s: Seq<u8>, pos: int, count: nat) -> Option<(Seq<Seq<u8>>, int)>
    decreases count,
{
    if count == 0 {
        if 0 <= pos && pos <= s.len() {
            Some((Seq::empty(), pos))
        } else {
            None
        }
    } else {
        match spec_dec_blocks(s, pos, (count - 1) as nat) {
            Some((init, p)) => match spec_dec_block(s, p) {
                Some((b, p2)) => Some((init.push(b), p2)),
                None => None,
            },
            None => None,
        }
    }
}

pub proof fn lemma_dec_blocks_none(s: Seq<u8>, pos: int, j: nat, count: nat)
    requires
        j <= count,
        spec_dec_blocks(s, pos, j) is None,
    ensures
        spec_dec_blocks(s, pos, count) is None,
    decreases count,
{
    if count > j {
        lemma_dec_blocks_none(s, pos, j, (count - 1) as nat);
    }
}

/// A successful block-list decode consumes at least eight bytes per block.
pub proof fn lemma_dec_blocks_pos(s: Seq<u8>, pos: int, count: nat)
    requires
        spec_dec_blocks(s, pos, count) is Some,
    ensures
        ({
            let (v, p) = spec_dec_blocks(s, pos, count)->Some_0;
            v.len() == count && pos + 8 * count <= p <= s.len() && 0 <= pos
        }),
    decreases count,
{
    if count > 0 {
        lemma_dec_blocks_pos(s, pos, (count - 1) as nat);
    }
}

/// The views of a list of byte vectors.
pub open spec fn blocks_view(v: Seq<Vec<u8>>) -> Seq<Seq<u8>> {
    v.map_values(|b: Vec<u8>| b@)
}

/// Decodes `count` blocks at `pos`, mirroring `spec_dec_blocks`.
pub fn read_blocks(s: &[u8], pos: usize, count: usize) -> (r: Option<(Vec<Vec<u8>>, usize)>)
    ensures
        (match r {
            Some((v, p)) => spec_dec_blocks(s@, pos as int, count as nat) == Some(
                (blocks_view(v@), p as int),
            ),
            None => spec_dec_blocks(s@, pos as int, count as nat) is None,
        }),
{
    if pos > s.len() {
        proof {
            lemma_dec_blocks_none(s@, pos as int, 0, count as nat);
        }
        return None;
    }
    let mut v: Vec<Vec<u8>> = Vec::new();
    let mut p: usize = pos;
    let mut i: usize = 0;
    assert(blocks_view(v@) =~= Seq::<Seq<u8>>::empty());
    while i < count
        invariant
            i <= count,
            spec_dec_blocks(s@, pos as int, i as nat) == Some((blocks_view(v@), p as int)),
            p <= s@.len(),
        decreases count - i,
    {
        match read_block(s, p) {
            None => {
                proof {
                    lemma_dec_blocks_none(s@, pos as int, (i + 1) as nat, count as nat);
                }
                return None;
            },
            Some((b, p2)) => {
                proof {
                    assert(blocks_view(v@.push(b)) =~= blocks_view(v@).push(b@));
                }
                v.push(b);
                p = p2;
            },
        }
        i += 1;
    }
    Some((v, p))
}

/// Appends the encoding of the blocks `bs` to `out`.
pub fn write_blocks(out: &mut Vec<u8>, bs: &Vec<Vec<u8>>)
    ensures
        final(out)@ == old(out)@ + spec_enc_blocks(blocks_view(bs@)),
{
    let mut i: usize = 0;
    assert(blocks_view(bs@.take(0)) =~= Seq::<Seq<u8>>::empty());
    while i < bs.len()
        invariant
            i <= bs.len(),
            out@ == old(out)@ + spec_enc_blocks(blocks_view(bs@.take(i as int))),
        decreases bs.len() - i,
    {
        write_block(out, bs[i].as_slice());
        proof {
            let bv = blocks_view(bs@.take(i + 1));
            assert(bv.drop_last() =~= blocks_view(bs@.take(i as int)));
            assert(bv.last() == bs@[i as int]@);
            assert(out@ =~= old(out)@ + spec_enc_blocks(bv));
        }
        i += 1;
    }
    assert(blocks_view(bs@.take(bs@.len() as int)) =~= blocks_view(bs@));
}

/// Decoding an encoded block list embedded in a larger buffer recovers it.
pub proof fn lemma_dec_enc_blocks(s: Seq<u8>, pos: int, bs: Seq<Seq<u8>>)
    requires
        0 <= pos,
        forall|i: int| 0 <= i < bs.len() ==> #[trigger] bs[i].len() <= u64::MAX,
        pos + spec_enc_blocks(bs).len() <= s.len(),
        s.subrange(pos, pos + spec_enc_blocks(bs).len()) == spec_enc_blocks(bs),
    ensures
        spec_dec_blocks(s, pos, bs.len() as nat) == Some((bs, pos + spec_enc_blocks(bs).len())),
    decreases bs.len(),
{
    if bs.len() == 0 {
    } else {
        let init = bs.drop_last();
        let last = bs.last();
        lemma_subrange_split(s, pos, spec_enc_blocks(init), spec_enc_block(last));
        assert(forall|i: int| 0 <= i < init.len() ==> #[trigger] init[i].len() <= u64::MAX);
        lemma_dec_enc_blocks(s, pos, init);
        let p = pos + spec_enc_blocks(init).len();
        lemma_dec_enc_block(s, p, last);
        assert(init.push(last) =~= bs);
    }
}

/// Decoding an encoded point list embedded in a larger buffer recovers it.
pub proof fn lemma_dec_enc_points(s: Seq<u8>, pos: int, ps: Seq<u32>)
    requires
        0 <= pos,
        pos + 4 * ps.len() <= s.len(),
        s.subrange(pos, pos + 4 * ps.len()) == spec_enc_points(ps),
    ensures
        spec_dec_points(s, pos, ps.len() as nat) == Some((ps, pos + 4 * ps.len())),
    decreases ps.len(),
{
    lemma_auto_spec_u32_to_from_le_bytes();
    lemma_enc_points_len(ps);
    if ps.len() == 0 {
    } else {
        let init = ps.drop_last();
        lemma_enc_points_len(init);
        lemma_subrange_split(s, pos, spec_enc_points(init), spec_u32_to_le_bytes(ps.last()));
        lemma_dec_enc_points(s, pos, init);
        let p = pos + 4 * init.len();
        assert(s.subrange(p, p + 4) == spec_u32_to_le_bytes(ps.last()));
        assert(init.push(ps.last()) =~= ps);
    }
}

/// Encoding of one inverted entry: the key block, then the point count, then the points.
pub open spec fn spec_enc_entry(e: (Seq<u8>, Seq<u32>)) -> Seq<u8> {
    spec_enc_block(e.0) + spec_u64_to_le_bytes(e.1.len() as u64) + spec_enc_points(e.1)
}

/// What decoding one inverted entry at `pos` yields.
pub open spec fn spec_dec_entry(s: Seq<u8>, pos: int) -> Option<((Seq<u8>, Seq<u32>), int)> {
    match spec_dec_block(s, pos) {
        Some((key, p1)) => match spec_read_u64(s, p1) {
            Some((n, p2)) => match spec_dec_points(s, p2, n as nat) {
                Some((ps, p3)) => Some(((key, ps), p3)),
                None => None,
            },
            None => None,
        },
        None => None,
    }
}

/// Appends the encoding of the entry `(key, ps)` to `out`.
pub fn write_entry(out: &mut Vec<u8>, key: &Vec<u8>, ps: &Vec<u32>)
    ensures
        final(out)@ == old(out)@ + spec_enc_entry((key@, ps@)),
{
    write_block(out, key.as_slice());
    write_u64(out, ps.len() as u64);
    write_points(out, ps.as_slice());
    assert(out@ =~= old(out)@ + spec_enc_entry((key@, ps@)));
}

/// Decodes one inverted entry at `pos`, mirroring `spec_dec_entry`.
pub fn read_entry(s: &[u8], pos: usize) -> (r: Option<(Vec<u8>, Vec<u32>, usize)>)
    ensures
        (match r {
            Some((key, ps, p)) => spec_dec_entry(s@, pos as int) == Some(((key@, ps@), p as int)),
            None => spec_dec_entry(s@, pos as int) is None,
        }),
{
    match read_block(s, pos) {
        None => None,
        Some((key, p1)) => match read_u64(s, p1) {
            None => None,
            Some((n, p2)) => {
                if n > s.len() as u64 {
                    proof {
                        if spec_dec_points(s@, p2 as int, n as nat) is Some {
                            lemma_dec_points_pos(s@, p2 as int, n as nat);
                        }
                    }
                    None
                } else {
                    match read_points(s, p2, n as usize) {
                        None => None,
                        Some((ps, p3)) => Some((key, ps, p3)),
                    }
                }
            },
        },
    }
}

/// Decoding an encoded entry embedded in a larger buffer recovers it.
pub proof fn lemma_dec_enc_entry(s: Seq<u8>, pos: int, e: (Seq<u8>, Seq<u32>))
    requires
        0 <= pos,
        e.0.len() <= u64::MAX,
        e.1.len() <= u64::MAX,
        pos + spec_enc_entry(e).len() <= s.len(),
        s.subrange(pos, pos + spec_enc_entry(e).len()) == spec_enc_entry(e),
    ensures
        spec_dec_entry(s, pos) == Some((e, pos + spec_enc_entry(e).len())),
{
    lemma_auto_spec_u64_to_from_le_bytes();
    lemma_enc_points_len(e.1);
    let a = spec_enc_block(e.0);
    let b = spec_u64_to_le_bytes(e.1.len() as u64);
    let c = spec_enc_points(e.1);
    assert(spec_enc_entry(e) =~= a + (b + c));
    lemma_subrange_split(s, pos, a, b + c);
    lemma_subrange_split(s, pos + a.len(), b, c);
    lemma_dec_enc_block(s, pos, e.0);
    lemma_read_write_u64(s, pos + a.len(), e.1.len() as u64);
    lemma_dec_enc_points(s, pos + a.len() + b.len(), e.1);
}

/// Encoding of a list of inverted entries, in order.
pub open spec fn spec_enc_entries(es: Seq<(Seq<u8>, Seq<u32>)>) -> Seq<u8>
    decreases es.len(),
{
    if es.len() == 0 {
        Seq::empty()
    } else {
        spec_enc_entries(es.drop_last()) + spec_enc_entry(es.last())
    }
}

/// What decoding `count` inverted entries at `pos` yields.
pub open spec fn spec_dec_entries(s: Seq<u8>, pos: int, count: nat) -> Option<
    (Seq<(Seq<u8>, Seq<u32>)>, int),
>
    decreases count,
{
    if count == 0 {
        if 0 <= pos && pos <= s.len() {
            Some((Seq::empty(), pos))
        } else {
            None
        }
    } else {
        match spec_dec_entries(s, pos, (count - 1) as nat) {
            Some((init, p)) => match spec_dec_entry(s, p) {
                Some((e, p2)) => Some((init.push(e), p2)),
                None => None,
            },
            None => None,
        }
    }
}

pub proof fn lemma_dec_entries_none(s: Seq<u8>, pos: int, j: nat, count: nat)
    requires
        j <= count,
        spec_dec_entries(s, pos, j) is None,
    ensures
        spec_dec_entries(s, pos, count) is None,
    decreases count,
{
    if count > j {
        lemma_dec_entries_none(s, pos, j, (count - 1) as nat);
    }
}

/// A successful entry-list decode consumes at least sixteen bytes per entry.
pub proof fn lemma_dec_entries_pos(s: Seq<u8>, pos: int, count: nat)
    requires
        spec_dec_entries(s, pos, count) is Some,
    ensures
        ({
            let (v, p) = spec_dec_entries(s, pos, count)->Some_0;
            v.len() == count && pos + 16 * count <= p <= s.len() && 0 <= pos
        }),
    decreases count,
{
    if count > 0 {
        lemma_dec_entries_pos(s, pos, (count - 1) as nat);
        let (init, p) = spec_dec_entries(s, pos, (count - 1) as nat)->Some_0;
        if spec_dec_points(
            s,
            spec_read_u64(s, spec_dec_block(s, p)->Some_0.1)->Some_0.1,
            spec_read_u64(s, spec_dec_block(s, p)->Some_0.1)->Some_0.0 as nat,
        ) is Some {
            lemma_dec_points_pos(
                s,
                spec_read_u64(s, spec_dec_block(s, p)->Some_0.1)->Some_0.1,
                spec_read_u64(s, spec_dec_block(s, p)->Some_0.1)->Some_0.0 as nat,
            );
        }
    }
}

/// The views of a list of inverted entries.
pub open spec fn entries_view(v: Seq<(Vec<u8>, Vec<u32>)>) -> Seq<(Seq<u8>, Seq<u32>)> {
    v.map_values(|e: (Vec<u8>, Vec<u32>)| (e.0@, e.1@))
}

/// Decodes `count` inverted entries at `pos`, mirroring `spec_dec_entries`.
pub fn read_entries(s: &[u8], pos: usize, count: usize) -> (r: Option<
    (Vec<(Vec<u8>, Vec<u32>)>, usize),
>)
    ensures
        (match r {
            Some((v, p)) => spec_dec_entries(s@, pos as int, count as nat) == Some(
                (entries_view(v@), p as int),
            ),
            None => spec_dec_entries(s@, pos as int, count as nat) is None,
        }),
{
    if pos > s.len() {
        proof {
            lemma_dec_entries_none(s@, pos as int, 0, count as nat);
        }
        return None;
    }
    let mut v: Vec<(Vec<u8>, Vec<u32>)> = Vec::new();
    let mut p: usize = pos;
    let mut i: usize = 0;
    assert(entries_view(v@) =~= Seq::<(Seq<u8>, Seq<u32>)>::empty());
    while i < count
        invariant
            i <= count,
            spec_dec_entries(s@, pos as int, i as nat) == Some((entries_view(v@), p as int)),
        decreases count - i,
    {
        match read_entry(s, p) {
            None => {
                proof {
                    lemma_dec_entries_none(s@, pos as int, (i + 1) as nat, count as nat);
                }
                return None;
            },
            Some((key, ps, p2)) => {
                proof {
                    assert(entries_view(v@.push((key, ps))) =~= entries_view(v@).push(
                        (key@, ps@),
                    ));
                }
                v.push((key, ps));
                p = p2;
            },
        }
        i += 1;
    }
    Some((v, p))
}

/// Appends the encoding of the entries `es` to `out`.
pub fn write_entries(out: &mut Vec<u8>, es: &Vec<(Vec<u8>, Vec<u32>)>)
    ensures
        final(out)@ == old(out)@ + spec_enc_entries(entries_view(es@)),
{
    let mut i: usize = 0;
    assert(entries_view(es@.take(0)) =~= Seq::<(Seq<u8>, Seq<u32>)>::empty());
    while i < es.len()
        invariant
            i <= es.len(),
            out@ == old(out)@ + spec_enc_entries(entries_view(es@.take(i as int))),
        decreases es.len() - i,
    {
        write_entry(out, &es[i].0, &es[i].1);
        proof {
            let ev = entries_view(es@.take(i + 1));
            assert(ev.drop_last() =~= entries_view(es@.take(i as int)));
            assert(ev.last() == (es@[i as int].0@, es@[i as int].1@));
            assert(out@ =~= old(out)@ + spec_enc_entries(ev));
        }
        i += 1;
    }
    assert(entries_view(es@.take(es@.len() as int)) =~= entries_view(es@));
}

/// Every length in the entry list fits a `u64` length prefix.
pub open spec fn entries_bounded(es: Seq<(Seq<u8>, Seq<u32>)>) -> bool {
    &&& es.len() <= u64::MAX
    &&& forall|i: int|
        0 <= i < es.len() ==> (#[trigger] es[i]).0.len() <= u64::MAX && es[i].1.len() <= u64::MAX
}

/// Decoding an encoded entry list embedded in a larger buffer recovers it.
pub proof fn lemma_dec_enc_entries(s: Seq<u8>, pos: int, es: Seq<(Seq<u8>, Seq<u32>)>)
    requires
        0 <= pos,
        entries_bounded(es),
        pos + spec_enc_entries(es).len() <= s.len(),
        s.subrange(pos, pos + spec_enc_entries(es).len()) == spec_enc_entries(es),
    ensures
        spec_dec_entries(s, pos, es.len() as nat) == Some((es, pos + spec_enc_entries(es).len())),
    decreases es.len(),
{
    if es.len() == 0 {
    } else {
        let init = es.drop_last();
        let last = es.last();
        lemma_subrange_split(s, pos, spec_enc_entries(init), spec_enc_entry(last));
        lemma_dec_enc_entries(s, pos, init);
        let p = pos + spec_enc_entries(init).len();
        assert(last == es[es.len() - 1]);
        lemma_dec_enc_entry(s, p, last);
        assert(init.push(last) =~= es);
    }
}

/// Encoding of one point's value list: the value count, then the value blocks.
pub open spec fn spec_enc_pvals(vals: Seq<Seq<u8>>) -> Seq<u8> {
    spec_u64_to_le_bytes(vals.len() as u64) + spec_enc_blocks(vals)
}

/// What decoding one point's value list at `pos` yields.
pub open spec fn spec_dec_pvals(s: Seq<u8>, pos: int) -> Option<(Seq<Seq<u8>>, int)> {
    match spec_read_u64(s, pos) {
        Some((n, p)) => spec_dec_blocks(s, p, n as nat),
        None => None,
    }
}

/// Appends the encoding of one point's value list to `out`.
pub fn write_pvals(out: &mut Vec<u8>, vals: &Vec<Vec<u8>>)
    ensures
        final(out)@ == old(out)@ + spec_enc_pvals(blocks_view(vals@)),
{
    write_u64(out, vals.len() as u64);
    write_blocks(out, vals);
    assert(out@ =~= old(out)@ + spec_enc_pvals(blocks_view(vals@)));
}

/// Decodes one point's value list at `pos`, mirroring `spec_dec_pvals`.
pub fn read_pvals(s: &[u8], pos: usize) -> (r: Option<(Vec<Vec<u8>>, usize)>)
    ensures
        (match r {
            Some((v, p)) => spec_dec_pvals(s@, pos as int) == Some((blocks_view(v@), p as int)),
            None => spec_dec_pvals(s@, pos as int) is None,
        }),
{
    match read_u64(s, pos) {
        None => None,
        Some((n, p)) => {
            if n > s.len() as u64 {
                proof {
                    if spec_dec_blocks(s@, p as int, n as nat) is Some {
                        lemma_dec_blocks_pos(s@, p as int, n as nat);
                    }
                }
                None
            } else {
                read_blocks(s, p, n as usize)
            }
        },
    }
}

/// Decoding one point's encoded value list embedded in a larger buffer recovers it.
pub proof fn lemma_dec_enc_pvals(s: Seq<u8>, pos: int, vals: Seq<Seq<u8>>)
    requires
        0 <= pos,
        vals.len() <= u64::MAX,
        forall|i: int| 0 <= i < vals.len() ==> #[trigger] vals[i].len() <= u64::MAX,
        pos + spec_enc_pvals(vals).len() <= s.len(),
        s.subrange(pos, pos + spec_enc_pvals(vals).len()) == spec_enc_pvals(vals),
    ensures
        spec_dec_pvals(s, pos) == Some((vals, pos + spec_enc_pvals(vals).len())),
{
    lemma_auto_spec_u64_to_from_le_bytes();
    let a = spec_u64_to_le_bytes(vals.len() as u64);
    lemma_subrange_split(s, pos, a, spec_enc_blocks(vals));
    lemma_read_write_u64(s, pos, vals.len() as u64);
    lemma_dec_enc_blocks(s, pos + 8, vals);
}

/// Encoding of the forward store: each point's value list, in point order.
pub open spec fn spec_enc_fwd(fs: Seq<Seq<Seq<u8>>>) -> Seq<u8>
    decreases fs.len(),
{
    if fs.len() == 0 {
        Seq::empty()
    } else {
        spec_enc_fwd(fs.drop_last()) + spec_enc_pvals(fs.last())
    }
}

/// What decoding `count` per-point value lists at `pos` yields.
pub open spec fn spec_dec_fwd(s: Seq<u8>, pos: int, count: nat) -> Option<(Seq<Seq<Seq<u8>>>, int)>
    decreases count,
{
    if count == 0 {
        if 0 <= pos && pos <= s.len() {
            Some((Seq::empty(), pos))
        } else {
            None
        }
    } else {
        match spec_dec_fwd(s, pos, (count - 1) as nat) {
            Some((init, p)) => match spec_dec_pvals(s, p) {
                Some((vals, p2)) => Some((init.push(vals), p2)),
                None => None,
            },
            None => None,
        }
    }
}

pub proof fn lemma_dec_fwd_none(s: Seq<u8>, pos: int, j: nat, count: nat)
    requires
        j <= count,
        spec_dec_fwd(s, pos, j) is None,
    ensures
        spec_dec_fwd(s, pos, count) is None,
    decreases count,
{
    if count > j {
        lemma_dec_fwd_none(s, pos, j, (count - 1) as nat);
    }
}

/// A successful forward decode consumes at least eight bytes per point.
pub proof fn lemma_dec_fwd_pos(s: Seq<u8>, pos: int, count: nat)
    requires
        spec_dec_fwd(s, pos, count) is Some,
    ensures
        ({
            let (v, p) = spec_dec_fwd(s, pos, count)->Some_0;
            v.len() == count && pos + 8 * count <= p <= s.len() && 0 <= pos
        }),
    decreases count,
{
    if count > 0 {
        lemma_dec_fwd_pos(s, pos, (count - 1) as nat);
        let (init, p) = spec_dec_fwd(s, pos, (count - 1) as nat)->Some_0;
        let n = spec_read_u64(s, p)->Some_0.0;
        if spec_dec_blocks(s, p + 8, n as nat) is Some {
            lemma_dec_blocks_pos(s, p + 8, n as nat);
        }
    }
}

/// The views of the forward store's per-point value lists.
pub open spec fn fwd_view(v: Seq<Vec<Vec<u8>>>) -> Seq<Seq<Seq<u8>>> {
    v.map_values(|p: Vec<Vec<u8>>| blocks_view(p@))
}

/// Decodes `count` per-point value lists at `pos`, mirroring `spec_dec_fwd`.
pub fn read_fwd(s: &[u8], pos: usize, count: usize) -> (r: Option<(Vec<Vec<Vec<u8>>>, usize)>)
    ensures
        (match r {
            Some((v, p)) => spec_dec_fwd(s@, pos as int, count as nat) == Some(
                (fwd_view(v@), p as int),
            ),
            None => spec_dec_fwd(s@, pos as int, count as nat) is None,
        }),
{
    if pos > s.len() {
        proof {
            lemma_dec_fwd_none(s@, pos as int, 0, count as nat);
        }
        return None;
    }
    let mut v: Vec<Vec<Vec<u8>>> = Vec::new();
    let mut p: usize = pos;
    let mut i: usize = 0;
    assert(fwd_view(v@) =~= Seq::<Seq<Seq<u8>>>::empty());
    while i < count
        invariant
            i <= count,
            spec_dec_fwd(s@, pos as int, i as nat) == Some((fwd_view(v@), p as int)),
        decreases count - i,
    {
        match read_pvals(s, p) {
            None => {
                proof {
                    lemma_dec_fwd_none(s@, pos as int, (i + 1) as nat, count as nat);
                }
                return None;
            },
            Some((vals, p2)) => {
                proof {
                    assert(fwd_view(v@.push(vals)) =~= fwd_view(v@).push(blocks_view(vals@)));
                }
                v.push(vals);
                p = p2;
            },
        }
        i += 1;
    }
    Some((v, p))
}

/// Appends the encoding of the forward store `fs` to `out`.
pub fn write_fwd(out: &mut Vec<u8>, fs: &Vec<Vec<Vec<u8>>>)
    ensures
        final(out)@ == old(out)@ + spec_enc_fwd(fwd_view(fs@)),
{
    let mut i: usize = 0;
    assert(fwd_view(fs@.take(0)) =~= Seq::<Seq<Seq<u8>>>::empty());
    while i < fs.len()
        invariant
            i <= fs.len(),
            out@ == old(out)@ + spec_enc_fwd(fwd_view(fs@.take(i as int))),
        decreases fs.len() - i,
    {
        write_pvals(out, &fs[i]);
        proof {
            let fv = fwd_view(fs@.take(i + 1));
            assert(fv.drop_last() =~= fwd_view(fs@.take(i as int)));
            assert(fv.last() == blocks_view(fs@[i as int]@));
            assert(out@ =~= old(out)@ + spec_enc_fwd(fv));
        }
        i += 1;
    }
    assert(fwd_view(fs@.take(fs@.len() as int)) =~= fwd_view(fs@));
}

/// Every length in the forward store fits a `u64` length prefix.
pub open spec fn fwd_bounded(fs: Seq<Seq<Seq<u8>>>) -> bool {
    &&& fs.len() <= u64::MAX
    &&& forall|i: int|
        0 <= i < fs.len() ==> (#[trigger] fs[i]).len() <= u64::MAX && (forall|j: int|
            0 <= j < fs[i].len() ==> (#[trigger] fs[i][j]).len() <= u64::MAX)
}

/// Decoding an encoded forward store embedded in a larger buffer recovers it.
pub proof fn lemma_dec_enc_fwd(s: Seq<u8>, pos: int, fs: Seq<Seq<Seq<u8>>>)
    requires
        0 <= pos,
        fwd_bounded(fs),
        pos + spec_enc_fwd(fs).len() <= s.len(),
        s.subrange(pos, pos + spec_enc_fwd(fs).len()) == spec_enc_fwd(fs),
    ensures
        spec_dec_fwd(s, pos, fs.len() as nat) == Some((fs, pos + spec_enc_fwd(fs).len())),
    decreases fs.len(),
{
    if fs.len() == 0 {
    } else {
        let init = fs.drop_last();
        let last = fs.last();
        lemma_subrange_split(s, pos, spec_enc_fwd(init), spec_enc_pvals(last));
        lemma_dec_enc_fwd(s, pos, init);
        let p = pos + spec_enc_fwd(init).len();
        assert(last == fs[fs.len() - 1]);
        lemma_dec_enc_pvals(s, p, last);
        assert(init.push(last) =~= fs);
    }
}

/// The full inverted-map file: the entry count, then the entries.
pub open spec fn spec_inverted_file(es: Seq<(Seq<u8>, Seq<u32>)>) -> Seq<u8> {
    spec_u64_to_le_bytes(es.len() as u64) + spec_enc_entries(es)
}

/// What decoding a whole inverted-map file yields; the file must be consumed exactly.
pub open spec fn spec_dec_inverted_file(s: Seq<u8>) -> Option<Seq<(Seq<u8>, Seq<u32>)>> {
    match spec_read_u64(s, 0) {
        Some((n, p)) => match spec_dec_entries(s, p, n as nat) {
            Some((es, p2)) => if p2 == s.len() {
                Some(es)
            } else {
                None
            },
            None => None,
        },
        None => None,
    }
}

/// Serializes the inverted map to its file image.
pub fn encode_inverted_file(es: &Vec<(Vec<u8>, Vec<u32>)>) -> (r: Vec<u8>)
    ensures
        r@ == spec_inverted_file(entries_view(es@)),
{
    let mut out: Vec<u8> = Vec::new();
    write_u64(&mut out, es.len() as u64);
    write_entries(&mut out, es);
    assert(out@ =~= spec_inverted_file(entries_view(es@)));
    out
}

/// Parses an inverted-map file image, mirroring `spec_dec_inverted_file`.
pub fn decode_inverted_file(s: &[u8]) -> (r: Option<Vec<(Vec<u8>, Vec<u32>)>>)
    ensures
        (match r {
            Some(v) => spec_dec_inverted_file(s@) == Some(entries_view(v@)),
            None => spec_dec_inverted_file(s@) is None,
        }),
{
    match read_u64(s, 0) {
        None => None,
        Some((n, p)) => {
            if n > s.len() as u64 {
                proof {
                    if spec_dec_entries(s@, p as int, n as nat) is Some {
                        lemma_dec_entries_pos(s@, p as int, n as nat);
                    }
                }
                None
            } else {
                match read_entries(s, p, n as usize) {
                    None => None,
                    Some((v, p2)) => {
                        if p2 == s.len() {
                            Some(v)
                        } else {
                            None
                        }
                    },
                }
            }
        },
    }
}

/// Decoding the file image written for an inverted map recovers the map.
pub proof fn lemma_inverted_file_round_trip(es: Seq<(Seq<u8>, Seq<u32>)>)
    requires
        entries_bounded(es),
    ensures
        spec_dec_inverted_file(spec_inverted_file(es)) == Some(es),
{
    lemma_auto_spec_u64_to_from_le_bytes();
    let s = spec_inverted_file(es);
    let a = spec_u64_to_le_bytes(es.len() as u64);
    assert(s.subrange(0, s.len() as int) =~= s);
    lemma_subrange_split(s, 0, a, spec_enc_entries(es));
    lemma_read_write_u64(s, 0, es.len() as u64);
    lemma_dec_enc_entries(s, 8, es);
}

/// The full forward-store file: the point count, then each point's value list.
pub open spec fn spec_forward_file(fs: Seq<Seq<Seq<u8>>>) -> Seq<u8> {
    spec_u64_to_le_bytes(fs.len() as u64) + spec_enc_fwd(fs)
}

/// What decoding a whole forward-store file yields; the file must be consumed exactly.
pub open spec fn spec_dec_forward_file(s: Seq<u8>) -> Option<Seq<Seq<Seq<u8>>>> {
    match spec_read_u64(s, 0) {
        Some((n, p)) => match spec_dec_fwd(s, p, n as nat) {
            Some((fs, p2)) => if p2 == s.len() {
                Some(fs)
            } else {
                None
            },
            None => None,
        },
        None => None,
    }
}

/// Serializes the forward store to its file image.
pub fn encode_forward_file(fs: &Vec<Vec<Vec<u8>>>) -> (r: Vec<u8>)
    ensures
        r@ == spec_forward_file(fwd_view(fs@)),
{
    let mut out: Vec<u8> = Vec::new();
    write_u64(&mut out, fs.len() as u64);
    write_fwd(&mut out, fs);
    assert(out@ =~= spec_forward_file(fwd_view(fs@)));
    out
}

/// Parses a forward-store file image, mirroring `spec_dec_forward_file`.
pub fn decode_forward_file(s: &[u8]) -> (r: Option<Vec<Vec<Vec<u8>>>>)
    ensures
        (match r {
            Some(v) => spec_dec_forward_file(s@) == Some(fwd_view(v@)),
            None => spec_dec_forward_file(s@) is None,
        }),
{
    match read_u64(s, 0) {
        None => None,
        Some((n, p)) => {
            if n > s.len() as u64 {
                proof {
                    if spec_dec_fwd(s@, p as int, n as nat) is Some {
                        lemma_dec_fwd_pos(s@, p as int, n as nat);
                    }
                }
                None
            } else {
                match read_fwd(s, p, n as usize) {
                    None => None,
                    Some((v, p2)) => {
                        if p2 == s.len() {
                            Some(v)
                        } else {
                            None
                        }
                    },
                }
            }
        },
    }
}

/// Decoding the file image written for a forward store recovers the store.
pub proof fn lemma_forward_file_round_trip(fs: Seq<Seq<Seq<u8>>>)
    requires
        fwd_bounded(fs),
    ensures
        spec_dec_forward_file(spec_forward_file(fs)) == Some(fs),
{
    lemma_auto_spec_u64_to_from_le_bytes();
    let s = spec_forward_file(fs);
    let a = spec_u64_to_le_bytes(fs.len() as u64);
    assert(s.subrange(0, s.len() as int) =~= s);
    lemma_subrange_split(s, 0, a, spec_enc_fwd(fs));
    lemma_read_write_u64(s, 0, fs.len() as u64);
    lemma_dec_enc_fwd(s, 8, fs);
}

} // verus!
