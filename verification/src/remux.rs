//! Block → sample extraction: parses (Simple)Block payloads, unlaces frames,
//! reconstructs DTS/composition offsets for reordered video, and converts subtitle
//! blocks to WebVTT cues. Pure, in-memory operations on already-read block bytes.

use vstd::prelude::*;
use crate::bytes::{be_value, slice_to_vec};
use crate::fmp4::Sample;
use crate::text::{dec_digits, zero_padded, push_zero_padded};
use crate::scan::{trim_end, trim_end_chars};
use vstd::relations::{sorted_by, total_ordering};

verus! {

/// One MKV block after parsing: a relative timecode, sync flag, and one or more
/// (laced) frame payloads in storage = decode order.
#[derive(Debug, Clone)]
pub struct BlockFrames {
    pub track_number: u64,
    pub rel_timecode: i16,
    pub is_keyframe: bool,
    pub frames: Vec<Vec<u8>>,
}

/// A decoded-order frame with an absolute presentation time, ready for muxing.
#[derive(Debug, Clone)]
pub struct TimedFrame {
    /// Absolute presentation time in MKV ticks (TimestampScale units).
    pub pts_ticks: i64,
    pub data: Vec<u8>,
    pub is_keyframe: bool,
}

#[derive(Debug, Clone, Copy, PartialEq, Eq, Structural)]
pub enum Lacing {
    NoLacing,
    Xiph,
    FixedSize,
    Ebml,
}

// ----------------------------------------------------------------------------
// Specification of the block grammar
// ----------------------------------------------------------------------------

/// Lacing mode from flag bits 1–2 (`00` none, `01` Xiph, `11` EBML, `10` fixed).
pub open spec fn spec_lacing(flags: u8) -> Lacing {
    let bits = (flags / 2) % 4;
    if bits == 0 {
        Lacing::NoLacing
    } else if bits == 1 {
        Lacing::Xiph
    } else if bits == 3 {
        Lacing::Ebml
    } else {
        Lacing::FixedSize
    }
}

/// Number of leading zero bits of a byte.
pub open spec fn lz8(b: u8) -> nat {
    if b >= 128 {
        0
    } else if b >= 64 {
        1
    } else if b >= 32 {
        2
    } else if b >= 16 {
        3
    } else if b >= 8 {
        4
    } else if b >= 4 {
        5
    } else if b >= 2 {
        6
    } else if b >= 1 {
        7
    } else {
        8
    }
}

/// `0xff >> n` for `n` in `1..=8`: the value bits a vint of width `n` keeps in its
/// first byte.
pub open spec fn vint_mask(n: nat) -> u8 {
    if n == 1 {
        0x7f
    } else if n == 2 {
        0x3f
    } else if n == 3 {
        0x1f
    } else if n == 4 {
        0x0f
    } else if n == 5 {
        0x07
    } else if n == 6 {
        0x03
    } else if n == 7 {
        0x01
    } else {
        0
    }
}

/// An unsigned EBML variable-length integer at `pos`: its width is one more than the
/// leading zero bits of the first byte; the value is the big-endian number formed by
/// the first byte without its marker bit and the following bytes. A zero first byte
/// (no marker within 8 bits) or a truncated integer gives `None`.
pub open spec fn spec_read_vint(buf: Seq<u8>, pos: int) -> Option<(u64, usize)> {
    if pos < 0 || pos >= buf.len() {
        None
    } else {
        let first = buf[pos];
        if first == 0 {
            None
        } else {
            let len = lz8(first) + 1;
            if pos + len > buf.len() {
                None
            } else {
                Some(
                    (
                        be_value(
                            seq![first & vint_mask(len)] + buf.subrange(pos + 1, pos + len),
                        ) as u64,
                        len as usize,
                    ),
                )
            }
        }
    }
}

/// A signed (range-shifted) EBML lace-size delta: the unsigned vint minus
/// `2^(7·width − 1) − 1`.
pub open spec fn spec_read_svint(buf: Seq<u8>, pos: int) -> Option<(i64, usize)> {
    match spec_read_vint(buf, pos) {
        Some((v, len)) => Some(
            ((v as int - (vstd::arithmetic::power2::pow2((7 * len - 1) as nat) - 1)) as i64, len),
        ),
        None => None,
    }
}

/// One Xiph lace size starting at `pos`: a run of `0xFF` bytes plus a final byte
/// below `0xFF`, summed. Returns the size and the position after it.
pub open spec fn xiph_lace_size(p: Seq<u8>, pos: int) -> Option<(nat, int)>
    decreases p.len() - pos,
{
    if pos < 0 || pos >= p.len() {
        None
    } else if p[pos] != 255 {
        Some((p[pos] as nat, pos + 1))
    } else {
        match xiph_lace_size(p, pos + 1) {
            Some((s, q)) => Some((255 + s, q)),
            None => None,
        }
    }
}

/// The first `n` Xiph lace sizes from `pos`, and the position after them.
pub open spec fn xiph_sizes(p: Seq<u8>, pos: int, n: nat) -> Option<(Seq<nat>, int)>
    decreases n,
{
    if n == 0 {
        Some((seq![], pos))
    } else {
        match xiph_sizes(p, pos, (n - 1) as nat) {
            Some((s, q)) => match xiph_lace_size(p, q) {
                Some((z, q2)) => Some((s.push(z), q2)),
                None => None,
            },
            None => None,
        }
    }
}

/// The first `n >= 1` EBML lace sizes from `pos`: an unsigned vint, then signed
/// deltas from the previous size. Returns the sizes (each taken as a `usize`, i.e.
/// truncated on a 32-bit target), the last size and the position after them; a
/// negative size gives `None`.
pub open spec fn ebml_sizes(p: Seq<u8>, pos: int, n: nat) -> Option<(Seq<nat>, int, int)>
    decreases n,
{
    if n <= 1 {
        match spec_read_vint(p, pos) {
            Some((first, len)) => Some((seq![(first as usize) as nat], first as int, pos + len)),
            None => None,
        }
    } else {
        match ebml_sizes(p, pos, (n - 1) as nat) {
            Some((s, cur, q)) => match spec_read_svint(p, q) {
                Some((d, len)) => if cur + d < 0 {
                    None
                } else {
                    Some((s.push(((cur + d) as usize) as nat), cur + d, q + len))
                },
                None => None,
            },
            None => None,
        }
    }
}

pub open spec fn seq_sum(s: Seq<nat>) -> nat
    decreases s.len(),
{
    if s.len() == 0 {
        0
    } else {
        seq_sum(s.drop_last()) + s.last()
    }
}

/// Cut consecutive frames of the given sizes out of `p` starting at `pos`; `None` if
/// one would run past the end.
pub open spec fn split_frames(p: Seq<u8>, pos: int, sizes: Seq<nat>) -> Option<Seq<Seq<u8>>>
    decreases sizes.len(),
{
    if sizes.len() == 0 {
        Some(seq![])
    } else {
        match split_frames(p, pos, sizes.drop_last()) {
            Some(fs) => {
                let start = pos + seq_sum(sizes.drop_last());
                let end = start + sizes.last();
                if end > p.len() {
                    None
                } else {
                    Some(fs.push(p.subrange(start, end)))
                }
            },
            None => None,
        }
    }
}

/// Sizes of laced frames whose size table starts at `pos`, together with the
/// position of the first frame byte; the last frame takes the remainder.
pub open spec fn lace_sizes(p: Seq<u8>, pos: int, count: nat, lacing: Lacing) -> Option<(Seq<nat>, int)> {
    match lacing {
        Lacing::FixedSize => {
            let remaining = p.len() - pos;
            if remaining % (count as int) != 0 {
                None
            } else {
                Some((Seq::new(count, |i: int| (remaining / (count as int)) as nat), pos))
            }
        },
        Lacing::Xiph => match xiph_sizes(p, pos, (count - 1) as nat) {
            Some((s, q)) => if p.len() < q + seq_sum(s) {
                None
            } else {
                Some((s.push((p.len() - q - seq_sum(s)) as nat), q))
            },
            None => None,
        },
        Lacing::Ebml => match ebml_sizes(p, pos, (count - 1) as nat) {
            Some((s, cur, q)) => if p.len() < q + seq_sum(s) {
                None
            } else {
                Some((s.push((p.len() - q - seq_sum(s)) as nat), q))
            },
            None => None,
        },
        Lacing::NoLacing => None,
    }
}

/// The frames of a laced block whose lace-count byte is at `pos`.
pub open spec fn spec_unlace(p: Seq<u8>, pos: int, lacing: Lacing) -> Option<Seq<Seq<u8>>> {
    if pos < 0 || pos >= p.len() {
        None
    } else {
        let count = p[pos] + 1;
        match lace_sizes(p, pos + 1, count as nat, lacing) {
            Some((sizes, q)) => split_frames(p, q, sizes),
            None => None,
        }
    }
}

/// Inputs on which unlacing's `usize` arithmetic stays in range and which do not hit
/// the single-frame EBML lace (whose size loop bound underflows). For Xiph lacing
/// every lace size is bounded by 255 per consumed byte, so a buffer of at most
/// `usize::MAX / 256` bytes keeps all sums in range.
pub open spec fn unlace_defined(p: Seq<u8>, pos: int, lacing: Lacing) -> bool {
    pos < 0 || pos >= p.len() || {
        let count = (p[pos] + 1) as nat;
        match lacing {
            Lacing::Xiph => p.len() <= usize::MAX / 256,
            Lacing::Ebml => spec_read_vint(p, pos + 1) is None || (count >= 2 && match ebml_sizes(
                p,
                pos + 1,
                (count - 1) as nat,
            ) {
                Some((s, cur, q)) => q + seq_sum(s) <= usize::MAX,
                None => true,
            }),
            _ => true,
        }
    }
}

// ----------------------------------------------------------------------------
// What unlacing gives
// ----------------------------------------------------------------------------

/// The frames one after another.
pub open spec fn concat_frames(fs: Seq<Seq<u8>>) -> Seq<u8>
    decreases fs.len(),
{
    if fs.len() == 0 {
        Seq::empty()
    } else {
        concat_frames(fs.drop_last()) + fs.last()
    }
}

proof fn lemma_split_frames(p: Seq<u8>, pos: int, sizes: Seq<nat>)
    requires
        0 <= pos <= p.len(),
        split_frames(p, pos, sizes) is Some,
    ensures
        ({
            let fs = split_frames(p, pos, sizes)->0;
            &&& fs.len() == sizes.len()
            &&& pos + seq_sum(sizes) <= p.len()
            &&& concat_frames(fs) == p.subrange(pos, pos + seq_sum(sizes))
            &&& forall|i: int| 0 <= i < fs.len() ==> #[trigger] fs[i].len() == sizes[i]
        }),
    decreases sizes.len(),
{
    if sizes.len() > 0 {
        let d = sizes.drop_last();
        lemma_split_frames(p, pos, d);
        let fs0 = split_frames(p, pos, d)->0;
        let start = pos + seq_sum(d);
        let fs = split_frames(p, pos, sizes)->0;
        assert(fs == fs0.push(p.subrange(start, start + sizes.last())));
        assert(fs.drop_last() =~= fs0);
        assert(concat_frames(fs) =~= p.subrange(pos, pos + seq_sum(sizes)));
        assert forall|i: int| 0 <= i < fs.len() implies #[trigger] fs[i].len() == sizes[i] by {
            if i < fs0.len() {
                assert(fs[i] == fs0[i]);
            }
        }
    } else {
        assert(p.subrange(pos, pos) =~= Seq::<u8>::empty());
    }
}

proof fn lemma_xiph_lace_size(p: Seq<u8>, pos: int)
    requires
        xiph_lace_size(p, pos) is Some,
    ensures
        (xiph_lace_size(p, pos)->0).1 > pos,
    decreases p.len() - pos,
{
    if p[pos] == 255 {
        lemma_xiph_lace_size(p, pos + 1);
    }
}

proof fn lemma_xiph_sizes(p: Seq<u8>, pos: int, n: nat)
    requires
        xiph_sizes(p, pos, n) is Some,
    ensures
        (xiph_sizes(p, pos, n)->0).0.len() == n,
        (xiph_sizes(p, pos, n)->0).1 >= pos,
    decreases n,
{
    if n > 0 {
        lemma_xiph_sizes(p, pos, (n - 1) as nat);
        let q = (xiph_sizes(p, pos, (n - 1) as nat)->0).1;
        lemma_xiph_lace_size(p, q);
    }
}

proof fn lemma_ebml_sizes(p: Seq<u8>, pos: int, n: nat)
    requires
        n >= 1,
        ebml_sizes(p, pos, n) is Some,
    ensures
        (ebml_sizes(p, pos, n)->0).0.len() == n,
        (ebml_sizes(p, pos, n)->0).2 >= pos,
    decreases n,
{
    if n > 1 {
        lemma_ebml_sizes(p, pos, (n - 1) as nat);
    }
}

pub open spec fn const_seq(n: nat, c: nat) -> Seq<nat> {
    Seq::new(n, |i: int| c)
}

proof fn lemma_seq_sum_const(n: nat, c: nat)
    ensures
        seq_sum(const_seq(n, c)) == n * c,
    decreases n,
{
    if n > 0 {
        lemma_seq_sum_const((n - 1) as nat, c);
        let sq = const_seq(n, c);
        assert(sq.drop_last() =~= const_seq((n - 1) as nat, c));
        assert(sq.last() == c);
        assert(seq_sum(sq) == seq_sum(sq.drop_last()) + sq.last());
        assert((n - 1) * c + c == n * c) by (nonlinear_arith);
    } else {
        assert(const_seq(0, c).len() == 0);
    }
}

/// Unlacing gives one frame per lace (the count byte plus one; at least two for EBML
/// lacing), and the frames exactly fill the bytes that follow the lace header up to
/// the end of the block. Fixed-size lacing succeeds exactly when those bytes divide
/// evenly among the frames, which then all have the same length.
pub proof fn lemma_unlace_fills(p: Seq<u8>, pos: int, lacing: Lacing)
    requires
        lacing != Lacing::NoLacing,
        0 <= pos < p.len(),
        lacing == Lacing::Ebml ==> p[pos] >= 1,
    ensures
        spec_unlace(p, pos, lacing) matches Some(fs) ==> {
            let t = concat_frames(fs).len();
            &&& fs.len() == p[pos] + 1
            &&& t <= p.len() - pos - 1
            &&& concat_frames(fs) == p.subrange(p.len() - t, p.len() as int)
        },
        lacing == Lacing::FixedSize ==> (spec_unlace(p, pos, lacing) is Some <==> (p.len() - pos - 1)
            % (p[pos] + 1) == 0),
        lacing == Lacing::FixedSize ==> (spec_unlace(p, pos, lacing) matches Some(fs) ==> forall|i: int|
            0 <= i < fs.len() ==> #[trigger] fs[i].len() == fs[0].len()),
{
    let count = (p[pos] + 1) as nat;
    let ls = lace_sizes(p, pos + 1, count, lacing);
    if let Some((sizes, q)) = ls {
        // Every lacing leaves the frames to run from `q` to the end of the block.
        let r = p.len() - q;
        if lacing == Lacing::FixedSize {
            let rem = p.len() - (pos + 1);
            let c = (rem / (count as int)) as nat;
            lemma_seq_sum_const(count, c);
            assert(sizes =~= const_seq(count, c));
            assert(count * c == rem) by (nonlinear_arith)
                requires
                    rem % (count as int) == 0,
                    c == rem / (count as int),
                    count >= 1,
                    rem >= 0,
            ;
            assert(q == pos + 1);
        } else if lacing == Lacing::Xiph {
            lemma_xiph_sizes(p, pos + 1, (count - 1) as nat);
        } else {
            lemma_ebml_sizes(p, pos + 1, (count - 1) as nat);
        }
        assert(sizes.len() == count);
        assert(q >= pos + 1);
        assert(q + seq_sum(sizes) == p.len()) by {
            if lacing == Lacing::Xiph {
                let s0 = (xiph_sizes(p, pos + 1, (count - 1) as nat)->0).0;
                assert(sizes.drop_last() =~= s0);
                assert(seq_sum(sizes) == seq_sum(sizes.drop_last()) + sizes.last());
            } else if lacing == Lacing::Ebml {
                let s0 = (ebml_sizes(p, pos + 1, (count - 1) as nat)->0).0;
                assert(sizes.drop_last() =~= s0);
                assert(seq_sum(sizes) == seq_sum(sizes.drop_last()) + sizes.last());
            }
        }
        if let Some(fs) = split_frames(p, q, sizes) {
            lemma_split_frames(p, q, sizes);
            assert(concat_frames(fs).len() == seq_sum(sizes));
            if lacing == Lacing::FixedSize {
                assert forall|i: int| 0 <= i < fs.len() implies #[trigger] fs[i].len() == fs[0].len() by {
                    assert(fs[i].len() == sizes[i]);
                    assert(fs[0].len() == sizes[0]);
                }
            }
        } else {
            if lacing == Lacing::FixedSize {
                // the sizes fill the block exactly, so no frame runs past it
                assert(split_frames(p, q, sizes) is Some) by {
                    lemma_split_fits(p, q, sizes);
                }
            }
        }
    }
}

/// Frames whose sizes add up to no more than what follows `pos` can all be cut.
proof fn lemma_split_fits(p: Seq<u8>, pos: int, sizes: Seq<nat>)
    requires
        0 <= pos,
        pos + seq_sum(sizes) <= p.len(),
    ensures
        split_frames(p, pos, sizes) is Some,
    decreases sizes.len(),
{
    if sizes.len() > 0 {
        lemma_split_fits(p, pos, sizes.drop_last());
    }
}

/// The parsed view of a block payload: track number, relative timecode, keyframe
/// flag (the SimpleBlock flag bit, or the caller's BlockGroup verdict) and frames.
pub open spec fn spec_parse_block(payload: Seq<u8>, simple_block: bool, group_is_keyframe: bool) -> Option<
    (u64, i16, bool, Seq<Seq<u8>>),
> {
    match spec_read_vint(payload, 0) {
        None => None,
        Some((track, len)) => {
            let pos = len as int;
            if pos + 3 > payload.len() {
                None
            } else {
                let rel = (payload[pos] as int * 256 + payload[pos + 1] as int) as u16 as i16;
                let flags = payload[pos + 2];
                let key = if simple_block {
                    flags >= 128
                } else {
                    group_is_keyframe
                };
                let lacing = spec_lacing(flags);
                if lacing == Lacing::NoLacing {
                    Some((track, rel, key, seq![payload.subrange(pos + 3, payload.len() as int)]))
                } else {
                    match spec_unlace(payload, pos + 3, lacing) {
                        Some(frames) => Some((track, rel, key, frames)),
                        None => None,
                    }
                }
            }
        },
    }
}

pub open spec fn parse_block_defined(payload: Seq<u8>) -> bool {
    match spec_read_vint(payload, 0) {
        None => true,
        Some((track, len)) => {
            let pos = len as int;
            pos + 3 > payload.len() || unlace_defined(
                payload,
                pos + 3,
                spec_lacing(payload[pos + 2]),
            )
        },
    }
}

impl BlockFrames {
    pub open spec fn spec_view(self) -> (u64, i16, bool, Seq<Seq<u8>>) {
        (self.track_number, self.rel_timecode, self.is_keyframe, self.frames.deep_view())
    }
}

// ----------------------------------------------------------------------------
// Block parsing
// ----------------------------------------------------------------------------

pub fn lacing_from_flags(flags: u8) -> (l: Lacing)
    ensures
        l == spec_lacing(flags),
{
    let bits = (flags & 0b0000_0110) >> 1;
    assert(bits == (flags / 2) % 4) by (bit_vector)
        requires
            bits == (flags & 0b0000_0110) >> 1,
    ;
    match bits {
        0 => Lacing::NoLacing,
        1 => Lacing::Xiph,
        3 => Lacing::Ebml,
        _ => Lacing::FixedSize,
    }
}

/// Leading zero bits of a byte.
pub(crate) fn leading_zeros_u8(b: u8) -> (n: usize)
    ensures
        n == lz8(b),
{
    if b >= 128 {
        0
    } else if b >= 64 {
        1
    } else if b >= 32 {
        2
    } else if b >= 16 {
        3
    } else if b >= 8 {
        4
    } else if b >= 4 {
        5
    } else if b >= 2 {
        6
    } else if b >= 1 {
        7
    } else {
        8
    }
}

proof fn lemma_be_value_push(s: Seq<u8>, b: u8)
    ensures
        be_value(s.push(b)) == be_value(s) * 256 + b,
{
    assert(s.push(b).drop_last() =~= s);
}


/// The value range of a vint of width `len` is `2^(7·len)`.
proof fn lemma_vint_value_range(len: nat)
    requires
        1 <= len <= 8,
    ensures
        (vint_mask(len) as nat + 1) * crate::bytes::pow256((len - 1) as nat)
            == vstd::arithmetic::power2::pow2(7 * len),
{
    reveal_with_fuel(crate::bytes::pow256, 9);
    vstd::arithmetic::power2::lemma2_to64();
    vstd::arithmetic::power2::lemma2_to64_rest();
    if len == 1 {
        assert(crate::bytes::pow256(0) == 1);
        assert(vstd::arithmetic::power2::pow2(7) == 128);
        assert(128 * 1 == 128);
    }
    if len == 2 {
        assert(crate::bytes::pow256(1) == 256);
        assert(vstd::arithmetic::power2::pow2(14) == 16384);
        assert(64 * 256 == 16384);
    }
    if len == 3 {
        assert(crate::bytes::pow256(2) == 65536);
        assert(vstd::arithmetic::power2::pow2(21) == 2097152);
        assert(32 * 65536 == 2097152);
    }
    if len == 4 {
        assert(crate::bytes::pow256(3) == 16777216);
        assert(vstd::arithmetic::power2::pow2(28) == 268435456);
        assert(16 * 16777216 == 268435456);
    }
    if len == 5 {
        assert(crate::bytes::pow256(4) == 4294967296);
        assert(vstd::arithmetic::power2::pow2(35) == 34359738368);
        assert(8 * 4294967296 == 34359738368);
    }
    if len == 6 {
        assert(crate::bytes::pow256(5) == 1099511627776);
        assert(vstd::arithmetic::power2::pow2(42) == 4398046511104);
        assert(4 * 1099511627776 == 4398046511104);
    }
    if len == 7 {
        assert(crate::bytes::pow256(6) == 281474976710656);
        assert(vstd::arithmetic::power2::pow2(49) == 562949953421312);
        assert(2 * 281474976710656 == 562949953421312);
    }
    if len == 8 {
        assert(crate::bytes::pow256(7) == 72057594037927936);
        assert(vstd::arithmetic::power2::pow2(56) == 72057594037927936);
        assert(1 * 72057594037927936 == 72057594037927936);
    }
}

/// Read an unsigned EBML variable-length integer (marker bit removed).
pub fn read_vint(buf: &[u8], pos: usize) -> (r: Option<(u64, usize)>)
    ensures
        r == spec_read_vint(buf@, pos as int),
        r matches Some((v, l)) ==> v < 0x100000000000000u64 && 1 <= l <= 8 && (v as nat)
            < vstd::arithmetic::power2::pow2((7 * l) as nat) && pos + l <= buf@.len(),
{
    if pos >= buf.len() {
        return None;
    }
    let first = buf[pos];
    if first == 0 {
        return None;
    }
    let len = leading_zeros_u8(first) + 1;
    if len > buf.len() - pos {
        return None;
    }
    let mask: u64 = 0xffu64 >> len;
    assert(mask == vint_mask(len as nat) as u64) by (bit_vector)
        requires
            1 <= len <= 8,
            mask == 0xffu64 >> len,
    ;
    let first_bits = first & (mask as u8);
    assert(first_bits <= vint_mask(len as nat)) by (bit_vector)
        requires
            first_bits == first & (mask as u8),
            mask == vint_mask(len as nat) as u64,
    ;
    assert(len == 8 ==> first_bits == 0) by (bit_vector)
        requires
            first_bits == first & (mask as u8),
            len == 8 ==> mask == 0,
    ;
    let mut value: u64 = first_bits as u64;
    let ghost head = seq![first_bits];
    let mut i: usize = 1;
    proof {
        assert(head + buf@.subrange(pos + 1, pos + 1) =~= head);
        assert(head.drop_last() =~= Seq::<u8>::empty());
        reveal_with_fuel(be_value, 2);
        reveal_with_fuel(crate::bytes::pow256, 9);
        assert(crate::bytes::pow256(0) == 1);
    }
    while i < len
        invariant
            1 <= i <= len <= 8,
            pos + len <= buf.len(),
            value as nat == be_value(head + buf@.subrange(pos + 1, pos + i)),
            value < crate::bytes::pow256(i as nat),
            value < (first_bits as nat + 1) * crate::bytes::pow256((i - 1) as nat),
            len == 8 ==> first_bits == 0,
        decreases len - i,
    {
        let ghost prev = head + buf@.subrange(pos + 1, pos + i);
        proof {
            lemma_be_value_push(prev, buf@[pos + i]);
            assert(prev.push(buf@[pos + i]) =~= head + buf@.subrange(pos + 1, pos + i + 1));
            reveal_with_fuel(crate::bytes::pow256, 9);
            assert(value * 256 + buf@[pos + i] < crate::bytes::pow256((i + 1) as nat)) by (nonlinear_arith)
                requires
                    value < crate::bytes::pow256(i as nat),
                    crate::bytes::pow256((i + 1) as nat) == 256 * crate::bytes::pow256(i as nat),
                    buf@[pos + i] < 256,
            ;
            assert(value * 256 + buf@[pos + i] < (first_bits as nat + 1) * crate::bytes::pow256(i as nat)) by (nonlinear_arith)
                requires
                    value < (first_bits as nat + 1) * crate::bytes::pow256((i - 1) as nat),
                    crate::bytes::pow256(i as nat) == 256 * crate::bytes::pow256((i - 1) as nat),
                    buf@[pos + i] < 256,
            ;
        }
        let prev_v = value;
        let b = buf[pos + i];
        assert(prev_v < 0x100000000000000u64) by {
            reveal_with_fuel(crate::bytes::pow256, 9);
            assert(crate::bytes::pow256(i as nat) <= crate::bytes::pow256(7));
        }
        value = (prev_v << 8) | b as u64;
        assert(value == prev_v * 256 + b as u64) by (bit_vector)
            requires
                prev_v < 0x100000000000000u64,
                value == (prev_v << 8) | b as u64,
        ;
        i += 1;
    }
    proof {
        reveal_with_fuel(crate::bytes::pow256, 9);
        assert(crate::bytes::pow256(7) == 0x100000000000000u64);
        let pw = vstd::arithmetic::power2::pow2((7 * len) as nat);
        let pv = crate::bytes::pow256((len - 1) as nat);
        vstd::arithmetic::power2::lemma2_to64();
        vstd::arithmetic::power2::lemma2_to64_rest();
        lemma_vint_value_range(len as nat);
        assert((first_bits as nat + 1) * pv <= (vint_mask(len as nat) as nat + 1) * pv) by (nonlinear_arith)
            requires
                first_bits <= vint_mask(len as nat),
        ;
        if len < 8 {
            assert(crate::bytes::pow256(len as nat) <= crate::bytes::pow256(7));
        } else {
            assert(i == 8);
            assert(first_bits == 0);
            assert(value < (first_bits as nat + 1) * crate::bytes::pow256((i - 1) as nat));
            assert((first_bits as nat + 1) * crate::bytes::pow256(7) == crate::bytes::pow256(7)) by (nonlinear_arith)
                requires
                    first_bits == 0,
            ;
            assert(value < crate::bytes::pow256(7));
        }
    }
    Some((value, len))
}

pub open spec fn nats(s: Seq<usize>) -> Seq<nat> {
    s.map_values(|x: usize| x as nat)
}

pub open spec fn opt_frames(r: Option<Vec<Vec<u8>>>) -> Option<Seq<Seq<u8>>> {
    match r {
        Some(v) => Some(v.deep_view()),
        None => None,
    }
}

proof fn lemma_seq_sum_take(s: Seq<nat>, k: int)
    requires
        0 <= k < s.len(),
    ensures
        seq_sum(s.take(k + 1)) == seq_sum(s.take(k)) + s[k],
{
    assert(s.take(k + 1).drop_last() =~= s.take(k));
}

proof fn lemma_seq_sum_push(s: Seq<nat>, x: nat)
    ensures
        seq_sum(s.push(x)) == seq_sum(s) + x,
{
    assert(s.push(x).drop_last() =~= s);
}

proof fn lemma_split_none_extends(p: Seq<u8>, pos: int, sizes: Seq<nat>, k: int)
    requires
        0 <= k <= sizes.len(),
        split_frames(p, pos, sizes.take(k)) is None,
    ensures
        split_frames(p, pos, sizes) is None,
    decreases sizes.len() - k,
{
    if k < sizes.len() {
        assert(sizes.take(k + 1).drop_last() =~= sizes.take(k));
        lemma_split_none_extends(p, pos, sizes, k + 1);
    } else {
        assert(sizes.take(k) =~= sizes);
    }
}

proof fn lemma_xiph_none_extends(p: Seq<u8>, pos: int, k: nat, n: nat)
    requires
        k <= n,
        xiph_sizes(p, pos, k) is None,
    ensures
        xiph_sizes(p, pos, n) is None,
    decreases n - k,
{
    if k < n {
        lemma_xiph_none_extends(p, pos, k + 1, n);
    }
}

proof fn lemma_ebml_none_extends(p: Seq<u8>, pos: int, k: nat, n: nat)
    requires
        1 <= k <= n,
        ebml_sizes(p, pos, k) is None,
    ensures
        ebml_sizes(p, pos, n) is None,
    decreases n - k,
{
    if k < n {
        lemma_ebml_none_extends(p, pos, k + 1, n);
    }
}

/// Read a signed EBML lace-size delta (range-shifted vint).
pub fn read_svint(buf: &[u8], pos: usize) -> (r: Option<(i64, usize)>)
    ensures
        r == spec_read_svint(buf@, pos as int),
        r matches Some((v, l)) ==> 1 <= l <= 8 && -0x80000000000000i64 < v <= 0x80000000000000i64
            && pos + l <= buf@.len(),
{
    let (value, len) = match read_vint(buf, pos) {
        Some(x) => x,
        None => return None,
    };
    let shift = (7 * len - 1) as u64;
    proof {
        vstd::bits::lemma_u64_pow2_no_overflow(shift as nat);
        vstd::bits::lemma_u64_shl_is_mul(1, shift);
        vstd::arithmetic::power2::lemma_pow2_strictly_increases(shift as nat, 56);
        vstd::arithmetic::power2::lemma2_to64();
    }
    let pw = 1u64 << shift;
    assert(pw == vstd::arithmetic::power2::pow2(shift as nat));
    assert(pw <= 0x100000000000000u64) by {
        vstd::arithmetic::power2::lemma2_to64_rest();
    }
    let bias = (pw - 1) as i64;
    proof {
        vstd::arithmetic::power2::lemma_pow2_adds(shift as nat, 1);
        vstd::arithmetic::power2::lemma_pow2_strictly_increases(shift as nat, 56);
        assert(vstd::arithmetic::power2::pow2(1) == 2);
        assert(shift + 1 == 7 * len);
        if shift < 55 {
            vstd::arithmetic::power2::lemma_pow2_strictly_increases(shift as nat, 55);
        }
        vstd::arithmetic::power2::lemma2_to64_rest();
        assert(vstd::arithmetic::power2::pow2(55) == 0x80000000000000);
    }
    Some((value as i64 - bias, len))
}

/// Total of a list of sizes.
fn sum_sizes(sizes: &Vec<usize>) -> (total: usize)
    requires
        seq_sum(nats(sizes@)) <= usize::MAX,
    ensures
        total == seq_sum(nats(sizes@)),
{
    let mut total: usize = 0;
    let mut i: usize = 0;
    while i < sizes.len()
        invariant
            i <= sizes.len(),
            seq_sum(nats(sizes@)) <= usize::MAX,
            total == seq_sum(nats(sizes@).take(i as int)),
        decreases sizes.len() - i,
    {
        proof {
            lemma_seq_sum_take(nats(sizes@), i as int);
            lemma_sum_take_le(nats(sizes@), i as int + 1);
        }
        total = total + sizes[i];
        i += 1;
    }
    proof {
        assert(nats(sizes@).take(i as int) =~= nats(sizes@));
    }
    total
}

proof fn lemma_sum_take_le(s: Seq<nat>, k: int)
    requires
        0 <= k <= s.len(),
    ensures
        seq_sum(s.take(k)) <= seq_sum(s),
    decreases s.len() - k,
{
    if k < s.len() {
        lemma_seq_sum_take(s, k);
        lemma_sum_take_le(s, k + 1);
    } else {
        assert(s.take(k) =~= s);
    }
}

/// Cut the frames of the given sizes out of `payload` from `pos`.
fn split_sizes(payload: &[u8], pos: usize, sizes: &Vec<usize>) -> (r: Option<Vec<Vec<u8>>>)
    ensures
        opt_frames(r) == split_frames(payload@, pos as int, nats(sizes@)),
{
    let mut frames: Vec<Vec<u8>> = Vec::new();
    let mut at = pos;
    let mut k: usize = 0;
    let ghost ns = nats(sizes@);
    proof {
        assert(ns.take(0) =~= Seq::<nat>::empty());
        assert(frames.deep_view() =~= Seq::<Seq<u8>>::empty());
    }
    while k < sizes.len()
        invariant
            k <= sizes.len(),
            ns == nats(sizes@),
            split_frames(payload@, pos as int, ns.take(k as int)) == Some(frames.deep_view()),
            at == pos + seq_sum(ns.take(k as int)),
            k > 0 ==> at <= payload@.len(),
        decreases sizes.len() - k,
    {
        proof {
            assert(ns.take(k + 1).drop_last() =~= ns.take(k as int));
            assert(ns.take(k + 1).last() == sizes@[k as int] as nat);
            lemma_seq_sum_take(ns, k as int);
        }
        let end = match at.checked_add(sizes[k]) {
            Some(e) => e,
            None => {
                proof {
                    assert(payload.len() == payload@.len());
                    assert(split_frames(payload@, pos as int, ns.take(k + 1)) is None);
                    lemma_split_none_extends(payload@, pos as int, ns, k + 1);
                }
                return None;
            },
        };
        if end > payload.len() {
            proof {
                lemma_split_none_extends(payload@, pos as int, ns, k + 1);
            }
            return None;
        }
        let frame = slice_to_vec(payload, at, end);
        assert(frame.deep_view() =~= frame@);
        let ghost before = frames.deep_view();
        frames.push(frame);
        proof {
            assert(frames.deep_view() =~= before.push(payload@.subrange(at as int, end as int)));
        }
        at = end;
        k += 1;
    }
    proof {
        assert(ns.take(k as int) =~= ns);
    }
    Some(frames)
}

/// One Xiph lace size from `pos`; returns the size and the position after it.
fn read_xiph_size(payload: &[u8], pos: usize) -> (r: Option<(usize, usize)>)
    requires
        payload@.len() <= usize::MAX / 256,
    ensures
        match r {
            Some((z, q)) => xiph_lace_size(payload@, pos as int) == Some((z as nat, q as int))
                && pos < q <= payload@.len() && z <= 255 * (q - pos),
            None => xiph_lace_size(payload@, pos as int) is None,
        },
{
    let mut at = pos;
    let mut size: usize = 0;
    loop
        invariant
            pos <= at,
            at <= pos || at <= payload@.len(),
            payload@.len() <= usize::MAX / 256,
            size <= 255 * (at - pos),
            xiph_lace_size(payload@, pos as int) == match xiph_lace_size(payload@, at as int) {
                Some((z, q)) => Some(((size + z) as nat, q)),
                None => None::<(nat, int)>,
            },
        decreases payload@.len() - at,
    {
        if at >= payload.len() {
            return None;
        }
        let b = payload[at];
        at += 1;
        size += b as usize;
        if b != 255 {
            return Some((size, at));
        }
    }
}

/// Unpack the frames of a laced block whose lace-count byte is at `pos`.
pub fn unlace(payload: &[u8], pos: usize, lacing: Lacing) -> (r: Option<Vec<Vec<u8>>>)
    requires
        lacing != Lacing::NoLacing,
        unlace_defined(payload@, pos as int, lacing),
    ensures
        opt_frames(r) == spec_unlace(payload@, pos as int, lacing),
{
    if pos >= payload.len() {
        return None;
    }
    let frame_count = payload[pos] as usize + 1;
    let mut at = pos + 1;
    let ghost p = payload@;
    let ghost pos1 = at as int;
    let mut sizes: Vec<usize> = Vec::new();
    match lacing {
        Lacing::FixedSize => {
            let remaining = payload.len() - at;
            if remaining % frame_count != 0 {
                return None;
            }
            let each = remaining / frame_count;
            let mut k: usize = 0;
            while k < frame_count
                invariant
                    k <= frame_count,
                    forall|j: int| 0 <= j < k ==> sizes@[j] == each,
                    sizes@.len() == k,
                decreases frame_count - k,
            {
                sizes.push(each);
                k += 1;
            }
            proof {
                assert(nats(sizes@) =~= Seq::new(
                    frame_count as nat,
                    |i: int| ((p.len() - pos1) / (frame_count as int)) as nat,
                ));
            }
        },
        Lacing::Xiph => {
            let mut k: usize = 0;
            proof {
                assert(nats(sizes@) =~= Seq::<nat>::empty());
            }
            while k < frame_count - 1
                invariant
                    k <= frame_count - 1,
                    pos < p.len(),
                    lacing == Lacing::Xiph,
                    pos1 == pos + 1,
                    frame_count == p[pos as int] + 1,
                    p == payload@,
                    p.len() <= usize::MAX / 256,
                    pos1 <= at <= p.len(),
                    xiph_sizes(p, pos1, k as nat) == Some((nats(sizes@), at as int)),
                    seq_sum(nats(sizes@)) <= 255 * (at - pos1),
                decreases frame_count - 1 - k,
            {
                match read_xiph_size(payload, at) {
                    Some((z, q)) => {
                        proof {
                            lemma_seq_sum_push(nats(sizes@), z as nat);
                            assert(nats(sizes@.push(z)) =~= nats(sizes@).push(z as nat));
                        }
                        sizes.push(z);
                        at = q;
                    },
                    None => {
                        proof {
                            lemma_xiph_none_extends(p, pos1, (k + 1) as nat, (frame_count - 1) as nat);
                            assert(xiph_sizes(p, pos1, (frame_count - 1) as nat) is None);
                            assert(lace_sizes(p, pos1, frame_count as nat, Lacing::Xiph) is None);
                            assert(lacing == Lacing::Xiph);
                            assert(pos1 == pos as int + 1);
                            assert(lace_sizes(p, pos as int + 1, (p[pos as int] + 1) as nat, lacing) is None);
                            assert(spec_unlace(p, pos as int, lacing) is None);
                        }
                        return None;
                    },
                }
                k += 1;
            }
            let used = sum_sizes(&sizes);
            if payload.len() < at + used {
                return None;
            }
            let last = payload.len() - (at + used);
            proof {
                assert(nats(sizes@.push(last)) =~= nats(sizes@).push(last as nat));
            }
            sizes.push(last);
        },
        Lacing::Ebml => {
            let (first, len) = match read_vint(payload, at) {
                Some(x) => x,
                None => {
                    proof {
                        if frame_count - 1 > 1 {
                            lemma_ebml_none_extends(p, pos1, 1, (frame_count - 1) as nat);
                        }
                    }
                    return None;
                },
            };
            at += len;
            let mut current = first as i64;
            sizes.push(#[verifier::truncate] (current as usize));
            let mut k: usize = 0;
            proof {
                assert(nats(sizes@) =~= seq![(first as usize) as nat]);
            }
            while k < frame_count - 2
                invariant
                    frame_count >= 2,
                    k <= frame_count - 2,
                    pos < p.len(),
                    lacing == Lacing::Ebml,
                    pos1 == pos + 1,
                    frame_count == p[pos as int] + 1,
                    frame_count <= 256,
                    p == payload@,
                    0 <= current <= 0xFFFFFFFFFFFFFF + k * 0x80000000000000,
                    at <= p.len(),
                    ebml_sizes(p, pos1, (k + 1) as nat) == Some((nats(sizes@), current as int, at as int)),
                    unlace_defined(p, pos as int, Lacing::Ebml),
                decreases frame_count - 2 - k,
            {
                let sv = read_svint(payload, at);
                let (delta, len) = match sv {
                    Some(x) => x,
                    None => {
                        proof {
                            assert(ebml_sizes(p, pos1, (k + 2) as nat) is None);
                            lemma_ebml_none_extends(p, pos1, (k + 2) as nat, (frame_count - 1) as nat);
                        }
                        return None;
                    },
                };
                assert(sv == Some((delta, len)));
                assert(at + len <= p.len());
                assert(p.len() == payload.len());
                assert(-0x80000000000000i64 < delta <= 0x80000000000000i64);
                at += len;
                current += delta;
                if current < 0 {
                    proof {
                        assert(ebml_sizes(p, pos1, (k + 2) as nat) is None);
                        lemma_ebml_none_extends(p, pos1, (k + 2) as nat, (frame_count - 1) as nat);
                    }
                    return None;
                }
                proof {
                    assert(nats(sizes@.push(current as usize)) =~= nats(sizes@).push(
                        (current as usize) as nat,
                    ));
                }
                sizes.push(#[verifier::truncate] (current as usize));
                k += 1;
            }
            let used = sum_sizes(&sizes);
            if payload.len() < at + used {
                return None;
            }
            let last = payload.len() - (at + used);
            proof {
                assert(nats(sizes@.push(last)) =~= nats(sizes@).push(last as nat));
            }
            sizes.push(last);
        },
        Lacing::NoLacing => {
            return None;
        },
    }
    split_sizes(payload, at, &sizes)
}

/// Parse a block payload (the bytes *after* the element header). Works for both
/// `SimpleBlock` and the `Block` inside a `BlockGroup`; for the latter pass the
/// keyframe flag determined by the absence of a `ReferenceBlock`.
pub fn parse_block(payload: &[u8], simple_block: bool, group_is_keyframe: bool) -> (r: Option<
    BlockFrames,
>)
    requires
        parse_block_defined(payload@),
    ensures
        match r {
            Some(b) => spec_parse_block(payload@, simple_block, group_is_keyframe) == Some(
                b.spec_view(),
            ),
            None => spec_parse_block(payload@, simple_block, group_is_keyframe) is None,
        },
{
    let (track_number, mut pos) = match read_vint(payload, 0) {
        Some(x) => x,
        None => return None,
    };
    if pos >= payload.len() || pos + 1 >= payload.len() {
        return None;
    }
    let hi = payload[pos];
    let lo = payload[pos + 1];
    let rel_u = ((hi as u16) << 8) | lo as u16;
    assert(rel_u == hi as int * 256 + lo as int) by (bit_vector)
        requires
            rel_u == ((hi as u16) << 8) | lo as u16,
    ;
    let rel_timecode = rel_u as i16;
    pos += 2;

    if pos >= payload.len() {
        return None;
    }
    let flags = payload[pos];
    pos += 1;

    let is_keyframe = if simple_block {
        flags & 0b1000_0000 != 0
    } else {
        group_is_keyframe
    };
    assert((flags & 0b1000_0000 != 0) == (flags >= 128)) by (bit_vector);

    let lacing = lacing_from_flags(flags);
    let frames = if lacing == Lacing::NoLacing {
        let mut v: Vec<Vec<u8>> = Vec::new();
        let f = slice_to_vec(payload, pos, payload.len());
        assert(f.deep_view() =~= f@);
        v.push(f);
        proof {
            assert(v.deep_view() =~= seq![payload@.subrange(pos as int, payload@.len() as int)]);
        }
        v
    } else {
        match unlace(payload, pos, lacing) {
            Some(fs) => fs,
            None => return None,
        }
    };

    Some(BlockFrames { track_number, rel_timecode, is_keyframe, frames })
}


/// The header flags of a block.
#[derive(Debug, Clone, Copy, PartialEq, Eq, Structural)]
pub struct FrameFlags {
    pub keyframe: bool,
    pub invisible: bool,
    pub lacing: Lacing,
    pub discardable: bool,
}

impl FrameFlags {
    /// Bit 7 keyframe, bit 3 invisible, bits 2-1 lacing, bit 0 discardable.
    pub fn parse(flags: u8) -> (r: Self)
        ensures
            r.keyframe == (flags >= 128),
            r.invisible == ((flags / 8) % 2 == 1),
            r.lacing == spec_lacing(flags),
            r.discardable == (flags % 2 == 1),
    {
        let keyframe = (flags & 0b1000_0000) != 0;
        let invisible = (flags & 0b0000_1000) != 0;
        let lacing = lacing_from_flags(flags);
        let discardable = (flags & 0b0000_0001) != 0;
        assert((flags & 0b1000_0000 != 0) == (flags >= 128)) by (bit_vector);
        assert((flags & 0b0000_1000 != 0) == ((flags / 8) % 2 == 1)) by (bit_vector);
        assert((flags & 0b0000_0001 != 0) == (flags % 2 == 1)) by (bit_vector);
        FrameFlags { keyframe, invisible, lacing, discardable }
    }
}

// ----------------------------------------------------------------------------
// Samples
// ----------------------------------------------------------------------------

/// Ascending order on timestamps.
pub open spec fn ascending() -> spec_fn(i64, i64) -> bool {
    |a: i64, b: i64| a <= b
}

/// Presentation times of the frames, in decode order.
pub open spec fn pts_of(frames: Seq<TimedFrame>) -> Seq<i64> {
    frames.map_values(|f: TimedFrame| f.pts_ticks)
}

/// Reconstructed decode times: the presentation times sorted ascending.
pub open spec fn sorted_pts(frames: Seq<TimedFrame>) -> Seq<i64> {
    pts_of(frames).sort_by(ascending())
}

/// Every difference of two presentation times fits in `i64`.
pub open spec fn pts_spread_fits(frames: Seq<TimedFrame>) -> bool {
    forall|j: int, k: int|
        0 <= j < frames.len() && 0 <= k < frames.len() ==> i64::MIN <= #[trigger] frames[j].pts_ticks
            - #[trigger] frames[k].pts_ticks <= i64::MAX
}

pub open spec fn max_int(a: int, b: int) -> int {
    if a >= b {
        a
    } else {
        b
    }
}

/// `x` reduced into `u32` (two's-complement truncation).
pub open spec fn wrap_u32(x: int) -> u32 {
    (x % 0x1_0000_0000) as u32
}

/// `x` reduced into `i32` (two's-complement truncation).
pub open spec fn wrap_i32(x: int) -> i32 {
    let r = x % 0x1_0000_0000;
    (if r >= 0x8000_0000 {
        r - 0x1_0000_0000
    } else {
        r
    }) as i32
}

/// Duration of the `i`-th video sample: the gap to the next decode time, or the
/// nominal frame duration (at least 1) for the last one.
pub open spec fn video_duration(dts: Seq<i64>, i: int, frame_dur_ticks: i64) -> int {
    if i + 1 < dts.len() {
        max_int(dts[i + 1] - dts[i], 0)
    } else {
        max_int(frame_dur_ticks as int, 1)
    }
}

/// The `i`-th video sample built from frame `f`.
pub open spec fn is_video_sample(
    s: Sample,
    f: TimedFrame,
    dts: Seq<i64>,
    i: int,
    frame_dur_ticks: i64,
) -> bool {
    &&& s.data@ == f.data@
    &&& s.duration == wrap_u32(video_duration(dts, i, frame_dur_ticks))
    &&& s.cts_offset == wrap_i32(f.pts_ticks - dts[i])
    &&& s.is_sync == f.is_keyframe
}

proof fn lemma_ascending_total()
    ensures
        total_ordering(ascending()),
{
    reveal(vstd::relations::total_ordering);
}

proof fn lemma_insert_multiset(s: Seq<i64>, p: int, x: i64)
    requires
        0 <= p <= s.len(),
    ensures
        s.insert(p, x).to_multiset() == s.to_multiset().insert(x),
{
    broadcast use vstd::seq_lib::group_to_multiset_ensures;
    broadcast use vstd::multiset::group_multiset_axioms;

    let a = s.subrange(0, p);
    let b = s.subrange(p, s.len() as int);
    assert(s =~= a + b);
    vstd::seq_lib::lemma_multiset_commutative(a, b);
    vstd::seq_lib::lemma_multiset_commutative(a.push(x), b);
    assert(s.insert(p, x) =~= a.push(x) + b);
    assert(s.insert(p, x).to_multiset() =~= s.to_multiset().insert(x));
}

/// The timestamps sorted ascending (stable insertion sort).
fn sort_ascending(v: &Vec<i64>) -> (res: Vec<i64>)
    ensures
        res@ == v@.sort_by(ascending()),
{
    broadcast use vstd::seq_lib::group_to_multiset_ensures;

    let mut out: Vec<i64> = Vec::new();
    let mut i: usize = 0;
    while i < v.len()
        invariant
            i <= v@.len(),
            sorted_by(out@, ascending()),
            out@.to_multiset() == v@.take(i as int).to_multiset(),
        decreases v@.len() - i,
    {
        let x = v[i];
        let mut p: usize = 0;
        while p < out.len() && out[p] <= x
            invariant
                p <= out@.len(),
                forall|k: int| 0 <= k < p ==> out@[k] <= x,
            decreases out@.len() - p,
        {
            p += 1;
        }
        let ghost before = out@;
        out.insert(p, x);
        proof {
            lemma_insert_multiset(before, p as int, x);
            assert(v@.take(i + 1) =~= v@.take(i as int).push(x));
            v@.take(i as int).to_multiset_ensures();
            assert forall|a: int, b: int| 0 <= a < b < out@.len() implies #[trigger] (ascending())(
                out@[a],
                out@[b],
            ) by {
                if b < p {
                    assert((ascending())(before[a], before[b]));
                } else if b == p {
                } else if a < p {
                    assert(out@[b] == before[b - 1]);
                    assert(before[p as int] > x);
                    if b - 1 > p {
                        assert((ascending())(before[p as int], before[b - 1]));
                    }
                } else if a == p {
                    assert(before[p as int] > x);
                    if b - 1 > p {
                        assert((ascending())(before[p as int], before[b - 1]));
                    }
                } else {
                    assert((ascending())(before[a - 1], before[b - 1]));
                }
            }
        }
        i += 1;
    }
    proof {
        assert(v@.take(v@.len() as int) =~= v@);
        lemma_ascending_total();
        v@.lemma_sort_by_ensures(ascending());
        vstd::seq_lib::lemma_sorted_unique(out@, v@.sort_by(ascending()), ascending());
    }
    out
}

/// A copy of a byte string.
fn copy_bytes(src: &[u8]) -> (res: Vec<u8>)
    ensures
        res@ == src@,
{
    let r = slice_to_vec(src, 0, src.len());
    proof {
        assert(src@.subrange(0, src@.len() as int) =~= src@);
    }
    r
}

/// Every reconstructed decode time is one of the presentation times.
proof fn lemma_sorted_member(frames: Seq<TimedFrame>, i: int)
    requires
        0 <= i < frames.len(),
    ensures
        exists|k: int| 0 <= k < frames.len() && #[trigger] frames[k].pts_ticks == sorted_pts(frames)[i],
        sorted_pts(frames).len() == frames.len(),
{
    broadcast use vstd::seq_lib::group_to_multiset_ensures;

    lemma_ascending_total();
    let pts = pts_of(frames);
    pts.lemma_sort_by_ensures(ascending());
    let sorted = sorted_pts(frames);
    assert(sorted.to_multiset().len() == pts.to_multiset().len());
    assert(sorted.len() == frames.len());
    assert(sorted.contains(sorted[i]));
    assert(pts.contains(sorted[i]));
    let k = choose|k: int| 0 <= k < pts.len() && pts[k] == sorted[i];
    assert(frames[k].pts_ticks == sorted[i]);
}

/// Build video samples from decode-ordered frames, reconstructing a monotonic DTS
/// for reordered (B-frame) streams.
///
/// MKV stores only PTS (in decode order). DTS is reconstructed with the standard
/// "DTS = sorted PTS" method: the multiset of decode-order DTS equals the multiset
/// of PTS, assigned ascending. This makes DTS monotonic and makes per-sample
/// durations the exact sorted-PTS deltas, so a segment accrues no rounding drift.
/// Composition offsets `cts[i] = pts[i] - dts[i]` may be negative (version-1 `trun`).
/// `frame_dur_ticks` only sizes the final sample (no successor).
/// Returns `(base_media_decode_time, samples)` in MKV ticks.
pub fn video_samples(frames: &[TimedFrame], frame_dur_ticks: i64) -> (r: (u64, Vec<Sample>))
    requires
        pts_spread_fits(frames@),
    ensures
        r.1@.len() == frames@.len(),
        frames@.len() == 0 ==> r.0 == 0,
        frames@.len() > 0 ==> r.0 == max_int(sorted_pts(frames@)[0] as int, 0),
        forall|i: int|
            0 <= i < frames@.len() ==> is_video_sample(
                #[trigger] r.1@[i],
                frames@[i],
                sorted_pts(frames@),
                i,
                frame_dur_ticks,
            ),
{
    if frames.len() == 0 {
        return (0, Vec::new());
    }
    let mut pts: Vec<i64> = Vec::new();
    let mut k: usize = 0;
    while k < frames.len()
        invariant
            k <= frames@.len(),
            pts@ == pts_of(frames@).take(k as int),
        decreases frames@.len() - k,
    {
        pts.push(frames[k].pts_ticks);
        k += 1;
        proof {
            assert(pts_of(frames@).take(k as int) =~= pts_of(frames@).take((k - 1) as int).push(
                frames@[k - 1].pts_ticks,
            ));
        }
    }
    proof {
        assert(pts_of(frames@).take(frames@.len() as int) =~= pts_of(frames@));
    }
    let dts_v = sort_ascending(&pts);
    let ghost dts = sorted_pts(frames@);
    proof {
        lemma_sorted_member(frames@, 0);
    }
    let base = dts_v[0];
    let fallback_dur: i64 = if frame_dur_ticks >= 1 { frame_dur_ticks } else { 1 };

    let mut samples: Vec<Sample> = Vec::new();
    let mut i: usize = 0;
    while i < frames.len()
        invariant
            i <= frames@.len(),
            dts_v@ == dts,
            dts == sorted_pts(frames@),
            dts.len() == frames@.len(),
            pts_spread_fits(frames@),
            fallback_dur as int == max_int(frame_dur_ticks as int, 1),
            samples@.len() == i,
            forall|j: int|
                0 <= j < i ==> is_video_sample(
                    #[trigger] samples@[j],
                    frames@[j],
                    dts,
                    j,
                    frame_dur_ticks,
                ),
        decreases frames@.len() - i,
    {
        let f = &frames[i];
        let dts_i = dts_v[i];
        proof {
            lemma_sorted_member(frames@, i as int);
            let k1 = choose|k: int| 0 <= k < frames@.len() && #[trigger] frames@[k].pts_ticks == dts[i as int];
            assert(i64::MIN <= frames@[i as int].pts_ticks - frames@[k1].pts_ticks <= i64::MAX);
            if i + 1 < frames.len() {
                lemma_sorted_member(frames@, i + 1);
                let k2 = choose|k: int|
                    0 <= k < frames@.len() && #[trigger] frames@[k].pts_ticks == dts[i + 1];
                assert(i64::MIN <= frames@[k2].pts_ticks - frames@[k1].pts_ticks <= i64::MAX);
            }
        }
        let duration: i64 = if i + 1 < dts_v.len() {
            let d = dts_v[i + 1] - dts_i;
            if d >= 0 { d } else { 0 }
        } else {
            fallback_dur
        };
        let cts = f.pts_ticks - dts_i;
        let s = Sample {
            data: copy_bytes(f.data.as_slice()),
            duration: to_u32_wrapping(duration),
            cts_offset: to_i32_wrapping(cts),
            is_sync: f.is_keyframe,
        };
        samples.push(s);
        i += 1;
    }

    (if base >= 0 { base as u64 } else { 0 }, samples)
}

/// `x` reduced into `u32` (the cast `x as u32`).
fn to_u32_wrapping(x: i64) -> (r: u32)
    requires
        x >= 0,
    ensures
        r == wrap_u32(x as int),
{
    ((x as u64) % 0x1_0000_0000) as u32
}

/// `x` reduced into `i32` (the cast `x as i32`).
fn to_i32_wrapping(x: i64) -> (r: i32)
    ensures
        r == wrap_i32(x as int),
{
    let m: u64 = 0x1_0000_0000;
    let rem: u64 = if x >= 0 {
        (x as u64) % m
    } else {
        m - 1 - ((-(x + 1)) as u64) % m
    };
    proof {
        if x < 0 {
            let y: int = -(x + 1);
            vstd::arithmetic::div_mod::lemma_fundamental_div_mod(y, m as int);
            vstd::arithmetic::div_mod::lemma_fundamental_div_mod_converse(
                x as int,
                m as int,
                -(y / m as int) - 1,
                rem as int,
            );
        }
        assert(rem as int == (x as int) % 0x1_0000_0000);
    }
    if rem >= 0x8000_0000 {
        (rem as i64 - m as i64) as i32
    } else {
        rem as i32
    }
}


/// Sum of the sample durations.
pub open spec fn duration_sum(samples: Seq<Sample>) -> int
    decreases samples.len(),
{
    if samples.len() == 0 {
        0
    } else {
        duration_sum(samples.drop_last()) + samples.last().duration
    }
}

/// Each composition offset, presentation time minus reconstructed decode time, fits
/// the signed 32-bit `trun` field.
pub open spec fn cts_fit_i32(frames: Seq<TimedFrame>) -> bool {
    forall|i: int|
        0 <= i < frames.len() ==> -0x8000_0000 <= #[trigger] frames[i].pts_ticks - sorted_pts(
            frames,
        )[i] < 0x8000_0000
}

/// Each gap between consecutive reconstructed decode times fits the unsigned 32-bit
/// sample duration.
pub open spec fn gaps_fit_u32(frames: Seq<TimedFrame>) -> bool {
    forall|i: int|
        0 <= i < frames.len() - 1 ==> #[trigger] sorted_pts(frames)[i + 1] - sorted_pts(frames)[i]
            < 0x1_0000_0000
}

/// The reconstructed decode timeline of `video_samples`: decode times are the
/// presentation times in ascending order; starting from the first one, each sample's
/// decode time is the sum of the durations before it, and decode time plus
/// composition offset gives back the frame's presentation time; the durations add up
/// to the presentation span plus the final sample's nominal duration, `max(d, 1)`;
/// with pairwise distinct presentation times the decode times strictly ascend.
/// It holds whenever the offsets, gaps and final duration fit their `trun` fields.
pub proof fn lemma_video_timeline(frames: Seq<TimedFrame>, frame_dur_ticks: i64, samples: Seq<Sample>)
    requires
        frames.len() > 0,
        cts_fit_i32(frames),
        gaps_fit_u32(frames),
        frame_dur_ticks < 0x1_0000_0000,
        samples.len() == frames.len(),
        forall|i: int|
            0 <= i < frames.len() ==> is_video_sample(
                #[trigger] samples[i],
                frames[i],
                sorted_pts(frames),
                i,
                frame_dur_ticks,
            ),
    ensures
        sorted_by(sorted_pts(frames), ascending()),
        sorted_pts(frames).to_multiset() == pts_of(frames).to_multiset(),
        forall|i: int| 0 <= i < frames.len() ==> #[trigger] video_point(frames, samples, i),
        duration_sum(samples) == sorted_pts(frames)[frames.len() - 1] - sorted_pts(frames)[0]
            + max_int(frame_dur_ticks as int, 1),
        pts_of(frames).no_duplicates() ==> forall|i: int, j: int|
            0 <= i < j < frames.len() ==> #[trigger] sorted_pts(frames)[i] < #[trigger] sorted_pts(
                frames,
            )[j],
{
    lemma_dts_sorted(frames);
    if pts_of(frames).no_duplicates() {
        let dts = sorted_pts(frames);
        pts_of(frames).lemma_multiset_has_no_duplicates();
        dts.lemma_multiset_has_no_duplicates_conv();
        assert forall|i: int, j: int| 0 <= i < j < frames.len() implies #[trigger] dts[i] < #[trigger] dts[j] by {
            lemma_sorted_member(frames, i);
            assert((ascending())(dts[i], dts[j]));
            assert(dts[i] != dts[j]);
        }
    }
    lemma_video_points(frames, frame_dur_ticks, samples);
    lemma_video_total(frames, frame_dur_ticks, samples);
}

proof fn lemma_video_points(frames: Seq<TimedFrame>, frame_dur_ticks: i64, samples: Seq<Sample>)
    requires
        cts_fit_i32(frames),
        gaps_fit_u32(frames),
        samples.len() == frames.len(),
        forall|i: int|
            0 <= i < frames.len() ==> is_video_sample(
                #[trigger] samples[i],
                frames[i],
                sorted_pts(frames),
                i,
                frame_dur_ticks,
            ),
    ensures
        forall|i: int| 0 <= i < frames.len() ==> #[trigger] video_point(frames, samples, i),
{
    assert forall|i: int| 0 <= i < frames.len() implies #[trigger] video_point(frames, samples, i) by {
        lemma_video_prefix(frames, frame_dur_ticks, samples, i);
        lemma_video_cts(frames, frame_dur_ticks, samples, i);
    }
}

/// Sample `i` starts where the durations before it end and presents at its frame's time.
pub open spec fn video_point(frames: Seq<TimedFrame>, samples: Seq<Sample>, i: int) -> bool {
    &&& sorted_pts(frames)[0] + duration_sum(samples.take(i)) == sorted_pts(frames)[i]
    &&& sorted_pts(frames)[i] + samples[i].cts_offset == frames[i].pts_ticks
}

/// The reconstructed decode times are ascending and a permutation of the
/// presentation times.
proof fn lemma_dts_sorted(frames: Seq<TimedFrame>)
    ensures
        sorted_by(sorted_pts(frames), ascending()),
        sorted_pts(frames).to_multiset() == pts_of(frames).to_multiset(),
{
    lemma_ascending_total();
    pts_of(frames).lemma_sort_by_ensures(ascending());
}

/// Decode time plus composition offset gives back the presentation time.
proof fn lemma_video_cts(frames: Seq<TimedFrame>, frame_dur_ticks: i64, samples: Seq<Sample>, i: int)
    requires
        0 <= i < frames.len(),
        cts_fit_i32(frames),
        samples.len() == frames.len(),
        is_video_sample(samples[i], frames[i], sorted_pts(frames), i, frame_dur_ticks),
    ensures
        sorted_pts(frames)[i] + samples[i].cts_offset == frames[i].pts_ticks,
{
    let dts = sorted_pts(frames);
    let c = frames[i].pts_ticks - dts[i];
    assert(-0x8000_0000 <= c < 0x8000_0000);
    if c < 0 {
        vstd::arithmetic::div_mod::lemma_fundamental_div_mod_converse(
            c,
            0x1_0000_0000,
            -1,
            c + 0x1_0000_0000,
        );
    } else {
        vstd::arithmetic::div_mod::lemma_small_mod(c as nat, 0x1_0000_0000);
    }
}

/// The durations add up to the span plus the final nominal duration.
proof fn lemma_video_total(frames: Seq<TimedFrame>, frame_dur_ticks: i64, samples: Seq<Sample>)
    requires
        frames.len() > 0,
        gaps_fit_u32(frames),
        frame_dur_ticks < 0x1_0000_0000,
        samples.len() == frames.len(),
        forall|j: int|
            0 <= j < frames.len() ==> is_video_sample(
                #[trigger] samples[j],
                frames[j],
                sorted_pts(frames),
                j,
                frame_dur_ticks,
            ),
    ensures
        duration_sum(samples) == sorted_pts(frames)[frames.len() - 1] - sorted_pts(frames)[0]
            + max_int(frame_dur_ticks as int, 1),
{
    let n = frames.len() as int;
    lemma_video_prefix(frames, frame_dur_ticks, samples, n - 1);
    lemma_sorted_member(frames, n - 1);
    assert(samples.take(n) =~= samples);
    assert(samples.take(n).drop_last() =~= samples.take(n - 1));
    let last = max_int(frame_dur_ticks as int, 1);
    vstd::arithmetic::div_mod::lemma_small_mod(last as nat, 0x1_0000_0000);
    assert(samples[n - 1].duration == last);
}

/// The durations before sample `i` add up to the gap between the first and the
/// `i`-th decode time.
proof fn lemma_video_prefix(frames: Seq<TimedFrame>, frame_dur_ticks: i64, samples: Seq<Sample>, i: int)
    requires
        0 <= i < frames.len(),
        gaps_fit_u32(frames),
        samples.len() == frames.len(),
        forall|j: int|
            0 <= j < frames.len() ==> is_video_sample(
                #[trigger] samples[j],
                frames[j],
                sorted_pts(frames),
                j,
                frame_dur_ticks,
            ),
    ensures
        sorted_pts(frames)[0] + duration_sum(samples.take(i)) == sorted_pts(frames)[i],
    decreases i,
{
    let dts = sorted_pts(frames);
    if i > 0 {
        lemma_video_prefix(frames, frame_dur_ticks, samples, i - 1);
        assert(samples.take(i).drop_last() =~= samples.take(i - 1));
        lemma_ascending_total();
        pts_of(frames).lemma_sort_by_ensures(ascending());
        lemma_sorted_member(frames, i);
        assert((ascending())(dts[i - 1], dts[i]));
        let d = dts[i] - dts[i - 1];
        let j = i - 1;
        assert(sorted_pts(frames)[j + 1] - sorted_pts(frames)[j] < 0x1_0000_0000);
        assert(d < 0x1_0000_0000);
        vstd::arithmetic::div_mod::lemma_small_mod(d as nat, 0x1_0000_0000);
        assert(samples[i - 1].duration == d);
    }
}


/// The audio timeline origin: the first frame's time converted from ticks to samples,
/// `max(pts, 0) * timestamp_scale_ns * sample_rate / 10^9`.
pub open spec fn audio_base_product(frames: Seq<TimedFrame>, sample_rate: u32, timestamp_scale_ns: u64) -> int {
    max_int(frames[0].pts_ticks as int, 0) * timestamp_scale_ns * sample_rate
}

/// A product of ticks, nanoseconds per tick and samples per second, as samples
/// rounded to the nearest (halves up).
pub open spec fn rounded_base(p: int) -> int {
    (p + 500_000_000) / 1_000_000_000
}

/// An audio sample built from frame `f`: never reordered, always a sync sample.
pub open spec fn is_audio_sample(s: Sample, f: TimedFrame, samples_per_frame: u32) -> bool {
    &&& s.data@ == f.data@
    &&& s.duration == samples_per_frame
    &&& s.cts_offset == 0
    &&& s.is_sync
}

/// Build audio samples. Audio is never reordered (cts = 0) and uses a sample-count
/// timeline: `samples_per_frame` per frame in the sample-rate timescale, with the
/// segment anchored at the first frame's time converted to samples, rounded to the
/// nearest sample. Returns
/// `(base_media_decode_time_in_samples, samples)`.
pub fn audio_samples(
    frames: &[TimedFrame],
    samples_per_frame: u32,
    sample_rate: u32,
    timestamp_scale_ns: u64,
) -> (r: (u64, Vec<Sample>))
    requires
        frames@.len() > 0 ==> audio_base_product(frames@, sample_rate, timestamp_scale_ns)
            <= u128::MAX,
    ensures
        r.1@.len() == frames@.len(),
        frames@.len() == 0 ==> r.0 == 0,
        frames@.len() > 0 ==> r.0 as int == rounded_base(
            audio_base_product(frames@, sample_rate, timestamp_scale_ns),
        ) % 0x1_0000_0000_0000_0000,
        forall|i: int|
            0 <= i < frames@.len() ==> is_audio_sample(
                #[trigger] r.1@[i],
                frames@[i],
                samples_per_frame,
            ),
{
    if frames.len() == 0 {
        return (0, Vec::new());
    }
    // ticks -> seconds -> samples: ticks * timestamp_scale_ns / 1e9 * sample_rate
    let first_ticks: u128 = if frames[0].pts_ticks >= 0 { frames[0].pts_ticks as u128 } else { 0 };
    proof {
        let a = first_ticks as int;
        let b = timestamp_scale_ns as int;
        let c = sample_rate as int;
        assert(a * b * c <= u128::MAX);
        if c >= 1 {
            assert(0 <= a * b <= a * b * c) by (nonlinear_arith)
                requires
                    a >= 0,
                    b >= 0,
                    c >= 1,
            ;
        }
    }
    let ab: u128 = if sample_rate == 0 { 0 } else { first_ticks * timestamp_scale_ns as u128 };
    let prod: u128 = if sample_rate == 0 { 0 } else { ab * sample_rate as u128 };
    let q: u128 = prod / 1_000_000_000u128;
    let base: u128 = if prod % 1_000_000_000u128 >= 500_000_000u128 { q + 1 } else { q };
    proof {
        assert(base == (prod + 500_000_000) / 1_000_000_000) by (nonlinear_arith)
            requires
                q == prod / 1_000_000_000,
                base == (if prod % 1_000_000_000 >= 500_000_000 { q + 1 } else { q as int }),
        ;
    }
    proof {
        if sample_rate == 0 {
            assert(audio_base_product(frames@, sample_rate, timestamp_scale_ns) == 0) by (
            nonlinear_arith)
                requires
                    sample_rate == 0,
                    audio_base_product(frames@, sample_rate, timestamp_scale_ns) == max_int(
                        frames@[0].pts_ticks as int,
                        0,
                    ) * timestamp_scale_ns * sample_rate,
            ;
        }
    }

    let mut samples: Vec<Sample> = Vec::new();
    let mut i: usize = 0;
    while i < frames.len()
        invariant
            i <= frames@.len(),
            samples@.len() == i,
            forall|j: int|
                0 <= j < i ==> is_audio_sample(#[trigger] samples@[j], frames@[j], samples_per_frame),
        decreases frames@.len() - i,
    {
        samples.push(
            Sample {
                data: copy_bytes(frames[i].data.as_slice()),
                duration: samples_per_frame,
                cts_offset: 0,
                is_sync: true,
            },
        );
        i += 1;
    }
    ((base % 0x1_0000_0000_0000_0000) as u64, samples)
}

// ----------------------------------------------------------------------------
// Subtitles
// ----------------------------------------------------------------------------

/// One subtitle cue with millisecond start/end and UTF-8 text.
#[derive(Debug, Clone)]
pub struct SubtitleCue {
    pub start_ms: u64,
    pub end_ms: u64,
    pub text: String,
}

/// `HH:MM:SS.mmm` (hours widen past two digits when needed).
pub open spec fn vtt_time(ms: u64) -> Seq<char> {
    zero_padded((ms / 3_600_000) as nat, 2) + seq![':'] + zero_padded(
        ((ms % 3_600_000) / 60_000) as nat,
        2,
    ) + seq![':'] + zero_padded(((ms % 60_000) / 1000) as nat, 2) + seq!['.'] + zero_padded(
        (ms % 1000) as nat,
        3,
    )
}

/// The WebVTT block of one cue.
pub open spec fn vtt_cue(c: SubtitleCue) -> Seq<char> {
    vtt_time(c.start_ms) + seq![' ', '-', '-', '>', ' '] + vtt_time(c.end_ms) + seq!['\n']
        + trim_end_chars(c.text@) + seq!['\n', '\n']
}

pub open spec fn vtt_cues(cues: Seq<SubtitleCue>) -> Seq<char>
    decreases cues.len(),
{
    if cues.len() == 0 {
        Seq::empty()
    } else {
        vtt_cues(cues.drop_last()) + vtt_cue(cues.last())
    }
}

/// A WebVTT document: the signature line, a blank line, then the cues.
pub open spec fn spec_webvtt(cues: Seq<SubtitleCue>) -> Seq<char> {
    seq!['W', 'E', 'B', 'V', 'T', 'T', '\n', '\n'] + vtt_cues(cues)
}

fn format_vtt_time(ms: u64) -> (res: String)
    ensures
        res@ == vtt_time(ms),
{
    let h = ms / 3_600_000;
    let m = (ms % 3_600_000) / 60_000;
    let s = (ms % 60_000) / 1000;
    let millis = ms % 1000;
    let mut out = String::new();
    push_zero_padded(&mut out, h, 2);
    proof { reveal_strlit(":"); }
    out.append(":");
    push_zero_padded(&mut out, m, 2);
    out.append(":");
    push_zero_padded(&mut out, s, 2);
    proof { reveal_strlit("."); }
    out.append(".");
    push_zero_padded(&mut out, millis, 3);
    proof {
        assert(out@ =~= vtt_time(ms));
    }
    out
}

/// Assemble a WebVTT document from cues. Each cue is its `start --> end` timing line
/// (`.` millisecond separator), its text with trailing whitespace removed, and a
/// blank line.
pub fn cues_to_webvtt(cues: &[SubtitleCue]) -> (res: String)
    ensures
        res@ == spec_webvtt(cues@),
{
    let mut out = String::new();
    proof { reveal_strlit("WEBVTT\n\n"); }
    out.append("WEBVTT\n\n");
    let ghost header = out@;
    proof {
        assert(header =~= seq!['W', 'E', 'B', 'V', 'T', 'T', '\n', '\n']);
    }
    let mut i: usize = 0;
    while i < cues.len()
        invariant
            i <= cues@.len(),
            header == seq!['W', 'E', 'B', 'V', 'T', 'T', '\n', '\n'],
            out@ == header + vtt_cues(cues@.take(i as int)),
        decreases cues@.len() - i,
    {
        let cue = &cues[i];
        let ghost before = out@;
        let start = format_vtt_time(cue.start_ms);
        out.append(start.as_str());
        proof { reveal_strlit(" --> "); }
        out.append(" --> ");
        let end = format_vtt_time(cue.end_ms);
        out.append(end.as_str());
        proof { reveal_strlit("\n"); }
        out.append("\n");
        out.append(trim_end(cue.text.as_str()));
        proof { reveal_strlit("\n\n"); }
        out.append("\n\n");
        i += 1;
        proof {
            assert(out@ =~= before + vtt_cue(cues@[i - 1]));
            assert(cues@.take(i as int).drop_last() =~= cues@.take((i - 1) as int));
        }
    }
    proof {
        assert(cues@.take(cues@.len() as int) =~= cues@);
    }
    out
}

} // verus!
