//! Big-endian byte helpers shared by the EBML reader/writer and the ISO-BMFF writer.

use vstd::prelude::*;

verus! {

/// `256^n`.
pub open spec fn pow256(n: nat) -> nat
    decreases n,
{
    if n == 0 {
        1
    } else {
        256 * pow256((n - 1) as nat)
    }
}

/// The `n` low-order bytes of `x`, most significant first (i.e. `x mod 256^n`
/// written big-endian in exactly `n` bytes).
pub open spec fn be_bytes(x: nat, n: nat) -> Seq<u8>
    decreases n,
{
    if n == 0 {
        seq![]
    } else {
        be_bytes(x / 256, (n - 1) as nat).push((x % 256) as u8)
    }
}

/// The unsigned integer denoted by a big-endian byte string.
pub open spec fn be_value(s: Seq<u8>) -> nat
    decreases s.len(),
{
    if s.len() == 0 {
        0
    } else {
        be_value(s.drop_last()) * 256 + s.last() as nat
    }
}

pub proof fn lemma_pow256_pos(n: nat)
    ensures
        pow256(n) >= 1,
    decreases n,
{
    if n > 0 {
        lemma_pow256_pos((n - 1) as nat);
    }
}

pub proof fn lemma_be_bytes_len(x: nat, n: nat)
    ensures
        be_bytes(x, n).len() == n,
    decreases n,
{
    if n > 0 {
        lemma_be_bytes_len(x / 256, (n - 1) as nat);
    }
}

/// Writing `n` bytes big-endian and reading them back gives `x mod 256^n`.
pub proof fn lemma_be_value_of_bytes(x: nat, n: nat)
    ensures
        be_value(be_bytes(x, n)) == x % pow256(n),
    decreases n,
{
    if n > 0 {
        let s = be_bytes(x, n);
        lemma_be_bytes_len(x / 256, (n - 1) as nat);
        assert(s.drop_last() =~= be_bytes(x / 256, (n - 1) as nat));
        lemma_be_value_of_bytes(x / 256, (n - 1) as nat);
        lemma_pow256_pos((n - 1) as nat);
        let p = pow256((n - 1) as nat);
        // (x / 256) % p * 256 + x % 256 == x % (256 * p)
        assert(((x / 256) % p) * 256 + x % 256 == x % (256 * p)) by (nonlinear_arith)
            requires
                p >= 1,
        {
            let q = x / 256;
            let r = x % 256;
            assert(x == 256 * q + r);
            let a = q / p;
            let b = q % p;
            assert(q == p * a + b);
            assert(x == (256 * p) * a + (256 * b + r));
            assert(0 <= 256 * b + r < 256 * p);
            vstd::arithmetic::div_mod::lemma_fundamental_div_mod_converse(
                x as int,
                (256 * p) as int,
                a as int,
                (256 * b + r) as int,
            );
        }
    }
}

/// The big-endian bytes of a value that fits in `n` bytes denote that value.
pub proof fn lemma_be_value_of_small(x: nat, n: nat)
    requires
        x < pow256(n),
    ensures
        be_value(be_bytes(x, n)) == x,
{
    lemma_be_value_of_bytes(x, n);
    vstd::arithmetic::div_mod::lemma_small_mod(x, pow256(n));
}

/// Append the `n` low-order bytes of `x`, most significant first.
pub fn push_be(out: &mut Vec<u8>, x: u64, n: usize)
    ensures
        final(out)@ == old(out)@ + be_bytes(x as nat, n as nat),
    decreases n,
{
    if n > 0 {
        push_be(out, x / 256, n - 1);
        out.push((x % 256) as u8);
        proof {
            assert(be_bytes(x as nat, n as nat) =~= be_bytes((x / 256) as nat, (n - 1) as nat).push(
                (x % 256) as u8,
            ));
        }
    }
}

/// Append every byte of `src` to `out`.
pub fn extend_bytes(out: &mut Vec<u8>, src: &[u8])
    ensures
        final(out)@ == old(out)@ + src@,
{
    let mut i: usize = 0;
    let ghost start = out@;
    while i < src.len()
        invariant
            i <= src.len(),
            out@ == start + src@.subrange(0, i as int),
        decreases src.len() - i,
    {
        out.push(src[i]);
        i += 1;
        proof {
            assert(src@.subrange(0, i as int) =~= src@.subrange(0, (i - 1) as int).push(
                src@[i - 1],
            ));
        }
    }
    proof {
        assert(src@.subrange(0, src@.len() as int) =~= src@);
    }
}

/// Copy of `src[start..end]`.
pub fn slice_to_vec(src: &[u8], start: usize, end: usize) -> (res: Vec<u8>)
    requires
        start <= end <= src.len(),
    ensures
        res@ == src@.subrange(start as int, end as int),
{
    let mut out: Vec<u8> = Vec::new();
    let mut i = start;
    while i < end
        invariant
            start <= i <= end <= src.len(),
            out@ == src@.subrange(start as int, i as int),
        decreases end - i,
    {
        out.push(src[i]);
        i += 1;
        proof {
            assert(src@.subrange(start as int, i as int) =~= src@.subrange(
                start as int,
                (i - 1) as int,
            ).push(src@[i - 1]));
        }
    }
    out
}


/// A big-endian byte string denotes a value below `256^len`.
pub proof fn lemma_be_value_bound(s: Seq<u8>)
    ensures
        be_value(s) < pow256(s.len()),
    decreases s.len(),
{
    if s.len() > 0 {
        lemma_be_value_bound(s.drop_last());
    }
}

/// `256^8 = 2^64`.
pub proof fn lemma_pow256_8()
    ensures
        pow256(8) == 0x1_0000_0000_0000_0000,
{
    reveal_with_fuel(pow256, 9);
}

/// The unsigned value of at most eight big-endian bytes.
pub fn fold_be(bytes: &[u8]) -> (r: u64)
    requires
        bytes@.len() <= 8,
    ensures
        r == be_value(bytes@),
{
    let mut value: u64 = 0;
    let mut i: usize = 0;
    proof {
        lemma_pow256_8();
    }
    while i < bytes.len()
        invariant
            i <= bytes@.len() <= 8,
            pow256(8) == 0x1_0000_0000_0000_0000,
            value == be_value(bytes@.take(i as int)),
        decreases bytes@.len() - i,
    {
        proof {
            lemma_be_value_bound(bytes@.take(i as int));
            lemma_pow256_monotone(i as nat, 7);
            assert(bytes@.take(i + 1).drop_last() =~= bytes@.take(i as int));
        }
        value = value * 256 + bytes[i] as u64;
        i += 1;
    }
    proof {
        assert(bytes@.take(bytes@.len() as int) =~= bytes@);
    }
    value
}

pub proof fn lemma_pow256_monotone(a: nat, b: nat)
    requires
        a <= b,
    ensures
        pow256(a) <= pow256(b),
    decreases b,
{
    if a < b {
        lemma_pow256_monotone(a, (b - 1) as nat);
        lemma_pow256_pos((b - 1) as nat);
    }
}

/// `be_value` splits off the first byte.
pub proof fn lemma_be_value_first(s: Seq<u8>)
    requires
        s.len() >= 1,
    ensures
        be_value(s) == s[0] * pow256((s.len() - 1) as nat) + be_value(s.drop_first()),
    decreases s.len(),
{
    if s.len() == 1 {
        assert(s.drop_first() =~= Seq::<u8>::empty());
        assert(s.drop_last() =~= Seq::<u8>::empty());
        assert(be_value(Seq::<u8>::empty()) == 0);
        assert(s.last() == s[0]);
        assert(be_value(s) == be_value(s.drop_last()) * 256 + s.last() as nat);
        assert(pow256(0) == 1);
    } else {
        let t = s.drop_last();
        lemma_be_value_first(t);
        assert(s.drop_first().drop_last() =~= t.drop_first());
        assert(t[0] == s[0]);
        assert(s.drop_first().last() == s.last());
        let p = pow256((s.len() - 2) as nat);
        assert(pow256((s.len() - 1) as nat) == 256 * p);
        let a = s[0] as int;
        let b = be_value(t.drop_first()) as int;
        let c = s.last() as int;
        assert((a * p + b) * 256 + c == a * (256 * p) + (b * 256 + c)) by (nonlinear_arith);
        assert(be_value(s) == be_value(t) * 256 + s.last() as nat);
        assert(be_value(s.drop_first()) == be_value(s.drop_first().drop_last()) * 256
            + s.drop_first().last() as nat);
    }
}

/// The two's-complement value of a big-endian byte string, its sign taken from the
/// top bit of the first byte (0 for no bytes).
pub open spec fn signed_value(s: Seq<u8>) -> int {
    if s.len() > 0 && s[0] >= 128 {
        be_value(s) - pow256(s.len())
    } else {
        be_value(s) as int
    }
}

/// The two's-complement value of at most eight big-endian bytes.
pub fn fold_signed(bytes: &[u8]) -> (r: i64)
    requires
        bytes@.len() <= 8,
    ensures
        r == signed_value(bytes@),
{
    let v = fold_be(bytes);
    let n = bytes.len();
    if n == 0 {
        return 0;
    }
    let ghost s = bytes@;
    let mut p: u128 = 1;
    let mut i: usize = 0;
    while i < n
        invariant
            i <= n <= 8,
            p == pow256(i as nat),
        decreases n - i,
    {
        proof {
            lemma_pow256_monotone(i as nat, 7);
            lemma_pow256_8();
        }
        p = p * 256;
        i += 1;
    }
    proof {
        lemma_be_value_first(s);
        lemma_be_value_bound(s.drop_first());
        lemma_be_value_bound(s);
        lemma_pow256_monotone((n - 1) as nat, 7);
        reveal_with_fuel(pow256, 9);
        assert(pow256(n as nat) == 256 * pow256((n - 1) as nat));
    }
    let ghost q = pow256((n - 1) as nat);
    let ghost rest = be_value(s.drop_first());
    if bytes[0] >= 128 {
        proof {
            assert(v >= 128 * q) by (nonlinear_arith)
                requires
                    v == s[0] * q + rest,
                    s[0] >= 128,
                    rest >= 0,
            ;
            assert(q <= 0x100_0000_0000_0000);
        }
        let r: i128 = v as i128 - p as i128;
        proof {
            assert(r < 0);
            assert(r >= -(128 * q)) by (nonlinear_arith)
                requires
                    r == v - 256 * q,
                    v >= 128 * q,
            ;
        }
        r as i64
    } else {
        proof {
            assert(v < 128 * q) by (nonlinear_arith)
                requires
                    v == s[0] * q + rest,
                    s[0] < 128,
                    rest < q,
            ;
        }
        v as i64
    }
}

/// Bytes of `t` stay where they are, shifted by `x`, in `x + t`.
pub proof fn lemma_in_left(x: Seq<u8>, t: Seq<u8>, i: int, n: int)
    requires
        0 <= i,
        0 <= n,
        i + n <= t.len(),
    ensures
        (x + t).subrange(x.len() + i, x.len() + i + n) == t.subrange(i, i + n),
{
    assert((x + t).subrange(x.len() + i, x.len() + i + n) =~= t.subrange(i, i + n));
}

/// Bytes of `t` stay where they are in `t + y`.
pub proof fn lemma_in_right(t: Seq<u8>, y: Seq<u8>, i: int, n: int)
    requires
        0 <= i,
        0 <= n,
        i + n <= t.len(),
    ensures
        (t + y).subrange(i, i + n) == t.subrange(i, i + n),
{
    assert((t + y).subrange(i, i + n) =~= t.subrange(i, i + n));
}

} // verus!
