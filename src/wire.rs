//! Big-endian fixed-width integers, the building block of every wire encoding.
use vstd::prelude::*;

verus! {

/// 256 to the power `w`: the number of values that fit in `w` bytes.
pub open spec fn pow256(w: nat) -> nat
    decreases w,
{
    if w == 0 {
        1
    } else {
        256 * pow256((w - 1) as nat)
    }
}

/// The `w` low-order bytes of `v`, most significant first.
pub open spec fn be_bytes(v: nat, w: nat) -> Seq<u8>
    decreases w,
{
    if w == 0 {
        seq![]
    } else {
        be_bytes(v / 256, (w - 1) as nat).push((v % 256) as u8)
    }
}

/// The number that the bytes `s` spell, most significant first.
pub open spec fn be_value(s: Seq<u8>) -> nat
    decreases s.len(),
{
    if s.len() == 0 {
        0
    } else {
        be_value(s.drop_last()) * 256 + s.last() as nat
    }
}

pub proof fn lemma_pow256_u64()
    ensures
        pow256(8) == 0x1_0000_0000_0000_0000,
        pow256(7) == 0x100_0000_0000_0000,
        pow256(4) == 0x1_0000_0000,
        pow256(2) == 0x1_0000,
        pow256(1) == 0x100,
{
    reveal_with_fuel(pow256, 9);
}

pub proof fn lemma_pow256_mono(a: nat, b: nat)
    requires
        a <= b,
    ensures
        pow256(a) <= pow256(b),
    decreases b,
{
    if a < b {
        lemma_pow256_mono(a, (b - 1) as nat);
    }
}

pub proof fn lemma_be_bytes_len(v: nat, w: nat)
    ensures
        be_bytes(v, w).len() == w,
    decreases w,
{
    if w > 0 {
        lemma_be_bytes_len(v / 256, (w - 1) as nat);
    }
}

pub proof fn lemma_be_value_bound(s: Seq<u8>)
    ensures
        be_value(s) < pow256(s.len()),
    decreases s.len(),
{
    if s.len() > 0 {
        lemma_be_value_bound(s.drop_last());
        let p = pow256((s.len() - 1) as nat);
        let h = be_value(s.drop_last());
        assert(h * 256 + (s.last() as nat) < 256 * p) by (nonlinear_arith)
            requires
                h < p,
                (s.last() as nat) < 256,
        ;
    }
}

/// Reading back the bytes of a number that fits gives the number.
pub proof fn lemma_be_round_trip(v: nat, w: nat)
    requires
        v < pow256(w),
    ensures
        be_bytes(v, w).len() == w,
        be_value(be_bytes(v, w)) == v,
    decreases w,
{
    lemma_be_bytes_len(v, w);
    if w > 0 {
        let p = pow256((w - 1) as nat);
        assert(v / 256 < p) by (nonlinear_arith)
            requires
                v < 256 * p,
        ;
        lemma_be_round_trip(v / 256, (w - 1) as nat);
        let s = be_bytes(v, w);
        assert(s.drop_last() == be_bytes(v / 256, (w - 1) as nat));
        assert((v / 256) * 256 + v % 256 == v) by (nonlinear_arith);
    }
}

/// Bytes are the encoding of the number they spell.
pub proof fn lemma_be_value_bytes(s: Seq<u8>)
    ensures
        be_bytes(be_value(s), s.len()) == s,
    decreases s.len(),
{
    if s.len() > 0 {
        let h = be_value(s.drop_last());
        let v = h * 256 + s.last() as nat;
        assert(v / 256 == h && v % 256 == s.last() as nat) by (nonlinear_arith)
            requires
                v == h * 256 + s.last() as nat,
                (s.last() as nat) < 256,
        ;
        lemma_be_value_bytes(s.drop_last());
        assert(be_bytes(v, s.len()) =~= s);
    }
}

/// Two numbers that fit in `w` bytes have the same bytes only if they are equal.
pub proof fn lemma_be_bytes_injective(a: nat, b: nat, w: nat)
    requires
        a < pow256(w),
        b < pow256(w),
        be_bytes(a, w) == be_bytes(b, w),
    ensures
        a == b,
{
    lemma_be_round_trip(a, w);
    lemma_be_round_trip(b, w);
}

/// Appends the `w` low-order bytes of `v` to `buf`, most significant first.
pub fn push_be(v: u64, w: usize, buf: &mut Vec<u8>)
    requires
        w <= 8,
    ensures
        final(buf)@ == old(buf)@ + be_bytes(v as nat, w as nat),
    decreases w,
{
    if w > 0 {
        push_be(v / 256, w - 1, buf);
        buf.push((v % 256) as u8);
    } else {
        assert(buf@ == buf@ + be_bytes(v as nat, 0));
    }
    proof {
        if w > 0 {
            assert(final(buf)@ =~= old(buf)@ + be_bytes(v as nat, w as nat));
        }
    }
}

/// Reads `w` bytes of `buf` from `start` as a big-endian number.
pub fn read_be(buf: &[u8], start: usize, w: usize) -> (r: u64)
    requires
        w <= 8,
        start + w <= buf@.len(),
    ensures
        r as nat == be_value(buf@.subrange(start as int, start + w)),
    decreases w,
{
    if w == 0 {
        0
    } else {
        let high = read_be(buf, start, w - 1);
        let ghost s = buf@.subrange(start as int, start + w);
        proof {
            assert(s.drop_last() =~= buf@.subrange(start as int, start + w - 1));
            lemma_be_value_bound(s.drop_last());
            lemma_pow256_mono((w - 1) as nat, 7);
            lemma_pow256_u64();
            assert(high < 0x100_0000_0000_0000);
        }
        let n: usize = buf.len();
        assert(start + w <= n);
        let idx: usize = start + (w - 1);
        let low: u64 = buf[idx] as u64;
        high * 256 + low
    }
}

} // verus!
