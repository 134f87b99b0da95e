//! Unsigned numbers as big-endian bytes.
use vstd::prelude::*;
use crate::encoding::be_value;

verus! {

/// The shortest big-endian bytes of `n`: no leading zero byte, and a
/// single zero byte for zero.
pub open spec fn canonical_be(n: nat) -> Seq<u8>
    decreases n,
{
    if n < 256 {
        seq![n as u8]
    } else {
        canonical_be(n / 256).push((n % 256) as u8)
    }
}

/// The canonical bytes of `n` are worth `n`, are never empty, and start
/// with a non-zero byte unless `n` is zero.
pub proof fn lemma_canonical_be(n: nat)
    ensures
        be_value(canonical_be(n)) == n,
        canonical_be(n).len() >= 1,
        n > 0 ==> canonical_be(n)[0] != 0,
    decreases n,
{
    if n >= 256 {
        lemma_canonical_be(n / 256);
        let s = canonical_be(n / 256);
        assert(s.push((n % 256) as u8).drop_last() =~= s);
        assert(s.push((n % 256) as u8)[0] == s[0]);
        assert(n / 256 > 0);
        assert(((n % 256) as u8) as nat == n % 256);
        assert((n / 256) * 256 + n % 256 == n) by (nonlinear_arith);
    } else {
        assert((n as u8) as nat == n);
        assert(seq![n as u8].drop_last() =~= Seq::<u8>::empty());
        assert(be_value(Seq::<u8>::empty()) == 0);
    }
}

/// The shortest big-endian bytes of `n`.
pub fn uint_bytes(n: u64) -> (r: Vec<u8>)
    ensures
        r@ == canonical_be(n as nat),
    decreases n,
{
    if n < 256 {
        let v: Vec<u8> = vec![n as u8];
        v
    } else {
        let mut v = uint_bytes(n / 256);
        v.push((n % 256) as u8);
        v
    }
}

/// The value of big-endian bytes, when it is below 2^64.
pub fn be_u64(bytes: &[u8]) -> (r: Option<u64>)
    ensures
        match r {
            Some(v) => v == be_value(bytes@),
            None => be_value(bytes@) >= 0x1_0000_0000_0000_0000,
        },
{
    let mut acc: u64 = 0;
    let mut i: usize = 0;
    while i < bytes.len()
        invariant
            i <= bytes@.len(),
            acc == be_value(bytes@.subrange(0, i as int)),
        decreases bytes@.len() - i,
    {
        let ghost prefix = bytes@.subrange(0, i as int);
        assert(bytes@.subrange(0, i + 1).drop_last() =~= prefix);
        if acc > 0xff_ffff_ffff_ffff {
            proof {
                lemma_be_value_prefix_bound(bytes@, (i + 1) as nat);
            }
            return None;
        }
        acc = acc * 256 + bytes[i] as u64;
        i = i + 1;
    }
    assert(bytes@.subrange(0, i as int) =~= bytes@);
    Some(acc)
}

/// A sequence is worth at least what any of its prefixes is worth.
pub proof fn lemma_be_value_prefix_bound(s: Seq<u8>, k: nat)
    requires
        k <= s.len(),
    ensures
        be_value(s) >= be_value(s.subrange(0, k as int)),
    decreases s.len(),
{
    if k < s.len() {
        assert(s.drop_last() =~= s.drop_last().subrange(0, s.len() - 1));
        lemma_be_value_prefix_bound(s.drop_last(), k);
        assert(s.drop_last().subrange(0, k as int) =~= s.subrange(0, k as int));
    } else {
        assert(s.subrange(0, k as int) =~= s);
    }
}

} // verus!
