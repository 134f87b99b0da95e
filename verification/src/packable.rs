//! Order-preserving byte packings of numbers.
//!
//! Floats are packed from their big-endian IEEE 754 bytes: a non-negative
//! float gets its top bit set, a negative one has every bit flipped, so that
//! the packed bytes sort as the numbers do. Integers are packed as a sign
//! byte (`0x00` negative, `0x01` otherwise) followed by the big-endian
//! magnitude, in two's complement when negative.
use vstd::prelude::*;

verus! {

/// Types that pack into bytes.
pub trait Packable {
    spec fn packable(&self) -> bool;

    spec fn packed(&self) -> Seq<u8>;

    fn pack(&self) -> (r: Vec<u8>)
        requires
            self.packable(),
        ensures
            r@ == self.packed(),
    ;
}

/// Byte strings that unpack into a `T`.
pub trait Unpackable<T: View>: Sized {
    spec fn unpackable(&self) -> bool;

    spec fn unpacked(&self) -> Option<T::V>;

    fn unpack(&self) -> (r: Option<T>)
        requires
            self.unpackable(),
        ensures
            match self.unpacked() {
                Some(v) => r matches Some(x) && x@ == v,
                None => r is None,
            },
    ;
}

/// Every byte of `s` flipped.
pub open spec fn complement(s: Seq<u8>) -> Seq<u8> {
    Seq::new(s.len(), |i: int| (255 - s[i]) as u8)
}

/// `s` read as a big-endian number plus one, carried from the last byte
/// and cut to the same length.
pub open spec fn increment(s: Seq<u8>) -> Seq<u8>
    decreases s.len(),
{
    if s.len() == 0 {
        s
    } else if s.last() == 255 {
        increment(s.drop_last()).push(0u8)
    } else {
        s.drop_last().push((s.last() + 1) as u8)
    }
}

/// Two's complement negation of a fixed-length big-endian number.
pub open spec fn negate(s: Seq<u8>) -> Seq<u8> {
    increment(complement(s))
}

proof fn lemma_increment_len(s: Seq<u8>)
    ensures
        increment(s).len() == s.len(),
    decreases s.len(),
{
    if s.len() > 0 && s.last() == 255 {
        lemma_increment_len(s.drop_last());
    }
}

/// Negating twice gives the bytes back.
pub proof fn lemma_negate_involution(s: Seq<u8>)
    ensures
        negate(negate(s)) == s,
    decreases s.len(),
{
    if s.len() == 0 {
        assert(complement(s) =~= s);
        assert(negate(s) =~= s);
        assert(complement(negate(s)) =~= s);
    } else {
        let p = s.drop_last();
        let x = s.last();
        lemma_negate_involution(p);
        assert(complement(s) =~= complement(p).push((255 - x) as u8));
        assert(complement(s).drop_last() =~= complement(p));
        lemma_increment_len(complement(p));
        if x == 0 {
            assert(negate(s) =~= negate(p).push(0u8));
            assert(complement(negate(s)) =~= complement(negate(p)).push(255u8));
            assert(complement(negate(s)).drop_last() =~= complement(negate(p)));
            assert(negate(negate(s)) =~= negate(negate(p)).push(0u8));
            assert(s =~= p.push(0u8));
        } else {
            assert(negate(s) =~= complement(p).push((256 - x) as u8));
            assert(complement(complement(p)) =~= p);
            assert(complement(negate(s)) =~= p.push((x - 1) as u8));
            assert(complement(negate(s)).drop_last() =~= p);
            assert(s =~= p.push(x));
        }
    }
}

/// Negates the big-endian number in `bytes` in place, two's complement.
pub fn negate_in_place(bytes: &mut Vec<u8>)
    ensures
        final(bytes)@ == negate(old(bytes)@),
{
    let len = bytes.len();
    let mut i: usize = 0;
    while i < len
        invariant
            i <= len,
            len == bytes@.len(),
            len == old(bytes)@.len(),
            bytes@ == complement(old(bytes)@).subrange(0, i as int) + old(bytes)@.subrange(
                i as int,
                len as int,
            ),
        decreases len - i,
    {
        let b = bytes[i];
        bytes.set(i, 255 - b);
        i = i + 1;
        assert(bytes@ =~= complement(old(bytes)@).subrange(0, i as int) + old(bytes)@.subrange(
            i as int,
            len as int,
        ));
    }
    let ghost c = complement(old(bytes)@);
    assert(bytes@ =~= c);
    // add one, carried from the last byte
    let mut j: usize = len;
    while j > 0
        invariant
            j <= len,
            len == bytes@.len(),
            len == c.len(),
            c == complement(old(bytes)@),
            bytes@.subrange(0, j as int) == c.subrange(0, j as int),
            increment(c) == increment(c.subrange(0, j as int)) + bytes@.subrange(j as int, len as int),
        decreases j,
    {
        let b = bytes[j - 1];
        let ghost pre = c.subrange(0, j as int);
        assert(pre.drop_last() =~= c.subrange(0, j - 1));
        if b == 255 {
            bytes.set(j - 1, 0);
            assert(increment(pre) == increment(pre.drop_last()).push(0u8));
            j = j - 1;
            assert(bytes@.subrange(0, j as int) =~= c.subrange(0, j as int));
            assert(increment(c) =~= increment(c.subrange(0, j as int)) + bytes@.subrange(
                j as int,
                len as int,
            ));
        } else {
            bytes.set(j - 1, b + 1);
            assert(increment(pre) == pre.drop_last().push((b + 1) as u8));
            assert(bytes@ =~= increment(c));
            return;
        }
    }
    assert(c.subrange(0, 0) =~= Seq::<u8>::empty());
    assert(bytes@ =~= increment(c));
}

/// A signed integer as its sign and big-endian magnitude.
pub struct SignedMagnitude {
    pub negative: bool,
    pub magnitude: Vec<u8>,
}

impl View for SignedMagnitude {
    type V = (bool, Seq<u8>);

    open spec fn view(&self) -> (bool, Seq<u8>) {
        (self.negative, self.magnitude@)
    }
}

/// The packing of a sign and magnitude.
pub open spec fn pack_int_spec(negative: bool, magnitude: Seq<u8>) -> Seq<u8> {
    if negative {
        seq![0u8] + negate(magnitude)
    } else {
        seq![1u8] + magnitude
    }
}

/// The sign and magnitude packed in `s`, if its sign byte is valid.
pub open spec fn unpack_int_spec(s: Seq<u8>) -> Option<(bool, Seq<u8>)> {
    if s[0] == 1 {
        Some((false, s.drop_first()))
    } else if s[0] == 0 {
        Some((true, negate(s.drop_first())))
    } else {
        None
    }
}

/// Law: unpacking a packed integer gives its sign and magnitude back.
pub proof fn lemma_int_roundtrip(negative: bool, magnitude: Seq<u8>)
    ensures
        unpack_int_spec(pack_int_spec(negative, magnitude)) == Some((negative, magnitude)),
{
    let p = pack_int_spec(negative, magnitude);
    if negative {
        assert(p.drop_first() =~= negate(magnitude));
        lemma_negate_involution(magnitude);
    } else {
        assert(p.drop_first() =~= magnitude);
    }
}

impl Packable for SignedMagnitude {
    open spec fn packable(&self) -> bool {
        true
    }

    open spec fn packed(&self) -> Seq<u8> {
        pack_int_spec(self.negative, self.magnitude@)
    }

    fn pack(&self) -> (r: Vec<u8>) {
        let mut bytes: Vec<u8> = Vec::new();
        let mut i: usize = 0;
        while i < self.magnitude.len()
            invariant
                i <= self.magnitude@.len(),
                bytes@ == self.magnitude@.subrange(0, i as int),
            decreases self.magnitude@.len() - i,
        {
            bytes.push(self.magnitude[i]);
            i = i + 1;
            assert(bytes@ =~= self.magnitude@.subrange(0, i as int));
        }
        assert(bytes@ =~= self.magnitude@);
        if self.negative {
            negate_in_place(&mut bytes);
        }
        let mut v: Vec<u8> = Vec::new();
        v.push(if self.negative { 0u8 } else { 1u8 });
        crate::encoding::append_bytes(&mut v, bytes.as_slice());
        v
    }
}

impl<'a> Unpackable<SignedMagnitude> for &'a [u8] {
    open spec fn unpackable(&self) -> bool {
        self@.len() >= 1
    }

    open spec fn unpacked(&self) -> Option<(bool, Seq<u8>)> {
        unpack_int_spec(self@)
    }

    fn unpack(&self) -> (r: Option<SignedMagnitude>) {
        unpack_int(*self)
    }
}

/// Unpacks an integer packed by `pack_int_spec`.
pub fn unpack_int(s: &[u8]) -> (r: Option<SignedMagnitude>)
    requires
        s@.len() >= 1,
    ensures
        match unpack_int_spec(s@) {
            Some((negative, magnitude)) => r matches Some(v) && v.negative == negative
                && v.magnitude@ == magnitude,
            None => r is None,
        },
{
    let mut bytes: Vec<u8> = Vec::new();
    let mut i: usize = 1;
    while i < s.len()
        invariant
            1 <= i <= s@.len(),
            bytes@ == s@.subrange(1, i as int),
        decreases s@.len() - i,
    {
        bytes.push(s[i]);
        i = i + 1;
        assert(bytes@ =~= s@.subrange(1, i as int));
    }
    assert(bytes@ =~= s@.drop_first());
    if s[0] == 1 {
        Some(SignedMagnitude { negative: false, magnitude: bytes })
    } else if s[0] == 0 {
        negate_in_place(&mut bytes);
        Some(SignedMagnitude { negative: true, magnitude: bytes })
    } else {
        None
    }
}

/// The order-preserving packing of a float's big-endian bytes.
pub open spec fn pack_float_spec(bits: Seq<u8>) -> Seq<u8> {
    if bits[0] >= 128 {
        complement(bits)
    } else {
        bits.update(0, (bits[0] + 128) as u8)
    }
}

/// The float bytes packed in `s`, when `s` has `width` bytes.
pub open spec fn unpack_float_spec(s: Seq<u8>, width: nat) -> Option<Seq<u8>> {
    if s.len() != width {
        None
    } else if s[0] >= 128 {
        Some(s.update(0, (s[0] - 128) as u8))
    } else {
        Some(complement(s))
    }
}

/// Law: unpacking packed float bytes gives the bytes back.
pub proof fn lemma_float_roundtrip(bits: Seq<u8>)
    requires
        bits.len() >= 1,
    ensures
        unpack_float_spec(pack_float_spec(bits), bits.len()) == Some(bits),
{
    let p = pack_float_spec(bits);
    if bits[0] >= 128 {
        assert(complement(p) =~= bits);
    } else {
        assert(p.update(0, (p[0] - 128) as u8) =~= bits);
    }
}

/// Packs the big-endian bytes of a float.
pub fn pack_float_bytes(bits: &[u8]) -> (r: Vec<u8>)
    requires
        bits@.len() >= 1,
    ensures
        r@ == pack_float_spec(bits@),
{
    let mut v: Vec<u8> = Vec::new();
    let negative = bits[0] >= 128;
    let mut i: usize = 0;
    while i < bits.len()
        invariant
            i <= bits@.len(),
            negative == (bits@[0] >= 128),
            v@ == pack_float_spec(bits@).subrange(0, i as int),
        decreases bits@.len() - i,
    {
        let b = bits[i];
        if negative {
            v.push(255 - b);
        } else if i == 0 {
            v.push(b + 128);
        } else {
            v.push(b);
        }
        i = i + 1;
        assert(v@ =~= pack_float_spec(bits@).subrange(0, i as int));
    }
    assert(v@ =~= pack_float_spec(bits@));
    v
}

/// Unpacks float bytes of the given width.
pub fn unpack_float_bytes(s: &[u8], width: usize) -> (r: Option<Vec<u8>>)
    requires
        width >= 1,
    ensures
        match unpack_float_spec(s@, width as nat) {
            Some(b) => r matches Some(v) && v@ == b,
            None => r is None,
        },
{
    if s.len() != width || width == 0 {
        return None;
    }
    let negative = s[0] < 128;
    let mut v: Vec<u8> = Vec::new();
    let mut i: usize = 0;
    while i < s.len()
        invariant
            i <= s@.len(),
            s@.len() >= 1,
            negative == (s@[0] < 128),
            v@ == unpack_float_spec(s@, s@.len()).unwrap().subrange(0, i as int),
        decreases s@.len() - i,
    {
        let b = s[i];
        if negative {
            v.push(255 - b);
        } else if i == 0 {
            v.push(b - 128);
        } else {
            v.push(b);
        }
        i = i + 1;
        assert(v@ =~= unpack_float_spec(s@, s@.len()).unwrap().subrange(0, i as int));
    }
    assert(v@ =~= unpack_float_spec(s@, s@.len()).unwrap());
    Some(v)
}

} // verus!
