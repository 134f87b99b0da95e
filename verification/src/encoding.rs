//! Binary form of PumpkinScript data: size headers and data encoding.
use vstd::prelude::*;
use vstd::string::StringSliceAdditionalSpecFns;

verus! {

/// The largest size a header can be written for.
pub open spec fn max_header_size() -> nat {
    4294967296
}

/// Value of a big-endian byte sequence.
pub open spec fn be_value(s: Seq<u8>) -> nat
    decreases s.len(),
{
    if s.len() == 0 {
        0
    } else {
        be_value(s.drop_last()) * 256 + s.last() as nat
    }
}

/// The size header written in front of `n` bytes of data.
///
/// Sizes up to 120 are a single byte; sizes up to 255 are `121` and one
/// byte; up to 65535 are `122` and two big-endian bytes; larger sizes are
/// `123` and four big-endian bytes (higher bits are cut off).
pub open spec fn size_header(n: nat) -> Seq<u8> {
    if n <= 120 {
        seq![n as u8]
    } else if n <= 255 {
        seq![121u8, n as u8]
    } else if n <= 65535 {
        seq![122u8, (n / 256) as u8, (n % 256) as u8]
    } else {
        seq![
            123u8,
            ((n / 16777216) % 256) as u8,
            ((n / 65536) % 256) as u8,
            ((n / 256) % 256) as u8,
            (n % 256) as u8,
        ]
    }
}

/// Encoding of a piece of data: its size header followed by the bytes.
pub open spec fn encode_data_spec(d: Seq<u8>) -> Seq<u8> {
    size_header(d.len()) + d
}

/// Returns the number of bytes the size header for `size` takes.
pub fn offset_by_size(size: usize) -> (r: usize)
    requires
        size <= max_header_size(),
    ensures
        r == size_header(size as nat).len(),
{
    if size <= 120 {
        1
    } else if size <= 255 {
        2
    } else if size <= 65535 {
        3
    } else {
        5
    }
}

/// Writes the size header for `size` at the front of `slice` and returns
/// the number of bytes written.
pub fn write_size_into_slice(size: usize, slice: &mut Vec<u8>) -> (r: usize)
    requires
        size <= max_header_size(),
        old(slice).len() >= size_header(size as nat).len(),
    ensures
        r == size_header(size as nat).len(),
        final(slice)@.len() == old(slice)@.len(),
        final(slice)@.subrange(0, r as int) == size_header(size as nat),
        final(slice)@.subrange(r as int, final(slice)@.len() as int) == old(slice)@.subrange(
            r as int,
            old(slice)@.len() as int,
        ),
{
    if size <= 120 {
        slice.set(0, size as u8);
        assert(slice@.subrange(0, 1) =~= size_header(size as nat));
        assert(slice@.subrange(1, slice@.len() as int) =~= old(slice)@.subrange(1, old(slice)@.len() as int));
        1
    } else if size <= 255 {
        slice.set(0, 121u8);
        slice.set(1, size as u8);
        assert(slice@.subrange(0, 2) =~= size_header(size as nat));
        assert(slice@.subrange(2, slice@.len() as int) =~= old(slice)@.subrange(2, old(slice)@.len() as int));
        2
    } else if size <= 65535 {
        slice.set(0, 122u8);
        slice.set(1, (size / 256) as u8);
        slice.set(2, (size % 256) as u8);
        assert(slice@.subrange(0, 3) =~= size_header(size as nat));
        assert(slice@.subrange(3, slice@.len() as int) =~= old(slice)@.subrange(3, old(slice)@.len() as int));
        3
    } else {
        slice.set(0, 123u8);
        slice.set(1, ((size / 16777216) % 256) as u8);
        slice.set(2, ((size / 65536) % 256) as u8);
        slice.set(3, ((size / 256) % 256) as u8);
        slice.set(4, (size % 256) as u8);
        assert(slice@.subrange(0, 5) =~= size_header(size as nat));
        assert(slice@.subrange(5, slice@.len() as int) =~= old(slice)@.subrange(5, old(slice)@.len() as int));
        5
    }
}

/// Appends the bytes of `src` to `dst`.
pub fn append_bytes(dst: &mut Vec<u8>, src: &[u8])
    ensures
        final(dst)@ == old(dst)@ + src@,
{
    let mut i: usize = 0;
    while i < src.len()
        invariant
            i <= src@.len(),
            dst@ == old(dst)@ + src@.subrange(0, i as int),
        decreases src@.len() - i,
    {
        dst.push(src[i]);
        i = i + 1;
        assert(dst@ =~= old(dst)@ + src@.subrange(0, i as int));
    }
    assert(src@.subrange(0, src@.len() as int) =~= src@);
}

/// Appends the size header for `size` to `vec`.
pub fn write_size(size: usize, vec: &mut Vec<u8>)
    requires
        size <= max_header_size(),
    ensures
        final(vec)@ == old(vec)@ + size_header(size as nat),
{
    let n = offset_by_size(size);
    let mut header: Vec<u8> = Vec::new();
    let mut i: usize = 0;
    while i < n
        invariant
            i <= n,
            header@.len() == i,
        decreases n - i,
    {
        header.push(0u8);
        i = i + 1;
    }
    let _ = write_size_into_slice(size, &mut header);
    assert(header@ =~= header@.subrange(0, n as int));
    append_bytes(vec, header.as_slice());
}

/// Encodes data as its size header followed by the bytes themselves.
pub fn encode_data(data: &[u8]) -> (r: Vec<u8>)
    requires
        data@.len() <= max_header_size(),
    ensures
        r@ == encode_data_spec(data@),
{
    let mut vec: Vec<u8> = Vec::new();
    write_size(data.len(), &mut vec);
    append_bytes(&mut vec, data);
    vec
}


/// Parse of a data header at the front of `s`: the header's length and
/// the payload length it announces.
pub open spec fn parse_header_spec(s: Seq<u8>) -> Option<(nat, nat)> {
    if s.len() == 0 {
        None
    } else if s[0] <= 120 {
        Some((1, s[0] as nat))
    } else if s[0] == 121 {
        if s.len() >= 2 {
            Some((2, s[1] as nat))
        } else {
            None
        }
    } else if s[0] == 122 {
        if s.len() >= 3 {
            Some((3, s[1] as nat * 256 + s[2] as nat))
        } else {
            None
        }
    } else if s[0] == 123 {
        if s.len() >= 5 {
            Some((5, ((s[1] as nat * 256 + s[2] as nat) * 256 + s[3] as nat) * 256 + s[4] as nat))
        } else {
            None
        }
    } else {
        None
    }
}

/// A complete data item at the front of `s`: header length and payload
/// length, where the payload is present in full.
pub open spec fn parse_data_spec(s: Seq<u8>) -> Option<(nat, nat)> {
    match parse_header_spec(s) {
        Some((h, l)) => if h + l <= s.len() {
            Some((h, l))
        } else {
            None
        },
        None => None,
    }
}

/// Reading the header written for `n` gives back `n`, whatever follows it.
pub proof fn lemma_header_roundtrip(n: nat, rest: Seq<u8>)
    requires
        n < max_header_size(),
    ensures
        parse_header_spec(size_header(n) + rest) == Some((size_header(n).len(), n)),
{
    let s = size_header(n) + rest;
    if n <= 120 {
    } else if n <= 255 {
    } else if n <= 65535 {
        assert(s[1] == (n / 256) as u8);
        assert(s[2] == (n % 256) as u8);
    } else {
        let a = n / 16777216;
        let b = (n / 65536) % 256;
        let c = (n / 256) % 256;
        let d = n % 256;
        assert(a < 256);
        assert(s[1] as nat == a);
        assert(s[2] as nat == b);
        assert(s[3] as nat == c);
        assert(s[4] as nat == d);
        assert(((a * 256 + b) * 256 + c) * 256 + d == n) by (nonlinear_arith)
            requires
                a == n / 16777216,
                b == (n / 65536) % 256,
                c == (n / 256) % 256,
                d == n % 256,
        ;
    }
}

/// Law: an encoded piece of data reads back as itself, and the read stops
/// right where the encoding ends.
pub proof fn lemma_data_roundtrip(d: Seq<u8>, rest: Seq<u8>)
    requires
        d.len() < max_header_size(),
    ensures
        parse_data_spec(encode_data_spec(d) + rest) == Some((size_header(d.len()).len(), d.len())),
        (encode_data_spec(d) + rest).subrange(
            size_header(d.len()).len() as int,
            (size_header(d.len()).len() + d.len()) as int,
        ) == d,
{
    let h = size_header(d.len());
    assert(encode_data_spec(d) + rest =~= h + (d + rest));
    lemma_header_roundtrip(d.len(), d + rest);
    assert((encode_data_spec(d) + rest).subrange(h.len() as int, (h.len() + d.len()) as int) =~= d);
}

/// Reads a data item at `pos`: returns the start and end of its payload.
pub fn parse_data(code: &Vec<u8>, pos: usize) -> (r: Option<(usize, usize)>)
    requires
        pos <= code@.len(),
    ensures
        match parse_data_spec(code@.subrange(pos as int, code@.len() as int)) {
            Some((h, l)) => r == Some(((pos + h) as usize, (pos + h + l) as usize)),
            None => r is None,
        },
{
    let ghost s = code@.subrange(pos as int, code@.len() as int);
    let len = code.len();
    if pos >= len {
        return None;
    }
    let b = code[pos];
    let avail = len - pos;
    let (h, l): (usize, usize) = if b <= 120 {
        (1, b as usize)
    } else if b == 121 {
        if avail < 2 {
            return None;
        }
        (2, code[pos + 1] as usize)
    } else if b == 122 {
        if avail < 3 {
            return None;
        }
        (3, code[pos + 1] as usize * 256 + code[pos + 2] as usize)
    } else if b == 123 {
        if avail < 5 {
            return None;
        }
        let v: u64 = ((code[pos + 1] as u64 * 256 + code[pos + 2] as u64) * 256 + code[pos + 3] as u64)
            * 256 + code[pos + 4] as u64;
        if v > (avail as u64) {
            return None;
        }
        (5, v as usize)
    } else {
        return None;
    };
    assert(parse_header_spec(s) == Some((h as nat, l as nat)));
    if l > avail - h {
        return None;
    }
    Some((pos + h, pos + h + l))
}

/// Types that have a PumpkinScript binary encoding.
pub trait Encodable {
    /// Whether `encode` can be called on the value.
    spec fn encodable(&self) -> bool;

    /// The bytes `encode` produces.
    spec fn encoding(&self) -> Seq<u8>;

    fn encode(&self) -> (r: Vec<u8>)
        requires
            self.encodable(),
        ensures
            r@ == self.encoding(),
    ;
}

impl Encodable for Vec<u8> {
    open spec fn encodable(&self) -> bool {
        self@.len() <= max_header_size()
    }

    open spec fn encoding(&self) -> Seq<u8> {
        encode_data_spec(self@)
    }

    fn encode(&self) -> (r: Vec<u8>) {
        encode_data(self.as_slice())
    }
}

impl<'a> Encodable for &'a [u8] {
    open spec fn encodable(&self) -> bool {
        self@.len() <= max_header_size()
    }

    open spec fn encoding(&self) -> Seq<u8> {
        encode_data_spec(self@)
    }

    fn encode(&self) -> (r: Vec<u8>) {
        encode_data(*self)
    }
}

impl<'a> Encodable for &'a str {
    open spec fn encodable(&self) -> bool {
        self.spec_bytes().len() <= max_header_size()
    }

    open spec fn encoding(&self) -> Seq<u8> {
        encode_data_spec(self.spec_bytes())
    }

    fn encode(&self) -> (r: Vec<u8>) {
        encode_data(self.as_bytes())
    }
}

impl Encodable for String {
    open spec fn encodable(&self) -> bool {
        vstd::utf8::encode_utf8(self@).len() <= max_header_size()
    }

    open spec fn encoding(&self) -> Seq<u8> {
        encode_data_spec(vstd::utf8::encode_utf8(self@))
    }

    fn encode(&self) -> (r: Vec<u8>) {
        encode_data(self.as_str().as_bytes())
    }
}

/// The one-byte instruction header for a name of `n` bytes.
pub open spec fn instruction_header(n: nat) -> u8 {
    ((n % 256) + 128) as u8
}

/// An instruction, written by name.
pub struct Instruction<'a>(pub &'a str);

impl<'a> Encodable for Instruction<'a> {
    open spec fn encodable(&self) -> bool {
        self.0.spec_bytes().len() % 256 < 128
    }

    open spec fn encoding(&self) -> Seq<u8> {
        seq![instruction_header(self.0.spec_bytes().len())] + self.0.spec_bytes()
    }

    fn encode(&self) -> (r: Vec<u8>) {
        let bytes = self.0.as_bytes();
        let mut vec: Vec<u8> = Vec::new();
        vec.push(((bytes.len() % 256) as u8) + 128u8);
        append_bytes(&mut vec, bytes);
        assert(vec@ =~= seq![instruction_header(self.0.spec_bytes().len())] + self.0.spec_bytes());
        vec
    }
}

/// A reference to an instruction: the instruction wrapped as data, so that
/// it is pushed instead of executed.
pub struct InstructionRef<'a>(pub &'a str);

impl<'a> Encodable for InstructionRef<'a> {
    open spec fn encodable(&self) -> bool {
        &&& self.0.spec_bytes().len() % 256 < 128
        &&& self.0.spec_bytes().len() + 1 <= max_header_size()
    }

    open spec fn encoding(&self) -> Seq<u8> {
        size_header(self.0.spec_bytes().len() + 1) + seq![
            instruction_header(self.0.spec_bytes().len()),
        ] + self.0.spec_bytes()
    }

    fn encode(&self) -> (r: Vec<u8>) {
        let bytes = self.0.as_bytes();
        let mut vec: Vec<u8> = Vec::new();
        write_size(bytes.len() + 1, &mut vec);
        vec.push(((bytes.len() % 256) as u8) + 128u8);
        append_bytes(&mut vec, bytes);
        vec
    }
}

/// A closure: the encoding of the inner value, wrapped as data.
pub struct Closure<T: Encodable>(pub T);

impl<T: Encodable> Encodable for Closure<T> {
    open spec fn encodable(&self) -> bool {
        &&& self.0.encodable()
        &&& self.0.encoding().len() <= max_header_size()
    }

    open spec fn encoding(&self) -> Seq<u8> {
        encode_data_spec(self.0.encoding())
    }

    fn encode(&self) -> (r: Vec<u8>) {
        let inner = self.0.encode();
        encode_data(inner.as_slice())
    }
}

impl<A: Encodable> Encodable for (A,) {
    open spec fn encodable(&self) -> bool {
        self.0.encodable()
    }

    open spec fn encoding(&self) -> Seq<u8> {
        self.0.encoding()
    }

    fn encode(&self) -> (r: Vec<u8>) {
        self.0.encode()
    }
}

impl<A: Encodable, B: Encodable> Encodable for (A, B) {
    open spec fn encodable(&self) -> bool {
        self.0.encodable() && self.1.encodable()
    }

    open spec fn encoding(&self) -> Seq<u8> {
        self.0.encoding() + self.1.encoding()
    }

    fn encode(&self) -> (r: Vec<u8>) {
        let mut vec = self.0.encode();
        let b = self.1.encode();
        append_bytes(&mut vec, b.as_slice());
        vec
    }
}

impl<A: Encodable, B: Encodable, C: Encodable> Encodable for (A, B, C) {
    open spec fn encodable(&self) -> bool {
        self.0.encodable() && self.1.encodable() && self.2.encodable()
    }

    open spec fn encoding(&self) -> Seq<u8> {
        self.0.encoding() + self.1.encoding() + self.2.encoding()
    }

    fn encode(&self) -> (r: Vec<u8>) {
        let mut vec = self.0.encode();
        let b = self.1.encode();
        append_bytes(&mut vec, b.as_slice());
        let c = self.2.encode();
        append_bytes(&mut vec, c.as_slice());
        vec
    }
}

impl<A: Encodable, B: Encodable, C: Encodable, D: Encodable> Encodable for (A, B, C, D) {
    open spec fn encodable(&self) -> bool {
        self.0.encodable() && self.1.encodable() && self.2.encodable() && self.3.encodable()
    }

    open spec fn encoding(&self) -> Seq<u8> {
        self.0.encoding() + self.1.encoding() + self.2.encoding() + self.3.encoding()
    }

    fn encode(&self) -> (r: Vec<u8>) {
        let mut vec = self.0.encode();
        let b = self.1.encode();
        append_bytes(&mut vec, b.as_slice());
        let c = self.2.encode();
        append_bytes(&mut vec, c.as_slice());
        let d = self.3.encode();
        append_bytes(&mut vec, d.as_slice());
        vec
    }
}

} // verus!
