//! Items of a PumpkinScript program as received over the wire.
use vstd::prelude::*;
use vstd::utf8::{encode_utf8, valid_utf8};
use crate::encoding::{
    Encodable, Instruction, append_bytes, encode_data, encode_data_spec, instruction_header,
    lemma_data_roundtrip, max_header_size, parse_data, parse_header_spec, size_header,
};

verus! {

/// A received program item: a piece of data, or an instruction by name.
#[derive(PartialEq, Eq, Debug)]
pub enum Receivable {
    Data(Vec<u8>),
    Instruction(String),
}

/// The bytes a received item is made of.
pub enum ReceivableModel {
    Data(Seq<u8>),
    Instruction(Seq<u8>),
}

/// What reading an item off a byte stream at a position comes to.
pub enum ReadOutcome {
    /// No item: the stream is at its end.
    Fail,
    /// No item: the byte there starts no item; it is read all the same.
    Refused,
    /// The stream ends inside the item, or an instruction name is not
    /// UTF-8: the read does not return.
    Stuck,
    /// An item, and the position right after it.
    Item(ReceivableModel, nat),
}

impl Receivable {
    pub open spec fn model(&self) -> ReceivableModel {
        match self {
            Receivable::Data(d) => ReceivableModel::Data(d@),
            Receivable::Instruction(s) => ReceivableModel::Instruction(encode_utf8(s@)),
        }
    }

    /// Reading the item that starts at `pos` in `s`.
    pub open spec fn read_spec(s: Seq<u8>, pos: nat) -> ReadOutcome {
        if pos >= s.len() {
            if pos == s.len() {
                ReadOutcome::Fail
            } else {
                ReadOutcome::Stuck
            }
        } else if s[pos as int] >= 128 {
            let n = (s[pos as int] - 128) as nat;
            if pos + 1 + n <= s.len() {
                let name = s.subrange((pos + 1) as int, (pos + 1 + n) as int);
                if valid_utf8(name) {
                    ReadOutcome::Item(ReceivableModel::Instruction(name), pos + 1 + n)
                } else {
                    ReadOutcome::Stuck
                }
            } else {
                ReadOutcome::Stuck
            }
        } else if s[pos as int] > 123 {
            ReadOutcome::Refused
        } else {
            match parse_header_spec(s.subrange(pos as int, s.len() as int)) {
                None => ReadOutcome::Stuck,
                Some((h, l)) => if pos + h + l <= s.len() {
                    ReadOutcome::Item(
                        ReceivableModel::Data(s.subrange((pos + h) as int, (pos + h + l) as int)),
                        pos + h + l,
                    )
                } else {
                    ReadOutcome::Stuck
                },
            }
        }
    }

    /// Reads the item at `*position` in `bytes` and moves the position past
    /// it; fails at the end of the bytes or on a byte that starts no item.
    pub fn try_from(bytes: &[u8], position: &mut usize) -> (r: Result<Receivable, ()>)
        requires
            !(Self::read_spec(bytes@, *old(position) as nat) is Stuck),
        ensures
            match Self::read_spec(bytes@, *old(position) as nat) {
                ReadOutcome::Fail => r is Err && *final(position) == *old(position),
                ReadOutcome::Refused => r is Err && *final(position) == *old(position) + 1,
                ReadOutcome::Item(m, p) => r matches Ok(item) && item.model() == m
                    && *final(position) == p,
                ReadOutcome::Stuck => false,
            },
    {
        let len = bytes.len();
        let pos = *position;
        if pos == len {
            return Err(());
        }
        let b = bytes[pos];
        if b >= 128 {
            let n = (b - 128) as usize;
            let mut name: Vec<u8> = Vec::new();
            assert(pos + 1 + n <= bytes@.len());
            let mut i: usize = 0;
            while i < n
                invariant
                    i <= n,
                    pos + 1 + n <= bytes.len(),
                    name@ == bytes@.subrange(pos + 1, pos + 1 + i),
                decreases n - i,
            {
                name.push(bytes[pos + 1 + i]);
                i = i + 1;
                assert(name@ =~= bytes@.subrange(pos + 1, pos + 1 + i));
            }
            let s = string_from_utf8(name);
            match s {
                Some(s) => {
                    *position = pos + 1 + n;
                    Ok(Receivable::Instruction(s))
                },
                None => Err(()),
            }
        } else if b > 123 {
            *position = pos + 1;
            Err(())
        } else {
            let parsed = parse_data_at(bytes, pos);
            match parsed {
                Some((start, end)) => {
                    let mut data: Vec<u8> = Vec::new();
                    append_bytes(&mut data, slice_range(bytes, start, end));
                    *position = end;
                    Ok(Receivable::Data(data))
                },
                None => Err(()),
            }
        }
    }
}

/// Encoding of a received item: data with its size header, an instruction
/// with its one-byte header.
pub open spec fn receivable_encoding(m: ReceivableModel) -> Seq<u8> {
    match m {
        ReceivableModel::Data(d) => encode_data_spec(d),
        ReceivableModel::Instruction(name) => seq![instruction_header(name.len())] + name,
    }
}

impl Encodable for Receivable {
    open spec fn encodable(&self) -> bool {
        match self {
            Receivable::Data(d) => d@.len() <= max_header_size(),
            Receivable::Instruction(s) => encode_utf8(s@).len() % 256 < 128,
        }
    }

    open spec fn encoding(&self) -> Seq<u8> {
        receivable_encoding(self.model())
    }

    fn encode(&self) -> (r: Vec<u8>) {
        match self {
            Receivable::Data(d) => encode_data(d.as_slice()),
            Receivable::Instruction(s) => {
                let i = Instruction(s.as_str());
                i.encode()
            },
        }
    }
}

/// Law: an encoded item reads back as itself, and the read ends right
/// after its encoding, whatever follows.
pub proof fn lemma_receivable_roundtrip(m: ReceivableModel, rest: Seq<u8>)
    requires
        match m {
            ReceivableModel::Data(d) => d.len() < max_header_size(),
            ReceivableModel::Instruction(name) => name.len() < 128 && valid_utf8(name),
        },
    ensures
        Receivable::read_spec(receivable_encoding(m) + rest, 0) == ReadOutcome::Item(
            m,
            receivable_encoding(m).len(),
        ),
{
    let s = receivable_encoding(m) + rest;
    match m {
        ReceivableModel::Data(d) => {
            lemma_data_roundtrip(d, rest);
            assert(s.subrange(0, s.len() as int) =~= s);
            let h = size_header(d.len());
            assert(h[0] <= 123);
        },
        ReceivableModel::Instruction(name) => {
            assert(s.subrange(1, (1 + name.len()) as int) =~= name);
        },
    }
}

/// Reads the data item at `pos`: the start and end of its payload.
fn parse_data_at(bytes: &[u8], pos: usize) -> (r: Option<(usize, usize)>)
    requires
        pos < bytes@.len(),
        bytes@[pos as int] <= 123,
        !(Receivable::read_spec(bytes@, pos as nat) is Stuck),
    ensures
        match parse_header_spec(bytes@.subrange(pos as int, bytes@.len() as int)) {
            Some((h, l)) => r == Some(((pos + h) as usize, (pos + h + l) as usize)) && pos + h + l
                <= bytes@.len(),
            None => false,
        },
{
    let mut code: Vec<u8> = Vec::new();
    append_bytes(&mut code, bytes);
    parse_data(&code, pos)
}

/// The bytes of `s` from `start` to `end`.
fn slice_range(s: &[u8], start: usize, end: usize) -> (r: &[u8])
    requires
        start <= end <= s@.len(),
    ensures
        r@ == s@.subrange(start as int, end as int),
{
    let (_, tail) = s.split_at(start);
    let (mid, _) = tail.split_at(end - start);
    assert(mid@ =~= s@.subrange(start as int, end as int));
    mid
}

/// Turns bytes into a string when they are valid UTF-8
/// (`String::from_utf8`): the string exists exactly when the bytes are
/// valid UTF-8, and then its UTF-8 encoding is the bytes themselves.
#[verifier::external_body]
fn string_from_utf8(bytes: Vec<u8>) -> (r: Option<String>)
    ensures
        r is Some <==> valid_utf8(bytes@),
        r matches Some(s) ==> encode_utf8(s@) == bytes@,
{
    String::from_utf8(bytes).ok()
}

} // verus!
