//! Reading PumpkinScript programs in binary form, item by item.
use vstd::prelude::*;
use crate::encoding::{parse_data, parse_data_spec};

verus! {

/// A plain instruction at the front of `s`: a byte `0x80 + n` with `n > 0`
/// followed by the `n` bytes of its name. Gives the item's length.
pub open spec fn plain_instruction_spec(s: Seq<u8>) -> Option<nat> {
    if s.len() >= 1 && s[0] > 128 && 1 + (s[0] - 128) <= s.len() {
        Some((1 + (s[0] - 128)) as nat)
    } else {
        None
    }
}

/// An instruction at the front of `s`, plain or internal (a `0x80` byte
/// followed by a plain instruction). Gives the item's length.
pub open spec fn instruction_spec(s: Seq<u8>) -> Option<nat> {
    if s.len() >= 1 && s[0] == 128 {
        match plain_instruction_spec(s.drop_first()) {
            Some(n) => Some(n + 1),
            None => None,
        }
    } else {
        plain_instruction_spec(s)
    }
}

/// The length of the program item at the front of `s`, data or instruction.
pub open spec fn item_len_spec(s: Seq<u8>) -> Option<nat> {
    match parse_data_spec(s) {
        Some((h, l)) => Some(h + l),
        None => instruction_spec(s),
    }
}

/// Every item length is positive.
pub proof fn lemma_item_len_positive(s: Seq<u8>)
    ensures
        item_len_spec(s) matches Some(n) ==> 0 < n <= s.len(),
{
}

/// `s` is a sequence of complete program items.
pub open spec fn valid_program(s: Seq<u8>) -> bool
    decreases s.len(),
{
    if s.len() == 0 {
        true
    } else {
        match item_len_spec(s) {
            Some(n) => if 0 < n <= s.len() {
                valid_program(s.subrange(n as int, s.len() as int))
            } else {
                false
            },
            None => false,
        }
    }
}

/// Reads a plain instruction at `pos`; returns where it ends.
pub fn parse_plain_instruction(code: &[u8], pos: usize) -> (r: Option<usize>)
    requires
        pos <= code@.len(),
    ensures
        match plain_instruction_spec(code@.subrange(pos as int, code@.len() as int)) {
            Some(n) => r == Some((pos + n) as usize),
            None => r is None,
        },
{
    let ghost s = code@.subrange(pos as int, code@.len() as int);
    if pos >= code.len() {
        return None;
    }
    let b = code[pos];
    if b <= 128 {
        return None;
    }
    let n = (b - 128) as usize;
    if n + 1 > code.len() - pos {
        return None;
    }
    Some(pos + 1 + n)
}

/// Reads an instruction, plain or internal, at `pos`; returns where it ends.
pub fn parse_instruction(code: &[u8], pos: usize) -> (r: Option<usize>)
    requires
        pos <= code@.len(),
    ensures
        match instruction_spec(code@.subrange(pos as int, code@.len() as int)) {
            Some(n) => r == Some((pos + n) as usize),
            None => r is None,
        },
{
    let ghost s = code@.subrange(pos as int, code@.len() as int);
    if pos < code.len() && code[pos] == 128 {
        assert(s.drop_first() =~= code@.subrange(pos + 1, code@.len() as int));
        parse_plain_instruction(code, pos + 1)
    } else {
        parse_plain_instruction(code, pos)
    }
}

/// Reads one program item at `pos`; returns where it ends.
pub fn parse_item(code: &Vec<u8>, pos: usize) -> (r: Option<usize>)
    requires
        pos <= code@.len(),
    ensures
        match item_len_spec(code@.subrange(pos as int, code@.len() as int)) {
            Some(n) => r == Some((pos + n) as usize),
            None => r is None,
        },
{
    match parse_data(code, pos) {
        Some((_, end)) => Some(end),
        None => parse_instruction(code.as_slice(), pos),
    }
}

/// Whether `code` is a well-formed program: complete items to the end.
pub fn parse_bin(code: &Vec<u8>) -> (r: bool)
    ensures
        r == valid_program(code@),
{
    let mut pos: usize = 0;
    let len = code.len();
    assert(code@.subrange(0, len as int) =~= code@);
    while pos < len
        invariant
            pos <= len,
            len == code@.len(),
            valid_program(code@) == valid_program(code@.subrange(pos as int, len as int)),
        decreases len - pos,
    {
        let ghost s = code@.subrange(pos as int, len as int);
        match parse_item(code, pos) {
            Some(end) => {
                proof {
                    lemma_item_len_positive(s);
                    assert(s.subrange((end - pos) as int, s.len() as int) =~= code@.subrange(
                        end as int,
                        len as int,
                    ));
                }
                pos = end;
            },
            None => {
                return false;
            },
        }
    }
    true
}

} // verus!
