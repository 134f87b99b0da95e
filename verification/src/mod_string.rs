//! Numbers as decimal text: STRING/->UINT and STRING/->INT read it,
//! UINT/->STRING and INT/->STRING write it.
use vstd::prelude::*;
use num_bigint::{BigInt, BigUint, Sign};
use crate::bignum::canonical_be;
use crate::encoding::be_value;
use crate::env::{Env, EnvModel};
use crate::instructions::{Outcome, after_pops, answers, fail, is_instruction, named, ok, or_else, push_all};
use crate::mod_numbers::{abs, fixed_be, int_value, is_canonical_of, pack_int, pop_single, push_value, read_int, sign_offset, sized_range, sm_value, write_fixed};
use crate::encoding::append_bytes;
use crate::mod_numbers::{lemma_be_value_bound, lemma_pow256_small};
use crate::bignum::be_u64;
use crate::packable::{Packable, SignedMagnitude};
use crate::script::{TryInstruction, Error, PassResult, result_model, invalid_value_error, error_invalid_value};

verus! {

pub open spec fn string_to_uint_name() -> Seq<u8> {
    seq![141u8, 83, 84, 82, 73, 78, 71, 47, 45, 62, 85, 73, 78, 84]
}

pub open spec fn string_to_int_name() -> Seq<u8> {
    seq![140u8, 83, 84, 82, 73, 78, 71, 47, 45, 62, 73, 78, 84]
}

pub open spec fn uint_to_string_name() -> Seq<u8> {
    seq![141u8, 85, 73, 78, 84, 47, 45, 62, 83, 84, 82, 73, 78, 71]
}

pub open spec fn int_to_string_name() -> Seq<u8> {
    seq![140u8, 73, 78, 84, 47, 45, 62, 83, 84, 82, 73, 78, 71]
}

pub open spec fn is_digit(b: u8) -> bool {
    48 <= b <= 57
}

/// The value of decimal digits, the separators `_` between them skipped.
pub open spec fn digits_value(d: Seq<u8>) -> nat
    decreases d.len(),
{
    if d.len() == 0 {
        0
    } else if d.last() == 95 {
        digits_value(d.drop_last())
    } else {
        digits_value(d.drop_last()) * 10 + (d.last() - 48) as nat
    }
}

/// An unsigned number in decimal text: one optional `+`, then digits and
/// `_` separators, starting with a digit.
pub open spec fn uint_text(s: Seq<u8>) -> Option<nat> {
    let t = if s.len() > 0 && s[0] == 43 && !(s.len() > 1 && s[1] == 43) {
        s.drop_first()
    } else {
        s
    };
    if t.len() == 0 || t[0] == 95 || !(forall|i: int| 0 <= i < t.len() ==> is_digit(#[trigger] t[i]) || t[i] == 95) {
        None
    } else {
        Some(digits_value(t))
    }
}

/// A signed number in decimal text: an optional `-` (not followed by `+`)
/// in front of an unsigned one.
pub open spec fn int_text(s: Seq<u8>) -> Option<int> {
    if s.len() > 0 && s[0] == 45 && !(s.len() > 1 && s[1] == 43) {
        match uint_text(s.drop_first()) {
            Some(n) => Some(-n),
            None => None,
        }
    } else {
        match uint_text(s) {
            Some(n) => Some(n as int),
            None => None,
        }
    }
}

/// The decimal digits of a number, without leading zeros.
pub open spec fn decimal(n: nat) -> Seq<u8>
    decreases n,
{
    if n < 10 {
        seq![(48 + n) as u8]
    } else {
        decimal(n / 10).push((48 + n % 10) as u8)
    }
}

/// The decimal text of an integer: `-` in front of a negative one.
pub open spec fn signed_decimal(v: int) -> Seq<u8> {
    if v < 0 {
        seq![45u8] + decimal(abs(v))
    } else {
        decimal(v as nat)
    }
}

/// STRING/->UINT: `text -- number`.
pub open spec fn string_to_uint_step(m: EnvModel) -> Outcome {
    after_pops(
        m,
        1,
        |m1: EnvModel, t: Seq<Seq<u8>>|
            match uint_text(t[0]) {
                Some(n) => ok(push_all(m1, seq![canonical_be(n)])),
                None => fail(m1, invalid_value_error(t[0])),
            },
    )
}

/// STRING/->INT: `text -- number`.
pub open spec fn string_to_int_step(m: EnvModel) -> Outcome {
    after_pops(
        m,
        1,
        |m1: EnvModel, t: Seq<Seq<u8>>|
            match int_text(t[0]) {
                Some(v) => ok(push_all(m1, seq![pack_int(v)])),
                None => fail(m1, invalid_value_error(t[0])),
            },
    )
}

/// UINT/->STRING: `number -- text`.
pub open spec fn uint_to_string_step(m: EnvModel) -> Outcome {
    after_pops(m, 1, |m1: EnvModel, t: Seq<Seq<u8>>| ok(push_all(m1, seq![decimal(be_value(t[0]))])))
}

/// INT/->STRING: `number -- text`.
pub open spec fn int_to_string_step(m: EnvModel) -> Outcome {
    after_pops(
        m,
        1,
        |m1: EnvModel, t: Seq<Seq<u8>>|
            match int_value(t[0]) {
                Some(v) => ok(push_all(m1, seq![signed_decimal(v)])),
                None => fail(m1, invalid_value_error(t[0])),
            },
    )
}

/// Whether bytes are one or more decimal digits.
pub open spec fn all_digits(t: Seq<u8>) -> bool {
    t.len() > 0 && forall|i: int| 0 <= i < t.len() ==> is_digit(#[trigger] t[i])
}

/// A number in the text that the fixed-size integers read: an optional
/// `+` (or `-`, for signed ones), then decimal digits.
pub open spec fn plain_int_text(s: Seq<u8>, signed: bool) -> Option<int> {
    if s.len() > 0 && s[0] == 43 {
        if all_digits(s.drop_first()) {
            Some(digits_value(s.drop_first()) as int)
        } else {
            None
        }
    } else if signed && s.len() > 0 && s[0] == 45 {
        if all_digits(s.drop_first()) {
            Some(-digits_value(s.drop_first()))
        } else {
            None
        }
    } else if all_digits(s) {
        Some(digits_value(s) as int)
    } else {
        None
    }
}

/// The least value of a fixed-size integer of `bytes` bytes.
pub open spec fn sized_low(bytes: nat, signed: bool) -> int {
    if signed {
        -sign_offset(bytes)
    } else {
        0
    }
}

/// One more than the greatest value of a fixed-size integer.
pub open spec fn sized_high(bytes: nat, signed: bool) -> int {
    if signed {
        sign_offset(bytes) as int
    } else {
        sized_range(bytes) as int
    }
}

/// A fixed-size integer as the fixed-size arithmetic keeps it: `bytes`
/// big-endian bytes, signed values shifted up by the sign offset (their
/// first byte's top bit flipped).
pub open spec fn pack_sized(v: int, bytes: nat, signed: bool) -> Seq<u8> {
    fixed_be((v + if signed { sign_offset(bytes) as int } else { 0 }) as nat, bytes)
}

/// The digits of a width in bits.
pub open spec fn width_digits(bytes: nat) -> Seq<u8> {
    if bytes == 1 {
        seq![56u8]
    } else if bytes == 2 {
        seq![49u8, 54]
    } else if bytes == 4 {
        seq![51u8, 50]
    } else {
        seq![54u8, 52]
    }
}

/// STRING/->UINT8, STRING/->INT8 and the wider ones.
pub open spec fn sized_text_name(bytes: nat, signed: bool) -> Seq<u8> {
    let body = seq![83u8, 84, 82, 73, 78, 71, 47, 45, 62] + (if signed {
        seq![73u8, 78, 84]
    } else {
        seq![85u8, 73, 78, 84]
    }) + width_digits(bytes);
    seq![(128 + body.len()) as u8] + body
}

/// STRING/->UINT8 and the like: `text -- number`; text that is not a
/// number, or a number out of the type's range, is an invalid value.
pub open spec fn string_to_sized_step(m: EnvModel, bytes: nat, signed: bool) -> Outcome {
    after_pops(
        m,
        1,
        |m1: EnvModel, t: Seq<Seq<u8>>|
            match plain_int_text(t[0], signed) {
                Some(v) => if sized_low(bytes, signed) <= v < sized_high(bytes, signed) {
                    ok(push_all(m1, seq![pack_sized(v, bytes, signed)]))
                } else {
                    fail(m1, invalid_value_error(t[0]))
                },
                None => fail(m1, invalid_value_error(t[0])),
            },
    )
}

/// The fixed-size conversions from `width` bytes on (1, 2, 4 and 8),
/// unsigned then signed.
pub open spec fn sized_text_from(m: EnvModel, i: Seq<u8>, width: nat) -> Option<Outcome>
    decreases 16 - width,
{
    if width == 0 || width > 8 {
        None
    } else {
        or_else(named(i, sized_text_name(width, false), string_to_sized_step(m, width, false)),
        or_else(named(i, sized_text_name(width, true), string_to_sized_step(m, width, true)),
        sized_text_from(m, i, 2 * width)))
    }
}

/// The value a fixed-size integer holds in its first `bytes` bytes, as the
/// fixed-size arithmetic reads it.
pub open spec fn sized_value(a: Seq<u8>, bytes: nat, signed: bool) -> int {
    be_value(a.subrange(0, bytes as int)) - if signed { sign_offset(bytes) as int } else { 0 }
}

/// UINT8/->STRING, INT8/->STRING and the wider ones.
pub open spec fn sized_to_text_name(bytes: nat, signed: bool) -> Seq<u8> {
    let body = (if signed {
        seq![73u8, 78, 84]
    } else {
        seq![85u8, 73, 78, 84]
    }) + width_digits(bytes) + seq![47u8, 45, 62, 83, 84, 82, 73, 78, 71];
    seq![(128 + body.len()) as u8] + body
}

/// UINT8/->STRING and the like: `number -- text`, the decimal text of the
/// value in the first `bytes` bytes; a shorter value is an invalid value.
pub open spec fn sized_to_string_step(m: EnvModel, bytes: nat, signed: bool) -> Outcome {
    after_pops(
        m,
        1,
        |m1: EnvModel, t: Seq<Seq<u8>>|
            if t[0].len() < bytes {
                fail(m1, invalid_value_error(t[0]))
            } else {
                ok(push_all(m1, seq![signed_decimal(sized_value(t[0], bytes, signed))]))
            },
    )
}

/// The fixed-size conversions to text from `width` bytes on.
pub open spec fn sized_to_text_from(m: EnvModel, i: Seq<u8>, width: nat) -> Option<Outcome>
    decreases 16 - width,
{
    if width == 0 || width > 8 {
        None
    } else {
        or_else(named(i, sized_to_text_name(width, false), sized_to_string_step(m, width, false)),
        or_else(named(i, sized_to_text_name(width, true), sized_to_string_step(m, width, true)),
        sized_to_text_from(m, i, 2 * width)))
    }
}

/// What the text module does with an instruction, if it knows it.
pub open spec fn string_module_step(m: EnvModel, i: Seq<u8>) -> Option<Outcome> {
    or_else(named(i, string_to_uint_name(), string_to_uint_step(m)),
    or_else(named(i, string_to_int_name(), string_to_int_step(m)),
    or_else(named(i, uint_to_string_name(), uint_to_string_step(m)),
    or_else(named(i, int_to_string_name(), int_to_string_step(m)),
    or_else(sized_text_from(m, i, 1),
    sized_to_text_from(m, i, 1))))))
}

/// Reads an unsigned number from decimal text (`BigUint::parse_bytes`,
/// which reads the bytes as UTF-8 and then as `BigUint::from_str` does),
/// as its shortest big-endian bytes.
#[verifier::external_body]
fn biguint_from_text(s: &[u8]) -> (r: Option<Vec<u8>>)
    ensures
        match uint_text(s@) {
            Some(n) => r matches Some(v) && v@ == canonical_be(n),
            None => r is None,
        },
{
    match BigUint::parse_bytes(s, 10) {
        Some(n) => Some(n.to_bytes_be()),
        None => None,
    }
}

/// Reads a signed number from decimal text (`BigInt::parse_bytes`, which
/// reads the bytes as UTF-8 and then as `BigInt::from_str` does), as the
/// sign and magnitude `BigInt::to_bytes_be` gives.
#[verifier::external_body]
fn bigint_from_text(s: &[u8]) -> (r: Option<SignedMagnitude>)
    ensures
        match int_text(s@) {
            Some(v) => r matches Some(x) && is_canonical_of(x, v),
            None => r is None,
        },
{
    match BigInt::parse_bytes(s, 10) {
        Some(n) => {
            let (sign, magnitude) = n.to_bytes_be();
            let negative = match sign {
                Sign::Minus => true,
                Sign::NoSign => false,
                Sign::Plus => false,
            };
            Some(SignedMagnitude { negative, magnitude })
        },
        None => None,
    }
}

/// The decimal text of an unsigned number (`BigUint`'s `Display`).
#[verifier::external_body]
fn biguint_to_text(a: &[u8]) -> (r: Vec<u8>)
    ensures
        r@ == decimal(be_value(a@)),
{
    BigUint::from_bytes_be(a).to_string().into_bytes()
}

/// The decimal text of a signed number (`BigInt`'s `Display`).
#[verifier::external_body]
fn bigint_to_text(x: &SignedMagnitude) -> (r: Vec<u8>)
    ensures
        r@ == signed_decimal(sm_value(*x)),
{
    BigInt::from_bytes_be(if x.negative { Sign::Minus } else { Sign::Plus }, &x.magnitude).to_string().into_bytes()
}

fn handle_string_to_uint(env: &mut Env, instruction: &[u8]) -> (r: PassResult)
    ensures
        answers(named(instruction@, string_to_uint_name(), string_to_uint_step(old(env)@)), old(env)@, final(env)@, result_model(r)),
{
    if !is_instruction(instruction, vec![141u8, 83, 84, 82, 73, 78, 71, 47, 45, 62, 85, 73, 78, 84]) {
        return Err(Error::UnknownInstruction);
    }
    let a = match pop_single(env) {
        Ok(a) => a,
        Err(e) => return Err(e),
    };
    match biguint_from_text(a.as_slice()) {
        Some(v) => {
            push_value(env, v);
            Ok(())
        },
        None => Err(error_invalid_value(a.as_slice())),
    }
}

fn handle_string_to_int(env: &mut Env, instruction: &[u8]) -> (r: PassResult)
    ensures
        answers(named(instruction@, string_to_int_name(), string_to_int_step(old(env)@)), old(env)@, final(env)@, result_model(r)),
{
    if !is_instruction(instruction, vec![140u8, 83, 84, 82, 73, 78, 71, 47, 45, 62, 73, 78, 84]) {
        return Err(Error::UnknownInstruction);
    }
    let a = match pop_single(env) {
        Ok(a) => a,
        Err(e) => return Err(e),
    };
    match bigint_from_text(a.as_slice()) {
        Some(x) => {
            push_value(env, x.pack());
            Ok(())
        },
        None => Err(error_invalid_value(a.as_slice())),
    }
}

fn handle_uint_to_string(env: &mut Env, instruction: &[u8]) -> (r: PassResult)
    ensures
        answers(named(instruction@, uint_to_string_name(), uint_to_string_step(old(env)@)), old(env)@, final(env)@, result_model(r)),
{
    if !is_instruction(instruction, vec![141u8, 85, 73, 78, 84, 47, 45, 62, 83, 84, 82, 73, 78, 71]) {
        return Err(Error::UnknownInstruction);
    }
    let a = match pop_single(env) {
        Ok(a) => a,
        Err(e) => return Err(e),
    };
    push_value(env, biguint_to_text(a.as_slice()));
    Ok(())
}

fn handle_int_to_string(env: &mut Env, instruction: &[u8]) -> (r: PassResult)
    ensures
        answers(named(instruction@, int_to_string_name(), int_to_string_step(old(env)@)), old(env)@, final(env)@, result_model(r)),
{
    if !is_instruction(instruction, vec![140u8, 73, 78, 84, 47, 45, 62, 83, 84, 82, 73, 78, 71]) {
        return Err(Error::UnknownInstruction);
    }
    let a = match pop_single(env) {
        Ok(a) => a,
        Err(e) => return Err(e),
    };
    match read_int(&a) {
        Some(x) => {
            push_value(env, bigint_to_text(&x));
            Ok(())
        },
        None => Err(error_invalid_value(a.as_slice())),
    }
}

/// Reads a number in the text that the fixed-size integers read: whether
/// it is negative, and its magnitude when that is below 2^64.
fn parse_plain_int(s: &[u8], signed: bool) -> (r: Option<(bool, Option<u64>)>)
    ensures
        match plain_int_text(s@, signed) {
            None => r is None,
            Some(v) => r matches Some((neg, mag)) && (neg ==> v <= 0) && (!neg ==> v >= 0) && match mag {
                Some(x) => v == (if neg { -(x as int) } else { x as int }),
                None => abs(v) >= 0x1_0000_0000_0000_0000,
            },
        },
{
    let n = s.len();
    let start: usize = if n > 0 && (s[0] == 43 || (signed && s[0] == 45)) {
        1
    } else {
        0
    };
    let neg = start == 1 && s[0] == 45;
    let ghost t = s@.subrange(start as int, n as int);
    proof {
        if start == 1 {
            assert(t =~= s@.drop_first());
        } else {
            assert(t =~= s@);
        }
    }
    if start == n {
        return None;
    }
    let mut acc: u64 = 0;
    let mut big = false;
    let mut i: usize = start;
    assert(s@.subrange(start as int, start as int) =~= Seq::<u8>::empty());
    while i < n
        invariant
            start <= i <= n,
            n == s@.len(),
            t == s@.subrange(start as int, n as int),
            start == 0 || start == 1,
            neg == (start == 1 && s@[0] == 45),
            start == 1 ==> (s@[0] == 43 || (signed && s@[0] == 45)),
            start == 0 ==> !(n > 0 && (s@[0] == 43 || (signed && s@[0] == 45))),
            start == 1 ==> t == s@.drop_first(),
            start == 0 ==> t == s@,
            forall|j: int| start <= j < i ==> is_digit(#[trigger] s@[j]),
            !big ==> acc == digits_value(s@.subrange(start as int, i as int)),
            big ==> digits_value(s@.subrange(start as int, i as int)) >= 0x1_0000_0000_0000_0000,
        decreases n - i,
    {
        let c = s[i];
        if c < 48 || c > 57 {
            proof {
                assert(t[i - start] == s@[i as int]);
                assert(!all_digits(t));
            }
            return None;
        }
        let ghost before = s@.subrange(start as int, i as int);
        let ghost after = s@.subrange(start as int, i + 1);
        assert(after.drop_last() =~= before);
        assert(after.last() == c);
        assert(digits_value(after) == digits_value(before) * 10 + (c - 48) as nat);
        if !big {
            let next: u128 = acc as u128 * 10 + (c - 48) as u128;
            if next >= 0x1_0000_0000_0000_0000 {
                big = true;
            } else {
                acc = next as u64;
            }
        }
        i = i + 1;
    }
    proof {
        assert(s@.subrange(start as int, n as int) == t);
        assert forall|j: int| 0 <= j < t.len() implies is_digit(#[trigger] t[j]) by {
            assert(t[j] == s@[start + j]);
        }
        assert(all_digits(t));
    }
    if big {
        Some((neg, None))
    } else {
        Some((neg, Some(acc)))
    }
}

fn sized_text_name_bytes(bytes: u8, signed: bool) -> (r: Vec<u8>)
    requires
        bytes == 1 || bytes == 2 || bytes == 4 || bytes == 8,
    ensures
        r@ == sized_text_name(bytes as nat, signed),
{
    let mut body: Vec<u8> = vec![83u8, 84, 82, 73, 78, 71, 47, 45, 62];
    let kind: Vec<u8> = if signed {
        vec![73u8, 78, 84]
    } else {
        vec![85u8, 73, 78, 84]
    };
    let width: Vec<u8> = if bytes == 1 {
        vec![56u8]
    } else if bytes == 2 {
        vec![49u8, 54]
    } else if bytes == 4 {
        vec![51u8, 50]
    } else {
        vec![54u8, 52]
    };
    append_bytes(&mut body, kind.as_slice());
    append_bytes(&mut body, width.as_slice());
    let mut r: Vec<u8> = Vec::new();
    r.push((128 + body.len()) as u8);
    append_bytes(&mut r, body.as_slice());
    r
}

#[verifier::spinoff_prover]
#[verifier::rlimit(40)]
fn handle_to_sized(env: &mut Env, instruction: &[u8], bytes: u8, signed: bool) -> (r: PassResult)
    requires
        bytes == 1 || bytes == 2 || bytes == 4 || bytes == 8,
    ensures
        answers(
            named(instruction@, sized_text_name(bytes as nat, signed), string_to_sized_step(old(env)@, bytes as nat, signed)),
            old(env)@,
            final(env)@,
            result_model(r),
        ),
{
    if !is_instruction(instruction, sized_text_name_bytes(bytes, signed)) {
        return Err(Error::UnknownInstruction);
    }
    let a = match pop_single(env) {
        Ok(a) => a,
        Err(e) => return Err(e),
    };
    let (neg, mag) = match parse_plain_int(a.as_slice(), signed) {
        Some(p) => p,
        None => return Err(error_invalid_value(a.as_slice())),
    };
    let x: u64 = match mag {
        Some(x) => x,
        None => return Err(error_invalid_value(a.as_slice())),
    };
    let off: u64 = if !signed {
        0
    } else if bytes == 1 {
        0x80
    } else if bytes == 2 {
        0x8000
    } else if bytes == 4 {
        0x8000_0000
    } else {
        0x8000_0000_0000_0000
    };
    let range: u128 = if bytes == 1 {
        0x100
    } else if bytes == 2 {
        0x1_0000
    } else if bytes == 4 {
        0x1_0000_0000
    } else {
        0x1_0000_0000_0000_0000
    };
    let kept: u64 = if !signed {
        if x as u128 >= range {
            return Err(error_invalid_value(a.as_slice()));
        }
        x
    } else if neg {
        if x > off {
            return Err(error_invalid_value(a.as_slice()));
        }
        off - x
    } else {
        if x >= off {
            return Err(error_invalid_value(a.as_slice()));
        }
        off + x
    };
    push_value(env, write_fixed(kept, bytes as usize));
    Ok(())
}

/// The decimal digits of a number.
fn decimal_bytes(n: u64) -> (r: Vec<u8>)
    ensures
        r@ == decimal(n as nat),
    decreases n,
{
    if n < 10 {
        vec![(48 + n) as u8]
    } else {
        let mut v = decimal_bytes(n / 10);
        v.push((48 + n % 10) as u8);
        v
    }
}

fn sized_to_text_name_bytes(bytes: u8, signed: bool) -> (r: Vec<u8>)
    requires
        bytes == 1 || bytes == 2 || bytes == 4 || bytes == 8,
    ensures
        r@ == sized_to_text_name(bytes as nat, signed),
{
    let mut body: Vec<u8> = if signed {
        vec![73u8, 78, 84]
    } else {
        vec![85u8, 73, 78, 84]
    };
    let width: Vec<u8> = if bytes == 1 {
        vec![56u8]
    } else if bytes == 2 {
        vec![49u8, 54]
    } else if bytes == 4 {
        vec![51u8, 50]
    } else {
        vec![54u8, 52]
    };
    let tail: Vec<u8> = vec![47u8, 45, 62, 83, 84, 82, 73, 78, 71];
    append_bytes(&mut body, width.as_slice());
    append_bytes(&mut body, tail.as_slice());
    let mut r: Vec<u8> = Vec::new();
    r.push((128 + body.len()) as u8);
    append_bytes(&mut r, body.as_slice());
    r
}

#[verifier::spinoff_prover]
#[verifier::rlimit(40)]
fn handle_sized_to_string(env: &mut Env, instruction: &[u8], bytes: u8, signed: bool) -> (r: PassResult)
    requires
        bytes == 1 || bytes == 2 || bytes == 4 || bytes == 8,
    ensures
        answers(
            named(instruction@, sized_to_text_name(bytes as nat, signed), sized_to_string_step(old(env)@, bytes as nat, signed)),
            old(env)@,
            final(env)@,
            result_model(r),
        ),
{
    if !is_instruction(instruction, sized_to_text_name_bytes(bytes, signed)) {
        return Err(Error::UnknownInstruction);
    }
    let a = match pop_single(env) {
        Ok(a) => a,
        Err(e) => return Err(e),
    };
    let k = bytes as usize;
    if a.len() < k {
        return Err(error_invalid_value(a.as_slice()));
    }
    let head = vstd::slice::slice_subrange(a.as_slice(), 0, k);
    proof {
        lemma_be_value_bound(head@);
        lemma_pow256_small();
    }
    let u = match be_u64(head) {
        Some(u) => u,
        None => return Err(Error::HeapAllocFailed),
    };
    let off: u64 = if !signed {
        0
    } else if bytes == 1 {
        0x80
    } else if bytes == 2 {
        0x8000
    } else if bytes == 4 {
        0x8000_0000
    } else {
        0x8000_0000_0000_0000
    };
    let text = if u >= off {
        decimal_bytes(u - off)
    } else {
        let mut t: Vec<u8> = vec![45u8];
        let digits = decimal_bytes(off - u);
        append_bytes(&mut t, digits.as_slice());
        t
    };
    proof {
        assert(head@ =~= a@.subrange(0, k as int));
        let v: int = u as int - off as int;
        assert(off as int == if signed { sign_offset(bytes as nat) as int } else { 0 });
        assert(sized_value(a@, bytes as nat, signed) == v);
        if u < off {
            assert(abs(v) == (off - u) as nat);
            assert(text@ == seq![45u8] + decimal(abs(v)));
        } else {
            assert(text@ == decimal(v as nat));
        }
    }
    push_value(env, text);
    Ok(())
}

/// Runs an instruction of the text module; any other instruction is left
/// unhandled.
pub fn handle(env: &mut Env, instruction: &[u8]) -> (r: PassResult)
    ensures
        answers(string_module_step(old(env)@, instruction@), old(env)@, final(env)@, result_model(r)),
{
    let r = handle_string_to_uint(env, instruction);
    if !r.is_unhandled() {
        return r;
    }
    let r = handle_string_to_int(env, instruction);
    if !r.is_unhandled() {
        return r;
    }
    let r = handle_uint_to_string(env, instruction);
    if !r.is_unhandled() {
        return r;
    }
    let r = handle_int_to_string(env, instruction);
    if !r.is_unhandled() {
        return r;
    }
    let mut width: u8 = 1;
    while width <= 8
        invariant
            width == 1 || width == 2 || width == 4 || width == 8 || width == 16,
            env@ == old(env)@,
            string_module_step(old(env)@, instruction@) == or_else(
                sized_text_from(old(env)@, instruction@, width as nat),
                sized_to_text_from(old(env)@, instruction@, 1),
            ),
        decreases 16 - width,
    {
        let r = handle_to_sized(env, instruction, width, false);
        if !r.is_unhandled() {
            return r;
        }
        let r = handle_to_sized(env, instruction, width, true);
        if !r.is_unhandled() {
            return r;
        }
        width = width * 2;
    }
    let mut width: u8 = 1;
    while width <= 8
        invariant
            width == 1 || width == 2 || width == 4 || width == 8 || width == 16,
            env@ == old(env)@,
            string_module_step(old(env)@, instruction@) == sized_to_text_from(old(env)@, instruction@, width as nat),
        decreases 16 - width,
    {
        let r = handle_sized_to_string(env, instruction, width, false);
        if !r.is_unhandled() {
            return r;
        }
        let r = handle_sized_to_string(env, instruction, width, true);
        if !r.is_unhandled() {
            return r;
        }
        width = width * 2;
    }
    Err(Error::UnknownInstruction)
}

} // verus!
