//! Numbers: arbitrary-size unsigned (big-endian bytes) and signed (a sign
//! byte and a packed magnitude) integers, and fixed-size integers of 1, 2,
//! 4 and 8 bytes, with addition, subtraction, comparison and conversion.
use vstd::prelude::*;
use num_bigint::{BigInt, BigUint, Sign};
use crate::bignum::{canonical_be, be_u64};
use crate::encoding::{append_bytes, be_value};
use crate::env::{Env, EnvModel, seqs};
use crate::instructions::{
    Outcome,
    after_pops,
    answers,
    fail,
    is_instruction,
    named,
    ok,
    or_else,
    pop_n,
    push_all,
    push_bool,
    stack_bool,
};
use crate::packable::{Packable, SignedMagnitude, pack_int_spec, unpack_int, unpack_int_spec};
use crate::script::{
    TryInstruction,
    Error,
    PassResult,
    result_model,
    invalid_value_error,
    error_invalid_value,
};

verus! {

pub open spec fn uint_add_name() -> Seq<u8> {
    seq![136u8, 85, 73, 78, 84, 47, 65, 68, 68]
}

pub open spec fn uint_sub_name() -> Seq<u8> {
    seq![136u8, 85, 73, 78, 84, 47, 83, 85, 66]
}

pub open spec fn int_add_name() -> Seq<u8> {
    seq![135u8, 73, 78, 84, 47, 65, 68, 68]
}

pub open spec fn int_sub_name() -> Seq<u8> {
    seq![135u8, 73, 78, 84, 47, 83, 85, 66]
}

pub open spec fn int_to_uint_name() -> Seq<u8> {
    seq![137u8, 73, 78, 84, 45, 62, 85, 73, 78, 84]
}

pub open spec fn uint_to_int_name() -> Seq<u8> {
    seq![137u8, 85, 73, 78, 84, 45, 62, 73, 78, 84]
}

/// The names of the comparisons: `which` is 0 for EQUAL?, 1 for GT?,
/// 2 for LT?.
pub open spec fn uint_compare_name(which: nat) -> Seq<u8> {
    if which == 0 {
        seq![139u8, 85, 73, 78, 84, 47, 69, 81, 85, 65, 76, 63]
    } else if which == 1 {
        seq![136u8, 85, 73, 78, 84, 47, 71, 84, 63]
    } else {
        seq![136u8, 85, 73, 78, 84, 47, 76, 84, 63]
    }
}

pub open spec fn int_compare_name(which: nat) -> Seq<u8> {
    if which == 0 {
        seq![138u8, 73, 78, 84, 47, 69, 81, 85, 65, 76, 63]
    } else if which == 1 {
        seq![135u8, 73, 78, 84, 47, 71, 84, 63]
    } else {
        seq![135u8, 73, 78, 84, 47, 76, 84, 63]
    }
}

/// The name of a fixed-size operation, such as `UINT16/ADD` or `INT8/SUB`.
pub open spec fn sized_name(bytes: nat, signed: bool, add: bool) -> Seq<u8> {
    let kind = if signed {
        seq![73u8, 78, 84]
    } else {
        seq![85u8, 73, 78, 84]
    };
    let width = if bytes == 1 {
        seq![56u8]
    } else if bytes == 2 {
        seq![49u8, 54]
    } else if bytes == 4 {
        seq![51u8, 50]
    } else {
        seq![54u8, 52]
    };
    let op = if add {
        seq![47u8, 65, 68, 68]
    } else {
        seq![47u8, 83, 85, 66]
    };
    let name = kind + width + op;
    seq![(128 + name.len()) as u8] + name
}

/// A sign and a magnitude as an integer.
pub open spec fn signed_value(negative: bool, magnitude: nat) -> int {
    if negative {
        -magnitude
    } else {
        magnitude as int
    }
}

/// The integer a packed signed value holds, if it is one.
pub open spec fn int_value(s: Seq<u8>) -> Option<int> {
    if s.len() == 0 {
        None
    } else {
        match unpack_int_spec(s) {
            Some((negative, magnitude)) => Some(signed_value(negative, be_value(magnitude))),
            None => None,
        }
    }
}

pub open spec fn abs(v: int) -> nat {
    if v < 0 {
        (-v) as nat
    } else {
        v as nat
    }
}

/// The packing of an integer: its sign byte and its shortest magnitude.
pub open spec fn pack_int(v: int) -> Seq<u8> {
    pack_int_spec(v < 0, canonical_be(abs(v)))
}

/// Compares by `which`: 0 equal, 1 greater, 2 less.
pub open spec fn compare(a: int, b: int, which: nat) -> bool {
    if which == 0 {
        a == b
    } else if which == 1 {
        a > b
    } else {
        a < b
    }
}

/// UINT/ADD: `b a -- b+a`.
pub open spec fn uint_add_step(m: EnvModel) -> Outcome {
    after_pops(m, 2, |m1: EnvModel, t: Seq<Seq<u8>>| ok(push_all(m1, seq![canonical_be(be_value(t[1]) + be_value(t[0]))])))
}

/// UINT/SUB: `b a -- b-a`; a result below zero is an invalid `a`.
pub open spec fn uint_sub_step(m: EnvModel) -> Outcome {
    after_pops(
        m,
        2,
        |m1: EnvModel, t: Seq<Seq<u8>>|
            if be_value(t[1]) > be_value(t[0]) {
                fail(m1, invalid_value_error(t[1]))
            } else {
                ok(push_all(m1, seq![canonical_be((be_value(t[0]) - be_value(t[1])) as nat)]))
            },
    )
}

/// INT/ADD: `b a -- b+a`; `a` is checked first.
pub open spec fn int_add_step(m: EnvModel) -> Outcome {
    after_pops(
        m,
        2,
        |m1: EnvModel, t: Seq<Seq<u8>>|
            match (int_value(t[1]), int_value(t[0])) {
                (None, _) => fail(m1, invalid_value_error(t[1])),
                (Some(_), None) => fail(m1, invalid_value_error(t[0])),
                (Some(a), Some(b)) => ok(push_all(m1, seq![pack_int(a + b)])),
            },
    )
}

/// INT/SUB: `a b -- a-b`; `a` is checked first.
pub open spec fn int_sub_step(m: EnvModel) -> Outcome {
    after_pops(
        m,
        2,
        |m1: EnvModel, t: Seq<Seq<u8>>|
            match (int_value(t[0]), int_value(t[1])) {
                (None, _) => fail(m1, invalid_value_error(t[0])),
                (Some(_), None) => fail(m1, invalid_value_error(t[1])),
                (Some(a), Some(b)) => ok(push_all(m1, seq![pack_int(a - b)])),
            },
    )
}

/// INT->UINT: a signed value that is not negative, as unsigned.
pub open spec fn int_to_uint_step(m: EnvModel) -> Outcome {
    after_pops(
        m,
        1,
        |m1: EnvModel, t: Seq<Seq<u8>>|
            match int_value(t[0]) {
                Some(v) => if v >= 0 {
                    ok(push_all(m1, seq![canonical_be(v as nat)]))
                } else {
                    fail(m1, invalid_value_error(t[0]))
                },
                None => fail(m1, invalid_value_error(t[0])),
            },
    )
}

/// UINT->INT: an unsigned value as signed.
pub open spec fn uint_to_int_step(m: EnvModel) -> Outcome {
    after_pops(m, 1, |m1: EnvModel, t: Seq<Seq<u8>>| ok(push_all(m1, seq![seq![1u8] + canonical_be(be_value(t[0]))])))
}

/// UINT/EQUAL?, UINT/GT?, UINT/LT?: `a b -- a op b`.
pub open spec fn uint_compare_step(m: EnvModel, which: nat) -> Outcome {
    after_pops(
        m,
        2,
        |m1: EnvModel, t: Seq<Seq<u8>>| ok(push_all(m1, seq![stack_bool(compare(be_value(t[0]) as int, be_value(t[1]) as int, which))])),
    )
}

/// INT/EQUAL?, INT/GT?, INT/LT?: `a b -- a op b`; `a` is checked first.
pub open spec fn int_compare_step(m: EnvModel, which: nat) -> Outcome {
    after_pops(
        m,
        2,
        |m1: EnvModel, t: Seq<Seq<u8>>|
            match (int_value(t[0]), int_value(t[1])) {
                (None, _) => fail(m1, invalid_value_error(t[0])),
                (Some(_), None) => fail(m1, invalid_value_error(t[1])),
                (Some(a), Some(b)) => ok(push_all(m1, seq![stack_bool(compare(a, b, which))])),
            },
    )
}

/// A value with the top bit of its first byte flipped, as signed
/// fixed-size values are kept so that they sort by their bytes.
pub open spec fn flip_first(s: Seq<u8>) -> Seq<u8> {
    if s.len() == 0 {
        s
    } else {
        s.update(0, ((s[0] + 128) % 256) as u8)
    }
}

/// The offset of the signed fixed-size values of `bytes` bytes: values are
/// kept as unsigned ones shifted up by it.
pub open spec fn sign_offset(bytes: nat) -> nat {
    if bytes == 1 {
        0x80
    } else if bytes == 2 {
        0x8000
    } else if bytes == 4 {
        0x8000_0000
    } else {
        0x8000_0000_0000_0000
    }
}

/// The number of values of `bytes` bytes.
pub open spec fn sized_range(bytes: nat) -> nat {
    if bytes == 1 {
        0x100
    } else if bytes == 2 {
        0x1_0000
    } else if bytes == 4 {
        0x1_0000_0000
    } else {
        0x1_0000_0000_0000_0000
    }
}

/// `bytes` big-endian bytes of `v`.
pub open spec fn fixed_be(v: nat, bytes: nat) -> Seq<u8>
    decreases bytes,
{
    if bytes == 0 {
        Seq::empty()
    } else {
        fixed_be(v / 256, (bytes - 1) as nat).push((v % 256) as u8)
    }
}

/// A fixed-size addition or subtraction: `a b -- a op b`, read from the
/// first `bytes` bytes of each value; a value too short, or a result out of
/// range, is an invalid value (the signed ones as they are kept, with the
/// first byte's top bit flipped).
pub open spec fn sized_step(m: EnvModel, bytes: nat, signed: bool, add: bool) -> Outcome {
    after_pops(
        m,
        2,
        |m1: EnvModel, t: Seq<Seq<u8>>| {
            let a = t[0];
            let b = t[1];
            let shown_a = if signed { flip_first(a) } else { a };
            let shown_b = if signed { flip_first(b) } else { b };
            let off: int = if signed { sign_offset(bytes) as int } else { 0 };
            if a.len() < bytes {
                fail(m1, invalid_value_error(shown_a))
            } else if b.len() < bytes {
                fail(m1, invalid_value_error(shown_b))
            } else {
                let va = be_value(a.subrange(0, bytes as int)) - off;
                let vb = be_value(b.subrange(0, bytes as int)) - off;
                let c = if add { va + vb } else { va - vb };
                if c + off < 0 || c + off >= sized_range(bytes) {
                    fail(m1, invalid_value_error(shown_a))
                } else {
                    ok(push_all(m1, seq![fixed_be((c + off) as nat, bytes)]))
                }
            }
        },
    )
}

/// The fixed-size operations from `width` bytes on (1, 2, 4 and 8 bytes),
/// unsigned then signed, addition then subtraction.
pub open spec fn sized_from(m: EnvModel, i: Seq<u8>, width: nat) -> Option<Outcome>
    decreases 16 - width,
{
    if width == 0 || width > 8 {
        None
    } else {
        or_else(named(i, sized_name(width, false, true), sized_step(m, width, false, true)),
        or_else(named(i, sized_name(width, false, false), sized_step(m, width, false, false)),
        or_else(named(i, sized_name(width, true, true), sized_step(m, width, true, true)),
        or_else(named(i, sized_name(width, true, false), sized_step(m, width, true, false)),
        sized_from(m, i, 2 * width)))))
    }
}

/// What the numbers module does with an instruction, if it knows it.
pub open spec fn numbers_module_step(m: EnvModel, i: Seq<u8>) -> Option<Outcome> {
    or_else(named(i, uint_add_name(), uint_add_step(m)),
    or_else(named(i, uint_sub_name(), uint_sub_step(m)),
    or_else(named(i, int_add_name(), int_add_step(m)),
    or_else(named(i, int_sub_name(), int_sub_step(m)),
    or_else(named(i, int_to_uint_name(), int_to_uint_step(m)),
    or_else(named(i, uint_to_int_name(), uint_to_int_step(m)),
    or_else(named(i, uint_compare_name(0), uint_compare_step(m, 0)),
    or_else(named(i, uint_compare_name(1), uint_compare_step(m, 1)),
    or_else(named(i, uint_compare_name(2), uint_compare_step(m, 2)),
    or_else(named(i, int_compare_name(0), int_compare_step(m, 0)),
    or_else(named(i, int_compare_name(1), int_compare_step(m, 1)),
    or_else(named(i, int_compare_name(2), int_compare_step(m, 2)),
    sized_from(m, i, 1)))))))))))))
}

/// The sum of two unsigned numbers (`BigUint` addition), shortest bytes.
#[verifier::external_body]
fn biguint_add(a: &[u8], b: &[u8]) -> (r: Vec<u8>)
    ensures
        r@ == canonical_be(be_value(a@) + be_value(b@)),
{
    (BigUint::from_bytes_be(a) + BigUint::from_bytes_be(b)).to_bytes_be()
}

/// The difference of two unsigned numbers (`BigUint` subtraction, which
/// panics below zero), shortest bytes.
#[verifier::external_body]
fn biguint_sub(a: &[u8], b: &[u8]) -> (r: Vec<u8>)
    requires
        be_value(b@) <= be_value(a@),
    ensures
        r@ == canonical_be((be_value(a@) - be_value(b@)) as nat),
{
    (BigUint::from_bytes_be(a) - BigUint::from_bytes_be(b)).to_bytes_be()
}

/// Whether one unsigned number is below another (`BigUint` order).
#[verifier::external_body]
fn biguint_less(a: &[u8], b: &[u8]) -> (r: bool)
    ensures
        r == (be_value(a@) < be_value(b@)),
{
    BigUint::from_bytes_be(a) < BigUint::from_bytes_be(b)
}

/// The shortest bytes of an unsigned number (`BigUint::from_bytes_be`
/// then `to_bytes_be`).
#[verifier::external_body]
fn biguint_canonical(a: &[u8]) -> (r: Vec<u8>)
    ensures
        r@ == canonical_be(be_value(a@)),
{
    BigUint::from_bytes_be(a).to_bytes_be()
}

pub open spec fn sm_value(x: SignedMagnitude) -> int {
    signed_value(x.negative, be_value(x.magnitude@))
}

/// An integer as a `BigInt` sign and magnitude, shortest bytes.
pub open spec fn is_canonical_of(r: SignedMagnitude, v: int) -> bool {
    r.negative == (v < 0) && r.magnitude@ == canonical_be(abs(v))
}

/// The sum of two integers (`BigInt` addition), as the sign and
/// magnitude `BigInt::to_bytes_be` gives.
#[verifier::external_body]
fn bigint_add(a: &SignedMagnitude, b: &SignedMagnitude) -> (r: SignedMagnitude)
    ensures
        is_canonical_of(r, sm_value(*a) + sm_value(*b)),
{
    let x = BigInt::from_bytes_be(if a.negative { Sign::Minus } else { Sign::Plus }, &a.magnitude);
    let y = BigInt::from_bytes_be(if b.negative { Sign::Minus } else { Sign::Plus }, &b.magnitude);
    let (sign, magnitude) = (x + y).to_bytes_be();
    let negative = match sign {
        Sign::Minus => true,
        Sign::NoSign => false,
        Sign::Plus => false,
    };
    SignedMagnitude { negative, magnitude }
}

/// The difference of two integers (`BigInt` subtraction), as the sign and
/// magnitude `BigInt::to_bytes_be` gives.
#[verifier::external_body]
fn bigint_sub(a: &SignedMagnitude, b: &SignedMagnitude) -> (r: SignedMagnitude)
    ensures
        is_canonical_of(r, sm_value(*a) - sm_value(*b)),
{
    let x = BigInt::from_bytes_be(if a.negative { Sign::Minus } else { Sign::Plus }, &a.magnitude);
    let y = BigInt::from_bytes_be(if b.negative { Sign::Minus } else { Sign::Plus }, &b.magnitude);
    let (sign, magnitude) = (x - y).to_bytes_be();
    let negative = match sign {
        Sign::Minus => true,
        Sign::NoSign => false,
        Sign::Plus => false,
    };
    SignedMagnitude { negative, magnitude }
}

/// Whether one integer is below another (`BigInt` order).
#[verifier::external_body]
fn bigint_less(a: &SignedMagnitude, b: &SignedMagnitude) -> (r: bool)
    ensures
        r == (sm_value(*a) < sm_value(*b)),
{
    let x = BigInt::from_bytes_be(if a.negative { Sign::Minus } else { Sign::Plus }, &a.magnitude);
    let y = BigInt::from_bytes_be(if b.negative { Sign::Minus } else { Sign::Plus }, &b.magnitude);
    x < y
}

/// Reads a packed signed value.
pub(crate) fn read_int(s: &Vec<u8>) -> (r: Option<SignedMagnitude>)
    ensures
        match int_value(s@) {
            Some(v) => r matches Some(x) && sm_value(x) == v,
            None => r is None,
        },
{
    if s.len() == 0 {
        return None;
    }
    unpack_int(s.as_slice())
}

/// Takes two values off the stack, the deeper first.
pub(crate) fn pop_pair(env: &mut Env) -> (r: Result<(Vec<u8>, Vec<u8>), Error>)
    ensures
        old(env)@.stack.len() < 2 ==> final(env)@ == (EnvModel { stack: Seq::empty(), ..old(env)@ })
            && (r matches Err(e) && e.model() == crate::script::empty_stack_error()),
        old(env)@.stack.len() >= 2 ==> ({
            let n = old(env)@.stack.len() - 2;
            &&& final(env)@ == (EnvModel { stack: old(env)@.stack.subrange(0, n), ..old(env)@ })
            &&& r matches Ok((a, b)) && a@ == old(env)@.stack[n] && b@ == old(env)@.stack[n + 1]
        }),
{
    let mut t = match pop_n(env, 2) {
        Ok(t) => t,
        Err(e) => return Err(e),
    };
    assert(seqs(t@).len() == t@.len());
    assert(seqs(t@)[0] == t@[0]@);
    assert(seqs(t@)[1] == t@[1]@);
    let b = t.pop().unwrap();
    let a = t.pop().unwrap();
    Ok((a, b))
}

/// Takes one value off the stack.
pub(crate) fn pop_single(env: &mut Env) -> (r: Result<Vec<u8>, Error>)
    ensures
        old(env)@.stack.len() < 1 ==> final(env)@ == (EnvModel { stack: Seq::empty(), ..old(env)@ })
            && (r matches Err(e) && e.model() == crate::script::empty_stack_error()),
        old(env)@.stack.len() >= 1 ==> ({
            let n = old(env)@.stack.len() - 1;
            &&& final(env)@ == (EnvModel { stack: old(env)@.stack.subrange(0, n), ..old(env)@ })
            &&& r matches Ok(v) && v@ == old(env)@.stack[n]
        }),
{
    let mut t = match pop_n(env, 1) {
        Ok(t) => t,
        Err(e) => return Err(e),
    };
    assert(seqs(t@).len() == t@.len());
    assert(seqs(t@)[0] == t@[0]@);
    Ok(t.pop().unwrap())
}

/// Pushes a value.
pub(crate) fn push_value(env: &mut Env, v: Vec<u8>)
    ensures
        final(env)@ == push_all(old(env)@, seq![v@]),
{
    let ghost m = env@;
    env.push(v);
    assert(m.stack.push(v@) =~= m.stack + seq![v@]);
}

fn handle_uint_add_sub(env: &mut Env, instruction: &[u8], add: bool) -> (r: PassResult)
    ensures
        answers(
            if add {
                named(instruction@, uint_add_name(), uint_add_step(old(env)@))
            } else {
                named(instruction@, uint_sub_name(), uint_sub_step(old(env)@))
            },
            old(env)@,
            final(env)@,
            result_model(r),
        ),
{
    let name: Vec<u8> = if add {
        vec![136u8, 85, 73, 78, 84, 47, 65, 68, 68]
    } else {
        vec![136u8, 85, 73, 78, 84, 47, 83, 85, 66]
    };
    if !is_instruction(instruction, name) {
        return Err(Error::UnknownInstruction);
    }
    let (b, a) = match pop_pair(env) {
        Ok(p) => p,
        Err(e) => return Err(e),
    };
    if add {
        push_value(env, biguint_add(b.as_slice(), a.as_slice()));
    } else {
        if biguint_less(b.as_slice(), a.as_slice()) {
            return Err(error_invalid_value(a.as_slice()));
        }
        push_value(env, biguint_sub(b.as_slice(), a.as_slice()));
    }
    Ok(())
}

fn handle_int_add_sub(env: &mut Env, instruction: &[u8], add: bool) -> (r: PassResult)
    ensures
        answers(
            if add {
                named(instruction@, int_add_name(), int_add_step(old(env)@))
            } else {
                named(instruction@, int_sub_name(), int_sub_step(old(env)@))
            },
            old(env)@,
            final(env)@,
            result_model(r),
        ),
{
    let name: Vec<u8> = if add {
        vec![135u8, 73, 78, 84, 47, 65, 68, 68]
    } else {
        vec![135u8, 73, 78, 84, 47, 83, 85, 66]
    };
    if !is_instruction(instruction, name) {
        return Err(Error::UnknownInstruction);
    }
    let (lower, upper) = match pop_pair(env) {
        Ok(p) => p,
        Err(e) => return Err(e),
    };
    let (first, second) = if add {
        (&upper, &lower)
    } else {
        (&lower, &upper)
    };
    let x = match read_int(first) {
        Some(x) => x,
        None => return Err(error_invalid_value(first.as_slice())),
    };
    let y = match read_int(second) {
        Some(y) => y,
        None => return Err(error_invalid_value(second.as_slice())),
    };
    let result = if add {
        bigint_add(&x, &y)
    } else {
        bigint_sub(&x, &y)
    };
    push_value(env, result.pack());
    Ok(())
}

fn handle_int_to_uint(env: &mut Env, instruction: &[u8]) -> (r: PassResult)
    ensures
        answers(named(instruction@, int_to_uint_name(), int_to_uint_step(old(env)@)), old(env)@, final(env)@, result_model(r)),
{
    if !is_instruction(instruction, vec![137u8, 73, 78, 84, 45, 62, 85, 73, 78, 84]) {
        return Err(Error::UnknownInstruction);
    }
    let a = match pop_single(env) {
        Ok(a) => a,
        Err(e) => return Err(e),
    };
    let x = match read_int(&a) {
        Some(x) => x,
        None => return Err(error_invalid_value(a.as_slice())),
    };
    let zero = SignedMagnitude { negative: false, magnitude: Vec::new() };
    if bigint_less(&x, &zero) {
        return Err(error_invalid_value(a.as_slice()));
    }
    push_value(env, biguint_canonical(x.magnitude.as_slice()));
    Ok(())
}

fn handle_uint_to_int(env: &mut Env, instruction: &[u8]) -> (r: PassResult)
    ensures
        answers(named(instruction@, uint_to_int_name(), uint_to_int_step(old(env)@)), old(env)@, final(env)@, result_model(r)),
{
    if !is_instruction(instruction, vec![137u8, 85, 73, 78, 84, 45, 62, 73, 78, 84]) {
        return Err(Error::UnknownInstruction);
    }
    let a = match pop_single(env) {
        Ok(a) => a,
        Err(e) => return Err(e),
    };
    let mut packed: Vec<u8> = vec![1u8];
    let magnitude = biguint_canonical(a.as_slice());
    append_bytes(&mut packed, magnitude.as_slice());
    assert(packed@ =~= seq![1u8] + magnitude@);
    push_value(env, packed);
    Ok(())
}

fn uint_compare_name_bytes(which: u8) -> (r: Vec<u8>)
    requires
        which < 3,
    ensures
        r@ == uint_compare_name(which as nat),
{
    if which == 0 {
        vec![139u8, 85, 73, 78, 84, 47, 69, 81, 85, 65, 76, 63]
    } else if which == 1 {
        vec![136u8, 85, 73, 78, 84, 47, 71, 84, 63]
    } else {
        vec![136u8, 85, 73, 78, 84, 47, 76, 84, 63]
    }
}

fn int_compare_name_bytes(which: u8) -> (r: Vec<u8>)
    requires
        which < 3,
    ensures
        r@ == int_compare_name(which as nat),
{
    if which == 0 {
        vec![138u8, 73, 78, 84, 47, 69, 81, 85, 65, 76, 63]
    } else if which == 1 {
        vec![135u8, 73, 78, 84, 47, 71, 84, 63]
    } else {
        vec![135u8, 73, 78, 84, 47, 76, 84, 63]
    }
}

fn handle_uint_compare(env: &mut Env, instruction: &[u8], which: u8) -> (r: PassResult)
    requires
        which < 3,
    ensures
        answers(
            named(instruction@, uint_compare_name(which as nat), uint_compare_step(old(env)@, which as nat)),
            old(env)@,
            final(env)@,
            result_model(r),
        ),
{
    if !is_instruction(instruction, uint_compare_name_bytes(which)) {
        return Err(Error::UnknownInstruction);
    }
    let (a, b) = match pop_pair(env) {
        Ok(p) => p,
        Err(e) => return Err(e),
    };
    let v = if which == 0 {
        !biguint_less(a.as_slice(), b.as_slice()) && !biguint_less(b.as_slice(), a.as_slice())
    } else if which == 1 {
        biguint_less(b.as_slice(), a.as_slice())
    } else {
        biguint_less(a.as_slice(), b.as_slice())
    };
    push_bool(env, v);
    Ok(())
}

fn handle_int_compare(env: &mut Env, instruction: &[u8], which: u8) -> (r: PassResult)
    requires
        which < 3,
    ensures
        answers(
            named(instruction@, int_compare_name(which as nat), int_compare_step(old(env)@, which as nat)),
            old(env)@,
            final(env)@,
            result_model(r),
        ),
{
    if !is_instruction(instruction, int_compare_name_bytes(which)) {
        return Err(Error::UnknownInstruction);
    }
    let (a, b) = match pop_pair(env) {
        Ok(p) => p,
        Err(e) => return Err(e),
    };
    let x = match read_int(&a) {
        Some(x) => x,
        None => return Err(error_invalid_value(a.as_slice())),
    };
    let y = match read_int(&b) {
        Some(y) => y,
        None => return Err(error_invalid_value(b.as_slice())),
    };
    let v = if which == 0 {
        !bigint_less(&x, &y) && !bigint_less(&y, &x)
    } else if which == 1 {
        bigint_less(&y, &x)
    } else {
        bigint_less(&x, &y)
    };
    push_bool(env, v);
    Ok(())
}

/// 256 to the power `n`.
pub open spec fn pow256(n: nat) -> nat
    decreases n,
{
    if n == 0 {
        1
    } else {
        256 * pow256((n - 1) as nat)
    }
}

/// `n` big-endian bytes are worth less than 256^n.
pub proof fn lemma_be_value_bound(s: Seq<u8>)
    ensures
        be_value(s) < pow256(s.len()),
    decreases s.len(),
{
    if s.len() > 0 {
        lemma_be_value_bound(s.drop_last());
        assert(be_value(s.drop_last()) * 256 + s.last() < pow256(s.len())) by (nonlinear_arith)
            requires
                be_value(s.drop_last()) < pow256(s.drop_last().len()),
                pow256(s.len()) == 256 * pow256(s.drop_last().len()),
                s.last() < 256,
        ;
    }
}

/// The powers of 256 the fixed sizes use.
pub proof fn lemma_pow256_small()
    ensures
        pow256(1) == 0x100,
        pow256(2) == 0x1_0000,
        pow256(4) == 0x1_0000_0000,
        pow256(8) == 0x1_0000_0000_0000_0000,
{
    reveal_with_fuel(pow256, 9);
}

/// Reading `fixed_be(v, n)` gives `v` back.
pub proof fn lemma_fixed_be(v: nat, n: nat)
    requires
        v < pow256(n),
    ensures
        fixed_be(v, n).len() == n,
        be_value(fixed_be(v, n)) == v,
    decreases n,
{
    if n > 0 {
        assert(v / 256 < pow256((n - 1) as nat)) by (nonlinear_arith)
            requires
                v < pow256(n),
                pow256(n) == 256 * pow256((n - 1) as nat),
        ;
        lemma_fixed_be(v / 256, (n - 1) as nat);
        let s = fixed_be(v / 256, (n - 1) as nat);
        assert(s.push((v % 256) as u8).drop_last() =~= s);
        assert((v / 256) * 256 + v % 256 == v) by (nonlinear_arith);
    }
}

/// `n` big-endian bytes of `v`.
pub(crate) fn write_fixed(v: u64, n: usize) -> (r: Vec<u8>)
    ensures
        r@ == fixed_be(v as nat, n as nat),
    decreases n,
{
    if n == 0 {
        Vec::new()
    } else {
        let mut r = write_fixed(v / 256, n - 1);
        r.push((v % 256) as u8);
        r
    }
}

/// The name of a fixed-size operation.
fn sized_name_bytes(bytes: u8, signed: bool, add: bool) -> (r: Vec<u8>)
    requires
        bytes == 1 || bytes == 2 || bytes == 4 || bytes == 8,
    ensures
        r@ == sized_name(bytes as nat, signed, add),
{
    let mut name: Vec<u8> = if signed {
        vec![73u8, 78, 84]
    } else {
        vec![85u8, 73, 78, 84]
    };
    let width: Vec<u8> = if bytes == 1 {
        vec![56u8]
    } else if bytes == 2 {
        vec![49u8, 54]
    } else if bytes == 4 {
        vec![51u8, 50]
    } else {
        vec![54u8, 52]
    };
    let op: Vec<u8> = if add {
        vec![47u8, 65, 68, 68]
    } else {
        vec![47u8, 83, 85, 66]
    };
    append_bytes(&mut name, width.as_slice());
    append_bytes(&mut name, op.as_slice());
    let mut r: Vec<u8> = Vec::new();
    r.push((128 + name.len()) as u8);
    append_bytes(&mut r, name.as_slice());
    r
}

/// A value as kept: with the top bit of its first byte flipped for signed
/// values.
fn shown(v: &Vec<u8>, signed: bool) -> (r: Vec<u8>)
    ensures
        r@ == if signed { flip_first(v@) } else { v@ },
{
    let mut r = crate::env::copy_bytes(v.as_slice());
    if signed && r.len() > 0 {
        let b = r[0];
        r.set(0, ((b as u16 + 128) % 256) as u8);
    }
    r
}

#[verifier::spinoff_prover]
#[verifier::rlimit(40)]
fn handle_sized(env: &mut Env, instruction: &[u8], bytes: u8, signed: bool, add: bool) -> (r: PassResult)
    requires
        bytes == 1 || bytes == 2 || bytes == 4 || bytes == 8,
    ensures
        answers(
            named(instruction@, sized_name(bytes as nat, signed, add), sized_step(old(env)@, bytes as nat, signed, add)),
            old(env)@,
            final(env)@,
            result_model(r),
        ),
{
    if !is_instruction(instruction, sized_name_bytes(bytes, signed, add)) {
        return Err(Error::UnknownInstruction);
    }
    let (a, b) = match pop_pair(env) {
        Ok(p) => p,
        Err(e) => return Err(e),
    };
    let k = bytes as usize;
    if a.len() < k {
        let sa = shown(&a, signed);
        return Err(error_invalid_value(sa.as_slice()));
    }
    if b.len() < k {
        let sb = shown(&b, signed);
        return Err(error_invalid_value(sb.as_slice()));
    }
    let pa = vstd::slice::slice_subrange(a.as_slice(), 0, k);
    let pb = vstd::slice::slice_subrange(b.as_slice(), 0, k);
    proof {
        lemma_be_value_bound(pa@);
        lemma_be_value_bound(pb@);
        lemma_pow256_small();
    }
    let ua = match be_u64(pa) {
        Some(v) => v,
        None => return Err(Error::HeapAllocFailed),
    };
    let ub = match be_u64(pb) {
        Some(v) => v,
        None => return Err(Error::HeapAllocFailed),
    };
    let off: i128 = if !signed {
        0
    } else if bytes == 1 {
        0x80
    } else if bytes == 2 {
        0x8000
    } else if bytes == 4 {
        0x8000_0000
    } else {
        0x8000_0000_0000_0000
    };
    let range: i128 = if bytes == 1 {
        0x100
    } else if bytes == 2 {
        0x1_0000
    } else if bytes == 4 {
        0x1_0000_0000
    } else {
        0x1_0000_0000_0000_0000
    };
    let va: i128 = ua as i128 - off;
    let vb: i128 = ub as i128 - off;
    let c: i128 = if add {
        va + vb
    } else {
        va - vb
    };
    if c + off < 0 || c + off >= range {
        let sa = shown(&a, signed);
        return Err(error_invalid_value(sa.as_slice()));
    }
    let out = write_fixed((c + off) as u64, k);
    push_value(env, out);
    Ok(())
}

/// Runs an instruction of the numbers module; any other instruction is
/// left unhandled.
#[verifier::spinoff_prover]
#[verifier::rlimit(30)]
pub fn handle(env: &mut Env, instruction: &[u8]) -> (r: PassResult)
    ensures
        answers(numbers_module_step(old(env)@, instruction@), old(env)@, final(env)@, result_model(r)),
{
    let r = handle_uint_add_sub(env, instruction, true);
    if !r.is_unhandled() {
        return r;
    }
    let r = handle_uint_add_sub(env, instruction, false);
    if !r.is_unhandled() {
        return r;
    }
    let r = handle_int_add_sub(env, instruction, true);
    if !r.is_unhandled() {
        return r;
    }
    let r = handle_int_add_sub(env, instruction, false);
    if !r.is_unhandled() {
        return r;
    }
    let r = handle_int_to_uint(env, instruction);
    if !r.is_unhandled() {
        return r;
    }
    let r = handle_uint_to_int(env, instruction);
    if !r.is_unhandled() {
        return r;
    }
    let r = handle_uint_compare(env, instruction, 0);
    if !r.is_unhandled() {
        return r;
    }
    let r = handle_uint_compare(env, instruction, 1);
    if !r.is_unhandled() {
        return r;
    }
    let r = handle_uint_compare(env, instruction, 2);
    if !r.is_unhandled() {
        return r;
    }
    let r = handle_int_compare(env, instruction, 0);
    if !r.is_unhandled() {
        return r;
    }
    let r = handle_int_compare(env, instruction, 1);
    if !r.is_unhandled() {
        return r;
    }
    let r = handle_int_compare(env, instruction, 2);
    if !r.is_unhandled() {
        return r;
    }
    let mut width: u8 = 1;
    while width <= 8
        invariant
            width == 1 || width == 2 || width == 4 || width == 8 || width == 16,
            env@ == old(env)@,
            numbers_module_step(old(env)@, instruction@) == sized_from(old(env)@, instruction@, width as nat),
        decreases 16 - width,
    {
        let r = handle_sized(env, instruction, width, false, true);
        if !r.is_unhandled() {
            return r;
        }
        let r = handle_sized(env, instruction, width, false, false);
        if !r.is_unhandled() {
            return r;
        }
        let r = handle_sized(env, instruction, width, true, true);
        if !r.is_unhandled() {
            return r;
        }
        let r = handle_sized(env, instruction, width, true, false);
        if !r.is_unhandled() {
            return r;
        }
        width = width * 2;
    }
    Err(Error::UnknownInstruction)
}

} // verus!
