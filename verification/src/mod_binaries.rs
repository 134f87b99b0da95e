//! Byte string operations: EQUAL?, LT?, GT?, LENGTH, CONCAT, SLICE, PAD.
use vstd::prelude::*;
use crate::bignum::{canonical_be, be_u64, uint_bytes};
use crate::encoding::{append_bytes, be_value};
use crate::env::{Env, EnvModel, seqs, bytes_equal, copy_bytes};
use crate::instructions::{
    Outcome,
    after_pops,
    answers,
    fail,
    is_instruction,
    named,
    ok,
    or_else,
    pop_n,
    push_all,
    push_bool,
    stack_bool,
};
use crate::script::{
    TryInstruction,
    Error,
    PassResult,
    result_model,
    invalid_value_error,
    error_invalid_value,
};

verus! {

pub open spec fn equal_name() -> Seq<u8> {
    seq![134u8, 69, 81, 85, 65, 76, 63]
}

pub open spec fn lt_name() -> Seq<u8> {
    seq![131u8, 76, 84, 63]
}

pub open spec fn gt_name() -> Seq<u8> {
    seq![131u8, 71, 84, 63]
}

pub open spec fn length_name() -> Seq<u8> {
    seq![134u8, 76, 69, 78, 71, 84, 72]
}

pub open spec fn concat_name() -> Seq<u8> {
    seq![134u8, 67, 79, 78, 67, 65, 84]
}

pub open spec fn slice_name() -> Seq<u8> {
    seq![133u8, 83, 76, 73, 67, 69]
}

pub open spec fn pad_name() -> Seq<u8> {
    seq![131u8, 80, 65, 68]
}

/// Lexicographic order of byte strings: the first differing byte decides,
/// and a proper prefix comes first.
pub open spec fn lex_less(x: Seq<u8>, y: Seq<u8>) -> bool
    decreases x.len(),
{
    if x.len() == 0 {
        y.len() > 0
    } else if y.len() == 0 {
        false
    } else if x[0] != y[0] {
        x[0] < y[0]
    } else {
        lex_less(x.drop_first(), y.drop_first())
    }
}

/// EQUAL?: `a b -- a==b`.
pub open spec fn equal_step(m: EnvModel) -> Outcome {
    after_pops(m, 2, |m1: EnvModel, t: Seq<Seq<u8>>| ok(push_all(m1, seq![stack_bool(t[0] == t[1])])))
}

/// LT?: `a b -- a<b`, in lexicographic order.
pub open spec fn lt_step(m: EnvModel) -> Outcome {
    after_pops(m, 2, |m1: EnvModel, t: Seq<Seq<u8>>| ok(push_all(m1, seq![stack_bool(lex_less(t[0], t[1]))])))
}

/// GT?: `a b -- a>b`, in lexicographic order.
pub open spec fn gt_step(m: EnvModel) -> Outcome {
    after_pops(m, 2, |m1: EnvModel, t: Seq<Seq<u8>>| ok(push_all(m1, seq![stack_bool(lex_less(t[1], t[0]))])))
}

/// LENGTH: `a -- len(a)`, the length as an unsigned number.
pub open spec fn length_step(m: EnvModel) -> Outcome {
    after_pops(m, 1, |m1: EnvModel, t: Seq<Seq<u8>>| ok(push_all(m1, seq![canonical_be(t[0].len())])))
}

/// CONCAT: `a b -- ab`.
pub open spec fn concat_step(m: EnvModel) -> Outcome {
    after_pops(m, 2, |m1: EnvModel, t: Seq<Seq<u8>>| ok(push_all(m1, seq![t[0] + t[1]])))
}

/// The checks and result of SLICE on a value, a start and an end.
pub open spec fn slice_of(m1: EnvModel, v: Seq<u8>, start: Seq<u8>, end: Seq<u8>) -> Outcome {
    let s = be_value(start);
    let e = be_value(end);
    if s >= 0x1_0000_0000_0000_0000 {
        fail(m1, invalid_value_error(start))
    } else if e >= 0x1_0000_0000_0000_0000 {
        fail(m1, invalid_value_error(end))
    } else if s > e {
        fail(m1, invalid_value_error(start))
    } else if v.len() > 0 && s > v.len() - 1 {
        fail(m1, invalid_value_error(start))
    } else if e > v.len() {
        fail(m1, invalid_value_error(end))
    } else {
        ok(push_all(m1, seq![v.subrange(s as int, e as int)]))
    }
}

/// SLICE: `value start end -- value[start..end]`.
pub open spec fn slice_step(m: EnvModel) -> Outcome {
    after_pops(m, 3, |m1: EnvModel, t: Seq<Seq<u8>>| slice_of(m1, t[0], t[1], t[2]))
}

/// The checks and result of PAD on a value, a size and a padding byte.
pub open spec fn pad_of(m1: EnvModel, v: Seq<u8>, size: Seq<u8>, byte: Seq<u8>) -> Outcome {
    let n = be_value(size);
    if byte.len() != 1 {
        fail(m1, invalid_value_error(byte))
    } else if n >= 0x1_0000_0000_0000_0000 || n > 1024 || n < v.len() {
        fail(m1, invalid_value_error(size))
    } else {
        ok(push_all(m1, seq![Seq::new((n - v.len()) as nat, |i: int| byte[0]) + v]))
    }
}

/// PAD: `value size byte -- padded`, the value with the byte in front up to
/// `size` bytes (at most 1024).
pub open spec fn pad_step(m: EnvModel) -> Outcome {
    after_pops(m, 3, |m1: EnvModel, t: Seq<Seq<u8>>| pad_of(m1, t[0], t[1], t[2]))
}

/// What the binaries module does with an instruction, if it knows it.
pub open spec fn binaries_module_step(m: EnvModel, i: Seq<u8>) -> Option<Outcome> {
    or_else(named(i, lt_name(), lt_step(m)),
    or_else(named(i, gt_name(), gt_step(m)),
    or_else(named(i, equal_name(), equal_step(m)),
    or_else(named(i, concat_name(), concat_step(m)),
    or_else(named(i, slice_name(), slice_step(m)),
    or_else(named(i, pad_name(), pad_step(m)),
    named(i, length_name(), length_step(m))
    ))))))
}

/// Lexicographic comparison of byte strings.
pub fn bytes_less(x: &[u8], y: &[u8]) -> (r: bool)
    ensures
        r == lex_less(x@, y@),
{
    let mut i: usize = 0;
    assert(x@.subrange(0, x@.len() as int) =~= x@);
    assert(y@.subrange(0, y@.len() as int) =~= y@);
    while i < x.len() && i < y.len()
        invariant
            i <= x@.len(),
            i <= y@.len(),
            lex_less(x@, y@) == lex_less(x@.subrange(i as int, x@.len() as int), y@.subrange(i as int, y@.len() as int)),
        decreases x@.len() - i,
    {
        let ghost xs = x@.subrange(i as int, x@.len() as int);
        let ghost ys = y@.subrange(i as int, y@.len() as int);
        if x[i] != y[i] {
            return x[i] < y[i];
        }
        assert(xs.drop_first() =~= x@.subrange(i + 1, x@.len() as int));
        assert(ys.drop_first() =~= y@.subrange(i + 1, y@.len() as int));
        i = i + 1;
    }
    i < y.len()
}

/// Takes three values off the stack, the deepest first.
pub(crate) fn pop_three(env: &mut Env) -> (r: Result<(Vec<u8>, Vec<u8>, Vec<u8>), Error>)
    ensures
        old(env)@.stack.len() < 3 ==> final(env)@ == (EnvModel { stack: Seq::empty(), ..old(env)@ })
            && (r matches Err(e) && e.model() == crate::script::empty_stack_error()),
        old(env)@.stack.len() >= 3 ==> ({
            let n = old(env)@.stack.len() - 3;
            &&& final(env)@ == (EnvModel { stack: old(env)@.stack.subrange(0, n), ..old(env)@ })
            &&& r matches Ok((a, b, c)) && a@ == old(env)@.stack[n] && b@ == old(env)@.stack[n + 1]
                && c@ == old(env)@.stack[n + 2]
        }),
{
    let mut t = match pop_n(env, 3) {
        Ok(t) => t,
        Err(e) => return Err(e),
    };
    assert(seqs(t@).len() == t@.len());
    assert(seqs(t@)[0] == t@[0]@);
    assert(seqs(t@)[1] == t@[1]@);
    assert(seqs(t@)[2] == t@[2]@);
    let c = t.pop().unwrap();
    let b = t.pop().unwrap();
    let a = t.pop().unwrap();
    Ok((a, b, c))
}

/// Takes two values off the stack, the deeper first.
fn pop_pair(env: &mut Env) -> (r: Result<(Vec<u8>, Vec<u8>), Error>)
    ensures
        old(env)@.stack.len() < 2 ==> final(env)@ == (EnvModel { stack: Seq::empty(), ..old(env)@ })
            && (r matches Err(e) && e.model() == crate::script::empty_stack_error()),
        old(env)@.stack.len() >= 2 ==> ({
            let n = old(env)@.stack.len() - 2;
            &&& final(env)@ == (EnvModel { stack: old(env)@.stack.subrange(0, n), ..old(env)@ })
            &&& r matches Ok((a, b)) && a@ == old(env)@.stack[n] && b@ == old(env)@.stack[n + 1]
        }),
{
    let mut t = match pop_n(env, 2) {
        Ok(t) => t,
        Err(e) => return Err(e),
    };
    assert(seqs(t@).len() == t@.len());
    assert(seqs(t@)[0] == t@[0]@);
    assert(seqs(t@)[1] == t@[1]@);
    let b = t.pop().unwrap();
    let a = t.pop().unwrap();
    Ok((a, b))
}

/// EQUAL?, LT? or GT?, by `which` (0, 1, 2).
fn handle_compare(env: &mut Env, instruction: &[u8], which: u8) -> (r: PassResult)
    requires
        which < 3,
    ensures
        answers(
            if which == 0 {
                named(instruction@, equal_name(), equal_step(old(env)@))
            } else if which == 1 {
                named(instruction@, lt_name(), lt_step(old(env)@))
            } else {
                named(instruction@, gt_name(), gt_step(old(env)@))
            },
            old(env)@,
            final(env)@,
            result_model(r),
        ),
{
    let name: Vec<u8> = if which == 0 {
        vec![134u8, 69, 81, 85, 65, 76, 63]
    } else if which == 1 {
        vec![131u8, 76, 84, 63]
    } else {
        vec![131u8, 71, 84, 63]
    };
    if !is_instruction(instruction, name) {
        return Err(Error::UnknownInstruction);
    }
    let (b, a) = match pop_pair(env) {
        Ok(p) => p,
        Err(e) => return Err(e),
    };
    let v = if which == 0 {
        bytes_equal(b.as_slice(), a.as_slice())
    } else if which == 1 {
        bytes_less(b.as_slice(), a.as_slice())
    } else {
        bytes_less(a.as_slice(), b.as_slice())
    };
    push_bool(env, v);
    Ok(())
}

fn handle_length(env: &mut Env, instruction: &[u8]) -> (r: PassResult)
    ensures
        answers(named(instruction@, length_name(), length_step(old(env)@)), old(env)@, final(env)@, result_model(r)),
{
    if !is_instruction(instruction, vec![134u8, 76, 69, 78, 71, 84, 72]) {
        return Err(Error::UnknownInstruction);
    }
    let mut t = match pop_n(env, 1) {
        Ok(t) => t,
        Err(e) => return Err(e),
    };
    assert(seqs(t@).len() == t@.len());
    assert(seqs(t@)[0] == t@[0]@);
    let a = t.pop().unwrap();
    let ghost m1 = env@;
    let bytes = uint_bytes(a.len() as u64);
    env.push(bytes);
    assert(m1.stack.push(bytes@) =~= m1.stack + seq![bytes@]);
    Ok(())
}

fn handle_concat(env: &mut Env, instruction: &[u8]) -> (r: PassResult)
    ensures
        answers(named(instruction@, concat_name(), concat_step(old(env)@)), old(env)@, final(env)@, result_model(r)),
{
    if !is_instruction(instruction, vec![134u8, 67, 79, 78, 67, 65, 84]) {
        return Err(Error::UnknownInstruction);
    }
    let (b, a) = match pop_pair(env) {
        Ok(p) => p,
        Err(e) => return Err(e),
    };
    let ghost m1 = env@;
    let mut joined = b;
    append_bytes(&mut joined, a.as_slice());
    env.push(joined);
    assert(m1.stack.push(joined@) =~= m1.stack + seq![joined@]);
    Ok(())
}

fn handle_slice(env: &mut Env, instruction: &[u8]) -> (r: PassResult)
    ensures
        answers(named(instruction@, slice_name(), slice_step(old(env)@)), old(env)@, final(env)@, result_model(r)),
{
    if !is_instruction(instruction, vec![133u8, 83, 76, 73, 67, 69]) {
        return Err(Error::UnknownInstruction);
    }
    let (v, start, end) = match pop_three(env) {
        Ok(p) => p,
        Err(e) => return Err(e),
    };
    let s = match be_u64(start.as_slice()) {
        Some(s) => s,
        None => return Err(error_invalid_value(start.as_slice())),
    };
    let e = match be_u64(end.as_slice()) {
        Some(e) => e,
        None => return Err(error_invalid_value(end.as_slice())),
    };
    if s > e {
        return Err(error_invalid_value(start.as_slice()));
    }
    let len = v.len() as u64;
    if len > 0 && s > len - 1 {
        return Err(error_invalid_value(start.as_slice()));
    }
    if e > len {
        return Err(error_invalid_value(end.as_slice()));
    }
    let ghost m1 = env@;
    let part = copy_bytes(vstd::slice::slice_subrange(v.as_slice(), s as usize, e as usize));
    env.push(part);
    assert(m1.stack.push(part@) =~= m1.stack + seq![part@]);
    Ok(())
}

fn handle_pad(env: &mut Env, instruction: &[u8]) -> (r: PassResult)
    ensures
        answers(named(instruction@, pad_name(), pad_step(old(env)@)), old(env)@, final(env)@, result_model(r)),
{
    if !is_instruction(instruction, vec![131u8, 80, 65, 68]) {
        return Err(Error::UnknownInstruction);
    }
    let (v, size, byte) = match pop_three(env) {
        Ok(p) => p,
        Err(e) => return Err(e),
    };
    if byte.len() != 1 {
        return Err(error_invalid_value(byte.as_slice()));
    }
    let n = match be_u64(size.as_slice()) {
        Some(n) => n,
        None => return Err(error_invalid_value(size.as_slice())),
    };
    if n > 1024 || n < v.len() as u64 {
        return Err(error_invalid_value(size.as_slice()));
    }
    let fill = (n - v.len() as u64) as usize;
    let mut padded: Vec<u8> = Vec::new();
    let mut i: usize = 0;
    while i < fill
        invariant
            i <= fill,
            byte@.len() == 1,
            padded@ == Seq::new(i as nat, |j: int| byte@[0]),
        decreases fill - i,
    {
        padded.push(byte[0]);
        i = i + 1;
        assert(padded@ =~= Seq::new(i as nat, |j: int| byte@[0]));
    }
    append_bytes(&mut padded, v.as_slice());
    let ghost m1 = env@;
    env.push(padded);
    assert(m1.stack.push(padded@) =~= m1.stack + seq![padded@]);
    Ok(())
}

/// Runs an instruction of the binaries module; any other instruction is
/// left unhandled.
pub fn handle(env: &mut Env, instruction: &[u8]) -> (r: PassResult)
    ensures
        answers(binaries_module_step(old(env)@, instruction@), old(env)@, final(env)@, result_model(r)),
{
    let r = handle_compare(env, instruction, 1);
    if !r.is_unhandled() {
        return r;
    }
    let r = handle_compare(env, instruction, 2);
    if !r.is_unhandled() {
        return r;
    }
    let r = handle_compare(env, instruction, 0);
    if !r.is_unhandled() {
        return r;
    }
    let r = handle_concat(env, instruction);
    if !r.is_unhandled() {
        return r;
    }
    let r = handle_slice(env, instruction);
    if !r.is_unhandled() {
        return r;
    }
    let r = handle_pad(env, instruction);
    if !r.is_unhandled() {
        return r;
    }
    handle_length(env, instruction)
}

} // verus!
