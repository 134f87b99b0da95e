//! Control flow and logic: NOT, AND, OR, IF, IFELSE, EVAL, EVAL/VALID?,
//! EVAL/SCOPED, DOWHILE, TIMES, SET, DEF and FEATURE?.
use vstd::prelude::*;
use crate::binparser::{plain_instruction_spec, valid_program, parse_bin, parse_plain_instruction};
use crate::bignum::be_u64;
use crate::encoding::{append_bytes, be_value, encode_data, encode_data_spec, max_header_size};
use crate::env::{Env, EnvModel, seqs, dictionary_insert, bytes_equal};
use crate::instructions::{
    Outcome,
    after_pops,
    answers,
    fail,
    is_instruction,
    named,
    ok,
    or_else,
    pop_n,
    push_all,
    push_bool,
    schedule,
    stack_bool,
    stack_true,
    stack_false,
    bool_value,
};
use crate::script::{
    TryInstruction,
    Error,
    ErrorModel,
    PassResult,
    result_model,
    invalid_value_error,
    error_invalid_value,
};

verus! {

pub open spec fn not_name() -> Seq<u8> {
    seq![131u8, 78, 79, 84]
}

pub open spec fn and_name() -> Seq<u8> {
    seq![131u8, 65, 78, 68]
}

pub open spec fn or_name() -> Seq<u8> {
    seq![130u8, 79, 82]
}

pub open spec fn ifelse_name() -> Seq<u8> {
    seq![134u8, 73, 70, 69, 76, 83, 69]
}

pub open spec fn if_name() -> Seq<u8> {
    seq![130u8, 73, 70]
}

pub open spec fn eval_name() -> Seq<u8> {
    seq![132u8, 69, 86, 65, 76]
}

pub open spec fn eval_valid_name() -> Seq<u8> {
    seq![139u8, 69, 86, 65, 76, 47, 86, 65, 76, 73, 68, 63]
}

pub open spec fn eval_scoped_name() -> Seq<u8> {
    seq![139u8, 69, 86, 65, 76, 47, 83, 67, 79, 80, 69, 68]
}

/// The internal instruction that closes the scope EVAL/SCOPED opened.
pub open spec fn scope_end_name() -> Seq<u8> {
    seq![128u8, 139, 69, 86, 65, 76, 47, 83, 67, 79, 80, 69, 68]
}

pub open spec fn set_name() -> Seq<u8> {
    seq![131u8, 83, 69, 84]
}

pub open spec fn def_name() -> Seq<u8> {
    seq![131u8, 68, 69, 70]
}

pub open spec fn dowhile_name() -> Seq<u8> {
    seq![135u8, 68, 79, 87, 72, 73, 76, 69]
}

pub open spec fn times_name() -> Seq<u8> {
    seq![133u8, 84, 73, 77, 69, 83]
}

pub open spec fn feature_name() -> Seq<u8> {
    seq![136u8, 70, 69, 65, 84, 85, 82, 69, 63]
}

/// `scoped_dictionary`, the one feature this engine has.
pub open spec fn scoped_dictionary_feature() -> Seq<u8> {
    seq![115u8, 99, 111, 112, 101, 100, 95, 100, 105, 99, 116, 105, 111, 110, 97, 114, 121]
}

/// NOT: `a -- !a` on booleans.
pub open spec fn not_step(m: EnvModel) -> Outcome {
    after_pops(
        m,
        1,
        |m1: EnvModel, t: Seq<Seq<u8>>|
            if t[0] == stack_true() {
                ok(push_all(m1, seq![stack_false()]))
            } else if t[0] == stack_false() {
                ok(push_all(m1, seq![stack_true()]))
            } else {
                fail(m1, invalid_value_error(t[0]))
            },
    )
}

/// AND and OR: `b a -- b op a` on booleans; the top value is checked first.
pub open spec fn logic_step(m: EnvModel, is_and: bool) -> Outcome {
    after_pops(
        m,
        2,
        |m1: EnvModel, t: Seq<Seq<u8>>|
            if !(t[1] == stack_true() || t[1] == stack_false()) {
                fail(m1, invalid_value_error(t[1]))
            } else if !(t[0] == stack_true() || t[0] == stack_false()) {
                fail(m1, invalid_value_error(t[0]))
            } else if is_and {
                ok(push_all(m1, seq![stack_bool(t[0] == stack_true() && t[1] == stack_true())]))
            } else {
                ok(push_all(m1, seq![stack_bool(t[0] == stack_true() || t[1] == stack_true())]))
            },
    )
}

/// IFELSE: `cond then else -- ` runs `then` or `else` by the condition.
pub open spec fn ifelse_step(m: EnvModel) -> Outcome {
    after_pops(
        m,
        3,
        |m1: EnvModel, t: Seq<Seq<u8>>|
            if t[0] == stack_true() {
                ok(schedule(m1, t[1]))
            } else if t[0] == stack_false() {
                ok(schedule(m1, t[2]))
            } else {
                fail(m1, invalid_value_error(t[0]))
            },
    )
}

/// IF: `cond then -- ` is IFELSE with an empty `else`.
pub open spec fn if_step(m: EnvModel) -> Outcome {
    after_pops(
        m,
        2,
        |m1: EnvModel, t: Seq<Seq<u8>>|
            if t[0] == stack_true() {
                ok(schedule(m1, t[1]))
            } else if t[0] == stack_false() {
                ok(schedule(m1, Seq::empty()))
            } else {
                fail(m1, invalid_value_error(t[0]))
            },
    )
}

/// EVAL: runs the program on top of the stack.
pub open spec fn eval_step(m: EnvModel) -> Outcome {
    after_pops(m, 1, |m1: EnvModel, t: Seq<Seq<u8>>| ok(schedule(m1, t[0])))
}

/// EVAL/VALID?: whether the value on top is a well-formed program.
pub open spec fn eval_valid_step(m: EnvModel) -> Outcome {
    after_pops(m, 1, |m1: EnvModel, t: Seq<Seq<u8>>| ok(push_all(m1, seq![stack_bool(valid_program(t[0]))])))
}

/// EVAL/SCOPED opens a dictionary scope, then runs the program on top of
/// the stack followed by the instruction that closes the scope.
pub open spec fn eval_scoped_step(m: EnvModel) -> Outcome {
    after_pops(
        EnvModel { dictionary: m.dictionary.push(Seq::empty()), ..m },
        1,
        |m1: EnvModel, t: Seq<Seq<u8>>| ok(schedule(schedule(m1, scope_end_name()), t[0])),
    )
}

/// Closes the innermost dictionary scope (keeping at least one).
pub open spec fn scope_end_step(m: EnvModel) -> Outcome {
    ok(EnvModel {
        dictionary: if m.dictionary.len() <= 1 {
            seq![Seq::empty()]
        } else {
            m.dictionary.drop_last()
        },
        ..m
    })
}

/// The code DOWHILE schedules after its body: the body and DOWHILE as a
/// closure, then IF.
pub open spec fn dowhile_tail(body: Seq<u8>) -> Seq<u8> {
    encode_data_spec(encode_data_spec(body) + dowhile_name()) + if_name()
}

/// DOWHILE: runs the body, then again for as long as it leaves true.
pub open spec fn dowhile_step(m: EnvModel) -> Outcome {
    after_pops(
        m,
        1,
        |m1: EnvModel, t: Seq<Seq<u8>>|
            if t[0].len() + 13 <= max_header_size() {
                ok(schedule(schedule(m1, dowhile_tail(t[0])), t[0]))
            } else {
                fail(m1, ErrorModel::HeapAllocFailed)
            },
    )
}

/// `m` with `code` scheduled `n` times.
pub open spec fn schedule_times(m: EnvModel, code: Seq<u8>, n: nat) -> EnvModel
    decreases n,
{
    if n == 0 {
        m
    } else {
        schedule(schedule_times(m, code, (n - 1) as nat), code)
    }
}

/// TIMES: `code count -- ` runs `code` `count` times. A count of 2^64 or
/// more is an invalid value.
pub open spec fn times_step(m: EnvModel) -> Outcome {
    after_pops(
        m,
        2,
        |m1: EnvModel, t: Seq<Seq<u8>>|
            if be_value(t[1]) >= 0x1_0000_0000_0000_0000 {
                fail(m1, invalid_value_error(t[1]))
            } else {
                ok(schedule_times(m1, t[0], be_value(t[1])))
            },
    )
}

/// SET and DEF: `value instruction -- ` define the instruction in the
/// innermost scope; SET makes it push the value, DEF makes it run it.
pub open spec fn define_step(m: EnvModel, as_value: bool) -> Outcome {
    after_pops(
        m,
        2,
        |m1: EnvModel, t: Seq<Seq<u8>>|
            if plain_instruction_spec(t[1]) is Some {
                if as_value && t[0].len() > max_header_size() {
                    fail(m1, ErrorModel::HeapAllocFailed)
                } else {
                    ok(EnvModel {
                        dictionary: dictionary_insert(
                            m1.dictionary,
                            t[1],
                            if as_value {
                                encode_data_spec(t[0])
                            } else {
                                t[0]
                            },
                        ),
                        ..m1
                    })
                }
            } else {
                fail(m1, invalid_value_error(t[1]))
            },
    )
}

/// FEATURE?: whether the named feature is on.
pub open spec fn feature_step(m: EnvModel) -> Outcome {
    after_pops(
        m,
        1,
        |m1: EnvModel, t: Seq<Seq<u8>>| ok(push_all(m1, seq![stack_bool(t[0] == scoped_dictionary_feature())])),
    )
}

/// What the core module does with an instruction, if it knows it.
pub open spec fn core_module_step(m: EnvModel, i: Seq<u8>) -> Option<Outcome> {
    or_else(named(i, if_name(), if_step(m)),
    or_else(named(i, dowhile_name(), dowhile_step(m)),
    or_else(named(i, times_name(), times_step(m)),
    or_else(named(i, scope_end_name(), scope_end_step(m)),
    or_else(named(i, eval_name(), eval_step(m)),
    or_else(named(i, eval_valid_name(), eval_valid_step(m)),
    or_else(named(i, eval_scoped_name(), eval_scoped_step(m)),
    or_else(named(i, set_name(), define_step(m, true)),
    or_else(named(i, def_name(), define_step(m, false)),
    or_else(named(i, not_name(), not_step(m)),
    or_else(named(i, and_name(), logic_step(m, true)),
    or_else(named(i, or_name(), logic_step(m, false)),
    or_else(named(i, ifelse_name(), ifelse_step(m)),
    named(i, feature_name(), feature_step(m))
    )))))))))))))
}

/// Takes one value off the stack.
fn pop_one(env: &mut Env) -> (r: Result<Vec<u8>, Error>)
    ensures
        old(env)@.stack.len() < 1 ==> final(env)@ == (EnvModel { stack: Seq::empty(), ..old(env)@ })
            && (r matches Err(e) && e.model() == crate::script::empty_stack_error()),
        old(env)@.stack.len() >= 1 ==> ({
            let n = old(env)@.stack.len() - 1;
            &&& final(env)@ == (EnvModel { stack: old(env)@.stack.subrange(0, n), ..old(env)@ })
            &&& r matches Ok(v) && v@ == old(env)@.stack[n]
        }),
{
    let mut t = match pop_n(env, 1) {
        Ok(t) => t,
        Err(e) => return Err(e),
    };
    assert(seqs(t@).len() == t@.len());
    assert(seqs(t@)[0] == t@[0]@);
    Ok(t.pop().unwrap())
}

/// Takes two values off the stack, the deeper first.
fn pop_two(env: &mut Env) -> (r: Result<(Vec<u8>, Vec<u8>), Error>)
    ensures
        old(env)@.stack.len() < 2 ==> final(env)@ == (EnvModel { stack: Seq::empty(), ..old(env)@ })
            && (r matches Err(e) && e.model() == crate::script::empty_stack_error()),
        old(env)@.stack.len() >= 2 ==> ({
            let n = old(env)@.stack.len() - 2;
            &&& final(env)@ == (EnvModel { stack: old(env)@.stack.subrange(0, n), ..old(env)@ })
            &&& r matches Ok((a, b)) && a@ == old(env)@.stack[n] && b@ == old(env)@.stack[n + 1]
        }),
{
    let mut t = match pop_n(env, 2) {
        Ok(t) => t,
        Err(e) => return Err(e),
    };
    assert(seqs(t@).len() == t@.len());
    assert(seqs(t@)[0] == t@[0]@);
    assert(seqs(t@)[1] == t@[1]@);
    let b = t.pop().unwrap();
    let a = t.pop().unwrap();
    Ok((a, b))
}

fn handle_not(env: &mut Env, instruction: &[u8]) -> (r: PassResult)
    ensures
        answers(named(instruction@, not_name(), not_step(old(env)@)), old(env)@, final(env)@, result_model(r)),
{
    if !is_instruction(instruction, vec![131u8, 78, 79, 84]) {
        return Err(Error::UnknownInstruction);
    }
    let a = match pop_one(env) {
        Ok(a) => a,
        Err(e) => return Err(e),
    };
    match bool_value(&a) {
        Some(b) => {
            push_bool(env, !b);
            Ok(())
        },
        None => Err(error_invalid_value(a.as_slice())),
    }
}

fn handle_logic(env: &mut Env, instruction: &[u8], is_and: bool) -> (r: PassResult)
    ensures
        answers(
            named(instruction@, if is_and { and_name() } else { or_name() }, logic_step(old(env)@, is_and)),
            old(env)@,
            final(env)@,
            result_model(r),
        ),
{
    let name: Vec<u8> = if is_and {
        vec![131u8, 65, 78, 68]
    } else {
        vec![130u8, 79, 82]
    };
    if !is_instruction(instruction, name) {
        return Err(Error::UnknownInstruction);
    }
    let (b, a) = match pop_two(env) {
        Ok(p) => p,
        Err(e) => return Err(e),
    };
    let av = match bool_value(&a) {
        Some(v) => v,
        None => return Err(error_invalid_value(a.as_slice())),
    };
    let bv = match bool_value(&b) {
        Some(v) => v,
        None => return Err(error_invalid_value(b.as_slice())),
    };
    if is_and {
        push_bool(env, av && bv);
    } else {
        push_bool(env, av || bv);
    }
    Ok(())
}

fn handle_ifelse(env: &mut Env, instruction: &[u8]) -> (r: PassResult)
    ensures
        answers(named(instruction@, ifelse_name(), ifelse_step(old(env)@)), old(env)@, final(env)@, result_model(r)),
{
    if !is_instruction(instruction, vec![134u8, 73, 70, 69, 76, 83, 69]) {
        return Err(Error::UnknownInstruction);
    }
    let mut t = match pop_n(env, 3) {
        Ok(t) => t,
        Err(e) => return Err(e),
    };
    assert(seqs(t@).len() == t@.len());
    assert(seqs(t@)[0] == t@[0]@);
    assert(seqs(t@)[1] == t@[1]@);
    assert(seqs(t@)[2] == t@[2]@);
    let else_ = t.pop().unwrap();
    let then = t.pop().unwrap();
    let cond = t.pop().unwrap();
    match bool_value(&cond) {
        Some(true) => {
            env.push_program(then);
            Ok(())
        },
        Some(false) => {
            env.push_program(else_);
            Ok(())
        },
        None => Err(error_invalid_value(cond.as_slice())),
    }
}

fn handle_if(env: &mut Env, instruction: &[u8]) -> (r: PassResult)
    ensures
        answers(named(instruction@, if_name(), if_step(old(env)@)), old(env)@, final(env)@, result_model(r)),
{
    if !is_instruction(instruction, vec![130u8, 73, 70]) {
        return Err(Error::UnknownInstruction);
    }
    let (cond, then) = match pop_two(env) {
        Ok(p) => p,
        Err(e) => return Err(e),
    };
    match bool_value(&cond) {
        Some(true) => {
            env.push_program(then);
            Ok(())
        },
        Some(false) => {
            env.push_program(Vec::new());
            Ok(())
        },
        None => Err(error_invalid_value(cond.as_slice())),
    }
}

fn handle_eval(env: &mut Env, instruction: &[u8]) -> (r: PassResult)
    ensures
        answers(named(instruction@, eval_name(), eval_step(old(env)@)), old(env)@, final(env)@, result_model(r)),
{
    if !is_instruction(instruction, vec![132u8, 69, 86, 65, 76]) {
        return Err(Error::UnknownInstruction);
    }
    let a = match pop_one(env) {
        Ok(a) => a,
        Err(e) => return Err(e),
    };
    env.push_program(a);
    Ok(())
}

fn handle_eval_valid(env: &mut Env, instruction: &[u8]) -> (r: PassResult)
    ensures
        answers(named(instruction@, eval_valid_name(), eval_valid_step(old(env)@)), old(env)@, final(env)@, result_model(r)),
{
    if !is_instruction(instruction, vec![139u8, 69, 86, 65, 76, 47, 86, 65, 76, 73, 68, 63]) {
        return Err(Error::UnknownInstruction);
    }
    let a = match pop_one(env) {
        Ok(a) => a,
        Err(e) => return Err(e),
    };
    let valid = parse_bin(&a);
    push_bool(env, valid);
    Ok(())
}

fn handle_eval_scoped(env: &mut Env, instruction: &[u8]) -> (r: PassResult)
    ensures
        answers(named(instruction@, eval_scoped_name(), eval_scoped_step(old(env)@)), old(env)@, final(env)@, result_model(r)),
{
    if !is_instruction(instruction, vec![139u8, 69, 86, 65, 76, 47, 83, 67, 79, 80, 69, 68]) {
        return Err(Error::UnknownInstruction);
    }
    env.push_dictionary();
    let a = match pop_one(env) {
        Ok(a) => a,
        Err(e) => return Err(e),
    };
    env.push_program(vec![128u8, 139, 69, 86, 65, 76, 47, 83, 67, 79, 80, 69, 68]);
    env.push_program(a);
    Ok(())
}

fn handle_scope_end(env: &mut Env, instruction: &[u8]) -> (r: PassResult)
    ensures
        answers(named(instruction@, scope_end_name(), scope_end_step(old(env)@)), old(env)@, final(env)@, result_model(r)),
{
    if !is_instruction(instruction, vec![128u8, 139, 69, 86, 65, 76, 47, 83, 67, 79, 80, 69, 68]) {
        return Err(Error::UnknownInstruction);
    }
    env.pop_dictionary();
    Ok(())
}

fn handle_dowhile(env: &mut Env, instruction: &[u8]) -> (r: PassResult)
    ensures
        answers(named(instruction@, dowhile_name(), dowhile_step(old(env)@)), old(env)@, final(env)@, result_model(r)),
{
    if !is_instruction(instruction, vec![135u8, 68, 79, 87, 72, 73, 76, 69]) {
        return Err(Error::UnknownInstruction);
    }
    let v = match pop_one(env) {
        Ok(v) => v,
        Err(e) => return Err(e),
    };
    if v.len() as u64 > 4294967283u64 {
        return Err(Error::HeapAllocFailed);
    }
    let mut inner = encode_data(v.as_slice());
    let dowhile: Vec<u8> = vec![135u8, 68, 79, 87, 72, 73, 76, 69];
    append_bytes(&mut inner, dowhile.as_slice());
    proof {
        assert(crate::encoding::size_header(v@.len()).len() <= 5);
    }
    let mut code = encode_data(inner.as_slice());
    let if_: Vec<u8> = vec![130u8, 73, 70];
    append_bytes(&mut code, if_.as_slice());
    env.push_program(code);
    env.push_program(v);
    Ok(())
}

fn handle_times(env: &mut Env, instruction: &[u8]) -> (r: PassResult)
    ensures
        answers(named(instruction@, times_name(), times_step(old(env)@)), old(env)@, final(env)@, result_model(r)),
{
    if !is_instruction(instruction, vec![133u8, 84, 73, 77, 69, 83]) {
        return Err(Error::UnknownInstruction);
    }
    let (v, count) = match pop_two(env) {
        Ok(p) => p,
        Err(e) => return Err(e),
    };
    let n = match be_u64(count.as_slice()) {
        Some(n) => n,
        None => return Err(error_invalid_value(count.as_slice())),
    };
    let ghost m1 = env@;
    let mut i: u64 = 0;
    while i < n
        invariant
            i <= n,
            env@ == schedule_times(m1, v@, i as nat),
        decreases n - i,
    {
        env.push_program(crate::env::copy_bytes(v.as_slice()));
        i = i + 1;
    }
    Ok(())
}

fn handle_define(env: &mut Env, instruction: &[u8], as_value: bool) -> (r: PassResult)
    ensures
        answers(
            named(instruction@, if as_value { set_name() } else { def_name() }, define_step(old(env)@, as_value)),
            old(env)@,
            final(env)@,
            result_model(r),
        ),
{
    let name: Vec<u8> = if as_value {
        vec![131u8, 83, 69, 84]
    } else {
        vec![131u8, 68, 69, 70]
    };
    if !is_instruction(instruction, name) {
        return Err(Error::UnknownInstruction);
    }
    let (value, key) = match pop_two(env) {
        Ok(p) => p,
        Err(e) => return Err(e),
    };
    assert(key@.subrange(0, key@.len() as int) =~= key@);
    if parse_plain_instruction(key.as_slice(), 0).is_none() {
        return Err(error_invalid_value(key.as_slice()));
    }
    if as_value {
        if value.len() as u64 > 4294967296u64 {
            return Err(Error::HeapAllocFailed);
        }
        let encoded = encode_data(value.as_slice());
        env.dictionary_set(key, encoded);
    } else {
        env.dictionary_set(key, value);
    }
    Ok(())
}

fn handle_feature(env: &mut Env, instruction: &[u8]) -> (r: PassResult)
    ensures
        answers(named(instruction@, feature_name(), feature_step(old(env)@)), old(env)@, final(env)@, result_model(r)),
{
    if !is_instruction(instruction, vec![136u8, 70, 69, 65, 84, 85, 82, 69, 63]) {
        return Err(Error::UnknownInstruction);
    }
    let a = match pop_one(env) {
        Ok(a) => a,
        Err(e) => return Err(e),
    };
    let feature: Vec<u8> = vec![115u8, 99, 111, 112, 101, 100, 95, 100, 105, 99, 116, 105, 111, 110, 97, 114, 121];
    let on = bytes_equal(a.as_slice(), feature.as_slice());
    push_bool(env, on);
    Ok(())
}

/// Runs an instruction of the core module; any other instruction is left
/// unhandled.
#[verifier::spinoff_prover]
#[verifier::rlimit(30)]
pub fn handle(env: &mut Env, instruction: &[u8]) -> (r: PassResult)
    ensures
        answers(core_module_step(old(env)@, instruction@), old(env)@, final(env)@, result_model(r)),
{
    let r = handle_if(env, instruction);
    if !r.is_unhandled() {
        return r;
    }
    let r = handle_dowhile(env, instruction);
    if !r.is_unhandled() {
        return r;
    }
    let r = handle_times(env, instruction);
    if !r.is_unhandled() {
        return r;
    }
    let r = handle_scope_end(env, instruction);
    if !r.is_unhandled() {
        return r;
    }
    let r = handle_eval(env, instruction);
    if !r.is_unhandled() {
        return r;
    }
    let r = handle_eval_valid(env, instruction);
    if !r.is_unhandled() {
        return r;
    }
    let r = handle_eval_scoped(env, instruction);
    if !r.is_unhandled() {
        return r;
    }
    let r = handle_define(env, instruction, true);
    if !r.is_unhandled() {
        return r;
    }
    let r = handle_define(env, instruction, false);
    if !r.is_unhandled() {
        return r;
    }
    let r = handle_not(env, instruction);
    if !r.is_unhandled() {
        return r;
    }
    let r = handle_logic(env, instruction, true);
    if !r.is_unhandled() {
        return r;
    }
    let r = handle_logic(env, instruction, false);
    if !r.is_unhandled() {
        return r;
    }
    let r = handle_ifelse(env, instruction);
    if !r.is_unhandled() {
        return r;
    }
    handle_feature(env, instruction)
}

} // verus!
