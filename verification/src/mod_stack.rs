//! Stack manipulation: DROP, DUP, SWAP, ROT, OVER and their wider forms,
//! DEPTH, WRAP and UNWRAP, nested stacks (`<`, `>`) and the queue.
use vstd::prelude::*;
use crate::bignum::{canonical_be, be_u64, uint_bytes};
use crate::encoding::{append_bytes, encode_data, encode_data_spec, max_header_size, parse_data, parse_data_spec};
use crate::env::{Env, EnvModel, seqs, copy_bytes};
use crate::instructions::{
    Outcome,
    after_pops,
    answers,
    fail,
    is_instruction,
    named,
    ok,
    or_else,
    pop_n,
    push_all,
    push_bool,
    push_copy,
    stack_bool,
};
use crate::script::{
    TryInstruction,
    Error,
    ErrorModel,
    PassResult,
    result_model,
    empty_stack_error,
    invalid_value_error,
    error_empty_stack,
    error_invalid_value,
};

verus! {

pub open spec fn drop_name() -> Seq<u8> {
    seq![132u8, 68, 82, 79, 80]
}

pub open spec fn dup_name() -> Seq<u8> {
    seq![131u8, 68, 85, 80]
}

pub open spec fn three_drop_name() -> Seq<u8> {
    seq![133u8, 51, 68, 82, 79, 80]
}

pub open spec fn three_dup_name() -> Seq<u8> {
    seq![132u8, 51, 68, 85, 80]
}

pub open spec fn swap_name() -> Seq<u8> {
    seq![132u8, 83, 87, 65, 80]
}

pub open spec fn two_swap_name() -> Seq<u8> {
    seq![133u8, 50, 83, 87, 65, 80]
}

pub open spec fn rot_name() -> Seq<u8> {
    seq![131u8, 82, 79, 84]
}

pub open spec fn two_rot_name() -> Seq<u8> {
    seq![132u8, 50, 82, 79, 84]
}

pub open spec fn over_name() -> Seq<u8> {
    seq![132u8, 79, 86, 69, 82]
}

pub open spec fn two_over_name() -> Seq<u8> {
    seq![133u8, 50, 79, 86, 69, 82]
}

pub open spec fn depth_name() -> Seq<u8> {
    seq![133u8, 68, 69, 80, 84, 72]
}

pub open spec fn wrap_name() -> Seq<u8> {
    seq![132u8, 87, 82, 65, 80]
}

pub open spec fn unwrap_name() -> Seq<u8> {
    seq![134u8, 85, 78, 87, 82, 65, 80]
}

/// `<`: starts a nested stack.
pub open spec fn push_stack_name() -> Seq<u8> {
    seq![129u8, 60]
}

/// `>`: returns to the enclosing stack.
pub open spec fn pop_stack_name() -> Seq<u8> {
    seq![129u8, 62]
}

pub open spec fn to_back_queue_name() -> Seq<u8> {
    seq![130u8, 62, 81]
}

pub open spec fn from_back_queue_name() -> Seq<u8> {
    seq![130u8, 81, 62]
}

pub open spec fn to_front_queue_name() -> Seq<u8> {
    seq![130u8, 60, 81]
}

pub open spec fn from_front_queue_name() -> Seq<u8> {
    seq![130u8, 81, 60]
}

pub open spec fn queue_empty_name() -> Seq<u8> {
    seq![130u8, 81, 63]
}

/// The values of `t` at the positions `picks`, in that order.
pub open spec fn pick(t: Seq<Seq<u8>>, picks: Seq<usize>) -> Seq<Seq<u8>> {
    Seq::new(picks.len(), |j: int| t[picks[j] as int])
}

/// Takes the top `k` values and pushes the ones at positions `picks`
/// (counted from the deepest value taken).
pub open spec fn rearrange(m: EnvModel, k: nat, picks: Seq<usize>) -> Outcome {
    after_pops(m, k, |m1: EnvModel, t: Seq<Seq<u8>>| ok(push_all(m1, pick(t, picks))))
}

/// DROP: `a -- `
pub open spec fn drop_step(m: EnvModel) -> Outcome {
    rearrange(m, 1, seq![])
}

/// DUP: `a -- a a`
pub open spec fn dup_step(m: EnvModel) -> Outcome {
    rearrange(m, 1, seq![0usize, 0])
}

/// 3DROP: `a b c -- `
pub open spec fn three_drop_step(m: EnvModel) -> Outcome {
    rearrange(m, 3, seq![])
}

/// 3DUP: `a b c -- a b c a b c`
pub open spec fn three_dup_step(m: EnvModel) -> Outcome {
    rearrange(m, 3, seq![0usize, 1, 2, 0, 1, 2])
}

/// SWAP: `a b -- b a`
pub open spec fn swap_step(m: EnvModel) -> Outcome {
    rearrange(m, 2, seq![1usize, 0])
}

/// 2SWAP: `a b c d -- c d a b`
pub open spec fn two_swap_step(m: EnvModel) -> Outcome {
    rearrange(m, 4, seq![2usize, 3, 0, 1])
}

/// ROT: `a b c -- b c a`
pub open spec fn rot_step(m: EnvModel) -> Outcome {
    rearrange(m, 3, seq![1usize, 2, 0])
}

/// 2ROT: `a b c d e f -- c d e f a b`
pub open spec fn two_rot_step(m: EnvModel) -> Outcome {
    rearrange(m, 6, seq![2usize, 3, 4, 5, 0, 1])
}

/// OVER: `a b -- a b a`
pub open spec fn over_step(m: EnvModel) -> Outcome {
    rearrange(m, 2, seq![0usize, 1, 0])
}

/// 2OVER: `a b c d -- a b c d a b`
pub open spec fn two_over_step(m: EnvModel) -> Outcome {
    rearrange(m, 4, seq![0usize, 1, 2, 3, 0, 1])
}

/// DEPTH pushes the number of values on the stack.
pub open spec fn depth_step(m: EnvModel) -> Outcome {
    ok(push_all(m, seq![canonical_be(m.stack.len())]))
}

/// The encodings of values, one after another.
pub open spec fn concat_encoded(items: Seq<Seq<u8>>) -> Seq<u8>
    decreases items.len(),
{
    if items.len() == 0 {
        Seq::empty()
    } else {
        concat_encoded(items.drop_last()) + encode_data_spec(items.last())
    }
}

/// WRAP takes a count and that many values, and pushes their encodings
/// as one value. A count of 2^64 or more is an invalid value; a value too
/// large to encode fails the allocation.
pub open spec fn wrap_step(m: EnvModel) -> Outcome {
    after_pops(
        m,
        1,
        |m1: EnvModel, t: Seq<Seq<u8>>|
            if crate::encoding::be_value(t[0]) >= 0x1_0000_0000_0000_0000 {
                fail(m1, invalid_value_error(t[0]))
            } else {
                after_pops(
                    m1,
                    crate::encoding::be_value(t[0]),
                    |m2: EnvModel, items: Seq<Seq<u8>>|
                        if forall|i: int| 0 <= i < items.len() ==> items[i].len() <= max_header_size() {
                            ok(push_all(m2, seq![concat_encoded(items)]))
                        } else {
                            fail(m2, ErrorModel::HeapAllocFailed)
                        },
                )
            },
    )
}

/// Pushes the payload of each data item in `s` in turn; a remainder that
/// is not a data item is an invalid value.
pub open spec fn unwrap_items(m: EnvModel, s: Seq<u8>) -> Outcome
    decreases s.len(),
{
    if s.len() == 0 {
        ok(m)
    } else {
        match parse_data_spec(s) {
            Some((h, l)) => unwrap_items(
                push_all(m, seq![s.subrange(h as int, (h + l) as int)]),
                s.subrange((h + l) as int, s.len() as int),
            ),
            None => fail(m, invalid_value_error(s)),
        }
    }
}

/// UNWRAP pushes the items of a wrapped value.
pub open spec fn unwrap_step(m: EnvModel) -> Outcome {
    after_pops(m, 1, |m1: EnvModel, t: Seq<Seq<u8>>| unwrap_items(m1, t[0]))
}

pub open spec fn push_stack_step(m: EnvModel) -> Outcome {
    ok(EnvModel { stack: Seq::empty(), stacks: m.stacks.push(m.stack), ..m })
}

pub open spec fn pop_stack_step(m: EnvModel) -> Outcome {
    if m.stacks.len() > 0 {
        ok(EnvModel { stack: m.stacks.last(), stacks: m.stacks.drop_last(), ..m })
    } else {
        fail(m, empty_stack_error())
    }
}

pub open spec fn to_back_queue_step(m: EnvModel) -> Outcome {
    after_pops(m, 1, |m1: EnvModel, t: Seq<Seq<u8>>| ok(EnvModel { queue: m1.queue.push(t[0]), ..m1 }))
}

pub open spec fn from_back_queue_step(m: EnvModel) -> Outcome {
    if m.queue.len() > 0 {
        ok(push_all(EnvModel { queue: m.queue.drop_last(), ..m }, seq![m.queue.last()]))
    } else {
        fail(m, empty_stack_error())
    }
}

pub open spec fn to_front_queue_step(m: EnvModel) -> Outcome {
    after_pops(m, 1, |m1: EnvModel, t: Seq<Seq<u8>>| ok(EnvModel { queue: seq![t[0]] + m1.queue, ..m1 }))
}

pub open spec fn from_front_queue_step(m: EnvModel) -> Outcome {
    if m.queue.len() > 0 {
        ok(push_all(EnvModel { queue: m.queue.drop_first(), ..m }, seq![m.queue[0]]))
    } else {
        fail(m, empty_stack_error())
    }
}

pub open spec fn queue_empty_step(m: EnvModel) -> Outcome {
    ok(push_all(m, seq![stack_bool(m.queue.len() > 0)]))
}

/// What the stack module does with an instruction, if it knows it.
pub open spec fn stack_module_step(m: EnvModel, i: Seq<u8>) -> Option<Outcome> {
    or_else(named(i, drop_name(), drop_step(m)),
    or_else(named(i, dup_name(), dup_step(m)),
    or_else(named(i, three_drop_name(), three_drop_step(m)),
    or_else(named(i, three_dup_name(), three_dup_step(m)),
    or_else(named(i, swap_name(), swap_step(m)),
    or_else(named(i, two_swap_name(), two_swap_step(m)),
    or_else(named(i, rot_name(), rot_step(m)),
    or_else(named(i, two_rot_name(), two_rot_step(m)),
    or_else(named(i, over_name(), over_step(m)),
    or_else(named(i, two_over_name(), two_over_step(m)),
    or_else(named(i, depth_name(), depth_step(m)),
    or_else(named(i, wrap_name(), wrap_step(m)),
    or_else(named(i, unwrap_name(), unwrap_step(m)),
    or_else(named(i, push_stack_name(), push_stack_step(m)),
    or_else(named(i, pop_stack_name(), pop_stack_step(m)),
    or_else(named(i, to_back_queue_name(), to_back_queue_step(m)),
    or_else(named(i, from_back_queue_name(), from_back_queue_step(m)),
    or_else(named(i, to_front_queue_name(), to_front_queue_step(m)),
    or_else(named(i, from_front_queue_name(), from_front_queue_step(m)),
    named(i, queue_empty_name(), queue_empty_step(m))
    )))))))))))))))))))
}

/// Pushes copies of the values of `t` at the positions `picks`.
fn push_picked(env: &mut Env, t: &Vec<Vec<u8>>, picks: Vec<usize>)
    requires
        forall|j: int| 0 <= j < picks.len() ==> picks[j] < t.len(),
    ensures
        final(env)@ == push_all(old(env)@, pick(seqs(t@), picks@)),
{
    let ghost picked = pick(seqs(t@), picks@);
    let mut i: usize = 0;
    while i < picks.len()
        invariant
            i <= picks@.len(),
            forall|j: int| 0 <= j < picks.len() ==> picks[j] < t.len(),
            picked == pick(seqs(t@), picks@),
            env@ == push_all(old(env)@, picked.subrange(0, i as int)),
        decreases picks@.len() - i,
    {
        assert(seqs(t@)[picks@[i as int] as int] == t@[picks@[i as int] as int]@);
        push_copy(env, &t[picks[i]]);
        i = i + 1;
        assert(old(env)@.stack + picked.subrange(0, i as int) =~= old(env)@.stack + picked.subrange(
            0,
            i - 1,
        ) + seq![picked[i - 1]]);
    }
    assert(picked.subrange(0, i as int) =~= picked);
}

/// The handler of an instruction that takes `k` values and pushes the
/// ones at positions `picks`.
fn handle_rearranging(
    env: &mut Env,
    instruction: &[u8],
    name: Vec<u8>,
    k: usize,
    picks: Vec<usize>,
) -> (r: PassResult)
    requires
        forall|j: int| 0 <= j < picks.len() ==> picks[j] < k,
    ensures
        answers(named(instruction@, name@, rearrange(old(env)@, k as nat, picks@)), old(env)@, final(env)@, result_model(r)),
{
    if !is_instruction(instruction, name) {
        return Err(Error::UnknownInstruction);
    }
    let t = match pop_n(env, k) {
        Ok(t) => t,
        Err(e) => return Err(e),
    };
    assert(seqs(t@).len() == t@.len());
    push_picked(env, &t, picks);
    Ok(())
}

fn handle_depth(env: &mut Env, instruction: &[u8]) -> (r: PassResult)
    ensures
        answers(named(instruction@, depth_name(), depth_step(old(env)@)), old(env)@, final(env)@, result_model(r)),
{
    if !is_instruction(instruction, vec![133u8, 68, 69, 80, 84, 72]) {
        return Err(Error::UnknownInstruction);
    }
    let st = env.stack();
    let n = st.len();
    assert(seqs(st@).len() == st@.len());
    let bytes = uint_bytes(n as u64);
    env.push(bytes);
    assert(old(env)@.stack.push(canonical_be(n as nat)) =~= old(env)@.stack + seq![canonical_be(n as nat)]);
    Ok(())
}

/// Whether every value fits a size header.
fn all_encodable(items: &Vec<Vec<u8>>) -> (r: bool)
    ensures
        r == forall|i: int| 0 <= i < seqs(items@).len() ==> seqs(items@)[i].len() <= max_header_size(),
{
    let mut i: usize = 0;
    assert(seqs(items@).len() == items@.len());
    while i < items.len()
        invariant
            i <= items@.len(),
            seqs(items@).len() == items@.len(),
            forall|j: int| 0 <= j < i ==> seqs(items@)[j].len() <= max_header_size(),
        decreases items@.len() - i,
    {
        assert(seqs(items@)[i as int] == items@[i as int]@);
        if items[i].len() as u64 > 4294967296u64 {
            return false;
        }
        i = i + 1;
    }
    true
}

/// The encodings of the values, one after another.
fn encode_all(items: &Vec<Vec<u8>>) -> (r: Vec<u8>)
    requires
        forall|i: int| 0 <= i < items@.len() ==> items@[i]@.len() <= max_header_size(),
    ensures
        r@ == concat_encoded(seqs(items@)),
{
    let mut out: Vec<u8> = Vec::new();
    let mut i: usize = 0;
    while i < items.len()
        invariant
            i <= items@.len(),
            forall|j: int| 0 <= j < items@.len() ==> items@[j]@.len() <= max_header_size(),
            out@ == concat_encoded(seqs(items@).subrange(0, i as int)),
        decreases items@.len() - i,
    {
        let e = encode_data(items[i].as_slice());
        append_bytes(&mut out, e.as_slice());
        i = i + 1;
        proof {
            let s = seqs(items@).subrange(0, i as int);
            assert(s.drop_last() =~= seqs(items@).subrange(0, i - 1));
            assert(s.last() == items@[i - 1]@);
        }
    }
    assert(seqs(items@).subrange(0, i as int) =~= seqs(items@));
    out
}

fn handle_wrap(env: &mut Env, instruction: &[u8]) -> (r: PassResult)
    ensures
        answers(named(instruction@, wrap_name(), wrap_step(old(env)@)), old(env)@, final(env)@, result_model(r)),
{
    if !is_instruction(instruction, vec![132u8, 87, 82, 65, 80]) {
        return Err(Error::UnknownInstruction);
    }
    let t = match pop_n(env, 1) {
        Ok(t) => t,
        Err(e) => return Err(e),
    };
    let ghost m1 = env@;
    assert(seqs(t@).len() == t@.len());
    assert(seqs(t@)[0] == t@[0]@);
    let count = match be_u64(t[0].as_slice()) {
        Some(c) => c,
        None => return Err(error_invalid_value(t[0].as_slice())),
    };
    let st = env.stack();
    let depth = st.len();
    assert(seqs(st@).len() == st@.len());
    if count > depth as u64 {
        let _ = pop_n(env, depth);
        assert(env@.stack =~= Seq::<Seq<u8>>::empty());
        return Err(error_empty_stack());
    }
    let items = match pop_n(env, count as usize) {
        Ok(items) => items,
        Err(e) => return Err(e),
    };
    if !all_encodable(&items) {
        return Err(Error::HeapAllocFailed);
    }
    assert(seqs(items@).len() == items@.len());
    assert forall|i: int| 0 <= i < items@.len() implies items@[i]@.len() <= max_header_size() by {
        assert(seqs(items@)[i] == items@[i]@);
    }
    let wrapped = encode_all(&items);
    env.push(wrapped);
    proof {
        let m2 = EnvModel { stack: m1.stack.subrange(0, m1.stack.len() - count), ..m1 };
        assert(m2.stack.push(concat_encoded(seqs(items@))) =~= m2.stack + seq![concat_encoded(seqs(items@))]);
    }
    Ok(())
}

/// One step of UNWRAP: the item at the front of `rest` is pushed and the
/// remainder is what is left to unwrap.
proof fn lemma_unwrap_step(m: EnvModel, s: Seq<u8>, h: nat, l: nat)
    requires
        s.len() > 0,
        parse_data_spec(s) == Some((h, l)),
    ensures
        unwrap_items(m, s) == unwrap_items(
            EnvModel { stack: m.stack.push(s.subrange(h as int, (h + l) as int)), ..m },
            s.subrange((h + l) as int, s.len() as int),
        ),
{
    assert(m.stack.push(s.subrange(h as int, (h + l) as int)) =~= m.stack + seq![s.subrange(h as int, (h + l) as int)]);
}

fn handle_unwrap(env: &mut Env, instruction: &[u8]) -> (r: PassResult)
    ensures
        answers(named(instruction@, unwrap_name(), unwrap_step(old(env)@)), old(env)@, final(env)@, result_model(r)),
{
    if !is_instruction(instruction, vec![134u8, 85, 78, 87, 82, 65, 80]) {
        return Err(Error::UnknownInstruction);
    }
    let mut t = match pop_n(env, 1) {
        Ok(t) => t,
        Err(e) => return Err(e),
    };
    assert(seqs(t@).len() == t@.len());
    assert(seqs(t@)[0] == t@[0]@);
    let ghost m1 = env@;
    let ghost whole = t@[0]@;
    let current = t.pop().unwrap();
    let mut pos: usize = 0;
    let len = current.len();
    assert(current@.subrange(0, len as int) =~= current@);
    assert(unwrap_step(old(env)@) == unwrap_items(m1, whole));
    while pos < len
        invariant
            pos <= len,
            len == current@.len(),
            instruction@ == unwrap_name(),
            unwrap_step(old(env)@) == unwrap_items(m1, whole),
            unwrap_items(m1, whole) == unwrap_items(env@, current@.subrange(pos as int, len as int)),
        decreases len - pos,
    {
        let ghost rest = current@.subrange(pos as int, len as int);
        let ghost before = env@;
        match parse_data(&current, pos) {
            Some((start, end)) => {
                let item = copy_bytes(vstd::slice::slice_subrange(current.as_slice(), start, end));
                proof {
                    lemma_unwrap_step(before, rest, (start - pos) as nat, (end - start) as nat);
                    assert(item@ =~= rest.subrange((start - pos) as int, (end - pos) as int));
                    assert(rest.subrange((end - pos) as int, rest.len() as int) =~= current@.subrange(
                        end as int,
                        len as int,
                    ));
                }
                env.push(item);
                pos = end;
            },
            None => {
                let remainder = vstd::slice::slice_subrange(current.as_slice(), pos, len);
                return Err(error_invalid_value(remainder));
            },
        }
    }
    assert(current@.subrange(len as int, len as int) =~= Seq::<u8>::empty());
    Ok(())
}

fn handle_push_stack(env: &mut Env, instruction: &[u8]) -> (r: PassResult)
    ensures
        answers(named(instruction@, push_stack_name(), push_stack_step(old(env)@)), old(env)@, final(env)@, result_model(r)),
{
    if !is_instruction(instruction, vec![129u8, 60]) {
        return Err(Error::UnknownInstruction);
    }
    env.push_stack();
    Ok(())
}

fn handle_pop_stack(env: &mut Env, instruction: &[u8]) -> (r: PassResult)
    ensures
        answers(named(instruction@, pop_stack_name(), pop_stack_step(old(env)@)), old(env)@, final(env)@, result_model(r)),
{
    if !is_instruction(instruction, vec![129u8, 62]) {
        return Err(Error::UnknownInstruction);
    }
    if env.pop_stack() {
        Ok(())
    } else {
        Err(error_empty_stack())
    }
}

fn handle_to_back_queue(env: &mut Env, instruction: &[u8]) -> (r: PassResult)
    ensures
        answers(named(instruction@, to_back_queue_name(), to_back_queue_step(old(env)@)), old(env)@, final(env)@, result_model(r)),
{
    if !is_instruction(instruction, vec![130u8, 62, 81]) {
        return Err(Error::UnknownInstruction);
    }
    let mut t = match pop_n(env, 1) {
        Ok(t) => t,
        Err(e) => return Err(e),
    };
    assert(seqs(t@).len() == t@.len());
    assert(seqs(t@)[0] == t@[0]@);
    let v = t.pop().unwrap();
    env.queue_back_push(v);
    Ok(())
}

fn handle_from_back_queue(env: &mut Env, instruction: &[u8]) -> (r: PassResult)
    ensures
        answers(named(instruction@, from_back_queue_name(), from_back_queue_step(old(env)@)), old(env)@, final(env)@, result_model(r)),
{
    if !is_instruction(instruction, vec![130u8, 81, 62]) {
        return Err(Error::UnknownInstruction);
    }
    match env.queue_back_pop() {
        Some(v) => {
            let ghost m1 = env@;
            env.push(v);
            assert(m1.stack.push(v@) =~= m1.stack + seq![v@]);
            Ok(())
        },
        None => Err(error_empty_stack()),
    }
}

fn handle_to_front_queue(env: &mut Env, instruction: &[u8]) -> (r: PassResult)
    ensures
        answers(named(instruction@, to_front_queue_name(), to_front_queue_step(old(env)@)), old(env)@, final(env)@, result_model(r)),
{
    if !is_instruction(instruction, vec![130u8, 60, 81]) {
        return Err(Error::UnknownInstruction);
    }
    let mut t = match pop_n(env, 1) {
        Ok(t) => t,
        Err(e) => return Err(e),
    };
    assert(seqs(t@).len() == t@.len());
    assert(seqs(t@)[0] == t@[0]@);
    let v = t.pop().unwrap();
    env.queue_front_push(v);
    Ok(())
}

fn handle_from_front_queue(env: &mut Env, instruction: &[u8]) -> (r: PassResult)
    ensures
        answers(named(instruction@, from_front_queue_name(), from_front_queue_step(old(env)@)), old(env)@, final(env)@, result_model(r)),
{
    if !is_instruction(instruction, vec![130u8, 81, 60]) {
        return Err(Error::UnknownInstruction);
    }
    match env.queue_front_pop() {
        Some(v) => {
            let ghost m1 = env@;
            env.push(v);
            assert(m1.stack.push(v@) =~= m1.stack + seq![v@]);
            Ok(())
        },
        None => Err(error_empty_stack()),
    }
}

fn handle_queue_empty(env: &mut Env, instruction: &[u8]) -> (r: PassResult)
    ensures
        answers(named(instruction@, queue_empty_name(), queue_empty_step(old(env)@)), old(env)@, final(env)@, result_model(r)),
{
    if !is_instruction(instruction, vec![130u8, 81, 63]) {
        return Err(Error::UnknownInstruction);
    }
    let empty = env.queue_empty();
    push_bool(env, !empty);
    Ok(())
}

/// Runs an instruction of the stack module; any other instruction is
/// left unhandled.
#[verifier::spinoff_prover]
#[verifier::rlimit(30)]
pub fn handle(env: &mut Env, instruction: &[u8]) -> (r: PassResult)
    ensures
        answers(stack_module_step(old(env)@, instruction@), old(env)@, final(env)@, result_model(r)),
{
    let r = handle_rearranging(env, instruction, vec![132u8, 68, 82, 79, 80], 1, vec![]);
    if !r.is_unhandled() {
        return r;
    }
    let r = handle_rearranging(env, instruction, vec![131u8, 68, 85, 80], 1, vec![0usize, 0]);
    if !r.is_unhandled() {
        return r;
    }
    let r = handle_rearranging(env, instruction, vec![133u8, 51, 68, 82, 79, 80], 3, vec![]);
    if !r.is_unhandled() {
        return r;
    }
    let r = handle_rearranging(env, instruction, vec![132u8, 51, 68, 85, 80], 3, vec![0usize, 1, 2, 0, 1, 2]);
    if !r.is_unhandled() {
        return r;
    }
    let r = handle_rearranging(env, instruction, vec![132u8, 83, 87, 65, 80], 2, vec![1usize, 0]);
    if !r.is_unhandled() {
        return r;
    }
    let r = handle_rearranging(env, instruction, vec![133u8, 50, 83, 87, 65, 80], 4, vec![2usize, 3, 0, 1]);
    if !r.is_unhandled() {
        return r;
    }
    let r = handle_rearranging(env, instruction, vec![131u8, 82, 79, 84], 3, vec![1usize, 2, 0]);
    if !r.is_unhandled() {
        return r;
    }
    let r = handle_rearranging(env, instruction, vec![132u8, 50, 82, 79, 84], 6, vec![2usize, 3, 4, 5, 0, 1]);
    if !r.is_unhandled() {
        return r;
    }
    let r = handle_rearranging(env, instruction, vec![132u8, 79, 86, 69, 82], 2, vec![0usize, 1, 0]);
    if !r.is_unhandled() {
        return r;
    }
    let r = handle_rearranging(env, instruction, vec![133u8, 50, 79, 86, 69, 82], 4, vec![0usize, 1, 2, 3, 0, 1]);
    if !r.is_unhandled() {
        return r;
    }
    let r = handle_depth(env, instruction);
    if !r.is_unhandled() {
        return r;
    }
    let r = handle_wrap(env, instruction);
    if !r.is_unhandled() {
        return r;
    }
    let r = handle_unwrap(env, instruction);
    if !r.is_unhandled() {
        return r;
    }
    let r = handle_push_stack(env, instruction);
    if !r.is_unhandled() {
        return r;
    }
    let r = handle_pop_stack(env, instruction);
    if !r.is_unhandled() {
        return r;
    }
    let r = handle_to_back_queue(env, instruction);
    if !r.is_unhandled() {
        return r;
    }
    let r = handle_from_back_queue(env, instruction);
    if !r.is_unhandled() {
        return r;
    }
    let r = handle_to_front_queue(env, instruction);
    if !r.is_unhandled() {
        return r;
    }
    let r = handle_from_front_queue(env, instruction);
    if !r.is_unhandled() {
        return r;
    }
    handle_queue_empty(env, instruction)
}

} // verus!
