//! Hybrid logical clock timestamps: HLC reads the host's clock,
//! HLC/OBSERVE has it observe a timestamp first, HLC/TICK advances a
//! timestamp, HLC/LC reads its logical count. A timestamp is 16 bytes: its epoch (4 bytes), its
//! wall-clock time in nanoseconds (8 bytes) and its logical count (4
//! bytes), each big-endian.
use vstd::prelude::*;
use crate::env::{Env, EnvModel, copy_bytes};
use crate::encoding::{append_bytes, be_value};
use crate::instructions::{Outcome, after_pops, answers, fail, is_instruction, named, ok, or_else, push_all};
use crate::mod_numbers::{fixed_be, lemma_be_value_bound, lemma_pow256_small, pop_single, push_value, write_fixed};
use crate::script::{TryInstruction, Error, PassResult, result_model, invalid_value_error, error_invalid_value};
use crate::mod_storage::{answered, error_reply, reply_failure, retry, retry_exec};
use crate::storage::{ReplyModel, RequestModel, StorageReply, StorageRequest};

verus! {

pub open spec fn hlc_tick_name() -> Seq<u8> {
    seq![136u8, 72, 76, 67, 47, 84, 73, 67, 75]
}

pub open spec fn hlc_lc_name() -> Seq<u8> {
    seq![134u8, 72, 76, 67, 47, 76, 67]
}

/// What is left of a value too short for a timestamp once the fields that
/// fit whole were read: the epoch (4 bytes), the time (8 bytes), the count
/// (4 bytes).
pub open spec fn unread(s: Seq<u8>) -> Seq<u8> {
    if s.len() < 4 {
        s
    } else if s.len() < 12 {
        s.subrange(4, s.len() as int)
    } else {
        s.subrange(12, s.len() as int)
    }
}

/// The logical count of a timestamp.
pub open spec fn stamp_count(s: Seq<u8>) -> nat {
    be_value(s.subrange(12, 16))
}

/// HLC/TICK: `timestamp -- timestamp`, the count one up (wrapping at
/// 2^32); bytes past the first 16 are dropped.
pub open spec fn hlc_tick_step(m: EnvModel) -> Outcome {
    after_pops(
        m,
        1,
        |m1: EnvModel, t: Seq<Seq<u8>>|
            if t[0].len() < 16 {
                fail(m1, invalid_value_error(unread(t[0])))
            } else {
                ok(push_all(m1, seq![t[0].subrange(0, 12) + fixed_be((stamp_count(t[0]) + 1) % 0x1_0000_0000, 4)]))
            },
    )
}

/// HLC/LC: `timestamp -- count`, the count as 4 big-endian bytes.
pub open spec fn hlc_lc_step(m: EnvModel) -> Outcome {
    after_pops(
        m,
        1,
        |m1: EnvModel, t: Seq<Seq<u8>>|
            if t[0].len() < 16 {
                fail(m1, invalid_value_error(unread(t[0])))
            } else {
                ok(push_all(m1, seq![t[0].subrange(12, 16)]))
            },
    )
}

pub open spec fn hlc_name() -> Seq<u8> {
    seq![131u8, 72, 76, 67]
}

pub open spec fn hlc_observe_name() -> Seq<u8> {
    seq![139u8, 72, 76, 67, 47, 79, 66, 83, 69, 82, 86, 69]
}

/// HLC: ` -- timestamp`, the host's clock read.
pub open spec fn hlc_now_step(m: EnvModel, i: Seq<u8>) -> Outcome {
    match m.reply {
        None => retry(m, RequestModel::ClockNow, i),
        Some(a) => match a {
            ReplyModel::Found(t) => ok(push_all(answered(m), seq![t])),
            _ => fail(answered(m), reply_failure(a)),
        },
    }
}

/// HLC/OBSERVE: `timestamp -- timestamp`, the host's clock read after it
/// observed the timestamp given (its first 16 bytes).
pub open spec fn hlc_observe_step(m: EnvModel, i: Seq<u8>) -> Outcome {
    match m.reply {
        None => after_pops(
            m,
            1,
            |m1: EnvModel, t: Seq<Seq<u8>>|
                if t[0].len() < 16 {
                    fail(m1, invalid_value_error(unread(t[0])))
                } else {
                    retry(m, RequestModel::ClockObserve(t[0].subrange(0, 16)), i)
                },
        ),
        Some(a) => after_pops(
            answered(m),
            1,
            |m1: EnvModel, t: Seq<Seq<u8>>|
                match a {
                    ReplyModel::Found(s) => ok(push_all(m1, seq![s])),
                    _ => fail(m1, reply_failure(a)),
                },
        ),
    }
}

/// What the clock module does with an instruction, if it knows it.
pub open spec fn hlc_module_step(m: EnvModel, i: Seq<u8>) -> Option<Outcome> {
    or_else(named(i, hlc_name(), hlc_now_step(m, i)),
    or_else(named(i, hlc_lc_name(), hlc_lc_step(m)),
    or_else(named(i, hlc_tick_name(), hlc_tick_step(m)),
    named(i, hlc_observe_name(), hlc_observe_step(m, i)))))
}

/// The error for a value too short for a timestamp.
fn short_stamp_error(a: &Vec<u8>) -> (r: Error)
    requires
        a@.len() < 16,
    ensures
        r.model() == invalid_value_error(unread(a@)),
{
    let n = a.len();
    let skip: usize = if n < 4 {
        0
    } else if n < 12 {
        4
    } else {
        12
    };
    let rest = vstd::slice::slice_subrange(a.as_slice(), skip, n);
    assert(rest@ =~= unread(a@));
    error_invalid_value(rest)
}

fn handle_tick(env: &mut Env, instruction: &[u8]) -> (r: PassResult)
    ensures
        answers(named(instruction@, hlc_tick_name(), hlc_tick_step(old(env)@)), old(env)@, final(env)@, result_model(r)),
{
    if !is_instruction(instruction, vec![136u8, 72, 76, 67, 47, 84, 73, 67, 75]) {
        return Err(Error::UnknownInstruction);
    }
    let a = match pop_single(env) {
        Ok(a) => a,
        Err(e) => return Err(e),
    };
    if a.len() < 16 {
        return Err(short_stamp_error(&a));
    }
    let count_bytes = vstd::slice::slice_subrange(a.as_slice(), 12, 16);
    proof {
        lemma_be_value_bound(count_bytes@);
        lemma_pow256_small();
    }
    let count: u64 = match crate::bignum::be_u64(count_bytes) {
        Some(c) => c,
        None => return Err(Error::HeapAllocFailed),
    };
    let next: u64 = (count + 1) % 0x1_0000_0000;
    let head = vstd::slice::slice_subrange(a.as_slice(), 0, 12);
    let mut out = copy_bytes(head);
    let tail = write_fixed(next, 4);
    append_bytes(&mut out, tail.as_slice());
    assert(out@ =~= a@.subrange(0, 12) + fixed_be((stamp_count(a@) + 1) % 0x1_0000_0000, 4));
    push_value(env, out);
    Ok(())
}

fn handle_lc(env: &mut Env, instruction: &[u8]) -> (r: PassResult)
    ensures
        answers(named(instruction@, hlc_lc_name(), hlc_lc_step(old(env)@)), old(env)@, final(env)@, result_model(r)),
{
    if !is_instruction(instruction, vec![134u8, 72, 76, 67, 47, 76, 67]) {
        return Err(Error::UnknownInstruction);
    }
    let a = match pop_single(env) {
        Ok(a) => a,
        Err(e) => return Err(e),
    };
    if a.len() < 16 {
        return Err(short_stamp_error(&a));
    }
    let count = copy_bytes(vstd::slice::slice_subrange(a.as_slice(), 12, 16));
    push_value(env, count);
    Ok(())
}

fn handle_now(env: &mut Env, instruction: &[u8]) -> (r: PassResult)
    ensures
        answers(named(instruction@, hlc_name(), hlc_now_step(old(env)@, instruction@)), old(env)@, final(env)@, result_model(r)),
{
    if !is_instruction(instruction, vec![131u8, 72, 76, 67]) {
        return Err(Error::UnknownInstruction);
    }
    match env.take_reply() {
        None => {
            retry_exec(env, StorageRequest::ClockNow, instruction);
            Ok(())
        },
        Some(a) => match a {
            StorageReply::Found(t) => {
                push_value(env, t);
                Ok(())
            },
            _ => Err(error_reply(&a)),
        },
    }
}

fn handle_observe(env: &mut Env, instruction: &[u8]) -> (r: PassResult)
    ensures
        answers(named(instruction@, hlc_observe_name(), hlc_observe_step(old(env)@, instruction@)), old(env)@, final(env)@, result_model(r)),
{
    if !is_instruction(instruction, vec![139u8, 72, 76, 67, 47, 79, 66, 83, 69, 82, 86, 69]) {
        return Err(Error::UnknownInstruction);
    }
    let ghost m = env@;
    match env.take_reply() {
        None => {
            let n = env.stack().len();
            if n < 1 {
                return match pop_single(env) {
                    Ok(_) => Ok(()),
                    Err(e) => Err(e),
                };
            }
            let st = env.stack();
            let top = copy_bytes(st[n - 1].as_slice());
            proof {
                assert(crate::env::seqs(st@)[n - 1] == st@[n - 1]@);
                assert(m.stack.subrange(n - 1, n as int)[0] == m.stack[n - 1]);
            }
            if top.len() < 16 {
                let _ = pop_single(env);
                return Err(short_stamp_error(&top));
            }
            let stamp = copy_bytes(vstd::slice::slice_subrange(top.as_slice(), 0, 16));
            retry_exec(env, StorageRequest::ClockObserve(stamp), instruction);
            Ok(())
        },
        Some(a) => {
            let _observed = match pop_single(env) {
                Ok(v) => v,
                Err(e) => return Err(e),
            };
            match a {
                StorageReply::Found(t) => {
                    push_value(env, t);
                    Ok(())
                },
                _ => Err(error_reply(&a)),
            }
        },
    }
}

/// Runs an instruction of the clock module; any other instruction is left
/// unhandled.
pub fn handle(env: &mut Env, instruction: &[u8]) -> (r: PassResult)
    ensures
        answers(hlc_module_step(old(env)@, instruction@), old(env)@, final(env)@, result_model(r)),
{
    let r = handle_now(env, instruction);
    if !r.is_unhandled() {
        return r;
    }
    let r = handle_lc(env, instruction);
    if !r.is_unhandled() {
        return r;
    }
    let r = handle_tick(env, instruction);
    if !r.is_unhandled() {
        return r;
    }
    handle_observe(env, instruction)
}

} // verus!
