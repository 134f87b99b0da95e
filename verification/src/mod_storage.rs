//! Storage instructions: WRITE and READ run a closure in a write or read
//! transaction; ASSOC stores a value under a key that has none, ASSOC?
//! and RETR look keys up, COMMIT commits the write transaction; CURSOR
//! opens a cursor, which `?CURSOR/...` and `CURSOR/...?` move.
//!
//! An instruction that needs the store leaves its request on the
//! environment and schedules itself to run again; when it runs again the
//! store's reply is there, and it finishes.
use vstd::prelude::*;
use crate::env::{Env, EnvModel, seqs, copy_bytes};
use crate::instructions::{Outcome, after_pops, answers, fail, is_instruction, named, ok, or_else, push_all, push_bool, schedule, stack_bool};
use crate::mod_numbers::{pop_pair, pop_single, push_value};
use crate::script::{TryInstruction, Error, ErrorModel, PassResult, program_error, result_model, error_program};
use crate::storage::{CursorMove, ReplyModel, RequestModel, StorageReply, StorageRequest, TxnKind};
use crate::encoding::{append_bytes, encode_data, encode_data_spec, max_header_size};
use crate::script::invalid_value_error;
use crate::script::error_invalid_value;

verus! {

pub open spec fn write_name() -> Seq<u8> {
    seq![133u8, 87, 82, 73, 84, 69]
}

pub open spec fn read_name() -> Seq<u8> {
    seq![132u8, 82, 69, 65, 68]
}

pub open spec fn assoc_name() -> Seq<u8> {
    seq![133u8, 65, 83, 83, 79, 67]
}

pub open spec fn assocq_name() -> Seq<u8> {
    seq![134u8, 65, 83, 83, 79, 67, 63]
}

pub open spec fn retr_name() -> Seq<u8> {
    seq![132u8, 82, 69, 84, 82]
}

pub open spec fn commit_name() -> Seq<u8> {
    seq![134u8, 67, 79, 77, 77, 73, 84]
}

/// The instruction WRITE or READ schedules to close its transaction.
pub open spec fn end_name(kind: TxnKind) -> Seq<u8> {
    if kind == TxnKind::Write {
        seq![128u8, 133, 87, 82, 73, 84, 69]
    } else {
        seq![128u8, 132, 82, 69, 65, 68]
    }
}

/// The name of WRITE or READ.
pub open spec fn begin_name(kind: TxnKind) -> Seq<u8> {
    if kind == TxnKind::Write {
        write_name()
    } else {
        read_name()
    }
}

pub open spec fn begin_request(kind: TxnKind) -> RequestModel {
    if kind == TxnKind::Write {
        RequestModel::BeginWrite
    } else {
        RequestModel::BeginRead
    }
}

pub open spec fn no_transaction_error() -> ErrorModel {
    program_error(seq![78u8, 111, 32, 116, 114, 97, 110, 115, 97, 99, 116, 105, 111, 110], Seq::empty(), seq![1u8, 8])
}

pub open spec fn duplicate_key_error(key: Seq<u8>) -> ErrorModel {
    program_error(seq![68u8, 117, 112, 108, 105, 99, 97, 116, 101, 32, 107, 101, 121], key, seq![1u8, 6])
}

pub open spec fn unknown_key_error(key: Seq<u8>) -> ErrorModel {
    program_error(seq![85u8, 110, 107, 110, 111, 119, 110, 32, 107, 101, 121], key, seq![1u8, 7])
}

pub open spec fn nested_write_error() -> ErrorModel {
    program_error(
        seq![78u8, 101, 115, 116, 101, 100, 32, 87, 82, 73, 84, 69, 115, 32, 97, 114, 101, 32, 110, 111, 116, 32, 99, 117, 114, 114, 101, 110, 116, 108, 121, 32, 97, 108, 108, 111, 119, 101, 100],
        Seq::empty(),
        seq![1u8, 9],
    )
}

/// A failure of the store, by its description.
pub open spec fn database_error(desc: Seq<u8>) -> ErrorModel {
    if desc.len() <= crate::encoding::max_header_size() {
        program_error(desc, Seq::empty(), seq![1u8, 9])
    } else {
        ErrorModel::HeapAllocFailed
    }
}

/// The error for a reply that is not the one the request calls for: the
/// store's failure, or a failure with no description.
pub open spec fn reply_failure(a: ReplyModel) -> ErrorModel {
    match a {
        ReplyModel::Failed(d) => database_error(d),
        _ => database_error(Seq::empty()),
    }
}

/// Leaves a request and schedules the instruction to run again.
pub open spec fn retry(m: EnvModel, q: RequestModel, i: Seq<u8>) -> Outcome {
    ok(schedule(EnvModel { request: Some(q), ..m }, i))
}

/// The environment with its reply read.
pub open spec fn answered(m: EnvModel) -> EnvModel {
    EnvModel { reply: None, ..m }
}

/// Whether the innermost open transaction is a write transaction.
pub open spec fn in_write(m: EnvModel) -> bool {
    m.txns.len() > 0 && m.txns.last() == TxnKind::Write
}

/// WRITE and READ: `closure -- `. A WRITE inside a transaction fails.
/// Once the transaction is open the closure runs, then the instruction
/// that closes it; while the store is busy the request is made again.
pub open spec fn begin_step(m: EnvModel, i: Seq<u8>, kind: TxnKind) -> Outcome {
    match m.reply {
        None => after_pops(
            m,
            1,
            |m1: EnvModel, t: Seq<Seq<u8>>|
                if kind == TxnKind::Write && m.txns.len() > 0 {
                    fail(m1, nested_write_error())
                } else {
                    retry(m, begin_request(kind), i)
                },
        ),
        Some(a) => if a == ReplyModel::Busy {
            retry(answered(m), begin_request(kind), i)
        } else {
            after_pops(
                answered(m),
                1,
                |m1: EnvModel, t: Seq<Seq<u8>>|
                    if a == ReplyModel::Done {
                        ok(schedule(schedule(EnvModel { txns: m1.txns.push(kind), ..m1 }, end_name(kind)), t[0]))
                    } else {
                        fail(m1, reply_failure(a))
                    },
            )
        },
    }
}

/// The end of WRITE or READ: closes the innermost transaction, if any.
pub open spec fn end_step(m: EnvModel) -> Outcome {
    if m.txns.len() > 0 {
        ok(EnvModel { txns: m.txns.drop_last(), request: Some(RequestModel::End), ..m })
    } else {
        ok(m)
    }
}

/// ASSOC: `key value -- `, in a write transaction; a key that has a value
/// keeps it, and the step fails.
pub open spec fn assoc_step(m: EnvModel, i: Seq<u8>) -> Outcome {
    match m.reply {
        None => if !in_write(m) {
            fail(m, no_transaction_error())
        } else {
            after_pops(m, 2, |m1: EnvModel, t: Seq<Seq<u8>>| retry(m, RequestModel::Put(t[0], t[1]), i))
        },
        Some(a) => after_pops(
            answered(m),
            2,
            |m1: EnvModel, t: Seq<Seq<u8>>|
                match a {
                    ReplyModel::Done => ok(m1),
                    ReplyModel::Exists => fail(m1, duplicate_key_error(t[0])),
                    _ => fail(m1, reply_failure(a)),
                },
        ),
    }
}

/// ASSOC? and RETR: `key -- bool` or `key -- value`, in a transaction; RETR
/// fails on a key that has no value.
pub open spec fn lookup_step(m: EnvModel, i: Seq<u8>, retrieve: bool) -> Outcome {
    match m.reply {
        None => after_pops(
            m,
            1,
            |m1: EnvModel, t: Seq<Seq<u8>>|
                if m.txns.len() == 0 {
                    fail(m1, no_transaction_error())
                } else {
                    retry(m, RequestModel::Get(t[0]), i)
                },
        ),
        Some(a) => after_pops(
            answered(m),
            1,
            |m1: EnvModel, t: Seq<Seq<u8>>|
                match a {
                    ReplyModel::Found(v) => if retrieve {
                        ok(push_all(m1, seq![v]))
                    } else {
                        ok(push_all(m1, seq![stack_bool(true)]))
                    },
                    ReplyModel::Missing => if retrieve {
                        fail(m1, unknown_key_error(t[0]))
                    } else {
                        ok(push_all(m1, seq![stack_bool(false)]))
                    },
                    _ => fail(m1, reply_failure(a)),
                },
        ),
    }
}

/// COMMIT: commits and closes the innermost transaction, which must be a
/// write transaction.
pub open spec fn commit_step(m: EnvModel, i: Seq<u8>) -> Outcome {
    match m.reply {
        None => if in_write(m) {
            retry(m, RequestModel::Commit, i)
        } else {
            fail(m, no_transaction_error())
        },
        Some(a) => {
            let m1 = EnvModel {
                txns: if m.txns.len() > 0 {
                    m.txns.drop_last()
                } else {
                    m.txns
                },
                ..answered(m)
            };
            if a == ReplyModel::Done {
                ok(m1)
            } else {
                fail(m1, reply_failure(a))
            }
        },
    }
}

pub open spec fn cursor_name() -> Seq<u8> {
    seq![134u8, 67, 85, 82, 83, 79, 82]
}

/// The word of a cursor move in its instructions' names.
pub open spec fn move_word(mv: CursorMove) -> Seq<u8> {
    match mv {
        CursorMove::First => seq![70u8, 73, 82, 83, 84],
        CursorMove::Last => seq![76u8, 65, 83, 84],
        CursorMove::Next => seq![78u8, 69, 88, 84],
        CursorMove::Prev => seq![80u8, 82, 69, 86],
        CursorMove::Seek => seq![83u8, 69, 69, 75],
        CursorMove::Current => seq![67u8, 85, 82],
    }
}

/// `?CURSOR/FIRST` and the like when `item`, `CURSOR/FIRST?` and the
/// like otherwise.
pub open spec fn move_name(mv: CursorMove, item: bool) -> Seq<u8> {
    let body = if item {
        seq![63u8, 67, 85, 82, 83, 79, 82, 47] + move_word(mv)
    } else {
        seq![67u8, 85, 82, 83, 79, 82, 47] + move_word(mv) + seq![63u8]
    };
    seq![(128 + body.len()) as u8] + body
}

/// CURSOR: ` -- cursor`, a cursor on the innermost transaction.
pub open spec fn cursor_open_step(m: EnvModel, i: Seq<u8>) -> Outcome {
    match m.reply {
        None => if m.txns.len() == 0 {
            fail(m, no_transaction_error())
        } else {
            retry(m, RequestModel::CursorOpen, i)
        },
        Some(a) => match a {
            ReplyModel::Found(c) => ok(push_all(answered(m), seq![c])),
            _ => fail(answered(m), reply_failure(a)),
        },
    }
}

/// The value `?CURSOR/...` pushes for a pair: its key and its value, each
/// encoded as data.
pub open spec fn item_value(key: Seq<u8>, value: Seq<u8>) -> Seq<u8> {
    encode_data_spec(key) + encode_data_spec(value)
}

/// `?CURSOR/...`: `cursor -- pair` (an empty value when there is no pair
/// to move to); `CURSOR/...?`: `cursor -- bool`. A seek takes the key
/// sought on top of the cursor.
pub open spec fn cursor_move_step(m: EnvModel, i: Seq<u8>, mv: CursorMove, item: bool) -> Outcome {
    let k: nat = if mv == CursorMove::Seek { 2 } else { 1 };
    match m.reply {
        None => if mv == CursorMove::Seek {
            after_pops(
                m,
                1,
                |m1: EnvModel, t: Seq<Seq<u8>>|
                    if m.txns.len() == 0 {
                        fail(m1, no_transaction_error())
                    } else {
                        after_pops(m1, 1, |m2: EnvModel, u: Seq<Seq<u8>>| retry(m, RequestModel::Cursor(u[0], mv, t[0]), i))
                    },
            )
        } else if m.txns.len() == 0 {
            fail(m, no_transaction_error())
        } else {
            after_pops(m, 1, |m1: EnvModel, t: Seq<Seq<u8>>| retry(m, RequestModel::Cursor(t[0], mv, Seq::empty()), i))
        },
        Some(a) => after_pops(
            answered(m),
            k,
            |m1: EnvModel, t: Seq<Seq<u8>>|
                match a {
                    ReplyModel::NoCursor => fail(m1, invalid_value_error(t[0])),
                    ReplyModel::Item(key, value) => if !item {
                        ok(push_all(m1, seq![stack_bool(true)]))
                    } else if key.len() > max_header_size() || value.len() > max_header_size() {
                        fail(m1, ErrorModel::HeapAllocFailed)
                    } else {
                        ok(push_all(m1, seq![item_value(key, value)]))
                    },
                    _ => if item {
                        ok(push_all(m1, seq![Seq::empty()]))
                    } else {
                        ok(push_all(m1, seq![stack_bool(false)]))
                    },
                },
        ),
    }
}

/// The move an instruction makes, and whether it pushes the pair.
pub open spec fn move_of(i: Seq<u8>) -> Option<(CursorMove, bool)> {
    if i == move_name(CursorMove::First, true) {
        Some((CursorMove::First, true))
    } else if i == move_name(CursorMove::First, false) {
        Some((CursorMove::First, false))
    } else if i == move_name(CursorMove::Last, true) {
        Some((CursorMove::Last, true))
    } else if i == move_name(CursorMove::Last, false) {
        Some((CursorMove::Last, false))
    } else if i == move_name(CursorMove::Next, true) {
        Some((CursorMove::Next, true))
    } else if i == move_name(CursorMove::Next, false) {
        Some((CursorMove::Next, false))
    } else if i == move_name(CursorMove::Prev, true) {
        Some((CursorMove::Prev, true))
    } else if i == move_name(CursorMove::Prev, false) {
        Some((CursorMove::Prev, false))
    } else if i == move_name(CursorMove::Seek, true) {
        Some((CursorMove::Seek, true))
    } else if i == move_name(CursorMove::Seek, false) {
        Some((CursorMove::Seek, false))
    } else if i == move_name(CursorMove::Current, true) {
        Some((CursorMove::Current, true))
    } else if i == move_name(CursorMove::Current, false) {
        Some((CursorMove::Current, false))
    } else {
        None
    }
}

/// The cursor instructions.
pub open spec fn cursor_steps(m: EnvModel, i: Seq<u8>) -> Option<Outcome> {
    if i == cursor_name() {
        Some(cursor_open_step(m, i))
    } else {
        match move_of(i) {
            Some((mv, item)) => Some(cursor_move_step(m, i, mv, item)),
            None => None,
        }
    }
}

/// The transaction instructions.
pub open spec fn txn_steps(m: EnvModel, i: Seq<u8>) -> Option<Outcome> {
    or_else(named(i, write_name(), begin_step(m, i, TxnKind::Write)),
    or_else(named(i, end_name(TxnKind::Write), end_step(m)),
    or_else(named(i, read_name(), begin_step(m, i, TxnKind::Read)),
    or_else(named(i, end_name(TxnKind::Read), end_step(m)),
    named(i, commit_name(), commit_step(m, i))))))
}

/// What the storage module does with an instruction, if it knows it.
pub open spec fn storage_module_step(m: EnvModel, i: Seq<u8>) -> Option<Outcome> {
    or_else(txn_steps(m, i),
    or_else(named(i, assoc_name(), assoc_step(m, i)),
    or_else(named(i, assocq_name(), lookup_step(m, i, false)),
    or_else(named(i, retr_name(), lookup_step(m, i, true)),
    cursor_steps(m, i)))))
}

fn error_no_transaction() -> (r: Error)
    ensures
        r.model() == no_transaction_error(),
{
    let desc: Vec<u8> = vec![78u8, 111, 32, 116, 114, 97, 110, 115, 97, 99, 116, 105, 111, 110];
    let code: Vec<u8> = vec![1u8, 8];
    let none: Vec<u8> = Vec::new();
    assert(none@ =~= Seq::<u8>::empty());
    error_program(desc.as_slice(), none.as_slice(), code.as_slice())
}

fn error_duplicate_key(key: &[u8]) -> (r: Error)
    ensures
        r.model() == duplicate_key_error(key@),
{
    let desc: Vec<u8> = vec![68u8, 117, 112, 108, 105, 99, 97, 116, 101, 32, 107, 101, 121];
    let code: Vec<u8> = vec![1u8, 6];
    error_program(desc.as_slice(), key, code.as_slice())
}

fn error_unknown_key(key: &[u8]) -> (r: Error)
    ensures
        r.model() == unknown_key_error(key@),
{
    let desc: Vec<u8> = vec![85u8, 110, 107, 110, 111, 119, 110, 32, 107, 101, 121];
    let code: Vec<u8> = vec![1u8, 7];
    error_program(desc.as_slice(), key, code.as_slice())
}

fn error_nested_write() -> (r: Error)
    ensures
        r.model() == nested_write_error(),
{
    let desc: Vec<u8> = vec![78u8, 101, 115, 116, 101, 100, 32, 87, 82, 73, 84, 69, 115, 32, 97, 114, 101, 32, 110, 111, 116, 32, 99, 117, 114, 114, 101, 110, 116, 108, 121, 32, 97, 108, 108, 111, 119, 101, 100];
    let code: Vec<u8> = vec![1u8, 9];
    let none: Vec<u8> = Vec::new();
    assert(none@ =~= Seq::<u8>::empty());
    error_program(desc.as_slice(), none.as_slice(), code.as_slice())
}

pub(crate) fn error_reply(a: &StorageReply) -> (r: Error)
    ensures
        r.model() == reply_failure(a.model()),
{
    let code: Vec<u8> = vec![1u8, 9];
    let none: Vec<u8> = Vec::new();
    assert(none@ =~= Seq::<u8>::empty());
    match a {
        StorageReply::Failed(d) => {
            if d.len() as u64 > 4294967296u64 {
                return Error::HeapAllocFailed;
            }
            error_program(d.as_slice(), none.as_slice(), code.as_slice())
        },
        _ => error_program(none.as_slice(), none.as_slice(), code.as_slice()),
    }
}

/// Leaves a request and schedules the instruction to run again.
pub(crate) fn retry_exec(env: &mut Env, q: StorageRequest, instruction: &[u8])
    ensures
        (final(env)@, Ok::<(), ErrorModel>(())) == retry(old(env)@, q.model(), instruction@),
{
    env.post_request(q);
    env.push_program(copy_bytes(instruction));
}

fn end_name_bytes(kind: TxnKind) -> (r: Vec<u8>)
    ensures
        r@ == end_name(kind),
{
    if kind == TxnKind::Write {
        vec![128u8, 133, 87, 82, 73, 84, 69]
    } else {
        vec![128u8, 132, 82, 69, 65, 68]
    }
}

fn begin_request_exec(kind: TxnKind) -> (r: StorageRequest)
    ensures
        r.model() == begin_request(kind),
{
    if kind == TxnKind::Write {
        StorageRequest::BeginWrite
    } else {
        StorageRequest::BeginRead
    }
}

fn handle_begin(env: &mut Env, instruction: &[u8], kind: TxnKind) -> (r: PassResult)
    ensures
        (final(env)@, result_model(r)) == begin_step(old(env)@, instruction@, kind),
{
    let ghost m = env@;
    match env.take_reply() {
        None => {
            if env.stack().len() < 1 {
                return match pop_single(env) {
                    Ok(_) => Ok(()),
                    Err(e) => Err(e),
                };
            }
            if kind == TxnKind::Write && env.top_txn().is_some() {
                let _ = pop_single(env);
                return Err(error_nested_write());
            }
            assert(env@ == m);
            retry_exec(env, begin_request_exec(kind), instruction);
            Ok(())
        },
        Some(a) => {
            match a {
                StorageReply::Busy => {
                    retry_exec(env, begin_request_exec(kind), instruction);
                    return Ok(());
                },
                _ => {},
            }
            let v = match pop_single(env) {
                Ok(v) => v,
                Err(e) => return Err(e),
            };
            match a {
                StorageReply::Done => {
                    env.push_txn(kind);
                    env.push_program(end_name_bytes(kind));
                    env.push_program(v);
                    Ok(())
                },
                _ => Err(error_reply(&a)),
            }
        },
    }
}

fn handle_end(env: &mut Env) -> (r: PassResult)
    ensures
        (final(env)@, result_model(r)) == end_step(old(env)@),
{
    if env.top_txn().is_some() {
        env.pop_txn();
        env.post_request(StorageRequest::End);
    }
    Ok(())
}

fn handle_assoc(env: &mut Env, instruction: &[u8]) -> (r: PassResult)
    ensures
        (final(env)@, result_model(r)) == assoc_step(old(env)@, instruction@),
{
    let ghost m = env@;
    match env.take_reply() {
        None => {
            let write = match env.top_txn() {
                Some(k) => k == TxnKind::Write,
                None => false,
            };
            if !write {
                return Err(error_no_transaction());
            }
            let n = env.stack().len();
            if n < 2 {
                return match pop_pair(env) {
                    Ok(_) => Ok(()),
                    Err(e) => Err(e),
                };
            }
            let st = env.stack();
            let key = copy_bytes(st[n - 2].as_slice());
            let value = copy_bytes(st[n - 1].as_slice());
            proof {
                assert(seqs(st@)[n - 2] == st@[n - 2]@);
                assert(seqs(st@)[n - 1] == st@[n - 1]@);
                assert(m.stack.subrange(n - 2, n as int)[0] == m.stack[n - 2]);
                assert(m.stack.subrange(n - 2, n as int)[1] == m.stack[n - 1]);
            }
            retry_exec(env, StorageRequest::Put(key, value), instruction);
            Ok(())
        },
        Some(a) => {
            let (key, _value) = match pop_pair(env) {
                Ok(p) => p,
                Err(e) => return Err(e),
            };
            match a {
                StorageReply::Done => Ok(()),
                StorageReply::Exists => Err(error_duplicate_key(key.as_slice())),
                _ => Err(error_reply(&a)),
            }
        },
    }
}

fn handle_lookup(env: &mut Env, instruction: &[u8], retrieve: bool) -> (r: PassResult)
    ensures
        (final(env)@, result_model(r)) == lookup_step(old(env)@, instruction@, retrieve),
{
    let ghost m = env@;
    match env.take_reply() {
        None => {
            let n = env.stack().len();
            if n < 1 {
                return match pop_single(env) {
                    Ok(_) => Ok(()),
                    Err(e) => Err(e),
                };
            }
            if env.top_txn().is_none() {
                let _ = pop_single(env);
                return Err(error_no_transaction());
            }
            let st = env.stack();
            let key = copy_bytes(st[n - 1].as_slice());
            proof {
                assert(seqs(st@)[n - 1] == st@[n - 1]@);
                assert(m.stack.subrange(n - 1, n as int)[0] == m.stack[n - 1]);
            }
            retry_exec(env, StorageRequest::Get(key), instruction);
            Ok(())
        },
        Some(a) => {
            let key = match pop_single(env) {
                Ok(k) => k,
                Err(e) => return Err(e),
            };
            match a {
                StorageReply::Found(v) => {
                    if retrieve {
                        push_value(env, v);
                    } else {
                        push_bool(env, true);
                    }
                    Ok(())
                },
                StorageReply::Missing => {
                    if retrieve {
                        Err(error_unknown_key(key.as_slice()))
                    } else {
                        push_bool(env, false);
                        Ok(())
                    }
                },
                _ => Err(error_reply(&a)),
            }
        },
    }
}

fn handle_commit(env: &mut Env, instruction: &[u8]) -> (r: PassResult)
    ensures
        (final(env)@, result_model(r)) == commit_step(old(env)@, instruction@),
{
    match env.take_reply() {
        None => {
            let write = match env.top_txn() {
                Some(k) => k == TxnKind::Write,
                None => false,
            };
            if !write {
                return Err(error_no_transaction());
            }
            retry_exec(env, StorageRequest::Commit, instruction);
            Ok(())
        },
        Some(a) => {
            env.pop_txn();
            match a {
                StorageReply::Done => Ok(()),
                _ => Err(error_reply(&a)),
            }
        },
    }
}

fn move_word_bytes(mv: CursorMove) -> (r: Vec<u8>)
    ensures
        r@ == move_word(mv),
{
    match mv {
        CursorMove::First => vec![70u8, 73, 82, 83, 84],
        CursorMove::Last => vec![76u8, 65, 83, 84],
        CursorMove::Next => vec![78u8, 69, 88, 84],
        CursorMove::Prev => vec![80u8, 82, 69, 86],
        CursorMove::Seek => vec![83u8, 69, 69, 75],
        CursorMove::Current => vec![67u8, 85, 82],
    }
}

fn move_name_bytes(mv: CursorMove, item: bool) -> (r: Vec<u8>)
    ensures
        r@ == move_name(mv, item),
{
    let word = move_word_bytes(mv);
    let mut body: Vec<u8> = if item {
        vec![63u8, 67, 85, 82, 83, 79, 82, 47]
    } else {
        vec![67u8, 85, 82, 83, 79, 82, 47]
    };
    append_bytes(&mut body, word.as_slice());
    if !item {
        body.push(63u8);
    }
    let ghost expected = if item {
        seq![63u8, 67, 85, 82, 83, 79, 82, 47] + move_word(mv)
    } else {
        seq![67u8, 85, 82, 83, 79, 82, 47] + move_word(mv) + seq![63u8]
    };
    assert(body@ =~= expected);
    let mut r: Vec<u8> = Vec::new();
    r.push((128 + body.len()) as u8);
    append_bytes(&mut r, body.as_slice());
    r
}

fn handle_cursor_open(env: &mut Env, instruction: &[u8]) -> (r: PassResult)
    ensures
        (final(env)@, result_model(r)) == cursor_open_step(old(env)@, instruction@),
{
    match env.take_reply() {
        None => {
            if env.top_txn().is_none() {
                return Err(error_no_transaction());
            }
            retry_exec(env, StorageRequest::CursorOpen, instruction);
            Ok(())
        },
        Some(a) => match a {
            StorageReply::Found(c) => {
                push_value(env, c);
                Ok(())
            },
            _ => Err(error_reply(&a)),
        },
    }
}

fn handle_cursor_move(env: &mut Env, instruction: &[u8], mv: CursorMove, item: bool) -> (r: PassResult)
    ensures
        (final(env)@, result_model(r)) == cursor_move_step(old(env)@, instruction@, mv, item),
{
    let ghost m = env@;
    match env.take_reply() {
        None => {
            let n = env.stack().len();
            if mv == CursorMove::Seek {
                if n < 1 {
                    return match pop_single(env) {
                        Ok(_) => Ok(()),
                        Err(e) => Err(e),
                    };
                }
                if env.top_txn().is_none() {
                    let _ = pop_single(env);
                    return Err(error_no_transaction());
                }
                if n < 2 {
                    let _ = pop_single(env);
                    return match pop_single(env) {
                        Ok(_) => Ok(()),
                        Err(e) => Err(e),
                    };
                }
                let st = env.stack();
                let key = copy_bytes(st[n - 1].as_slice());
                let c = copy_bytes(st[n - 2].as_slice());
                proof {
                    assert(seqs(st@)[n - 1] == st@[n - 1]@);
                    assert(seqs(st@)[n - 2] == st@[n - 2]@);
                    let m1 = EnvModel { stack: m.stack.subrange(0, n - 1), ..answered(m) };
                    assert(m.stack.subrange(n - 1, n as int)[0] == m.stack[n - 1]);
                    assert(m1.stack.subrange(n - 2, n - 1)[0] == m.stack[n - 2]);
                }
                retry_exec(env, StorageRequest::Cursor(c, mv, key), instruction);
                Ok(())
            } else {
                if env.top_txn().is_none() {
                    return Err(error_no_transaction());
                }
                if n < 1 {
                    return match pop_single(env) {
                        Ok(_) => Ok(()),
                        Err(e) => Err(e),
                    };
                }
                let st = env.stack();
                let c = copy_bytes(st[n - 1].as_slice());
                proof {
                    assert(seqs(st@)[n - 1] == st@[n - 1]@);
                    assert(m.stack.subrange(n - 1, n as int)[0] == m.stack[n - 1]);
                }
                let none: Vec<u8> = Vec::new();
                assert(none@ =~= Seq::<u8>::empty());
                retry_exec(env, StorageRequest::Cursor(c, mv, none), instruction);
                Ok(())
            }
        },
        Some(a) => {
            let c = if mv == CursorMove::Seek {
                match pop_pair(env) {
                    Ok((c, _key)) => c,
                    Err(e) => return Err(e),
                }
            } else {
                match pop_single(env) {
                    Ok(c) => c,
                    Err(e) => return Err(e),
                }
            };
            match a {
                StorageReply::NoCursor => Err(error_invalid_value(c.as_slice())),
                StorageReply::Item(key, value) => {
                    if !item {
                        push_bool(env, true);
                        return Ok(());
                    }
                    if key.len() as u64 > 4294967296u64 || value.len() as u64 > 4294967296u64 {
                        return Err(Error::HeapAllocFailed);
                    }
                    let mut v = encode_data(key.as_slice());
                    let w = encode_data(value.as_slice());
                    append_bytes(&mut v, w.as_slice());
                    push_value(env, v);
                    Ok(())
                },
                _ => {
                    if item {
                        push_value(env, Vec::new());
                    } else {
                        push_bool(env, false);
                    }
                    Ok(())
                },
            }
        },
    }
}

fn try_move(env: &mut Env, instruction: &[u8], mv: CursorMove, item: bool) -> (r: PassResult)
    ensures
        answers(named(instruction@, move_name(mv, item), cursor_move_step(old(env)@, instruction@, mv, item)), old(env)@, final(env)@, result_model(r)),
{
    if !is_instruction(instruction, move_name_bytes(mv, item)) {
        return Err(Error::UnknownInstruction);
    }
    handle_cursor_move(env, instruction, mv, item)
}

#[verifier::spinoff_prover]
#[verifier::rlimit(40)]
fn handle_cursors(env: &mut Env, instruction: &[u8]) -> (r: PassResult)
    ensures
        answers(cursor_steps(old(env)@, instruction@), old(env)@, final(env)@, result_model(r)),
{
    if is_instruction(instruction, vec![134u8, 67, 85, 82, 83, 79, 82]) {
        return handle_cursor_open(env, instruction);
    }
    let r = try_move(env, instruction, CursorMove::First, true);
    if !r.is_unhandled() {
        return r;
    }
    let r = try_move(env, instruction, CursorMove::First, false);
    if !r.is_unhandled() {
        return r;
    }
    let r = try_move(env, instruction, CursorMove::Last, true);
    if !r.is_unhandled() {
        return r;
    }
    let r = try_move(env, instruction, CursorMove::Last, false);
    if !r.is_unhandled() {
        return r;
    }
    let r = try_move(env, instruction, CursorMove::Next, true);
    if !r.is_unhandled() {
        return r;
    }
    let r = try_move(env, instruction, CursorMove::Next, false);
    if !r.is_unhandled() {
        return r;
    }
    let r = try_move(env, instruction, CursorMove::Prev, true);
    if !r.is_unhandled() {
        return r;
    }
    let r = try_move(env, instruction, CursorMove::Prev, false);
    if !r.is_unhandled() {
        return r;
    }
    let r = try_move(env, instruction, CursorMove::Seek, true);
    if !r.is_unhandled() {
        return r;
    }
    let r = try_move(env, instruction, CursorMove::Seek, false);
    if !r.is_unhandled() {
        return r;
    }
    let r = try_move(env, instruction, CursorMove::Current, true);
    if !r.is_unhandled() {
        return r;
    }
    let r = try_move(env, instruction, CursorMove::Current, false);
    if !r.is_unhandled() {
        return r;
    }
    Err(Error::UnknownInstruction)
}

/// Runs an instruction of the storage module; any other instruction is
/// left unhandled.
#[verifier::spinoff_prover]
#[verifier::rlimit(30)]
pub fn handle(env: &mut Env, instruction: &[u8]) -> (r: PassResult)
    ensures
        answers(storage_module_step(old(env)@, instruction@), old(env)@, final(env)@, result_model(r)),
{
    if is_instruction(instruction, vec![133u8, 87, 82, 73, 84, 69]) {
        handle_begin(env, instruction, TxnKind::Write)
    } else if is_instruction(instruction, vec![128u8, 133, 87, 82, 73, 84, 69]) {
        handle_end(env)
    } else if is_instruction(instruction, vec![132u8, 82, 69, 65, 68]) {
        handle_begin(env, instruction, TxnKind::Read)
    } else if is_instruction(instruction, vec![128u8, 132, 82, 69, 65, 68]) {
        handle_end(env)
    } else if is_instruction(instruction, vec![134u8, 67, 79, 77, 77, 73, 84]) {
        handle_commit(env, instruction)
    } else if is_instruction(instruction, vec![133u8, 65, 83, 83, 79, 67]) {
        handle_assoc(env, instruction)
    } else if is_instruction(instruction, vec![134u8, 65, 83, 83, 79, 67, 63]) {
        handle_lookup(env, instruction, false)
    } else if is_instruction(instruction, vec![132u8, 82, 69, 84, 82]) {
        handle_lookup(env, instruction, true)
    } else {
        handle_cursors(env, instruction)
    }
}

} // verus!
