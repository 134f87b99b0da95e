//! The PumpkinScript interpreter: one step of a program at a time, TRY and
//! its error tracking, the dictionary, and a round-robin scheduler of
//! environments.
use vstd::prelude::*;
use crate::binparser::instruction_spec;
use crate::binparser::parse_instruction;
use crate::encoding::{parse_data, parse_data_spec};
use crate::env::{Env, EnvModel, Fragment, copy_bytes, dictionary_lookup};
use crate::instructions::{Outcome, after_pops, answers, fail, is_instruction, named, ok, pop_n, push_all, schedule};
use crate::dispatcher::{StandardDispatcher, dispatcher_step, lift, or_else_msg};
use crate::messaging::{ControlModel, SimpleControlMessage};
use crate::mod_msg::{HandlerModel, MsgOutcome, msg_answers};
use crate::env::seqs;
use crate::storage::{ReplyModel, RequestModel, StorageReply, StorageRequest};
use crate::script::{
    TryInstruction,
    Error,
    ErrorModel,
    PassResult,
    result_model,
    decoding_error,
    unknown_instruction_error,
    error_decoding,
    error_unknown_instruction,
};

verus! {

/// TRY runs a closure and pushes the error it ended with, or an empty
/// value.
pub open spec fn try_name() -> Seq<u8> {
    seq![131u8, 84, 82, 89]
}

/// The internal instruction that ends a TRY.
pub open spec fn try_end_name() -> Seq<u8> {
    seq![128u8, 131, 84, 82, 89]
}

/// TRY: runs the closure on top of the stack with errors tracked, then the
/// instruction that ends the TRY.
pub open spec fn try_step(m: EnvModel) -> Outcome {
    after_pops(
        m,
        1,
        |m1: EnvModel, t: Seq<Seq<u8>>|
            if m1.tracking_errors + 1 > usize::MAX {
                fail(m1, ErrorModel::HeapAllocFailed)
            } else {
                ok(
                    schedule(
                        schedule(EnvModel { tracking_errors: m1.tracking_errors + 1, ..m1 }, try_end_name()),
                        t[0],
                    ),
                )
            },
    )
}

/// The end of a TRY: pushes the program error that aborted it, or an empty
/// value when nothing did. A program error caught closes the environment's
/// transactions.
pub open spec fn try_end_step(m: EnvModel) -> Outcome {
    let m1 = EnvModel { tracking_errors: (m.tracking_errors - 1) as nat, ..m };
    if m1.aborting_try.len() == 0 {
        ok(push_all(m1, seq![Seq::empty()]))
    } else {
        let m2 = EnvModel { aborting_try: m1.aborting_try.drop_last(), ..m1 };
        match m1.aborting_try.last() {
            ErrorModel::ProgramError(e) => ok(
                push_all(EnvModel { txns: Seq::empty(), request: Some(RequestModel::EndAll), ..m2 }, seq![e]),
            ),
            _ => ok(push_all(m2, seq![Seq::empty()])),
        }
    }
}

/// The end of a TRY is only known while a TRY runs.
pub open spec fn try_end_module_step(m: EnvModel, i: Seq<u8>) -> Option<Outcome> {
    if i == try_end_name() && m.tracking_errors > 0 {
        Some(try_end_step(m))
    } else {
        None
    }
}

/// An instruction defined in the dictionary runs its definition.
pub open spec fn dictionary_step(m: EnvModel, i: Seq<u8>) -> Option<Outcome> {
    match dictionary_lookup(m.dictionary, i) {
        Some(def) => Some(ok(schedule(m, def))),
        None => None,
    }
}

/// What the interpreter does with an instruction, if anything knows it:
/// TRY, the end of a TRY, the standard dispatcher's modules, and last the
/// dictionary.
pub open spec fn handle_step(m: EnvModel, h: HandlerModel, i: Seq<u8>) -> Option<MsgOutcome> {
    or_else_msg(lift(named(i, try_name(), try_step(m)), h.outbox),
    or_else_msg(lift(try_end_module_step(m, i), h.outbox),
    or_else_msg(dispatcher_step(m, h, i),
    lift(dictionary_step(m, i), h.outbox))))
}

/// An error met while running: recorded for the running TRY, if there is
/// one, or else the end of the program.
pub open spec fn handle_error(m: EnvModel, outbox: Seq<ControlModel>, e: ErrorModel) -> MsgOutcome {
    if m.tracking_errors > 0 {
        (EnvModel { aborting_try: m.aborting_try.push(e), ..m }, outbox, Ok(()))
    } else {
        (m, outbox, Err(e))
    }
}

/// Running an instruction: skipped while a TRY aborts (but for the end of
/// a TRY); an error, or an instruction nothing knows, goes to
/// `handle_error`.
pub open spec fn instruction_step(m: EnvModel, h: HandlerModel, i: Seq<u8>) -> MsgOutcome {
    if i != try_end_name() && m.aborting_try.len() > 0 {
        (m, h.outbox, Ok(()))
    } else {
        match handle_step(m, h, i) {
            None => handle_error(m, h.outbox, unknown_instruction_error(i)),
            Some((m3, outbox, Ok(()))) => (m3, outbox, Ok(())),
            Some((m3, outbox, Err(e))) => handle_error(m3, outbox, e),
        }
    }
}

/// One step of the program: the next item of the next fragment. Data is
/// pushed (skipped while a TRY aborts); an instruction runs; anything else
/// is a decoding error.
pub open spec fn pass_step(m: EnvModel, h: HandlerModel) -> MsgOutcome {
    if m.program.len() == 0 {
        (m, h.outbox, Ok(()))
    } else {
        let p = m.program.last();
        let m1 = EnvModel { program: m.program.drop_last(), ..m };
        if p.len() == 0 {
            (m1, h.outbox, Ok(()))
        } else {
            match parse_data_spec(p) {
                Some((hl, l)) => {
                    let rest = p.subrange((hl + l) as int, p.len() as int);
                    let m2 = if m1.aborting_try.len() == 0 {
                        push_all(m1, seq![p.subrange(hl as int, (hl + l) as int)])
                    } else {
                        m1
                    };
                    (
                        if rest.len() > 0 {
                            schedule(m2, rest)
                        } else {
                            m2
                        },
                        h.outbox,
                        Ok(()),
                    )
                },
                None => match instruction_spec(p) {
                    Some(n) => {
                        let rest = p.subrange(n as int, p.len() as int);
                        instruction_step(
                            if rest.len() > 0 {
                                schedule(m1, rest)
                            } else {
                                m1
                            },
                            h,
                            p.subrange(0, n as int),
                        )
                    },
                    None => handle_error(m1, h.outbox, decoding_error()),
                },
            }
        }
    }
}

fn handle_try(env: &mut Env, instruction: &[u8]) -> (r: PassResult)
    ensures
        answers(named(instruction@, try_name(), try_step(old(env)@)), old(env)@, final(env)@, result_model(r)),
{
    if !is_instruction(instruction, vec![131u8, 84, 82, 89]) {
        return Err(Error::UnknownInstruction);
    }
    let mut t = match pop_n(env, 1) {
        Ok(t) => t,
        Err(e) => return Err(e),
    };
    assert(seqs(t@).len() == t@.len());
    assert(seqs(t@)[0] == t@[0]@);
    let v = t.pop().unwrap();
    let n = env.tracking_errors();
    if n == usize::MAX {
        return Err(Error::HeapAllocFailed);
    }
    env.set_tracking_errors(n + 1);
    env.push_program(vec![128u8, 131, 84, 82, 89]);
    env.push_program(v);
    Ok(())
}

fn handle_try_end(env: &mut Env, instruction: &[u8]) -> (r: PassResult)
    ensures
        answers(try_end_module_step(old(env)@, instruction@), old(env)@, final(env)@, result_model(r)),
{
    if !is_instruction(instruction, vec![128u8, 131, 84, 82, 89]) {
        return Err(Error::UnknownInstruction);
    }
    let n = env.tracking_errors();
    if n == 0 {
        return Err(Error::UnknownInstruction);
    }
    env.set_tracking_errors(n - 1);
    let ghost m1 = env@;
    match env.pop_aborting_try() {
        Some(Error::ProgramError(e)) => {
            env.close_transactions();
            let ghost m2 = env@;
            env.push(e);
            assert(m2.stack.push(e@) =~= m2.stack + seq![e@]);
        },
        _ => {
            let ghost m2 = env@;
            env.push(Vec::new());
            assert(m2.stack.push(Seq::empty()) =~= m2.stack + seq![Seq::<u8>::empty()]);
        },
    }
    Ok(())
}

fn handle_dictionary(env: &mut Env, instruction: &[u8]) -> (r: PassResult)
    ensures
        answers(dictionary_step(old(env)@, instruction@), old(env)@, final(env)@, result_model(r)),
{
    let key = copy_bytes(instruction);
    match env.dictionary_get(&key) {
        Some(def) => {
            env.push_program(def);
            Ok(())
        },
        None => Err(Error::UnknownInstruction),
    }
}

/// Runs an instruction by the first handler that knows it.
#[verifier::spinoff_prover]
#[verifier::rlimit(30)]
pub fn handle(env: &mut Env, dispatcher: &mut StandardDispatcher, instruction: &[u8]) -> (r: PassResult)
    ensures
        msg_answers(
            handle_step(old(env)@, old(dispatcher)@, instruction@),
            old(env)@,
            old(dispatcher)@.outbox,
            final(env)@,
            final(dispatcher)@.outbox,
            result_model(r),
        ),
        final(dispatcher)@.next_identifier == old(dispatcher)@.next_identifier
            || crate::mod_msg::is_v4_uuid(final(dispatcher)@.next_identifier),
{
    let r = handle_try(env, instruction);
    if !r.is_unhandled() {
        return r;
    }
    let r = handle_try_end(env, instruction);
    if !r.is_unhandled() {
        return r;
    }
    let r = dispatcher.handle(env, instruction);
    if !r.is_unhandled() {
        return r;
    }
    handle_dictionary(env, instruction)
}

/// Records an error for the running TRY, or returns it when no TRY runs.
fn handle_error_exec(env: &mut Env, e: Error) -> (r: PassResult)
    ensures
        (final(env)@, result_model(r)) == ({
            let o = handle_error(old(env)@, Seq::empty(), e.model());
            (o.0, o.2)
        }),
{
    if env.tracking_errors() > 0 {
        env.push_aborting_try(e);
        Ok(())
    } else {
        Err(e)
    }
}

/// Runs one instruction of an environment's program.
fn run_instruction(env: &mut Env, dispatcher: &mut StandardDispatcher, instruction: &[u8]) -> (r: PassResult)
    requires
        1 <= instruction@.len() <= 300,
    ensures
        (final(env)@, final(dispatcher)@.outbox, result_model(r)) == instruction_step(
            old(env)@,
            old(dispatcher)@,
            instruction@,
        ),
        final(dispatcher)@.next_identifier == old(dispatcher)@.next_identifier
            || crate::mod_msg::is_v4_uuid(final(dispatcher)@.next_identifier),
{
    let is_try_end = is_instruction(instruction, vec![128u8, 131, 84, 82, 89]);
    if !is_try_end && !env.aborting_try_is_empty() {
        return Ok(());
    }
    let r = handle(env, dispatcher, instruction);
    if r.is_unhandled() {
        let e = error_unknown_instruction(instruction);
        return handle_error_exec(env, e);
    }
    match r {
        Ok(()) => Ok(()),
        Err(e) => handle_error_exec(env, e),
    }
}

/// Runs the next item of the environment's program.
#[verifier::spinoff_prover]
#[verifier::rlimit(30)]
pub fn pass(env: &mut Env, dispatcher: &mut StandardDispatcher) -> (r: PassResult)
    ensures
        (final(env)@, final(dispatcher)@.outbox, result_model(r)) == pass_step(old(env)@, old(dispatcher)@),
        final(dispatcher)@.next_identifier == old(dispatcher)@.next_identifier
            || crate::mod_msg::is_v4_uuid(final(dispatcher)@.next_identifier),
{
    let f = match env.pop_fragment() {
        Some(f) => f,
        None => return Ok(()),
    };
    let code = f.code;
    let pos = f.pos;
    let len = code.len();
    if pos >= len {
        return Ok(());
    }
    let ghost p = code@.subrange(pos as int, len as int);
    match parse_data(&code, pos) {
        Some((start, end)) => {
            if env.aborting_try_is_empty() {
                let data = copy_bytes(vstd::slice::slice_subrange(code.as_slice(), start, end));
                let ghost m1 = env@;
                env.push(data);
                proof {
                    assert(data@ =~= p.subrange((start - pos) as int, (end - pos) as int));
                    assert(m1.stack.push(data@) =~= m1.stack + seq![data@]);
                }
            }
            if end < len {
                let rest = Fragment { code: code, pos: end };
                assert(rest.rest() =~= p.subrange((end - pos) as int, p.len() as int));
                env.push_fragment(rest);
            } else {
                assert(p.subrange((end - pos) as int, p.len() as int).len() == 0);
            }
            Ok(())
        },
        None => {
            match parse_instruction(code.as_slice(), pos) {
                Some(end) => {
                    let instruction = copy_bytes(vstd::slice::slice_subrange(code.as_slice(), pos, end));
                    assert(instruction@ =~= p.subrange(0, (end - pos) as int));
                    if end < len {
                        let rest = Fragment { code: code, pos: end };
                        assert(rest.rest() =~= p.subrange((end - pos) as int, p.len() as int));
                        env.push_fragment(rest);
                    } else {
                        assert(p.subrange((end - pos) as int, p.len() as int).len() == 0);
                    }
                    run_instruction(env, dispatcher, instruction.as_slice())
                },
                None => {
                    let e = error_decoding();
                    handle_error_exec(env, e)
                },
            }
        },
    }
}

/// Messages from the scheduler about environments that ended.
pub enum ResponseMessage {
    /// The environment ran its program to the end: its id, its stack and
    /// the stack's size.
    EnvTerminated(u64, Vec<Vec<u8>>, usize),
    /// The environment stopped on an error: its id, the error, its stack
    /// and the stack's size.
    EnvFailed(u64, Error, Option<Vec<Vec<u8>>>, Option<usize>),
}

/// A response with its values by their models.
pub enum ResponseModel {
    EnvTerminated(u64, Seq<Seq<u8>>),
    EnvFailed(u64, ErrorModel, Seq<Seq<u8>>),
}

impl ResponseMessage {
    pub open spec fn model(&self) -> ResponseModel {
        match self {
            ResponseMessage::EnvTerminated(pid, stack, _) => ResponseModel::EnvTerminated(*pid, seqs(stack@)),
            ResponseMessage::EnvFailed(pid, e, stack, _) => ResponseModel::EnvFailed(
                *pid,
                e.model(),
                match stack {
                    Some(s) => seqs(s@),
                    None => Seq::empty(),
                },
            ),
        }
    }

    /// The size the message gives for the stack is the stack's length.
    pub open spec fn sizes_match(&self) -> bool {
        match self {
            ResponseMessage::EnvTerminated(_, stack, size) => *size == stack@.len(),
            ResponseMessage::EnvFailed(_, _, stack, size) => (stack is Some && size is Some && size->0
                == stack->0@.len()),
        }
    }
}

/// Whether an environment has no program left to run.
pub open spec fn program_done(m: EnvModel) -> bool {
    m.program.len() == 0 || (m.program.len() == 1 && m.program[0].len() == 0)
}

/// The scheduler: the environments waiting for their next step, in turn,
/// and the dispatcher that runs their instructions.
pub struct Scheduler {
    dispatcher: StandardDispatcher,
    envs: Vec<(u64, Env)>,
}

pub struct SchedulerModel {
    pub envs: Seq<(u64, EnvModel)>,
    pub dispatcher: HandlerModel,
}

impl View for Scheduler {
    type V = SchedulerModel;

    closed spec fn view(&self) -> SchedulerModel {
        SchedulerModel {
            envs: self.envs@.map_values(|p: (u64, Env)| (p.0, p.1@)),
            dispatcher: self.dispatcher@,
        }
    }
}

/// One step of the scheduler: the first environment runs one item of its
/// program; it goes back in line unless it ended, in which case the step
/// reports how.
pub open spec fn scheduler_step(s: SchedulerModel) -> (SchedulerModel, Option<ResponseModel>) {
    if s.envs.len() == 0 {
        (s, None)
    } else {
        let (pid, m) = s.envs[0];
        let (m1, outbox, r) = pass_step(m, s.dispatcher);
        let d = HandlerModel { outbox: outbox, ..s.dispatcher };
        let rest = s.envs.drop_first();
        match r {
            Err(e) => (SchedulerModel { envs: rest, dispatcher: d }, Some(ResponseModel::EnvFailed(pid, e, m1.stack))),
            Ok(()) => if program_done(m1) {
                (SchedulerModel { envs: rest, dispatcher: d }, Some(ResponseModel::EnvTerminated(pid, m1.stack)))
            } else {
                (SchedulerModel { envs: rest.push((pid, m1)), dispatcher: d }, None)
            },
        }
    }
}

/// The requests the environments left for the store, with their ids, in
/// line order.
pub open spec fn pending(envs: Seq<(u64, EnvModel)>) -> Seq<(u64, RequestModel)>
    decreases envs.len(),
{
    if envs.len() == 0 {
        Seq::empty()
    } else {
        pending(envs.drop_last()) + match envs.last().1.request {
            Some(q) => seq![(envs.last().0, q)],
            None => Seq::empty(),
        }
    }
}

/// The environments with their requests taken.
pub open spec fn requests_taken(envs: Seq<(u64, EnvModel)>) -> Seq<(u64, EnvModel)> {
    envs.map_values(|p: (u64, EnvModel)| (p.0, EnvModel { request: None, ..p.1 }))
}

/// The place in line of the first environment with an id.
pub open spec fn first_with(envs: Seq<(u64, EnvModel)>, pid: u64) -> Option<nat>
    decreases envs.len(),
{
    if envs.len() == 0 {
        None
    } else if envs[0].0 == pid {
        Some(0)
    } else {
        match first_with(envs.drop_first(), pid) {
            Some(k) => Some(k + 1),
            None => None,
        }
    }
}

/// The model of a new environment running `program`.
pub open spec fn scheduled_env(program: Seq<u8>, callback: Option<u64>) -> EnvModel {
    EnvModel {
        program: seq![program],
        callback: callback,
        ..crate::env::fresh_env(Seq::empty())
    }
}

impl Scheduler {
    /// A scheduler with no environments.
    pub fn new(dispatcher: StandardDispatcher) -> (r: Self)
        ensures
            r@.envs.len() == 0,
            r@.dispatcher == dispatcher@,
    {
        let r = Scheduler { dispatcher, envs: Vec::new() };
        assert(r@.envs =~= Seq::empty());
        r
    }

    /// Whether no environment waits to run.
    pub fn is_idle(&self) -> (r: bool)
        ensures
            r == (self@.envs.len() == 0),
    {
        self.envs.len() == 0
    }

    /// Takes the requests the environments left for the broker.
    pub fn take_outbox(&mut self) -> (r: Vec<SimpleControlMessage>)
        ensures
            r@.map_values(|m: SimpleControlMessage| m.model()) == old(self)@.dispatcher.outbox,
            final(self)@.dispatcher.outbox.len() == 0,
            final(self)@.envs == old(self)@.envs,
    {
        self.dispatcher.take_outbox()
    }

    /// Schedules a new environment with an id, a program and the callback
    /// that gets the messages it subscribes to.
    pub fn schedule_env(&mut self, pid: u64, program: Vec<u8>, callback: Option<u64>)
        ensures
            final(self)@ == (SchedulerModel {
                envs: old(self)@.envs.push((pid, scheduled_env(program@, callback))),
                ..old(self)@
            }),
    {
        let mut env = match Env::new() {
            Ok(env) => env,
            Err(_) => {
                assert(false);
                return;
            },
        };
        match callback {
            Some(cb) => env.set_published_message_callback(cb),
            None => {},
        }
        let ghost code = program@;
        env.push_program(program);
        assert(env@.program =~= seq![code]);
        self.envs.push((pid, env));
        assert(self@.envs =~= old(self)@.envs.push((pid, scheduled_env(code, callback))));
    }

    /// Takes the requests the environments left for the store, with their
    /// ids, in line order.
    pub fn take_requests(&mut self) -> (r: Vec<(u64, StorageRequest)>)
        ensures
            r@.map_values(|p: (u64, StorageRequest)| (p.0, p.1.model())) == pending(old(self)@.envs),
            final(self)@.envs == requests_taken(old(self)@.envs),
            final(self)@.dispatcher == old(self)@.dispatcher,
    {
        let ghost orig = self@.envs;
        let mut rest: Vec<(u64, Env)> = Vec::new();
        std::mem::swap(&mut rest, &mut self.envs);
        let mut out: Vec<(u64, StorageRequest)> = Vec::new();
        let ghost n = orig.len();
        let mut i: usize = 0;
        let total = rest.len();
        assert(rest@.len() == n && total == n);
        assert(orig.subrange(0, 0) =~= Seq::<(u64, EnvModel)>::empty());
        while rest.len() > 0
            invariant
                orig.len() == n,
                n <= usize::MAX,
                i <= n,
                rest@.len() == n - i,
                forall|j: int| 0 <= j < rest@.len() ==> (#[trigger] rest@[j]).0 == orig[i + j].0 && rest@[j].1@ == orig[i + j].1,
                self.envs@.map_values(|p: (u64, Env)| (p.0, p.1@)) == requests_taken(orig.subrange(0, i as int)),
                out@.map_values(|p: (u64, StorageRequest)| (p.0, p.1.model())) == pending(orig.subrange(0, i as int)),
                self.dispatcher@ == old(self)@.dispatcher,
            decreases rest@.len(),
        {
            let ghost before_envs = self.envs@;
            let ghost before_out = out@;
            let ghost before_rest = rest@;
            let (pid, mut env) = rest.remove(0);
            assert(pid == orig[i as int].0 && env@ == orig[i as int].1);
            assert forall|j: int| 0 <= j < rest@.len() implies (#[trigger] rest@[j]).0 == orig[i + 1 + j].0 && rest@[j].1@ == orig[i + 1 + j].1 by {
                assert(rest@[j] == before_rest[j + 1]);
            }
            let q = env.take_request();
            match q {
                Some(q) => {
                    out.push((pid, q));
                },
                None => {},
            }
            self.envs.push((pid, env));
            proof {
                let pre = orig.subrange(0, i as int);
                let next = orig.subrange(0, i + 1);
                assert(next.drop_last() =~= pre);
                assert(next.last() == orig[i as int]);
                assert(env@ == EnvModel { request: None, ..orig[i as int].1 });
                assert(requests_taken(next) =~= requests_taken(pre).push((pid, EnvModel { request: None, ..orig[i as int].1 })));
                assert(self.envs@ == before_envs.push((pid, env)));
                assert(self.envs@.map_values(|p: (u64, Env)| (p.0, p.1@)) =~= before_envs.map_values(|p: (u64, Env)| (p.0, p.1@)).push((pid, env@)));
                assert(self.envs@.map_values(|p: (u64, Env)| (p.0, p.1@)) =~= requests_taken(next));
                assert(out@.map_values(|p: (u64, StorageRequest)| (p.0, p.1.model())) =~= pending(next));
            }
            i = i + 1;
        }
        assert(orig.subrange(0, i as int) =~= orig);
        out
    }

    /// Hands the store's reply to the first environment with the id, if
    /// one waits in line.
    pub fn deliver(&mut self, pid: u64, reply: StorageReply)
        ensures
            final(self)@.dispatcher == old(self)@.dispatcher,
            match first_with(old(self)@.envs, pid) {
                Some(k) => final(self)@.envs == old(self)@.envs.update(
                    k as int,
                    (pid, EnvModel { reply: Some(reply.model()), ..old(self)@.envs[k as int].1 }),
                ),
                None => final(self)@.envs == old(self)@.envs,
            },
    {
        let ghost orig = self@.envs;
        let mut i: usize = 0;
        assert(orig.subrange(0, orig.len() as int) =~= orig);
        while i < self.envs.len()
            invariant
                i <= self.envs@.len(),
                self@ == old(self)@,
                self@.envs == orig,
                match first_with(orig.subrange(i as int, orig.len() as int), pid) {
                    Some(k) => first_with(orig, pid) == Some((k + i) as nat),
                    None => first_with(orig, pid) is None,
                },
            decreases self.envs@.len() - i,
        {
            if self.envs[i].0 == pid {
                let (p, mut env) = self.envs.remove(i);
                env.give_reply(reply);
                self.envs.insert(i, (p, env));
                assert(self@.envs =~= orig.update(i as int, (pid, EnvModel { reply: Some(reply.model()), ..orig[i as int].1 })));
                return;
            }
            let ghost tail = orig.subrange(i as int, orig.len() as int);
            assert(tail.drop_first() =~= orig.subrange(i + 1, orig.len() as int));
            i = i + 1;
        }
        assert(orig.subrange(i as int, orig.len() as int) =~= Seq::<(u64, EnvModel)>::empty());
    }

    /// Runs one step of the first environment; reports the environment if
    /// it ended.
    pub fn step(&mut self) -> (r: Option<ResponseMessage>)
        ensures
            ({
                let (s, resp) = scheduler_step(old(self)@);
                &&& final(self)@.envs == s.envs
                &&& final(self)@.dispatcher.outbox == s.dispatcher.outbox
                &&& (final(self)@.dispatcher.next_identifier == old(self)@.dispatcher.next_identifier
                    || crate::mod_msg::is_v4_uuid(final(self)@.dispatcher.next_identifier))
                &&& match resp {
                    None => r is None,
                    Some(m) => r matches Some(x) && x.model() == m && x.sizes_match(),
                }
            }),
    {
        if self.envs.len() == 0 {
            return None;
        }
        let ghost s0 = self@;
        let (pid, mut env) = self.envs.remove(0);
        assert(self@.envs =~= s0.envs.drop_first());
        let r = pass(&mut env, &mut self.dispatcher);
        match r {
            Err(e) => {
                let stack = env.stack_copy();
                let size = stack.len();
                Some(ResponseMessage::EnvFailed(pid, e, Some(stack), Some(size)))
            },
            Ok(()) => {
                if env.program_is_done() {
                    let stack = env.stack_copy();
                    let size = stack.len();
                    Some(ResponseMessage::EnvTerminated(pid, stack, size))
                } else {
                    let ghost before = self@.envs;
                    self.envs.push((pid, env));
                    assert(self@.envs =~= before.push((pid, env@)));
                    None
                }
            },
        }
    }
}

} // verus!
