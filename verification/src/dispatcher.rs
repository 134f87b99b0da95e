//! The standard dispatcher: the instruction modules, tried in turn.
use vstd::prelude::*;
use crate::env::{Env, EnvModel};
use crate::instructions::Outcome;
use crate::messaging::SimpleControlMessage;
use crate::mod_msg::{Handler, HandlerModel, MsgOutcome, msg_answers, msg_module_step};
use crate::script::{TryInstruction, PassResult, result_model};

verus! {

/// An environment-only step, with the outbox left as it is.
pub open spec fn lift(o: Option<Outcome>, outbox: Seq<crate::messaging::ControlModel>) -> Option<MsgOutcome> {
    match o {
        Some((m, r)) => Some((m, outbox, r)),
        None => None,
    }
}

/// The first of two steps that takes the instruction.
pub open spec fn or_else_msg(a: Option<MsgOutcome>, b: Option<MsgOutcome>) -> Option<MsgOutcome> {
    match a {
        Some(o) => Some(o),
        None => b,
    }
}

/// What the standard dispatcher does with an instruction: the core, stack,
/// binaries, numbers, storage, hash, clock, JSON, messaging, UUID and text
/// modules, in that order.
pub open spec fn dispatcher_step(m: EnvModel, h: HandlerModel, i: Seq<u8>) -> Option<MsgOutcome> {
    or_else_msg(lift(crate::mod_core::core_module_step(m, i), h.outbox),
    or_else_msg(lift(crate::mod_stack::stack_module_step(m, i), h.outbox),
    or_else_msg(lift(crate::mod_binaries::binaries_module_step(m, i), h.outbox),
    or_else_msg(lift(crate::mod_numbers::numbers_module_step(m, i), h.outbox),
    or_else_msg(lift(crate::mod_storage::storage_module_step(m, i), h.outbox),
    or_else_msg(lift(crate::mod_hash::hash_module_step(m, i), h.outbox),
    or_else_msg(lift(crate::mod_hlc::hlc_module_step(m, i), h.outbox),
    or_else_msg(lift(crate::mod_json::json_module_step(m, i), h.outbox),
    or_else_msg(msg_module_step(m, h, i),
    or_else_msg(crate::mod_uuid::uuid_module_step(m, h, i),
    lift(crate::mod_string::string_module_step(m, i), h.outbox)))))))))))
}

/// The instruction modules of the engine.
pub struct StandardDispatcher {
    msg: Handler,
}

impl View for StandardDispatcher {
    type V = HandlerModel;

    closed spec fn view(&self) -> HandlerModel {
        self.msg@
    }
}

impl StandardDispatcher {
    /// A dispatcher with an empty outbox.
    pub fn new() -> (r: Self)
        ensures
            r@.outbox.len() == 0,
            crate::mod_msg::is_v4_uuid(r@.next_identifier),
    {
        StandardDispatcher { msg: Handler::new() }
    }

    /// Takes the requests left for the broker, oldest first.
    pub fn take_outbox(&mut self) -> (r: Vec<SimpleControlMessage>)
        ensures
            r@.map_values(|m: SimpleControlMessage| m.model()) == old(self)@.outbox,
            final(self)@.outbox.len() == 0,
            final(self)@.next_identifier == old(self)@.next_identifier,
    {
        self.msg.take_outbox()
    }

    /// Runs an instruction by the first module that knows it.
    #[verifier::spinoff_prover]
    #[verifier::rlimit(30)]
    pub fn handle(&mut self, env: &mut Env, instruction: &[u8]) -> (r: PassResult)
        ensures
            msg_answers(
                dispatcher_step(old(env)@, old(self)@, instruction@),
                old(env)@,
                old(self)@.outbox,
                final(env)@,
                final(self)@.outbox,
                result_model(r),
            ),
            final(self)@.next_identifier == old(self)@.next_identifier
                || crate::mod_msg::is_v4_uuid(final(self)@.next_identifier),
    {
        let r = crate::mod_core::handle(env, instruction);
        if !r.is_unhandled() {
            return r;
        }
        let r = crate::mod_stack::handle(env, instruction);
        if !r.is_unhandled() {
            return r;
        }
        let r = crate::mod_binaries::handle(env, instruction);
        if !r.is_unhandled() {
            return r;
        }
        let r = crate::mod_numbers::handle(env, instruction);
        if !r.is_unhandled() {
            return r;
        }
        let r = crate::mod_storage::handle(env, instruction);
        if !r.is_unhandled() {
            return r;
        }
        let r = crate::mod_hash::handle(env, instruction);
        if !r.is_unhandled() {
            return r;
        }
        let r = crate::mod_hlc::handle(env, instruction);
        if !r.is_unhandled() {
            return r;
        }
        let r = crate::mod_json::handle(env, instruction);
        if !r.is_unhandled() {
            return r;
        }
        let r = self.msg.handle(env, instruction);
        if !r.is_unhandled() {
            return r;
        }
        let r = crate::mod_uuid::handle(env, &mut self.msg, instruction);
        if !r.is_unhandled() {
            return r;
        }
        crate::mod_string::handle(env, instruction)
    }
}

} // verus!
