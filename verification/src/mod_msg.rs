//! Messaging instructions: PUBLISH, SUBSCRIBE and UNSUBSCRIBE. They leave
//! requests for the broker in an outbox.
use vstd::prelude::*;
use crate::env::{Env, EnvModel, seqs, copy_bytes};
use crate::instructions::{Outcome, fail, is_instruction, ok, pop_n, push_all};
use crate::messaging::{ControlModel, Message, SimpleControlMessage};
use crate::script::{Error, ErrorModel, PassResult, result_model, empty_stack_error};

verus! {

pub open spec fn publish_name() -> Seq<u8> {
    seq![135u8, 80, 85, 66, 76, 73, 83, 72]
}

pub open spec fn subscribe_name() -> Seq<u8> {
    seq![137u8, 83, 85, 66, 83, 67, 82, 73, 66, 69]
}

pub open spec fn unsubscribe_name() -> Seq<u8> {
    seq![139u8, 85, 78, 83, 85, 66, 83, 67, 82, 73, 66, 69]
}

/// The messaging module's state: requests for the broker not yet sent,
/// and the identifier the next subscription gets.
pub struct Handler {
    outbox: Vec<SimpleControlMessage>,
    next_identifier: Vec<u8>,
}

pub struct HandlerModel {
    pub outbox: Seq<ControlModel>,
    pub next_identifier: Seq<u8>,
}

impl View for Handler {
    type V = HandlerModel;

    closed spec fn view(&self) -> HandlerModel {
        HandlerModel {
            outbox: self.outbox@.map_values(|m: SimpleControlMessage| m.model()),
            next_identifier: self.next_identifier@,
        }
    }
}

/// What a step does: the environment, the outbox and the result.
pub type MsgOutcome = (EnvModel, Seq<ControlModel>, Result<(), ErrorModel>);

/// An environment-only step that leaves the outbox as it is.
pub open spec fn with_outbox(o: Outcome, outbox: Seq<ControlModel>) -> MsgOutcome {
    (o.0, outbox, o.1)
}

/// The environment with its top `k` values taken off, or emptied with an
/// empty stack error when it holds fewer.
pub open spec fn short_stack(m: EnvModel, outbox: Seq<ControlModel>) -> MsgOutcome {
    with_outbox(fail(EnvModel { stack: Seq::empty(), ..m }, empty_stack_error()), outbox)
}

/// PUBLISH: `data topic -- ` asks the broker to publish.
pub open spec fn publish_step(m: EnvModel, h: HandlerModel) -> MsgOutcome {
    if m.stack.len() < 2 {
        short_stack(m, h.outbox)
    } else {
        let n = m.stack.len() - 2;
        let m1 = EnvModel { stack: m.stack.subrange(0, n), ..m };
        with_outbox(ok(m1), h.outbox.push(ControlModel::Publish(m.stack[n + 1], m.stack[n])))
    }
}

/// SUBSCRIBE: `topic -- identifier` subscribes the environment's callback
/// to the topic under a new identifier; without a callback it only takes
/// the topic.
pub open spec fn subscribe_step(m: EnvModel, h: HandlerModel) -> MsgOutcome {
    if m.stack.len() < 1 {
        short_stack(m, h.outbox)
    } else {
        let n = m.stack.len() - 1;
        let m1 = EnvModel { stack: m.stack.subrange(0, n), ..m };
        match m.callback {
            Some(cb) => with_outbox(
                ok(push_all(m1, seq![h.next_identifier])),
                h.outbox.push(ControlModel::Subscribe(m.stack[n], cb, h.next_identifier)),
            ),
            None => with_outbox(ok(m1), h.outbox),
        }
    }
}

/// UNSUBSCRIBE: `identifier -- ` asks the broker to drop a subscription.
pub open spec fn unsubscribe_step(m: EnvModel, h: HandlerModel) -> MsgOutcome {
    if m.stack.len() < 1 {
        short_stack(m, h.outbox)
    } else {
        let n = m.stack.len() - 1;
        let m1 = EnvModel { stack: m.stack.subrange(0, n), ..m };
        with_outbox(ok(m1), h.outbox.push(ControlModel::Unsubscribe(m.stack[n])))
    }
}

/// What the messaging module does with an instruction, if it knows it.
pub open spec fn msg_module_step(m: EnvModel, h: HandlerModel, i: Seq<u8>) -> Option<MsgOutcome> {
    if i == publish_name() {
        Some(publish_step(m, h))
    } else if i == subscribe_name() {
        Some(subscribe_step(m, h))
    } else if i == unsubscribe_name() {
        Some(unsubscribe_step(m, h))
    } else {
        None
    }
}

/// A handler's return and effect answer its step, as `answers` does for
/// the environment alone.
pub open spec fn msg_answers(
    step: Option<MsgOutcome>,
    before: EnvModel,
    before_outbox: Seq<ControlModel>,
    after: EnvModel,
    after_outbox: Seq<ControlModel>,
    r: Result<(), ErrorModel>,
) -> bool {
    match step {
        None => r == Err::<(), ErrorModel>(ErrorModel::UnknownInstruction) && after == before
            && after_outbox == before_outbox,
        Some(o) => (after, after_outbox, r) == o && !(r == Err::<(), ErrorModel>(ErrorModel::UnknownInstruction)),
    }
}

/// Whether bytes are a version 4 UUID: 16 bytes, version 4 in the high
/// half of byte 6, the variant bits `10` on top of byte 8.
pub open spec fn is_v4_uuid(id: Seq<u8>) -> bool {
    id.len() == 16 && id[6] / 16 == 4 && id[8] / 64 == 2
}

/// A fresh random identifier (`uuid::Uuid::new_v4`, its 16 bytes): version
/// 4 in the high half of byte 6 and the variant bits `10` on top of byte 8;
/// the other bits are random.
#[verifier::external_body]
fn new_identifier() -> (r: Vec<u8>)
    ensures
        r@.len() == 16,
        r@[6] / 16 == 4,
        r@[8] / 64 == 2,
{
    uuid::Uuid::new_v4().as_bytes().to_vec()
}

impl Handler {
    /// A handler with an empty outbox.
    pub fn new() -> (r: Self)
        ensures
            r@.outbox.len() == 0,
            crate::mod_msg::is_v4_uuid(r@.next_identifier),
    {
        let r = Handler { outbox: Vec::new(), next_identifier: new_identifier() };
        assert(r@.outbox =~= Seq::empty());
        r
    }

    /// Takes the requests left for the broker, oldest first.
    pub fn take_outbox(&mut self) -> (r: Vec<SimpleControlMessage>)
        ensures
            r@.map_values(|m: SimpleControlMessage| m.model()) == old(self)@.outbox,
            final(self)@.outbox.len() == 0,
            final(self)@.next_identifier == old(self)@.next_identifier,
    {
        let mut out: Vec<SimpleControlMessage> = Vec::new();
        std::mem::swap(&mut out, &mut self.outbox);
        assert(self@.outbox =~= Seq::empty());
        out
    }

    /// Hands out the next identifier and draws a new one in its place.
    pub fn take_identifier(&mut self) -> (r: Vec<u8>)
        ensures
            r@ == old(self)@.next_identifier,
            final(self)@.outbox == old(self)@.outbox,
            is_v4_uuid(final(self)@.next_identifier),
    {
        let mut identifier = new_identifier();
        std::mem::swap(&mut identifier, &mut self.next_identifier);
        identifier
    }

    fn post(&mut self, msg: SimpleControlMessage)
        ensures
            final(self)@ == (HandlerModel { outbox: old(self)@.outbox.push(msg.model()), ..old(self)@ }),
    {
        self.outbox.push(msg);
        assert(self@.outbox =~= old(self)@.outbox.push(msg.model()));
    }

    /// Runs a messaging instruction; any other instruction is left
    /// unhandled. A subscription uses up the next identifier and draws a
    /// new one.
    pub fn handle(&mut self, env: &mut Env, instruction: &[u8]) -> (r: PassResult)
        ensures
            msg_answers(
                msg_module_step(old(env)@, old(self)@, instruction@),
                old(env)@,
                old(self)@.outbox,
                final(env)@,
                final(self)@.outbox,
                result_model(r),
            ),
            final(self)@.next_identifier == old(self)@.next_identifier
                || crate::mod_msg::is_v4_uuid(final(self)@.next_identifier),
            msg_module_step(old(env)@, old(self)@, instruction@) is None ==> final(self)@.next_identifier
                == old(self)@.next_identifier,
    {
        if is_instruction(instruction, vec![135u8, 80, 85, 66, 76, 73, 83, 72]) {
            let mut t = match pop_n(env, 2) {
                Ok(t) => t,
                Err(e) => return Err(e),
            };
            assert(seqs(t@).len() == t@.len());
            assert(seqs(t@)[0] == t@[0]@);
            assert(seqs(t@)[1] == t@[1]@);
            let topic = t.pop().unwrap();
            let body = t.pop().unwrap();
            self.post(SimpleControlMessage::Publish(Message { topic, body }));
            Ok(())
        } else if is_instruction(instruction, vec![137u8, 83, 85, 66, 83, 67, 82, 73, 66, 69]) {
            let mut t = match pop_n(env, 1) {
                Ok(t) => t,
                Err(e) => return Err(e),
            };
            assert(seqs(t@).len() == t@.len());
            assert(seqs(t@)[0] == t@[0]@);
            let topic = t.pop().unwrap();
            match env.published_message_callback() {
                Some(cb) => {
                    let mut identifier = new_identifier();
                    std::mem::swap(&mut identifier, &mut self.next_identifier);
                    let pushed = copy_bytes(identifier.as_slice());
                    let ghost m1 = env@;
                    env.push(pushed);
                    assert(m1.stack.push(pushed@) =~= m1.stack + seq![pushed@]);
                    self.post(SimpleControlMessage::Subscribe { topic, callback: cb, identifier });
                },
                None => {},
            }
            Ok(())
        } else if is_instruction(instruction, vec![139u8, 85, 78, 83, 85, 66, 83, 67, 82, 73, 66, 69]) {
            let mut t = match pop_n(env, 1) {
                Ok(t) => t,
                Err(e) => return Err(e),
            };
            assert(seqs(t@).len() == t@.len());
            assert(seqs(t@)[0] == t@[0]@);
            let identifier = t.pop().unwrap();
            self.post(SimpleControlMessage::Unsubscribe { identifier });
            Ok(())
        } else {
            Err(Error::UnknownInstruction)
        }
    }
}

} // verus!
