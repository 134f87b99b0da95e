//! UUIDs: UUID/V4 and UUID/V5 make them, UUID/->STRING writes one as text
//! and UUID/STRING-> reads one back.
use vstd::prelude::*;
use vstd::utf8::valid_utf8;
use crate::env::{Env, EnvModel};
use crate::instructions::{Outcome, after_pops, fail, is_instruction, named, ok, or_else, push_all};
use crate::mod_msg::{Handler, HandlerModel, MsgOutcome, is_v4_uuid, msg_answers, with_outbox};
use crate::mod_numbers::{pop_single, push_value};
use crate::script::{TryInstruction, Error, PassResult, result_model, invalid_value_error, error_invalid_value, utf8_valid};

verus! {

pub open spec fn uuid_v4_name() -> Seq<u8> {
    seq![135u8, 85, 85, 73, 68, 47, 86, 52]
}

pub open spec fn uuid_v5_name() -> Seq<u8> {
    seq![135u8, 85, 85, 73, 68, 47, 86, 53]
}

pub open spec fn uuid_to_string_name() -> Seq<u8> {
    seq![141u8, 85, 85, 73, 68, 47, 45, 62, 83, 84, 82, 73, 78, 71]
}

pub open spec fn uuid_string_to_name() -> Seq<u8> {
    seq![141u8, 85, 85, 73, 68, 47, 83, 84, 82, 73, 78, 71, 45, 62]
}

/// The lower-case hexadecimal digit of a number below 16.
pub open spec fn hex_digit(n: nat) -> u8 {
    if n < 10 {
        (48 + n) as u8
    } else {
        (87 + n) as u8
    }
}

/// Bytes as lower-case hexadecimal text, two digits each.
pub open spec fn hex_text(b: Seq<u8>) -> Seq<u8>
    decreases b.len(),
{
    if b.len() == 0 {
        Seq::empty()
    } else {
        hex_text(b.drop_last()) + seq![hex_digit(b.last() as nat / 16), hex_digit(b.last() as nat % 16)]
    }
}

/// A UUID's 16 bytes as hyphenated text: groups of 8, 4, 4, 4 and 12
/// digits.
pub open spec fn hyphenated(b: Seq<u8>) -> Seq<u8> {
    hex_text(b.subrange(0, 4)) + seq![45u8] + hex_text(b.subrange(4, 6)) + seq![45u8]
        + hex_text(b.subrange(6, 8)) + seq![45u8] + hex_text(b.subrange(8, 10)) + seq![45u8]
        + hex_text(b.subrange(10, 16))
}

/// The value of a hexadecimal digit, of either case.
pub open spec fn hex_value(c: u8) -> Option<nat> {
    if 48 <= c <= 57 {
        Some((c - 48) as nat)
    } else if 97 <= c <= 102 {
        Some((c - 87) as nat)
    } else if 65 <= c <= 70 {
        Some((c - 55) as nat)
    } else {
        None
    }
}

/// The bytes that hexadecimal text spells, two digits each.
pub open spec fn hex_bytes(h: Seq<u8>) -> Option<Seq<u8>>
    decreases h.len(),
{
    if h.len() == 0 {
        Some(Seq::empty())
    } else if h.len() < 2 {
        None
    } else {
        match (hex_bytes(h.subrange(0, h.len() - 2)), hex_value(h[h.len() - 2]), hex_value(h[h.len() - 1])) {
            (Some(p), Some(hi), Some(lo)) => Some(p.push((hi * 16 + lo) as u8)),
            _ => None,
        }
    }
}

/// The bytes of hyphenated UUID text: 36 characters, hyphens at 8, 13,
/// 18 and 23, hexadecimal digits elsewhere.
pub open spec fn unhyphenated(s: Seq<u8>) -> Option<Seq<u8>> {
    if s.len() == 36 && s[8] == 45 && s[13] == 45 && s[18] == 45 && s[23] == 45 {
        hex_bytes(s.subrange(0, 8) + s.subrange(9, 13) + s.subrange(14, 18) + s.subrange(19, 23) + s.subrange(24, 36))
    } else {
        None
    }
}

/// An ASCII letter in lower case; any other byte as it is.
pub open spec fn ascii_lower(c: u8) -> u8 {
    if 65 <= c <= 90 {
        (c + 32) as u8
    } else {
        c
    }
}

/// The bytes of UUID text: 32 digits, hyphenated text, hyphenated text in
/// braces, or hyphenated text after `urn:uuid:` in any case.
pub open spec fn uuid_text(s: Seq<u8>) -> Option<Seq<u8>> {
    if s.len() == 32 {
        hex_bytes(s)
    } else if s.len() == 36 {
        unhyphenated(s)
    } else if s.len() == 38 && s[0] == 123 && s[37] == 125 {
        unhyphenated(s.subrange(1, 37))
    } else if s.len() == 45 && s.subrange(0, 9).map_values(|c: u8| ascii_lower(c)) == seq![117u8, 114, 110, 58, 117, 117, 105, 100, 58] {
        unhyphenated(s.subrange(9, 45))
    } else {
        None
    }
}

/// The version 5 UUID of a namespace UUID and a name
/// (`uuid::Uuid::new_v5`).
pub uninterp spec fn v5_uuid(namespace: Seq<u8>, name: Seq<u8>) -> Seq<u8>;

/// UUID/V5: `namespace name -- uuid`; the name must be UTF-8 and the
/// namespace 16 bytes.
pub open spec fn uuid_v5_step(m: EnvModel) -> Outcome {
    after_pops(
        m,
        1,
        |m1: EnvModel, t: Seq<Seq<u8>>|
            if !valid_utf8(t[0]) {
                fail(m1, invalid_value_error(t[0]))
            } else {
                after_pops(
                    m1,
                    1,
                    |m2: EnvModel, u: Seq<Seq<u8>>|
                        if u[0].len() != 16 {
                            fail(m2, invalid_value_error(u[0]))
                        } else {
                            ok(push_all(m2, seq![v5_uuid(u[0], t[0])]))
                        },
                )
            },
    )
}

/// UUID/->STRING: `uuid -- text`.
pub open spec fn uuid_to_string_step(m: EnvModel) -> Outcome {
    after_pops(
        m,
        1,
        |m1: EnvModel, t: Seq<Seq<u8>>|
            if t[0].len() != 16 {
                fail(m1, invalid_value_error(t[0]))
            } else {
                ok(push_all(m1, seq![hyphenated(t[0])]))
            },
    )
}

/// UUID/STRING->: `text -- uuid`.
pub open spec fn uuid_string_to_step(m: EnvModel) -> Outcome {
    after_pops(
        m,
        1,
        |m1: EnvModel, t: Seq<Seq<u8>>|
            match uuid_text(t[0]) {
                Some(b) => ok(push_all(m1, seq![b])),
                None => fail(m1, invalid_value_error(t[0])),
            },
    )
}

/// What the UUID module does with an instruction, if it knows it; UUID/V4
/// hands out the messaging module's next identifier.
pub open spec fn uuid_module_step(m: EnvModel, h: HandlerModel, i: Seq<u8>) -> Option<MsgOutcome> {
    if i == uuid_v4_name() {
        Some(with_outbox(ok(push_all(m, seq![h.next_identifier])), h.outbox))
    } else {
        match or_else(named(i, uuid_v5_name(), uuid_v5_step(m)),
            or_else(named(i, uuid_to_string_name(), uuid_to_string_step(m)),
            named(i, uuid_string_to_name(), uuid_string_to_step(m)))) {
            Some(o) => Some(with_outbox(o, h.outbox)),
            None => None,
        }
    }
}

/// The version 5 UUID of a namespace and a name (`uuid::Uuid::new_v5`):
/// 16 bytes, version 5 in the high half of byte 6, the variant bits `10`
/// on top of byte 8.
#[verifier::external_body]
fn new_v5(namespace: &[u8], name: &[u8]) -> (r: Vec<u8>)
    requires
        namespace@.len() == 16,
    ensures
        r@ == v5_uuid(namespace@, name@),
        r@.len() == 16,
        r@[6] / 16 == 5,
        r@[8] / 64 == 2,
{
    match uuid::Uuid::from_slice(namespace) {
        Ok(ns) => uuid::Uuid::new_v5(&ns, name).as_bytes().to_vec(),
        Err(_) => Vec::new(),
    }
}

/// A UUID as hyphenated lower-case text (`Uuid::hyphenated`, then
/// `to_string`).
#[verifier::external_body]
fn hyphenated_text(b: &[u8]) -> (r: Vec<u8>)
    requires
        b@.len() == 16,
    ensures
        r@ == hyphenated(b@),
{
    match uuid::Uuid::from_slice(b) {
        Ok(u) => u.hyphenated().to_string().into_bytes(),
        Err(_) => Vec::new(),
    }
}

/// The UUID that text spells, if it spells one (`Uuid::try_parse_ascii`).
#[verifier::external_body]
fn parse_uuid(s: &[u8]) -> (r: Option<Vec<u8>>)
    ensures
        match uuid_text(s@) {
            Some(b) => r matches Some(v) && v@ == b,
            None => r is None,
        },
{
    match uuid::Uuid::try_parse_ascii(s) {
        Ok(u) => Some(u.as_bytes().to_vec()),
        Err(_) => None,
    }
}

fn handle_v5(env: &mut Env, instruction: &[u8]) -> (r: PassResult)
    ensures
        crate::instructions::answers(named(instruction@, uuid_v5_name(), uuid_v5_step(old(env)@)), old(env)@, final(env)@, result_model(r)),
{
    if !is_instruction(instruction, vec![135u8, 85, 85, 73, 68, 47, 86, 53]) {
        return Err(Error::UnknownInstruction);
    }
    let name = match pop_single(env) {
        Ok(a) => a,
        Err(e) => return Err(e),
    };
    if !utf8_valid(name.as_slice()) {
        return Err(error_invalid_value(name.as_slice()));
    }
    let namespace = match pop_single(env) {
        Ok(a) => a,
        Err(e) => return Err(e),
    };
    if namespace.len() != 16 {
        return Err(error_invalid_value(namespace.as_slice()));
    }
    push_value(env, new_v5(namespace.as_slice(), name.as_slice()));
    Ok(())
}

fn handle_to_string(env: &mut Env, instruction: &[u8]) -> (r: PassResult)
    ensures
        crate::instructions::answers(named(instruction@, uuid_to_string_name(), uuid_to_string_step(old(env)@)), old(env)@, final(env)@, result_model(r)),
{
    if !is_instruction(instruction, vec![141u8, 85, 85, 73, 68, 47, 45, 62, 83, 84, 82, 73, 78, 71]) {
        return Err(Error::UnknownInstruction);
    }
    let a = match pop_single(env) {
        Ok(a) => a,
        Err(e) => return Err(e),
    };
    if a.len() != 16 {
        return Err(error_invalid_value(a.as_slice()));
    }
    push_value(env, hyphenated_text(a.as_slice()));
    Ok(())
}

fn handle_string_to(env: &mut Env, instruction: &[u8]) -> (r: PassResult)
    ensures
        crate::instructions::answers(named(instruction@, uuid_string_to_name(), uuid_string_to_step(old(env)@)), old(env)@, final(env)@, result_model(r)),
{
    if !is_instruction(instruction, vec![141u8, 85, 85, 73, 68, 47, 83, 84, 82, 73, 78, 71, 45, 62]) {
        return Err(Error::UnknownInstruction);
    }
    let a = match pop_single(env) {
        Ok(a) => a,
        Err(e) => return Err(e),
    };
    match parse_uuid(a.as_slice()) {
        Some(b) => {
            push_value(env, b);
            Ok(())
        },
        None => Err(error_invalid_value(a.as_slice())),
    }
}

/// Runs an instruction of the UUID module; any other instruction is left
/// unhandled. UUID/V4 takes the next identifier of `ids`, which draws a
/// new one.
pub fn handle(env: &mut Env, ids: &mut Handler, instruction: &[u8]) -> (r: PassResult)
    ensures
        msg_answers(
            uuid_module_step(old(env)@, old(ids)@, instruction@),
            old(env)@,
            old(ids)@.outbox,
            final(env)@,
            final(ids)@.outbox,
            result_model(r),
        ),
        final(ids)@.next_identifier == old(ids)@.next_identifier || is_v4_uuid(final(ids)@.next_identifier),
{
    if is_instruction(instruction, vec![135u8, 85, 85, 73, 68, 47, 86, 52]) {
        let id = ids.take_identifier();
        push_value(env, id);
        return Ok(());
    }
    let r = handle_v5(env, instruction);
    if !r.is_unhandled() {
        return r;
    }
    let r = handle_to_string(env, instruction);
    if !r.is_unhandled() {
        return r;
    }
    handle_string_to(env, instruction)
}

} // verus!
