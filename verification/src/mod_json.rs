//! JSON documents on the stack: tests of what a value is, reading and
//! setting members of an object, and strings in and out of JSON text.
use vstd::prelude::*;
use vstd::utf8::valid_utf8;
use crate::env::{Env, EnvModel, bytes_equal, copy_bytes};
use crate::instructions::{Outcome, after_pops, answers, fail, is_instruction, named, ok, or_else, push_all, push_bool, stack_bool};
use crate::mod_binaries::pop_three;
use crate::mod_numbers::{pop_pair, pop_single, push_value};
use crate::mod_uuid::hex_digit;
use crate::script::{TryInstruction, Error, PassResult, result_model, invalid_value_error, error_invalid_value, utf8_valid};

verus! {

/// What a JSON value is.
#[derive(PartialEq, Eq, Structural, Clone, Copy)]
pub enum JsonKind {
    Null,
    Bool,
    Number,
    Str,
    Array,
    Object,
}

/// What the instructions read of a JSON value: its kind, the content of a
/// string, and the members of an object as keys with the compact text of
/// their values.
pub struct JsonModel {
    pub kind: JsonKind,
    pub string: Seq<u8>,
    pub entries: Seq<(Seq<u8>, Seq<u8>)>,
}

/// The value that JSON text spells, if it spells one
/// (`serde_json::from_slice` into a `serde_json::Value`), as the model
/// above; an object's members in the order of its map.
pub uninterp spec fn json_parse(b: Seq<u8>) -> Option<JsonModel>;

/// The compact text of the object that JSON text spells, with the member of
/// a key set to the value another JSON text spells
/// (`serde_json::from_slice` of each, `serde_json::Map::insert`, then
/// `to_string`).
pub uninterp spec fn json_set_text(object: Seq<u8>, key: Seq<u8>, value: Seq<u8>) -> Seq<u8>;

/// Pairs of byte vectors as pairs of sequences.
pub open spec fn pairs_view(v: Seq<(Vec<u8>, Vec<u8>)>) -> Seq<(Seq<u8>, Seq<u8>)> {
    v.map_values(|p: (Vec<u8>, Vec<u8>)| (p.0@, p.1@))
}

/// A byte of a string as JSON writes it.
pub open spec fn escaped(b: u8) -> Seq<u8> {
    if b == 34 {
        seq![92u8, 34]
    } else if b == 92 {
        seq![92u8, 92]
    } else if b == 8 {
        seq![92u8, 98]
    } else if b == 9 {
        seq![92u8, 116]
    } else if b == 10 {
        seq![92u8, 110]
    } else if b == 12 {
        seq![92u8, 102]
    } else if b == 13 {
        seq![92u8, 114]
    } else if b < 32 {
        seq![92u8, 117, 48, 48, hex_digit(b as nat / 16), hex_digit(b as nat % 16)]
    } else {
        seq![b]
    }
}

pub open spec fn escaped_all(s: Seq<u8>) -> Seq<u8>
    decreases s.len(),
{
    if s.len() == 0 {
        Seq::empty()
    } else {
        escaped_all(s.drop_last()) + escaped(s.last())
    }
}

/// A string as JSON text: in quotes, with quotes, backslashes and control
/// characters escaped.
pub open spec fn json_string_text(s: Seq<u8>) -> Seq<u8> {
    seq![34u8] + escaped_all(s) + seq![34u8]
}

/// The value of the first member with the key.
pub open spec fn member(entries: Seq<(Seq<u8>, Seq<u8>)>, key: Seq<u8>) -> Option<Seq<u8>>
    decreases entries.len(),
{
    if entries.len() == 0 {
        None
    } else if entries[0].0 == key {
        Some(entries[0].1)
    } else {
        member(entries.drop_first(), key)
    }
}

/// The members of an object, if the text spells one.
pub open spec fn parsed_object(b: Seq<u8>) -> Option<Seq<(Seq<u8>, Seq<u8>)>> {
    match json_parse(b) {
        Some(j) => if j.kind == JsonKind::Object {
            Some(j.entries)
        } else {
            None
        },
        None => None,
    }
}

/// Whether the text spells a value, of the kind given if one is.
pub open spec fn is_json(b: Seq<u8>, kind: Option<JsonKind>) -> bool {
    match (json_parse(b), kind) {
        (Some(_), None) => true,
        (Some(j), Some(k)) => j.kind == k,
        (None, _) => false,
    }
}

pub open spec fn kind_name(kind: Option<JsonKind>) -> Seq<u8> {
    match kind {
        None => seq![133u8, 74, 83, 79, 78, 63],
        Some(JsonKind::Object) => seq![140u8, 74, 83, 79, 78, 47, 79, 66, 74, 69, 67, 84, 63],
        Some(JsonKind::Str) => seq![140u8, 74, 83, 79, 78, 47, 83, 84, 82, 73, 78, 71, 63],
        Some(JsonKind::Number) => seq![140u8, 74, 83, 79, 78, 47, 78, 85, 77, 66, 69, 82, 63],
        Some(JsonKind::Bool) => seq![141u8, 74, 83, 79, 78, 47, 66, 79, 79, 76, 69, 65, 78, 63],
        Some(JsonKind::Array) => seq![139u8, 74, 83, 79, 78, 47, 65, 82, 82, 65, 89, 63],
        Some(JsonKind::Null) => seq![138u8, 74, 83, 79, 78, 47, 78, 85, 76, 76, 63],
    }
}

pub open spec fn json_get_name() -> Seq<u8> {
    seq![136u8, 74, 83, 79, 78, 47, 71, 69, 84]
}

pub open spec fn json_set_name() -> Seq<u8> {
    seq![136u8, 74, 83, 79, 78, 47, 83, 69, 84]
}

pub open spec fn json_has_name() -> Seq<u8> {
    seq![137u8, 74, 83, 79, 78, 47, 72, 65, 83, 63]
}

pub open spec fn json_string_to_name() -> Seq<u8> {
    seq![141u8, 74, 83, 79, 78, 47, 83, 84, 82, 73, 78, 71, 45, 62]
}

pub open spec fn json_to_string_name() -> Seq<u8> {
    seq![141u8, 74, 83, 79, 78, 47, 45, 62, 83, 84, 82, 73, 78, 71]
}

/// JSON? and the kind tests: `text -- bool`.
pub open spec fn kind_step(m: EnvModel, kind: Option<JsonKind>) -> Outcome {
    after_pops(m, 1, |m1: EnvModel, t: Seq<Seq<u8>>| ok(push_all(m1, seq![stack_bool(is_json(t[0], kind))])))
}

/// JSON/GET: `object key -- value`, the value's compact text.
pub open spec fn json_get_step(m: EnvModel) -> Outcome {
    after_pops(
        m,
        2,
        |m1: EnvModel, t: Seq<Seq<u8>>|
            if !valid_utf8(t[1]) {
                fail(m1, invalid_value_error(t[1]))
            } else {
                match parsed_object(t[0]) {
                    Some(e) => match member(e, t[1]) {
                        Some(v) => ok(push_all(m1, seq![v])),
                        None => fail(m1, invalid_value_error(t[1])),
                    },
                    None => fail(m1, invalid_value_error(t[0])),
                }
            },
    )
}

/// JSON/HAS?: `object key -- bool`.
pub open spec fn json_has_step(m: EnvModel) -> Outcome {
    after_pops(
        m,
        2,
        |m1: EnvModel, t: Seq<Seq<u8>>|
            if !valid_utf8(t[1]) {
                fail(m1, invalid_value_error(t[1]))
            } else {
                match parsed_object(t[0]) {
                    Some(e) => ok(push_all(m1, seq![stack_bool(member(e, t[1]) is Some)])),
                    None => fail(m1, invalid_value_error(t[0])),
                }
            },
    )
}

/// JSON/SET: `object key value -- object`, the object's compact text with
/// the member set.
pub open spec fn json_set_step(m: EnvModel) -> Outcome {
    after_pops(
        m,
        3,
        |m1: EnvModel, t: Seq<Seq<u8>>|
            if !valid_utf8(t[1]) {
                fail(m1, invalid_value_error(t[1]))
            } else {
                match json_parse(t[2]) {
                    None => fail(m1, invalid_value_error(t[2])),
                    Some(_) => match parsed_object(t[0]) {
                        Some(_) => ok(push_all(m1, seq![json_set_text(t[0], t[1], t[2])])),
                        None => fail(m1, invalid_value_error(t[0])),
                    },
                }
            },
    )
}

/// JSON/STRING->: `json-string -- string`.
pub open spec fn json_string_to_step(m: EnvModel) -> Outcome {
    after_pops(
        m,
        1,
        |m1: EnvModel, t: Seq<Seq<u8>>|
            match json_parse(t[0]) {
                Some(j) => if j.kind == JsonKind::Str {
                    ok(push_all(m1, seq![j.string]))
                } else {
                    fail(m1, invalid_value_error(t[0]))
                },
                None => fail(m1, invalid_value_error(t[0])),
            },
    )
}

/// JSON/->STRING: `string -- json-string`.
pub open spec fn json_to_string_step(m: EnvModel) -> Outcome {
    after_pops(
        m,
        1,
        |m1: EnvModel, t: Seq<Seq<u8>>|
            if valid_utf8(t[0]) {
                ok(push_all(m1, seq![json_string_text(t[0])]))
            } else {
                fail(m1, invalid_value_error(t[0]))
            },
    )
}

/// The kind an instruction tests for: none for JSON?, which tests only
/// that the text is JSON.
pub open spec fn tested_kind(i: Seq<u8>) -> Option<Option<JsonKind>> {
    if i == kind_name(None) {
        Some(None)
    } else if i == kind_name(Some(JsonKind::Object)) {
        Some(Some(JsonKind::Object))
    } else if i == kind_name(Some(JsonKind::Str)) {
        Some(Some(JsonKind::Str))
    } else if i == kind_name(Some(JsonKind::Number)) {
        Some(Some(JsonKind::Number))
    } else if i == kind_name(Some(JsonKind::Bool)) {
        Some(Some(JsonKind::Bool))
    } else if i == kind_name(Some(JsonKind::Array)) {
        Some(Some(JsonKind::Array))
    } else if i == kind_name(Some(JsonKind::Null)) {
        Some(Some(JsonKind::Null))
    } else {
        None
    }
}

/// The kind tests.
pub open spec fn kind_tests(m: EnvModel, i: Seq<u8>) -> Option<Outcome> {
    match tested_kind(i) {
        Some(k) => Some(kind_step(m, k)),
        None => None,
    }
}

/// What the JSON module does with an instruction, if it knows it.
pub open spec fn json_module_step(m: EnvModel, i: Seq<u8>) -> Option<Outcome> {
    or_else(kind_tests(m, i),
    or_else(named(i, json_get_name(), json_get_step(m)),
    or_else(named(i, json_has_name(), json_has_step(m)),
    or_else(named(i, json_set_name(), json_set_step(m)),
    or_else(named(i, json_string_to_name(), json_string_to_step(m)),
    named(i, json_to_string_name(), json_to_string_step(m)))))))
}

/// The kind of the value JSON text spells, if it spells one
/// (`serde_json::from_slice`, then the `Value`'s variant).
#[verifier::external_body]
fn json_kind(b: &[u8]) -> (r: Option<JsonKind>)
    ensures
        match json_parse(b@) {
            Some(j) => r == Some(j.kind),
            None => r is None,
        },
{
    match serde_json::from_slice::<serde_json::Value>(b) {
        Ok(serde_json::Value::Null) => Some(JsonKind::Null),
        Ok(serde_json::Value::Bool(_)) => Some(JsonKind::Bool),
        Ok(serde_json::Value::Number(_)) => Some(JsonKind::Number),
        Ok(serde_json::Value::String(_)) => Some(JsonKind::Str),
        Ok(serde_json::Value::Array(_)) => Some(JsonKind::Array),
        Ok(serde_json::Value::Object(_)) => Some(JsonKind::Object),
        Err(_) => None,
    }
}

/// The content of the string JSON text spells, if it spells a string
/// (`serde_json::from_slice`, then the `Value::String`'s content).
#[verifier::external_body]
fn json_string_content(b: &[u8]) -> (r: Option<Vec<u8>>)
    ensures
        match json_parse(b@) {
            Some(j) => if j.kind == JsonKind::Str {
                r matches Some(s) && s@ == j.string
            } else {
                r is None
            },
            None => r is None,
        },
{
    match serde_json::from_slice::<serde_json::Value>(b) {
        Ok(serde_json::Value::String(s)) => Some(s.into_bytes()),
        _ => None,
    }
}

/// The members of the object JSON text spells, if it spells an object
/// (`serde_json::from_slice`, then the map's keys with the `to_string` of
/// their values, in the map's order).
#[verifier::external_body]
fn json_members(b: &[u8]) -> (r: Option<Vec<(Vec<u8>, Vec<u8>)>>)
    ensures
        match parsed_object(b@) {
            Some(e) => r matches Some(v) && pairs_view(v@) == e,
            None => r is None,
        },
{
    match serde_json::from_slice::<serde_json::Value>(b) {
        Ok(serde_json::Value::Object(m)) => Some(m.into_iter().map(|(k, v)| (k.into_bytes(), v.to_string().into_bytes())).collect()),
        _ => None,
    }
}

/// The compact text of the object that JSON text spells with the member of
/// a key set to the value another JSON text spells
/// (`serde_json::from_slice` of each, `serde_json::Map::insert`, then
/// `to_string`).
#[verifier::external_body]
fn set_member_text(object: &[u8], key: &[u8], value: &[u8]) -> (r: Vec<u8>)
    requires
        parsed_object(object@) is Some,
        json_parse(value@) is Some,
        valid_utf8(key@),
    ensures
        r@ == json_set_text(object@, key@, value@),
{
    let mut map = match serde_json::from_slice::<serde_json::Value>(object) {
        Ok(serde_json::Value::Object(m)) => m,
        _ => serde_json::Map::new(),
    };
    let v = serde_json::from_slice::<serde_json::Value>(value).unwrap_or(serde_json::Value::Null);
    map.insert(String::from_utf8_lossy(key).into_owned(), v);
    serde_json::Value::Object(map).to_string().into_bytes()
}

/// A string as JSON text (`serde_json::Value::String`, then `to_string`).
#[verifier::external_body]
fn json_quote(s: &[u8]) -> (r: Vec<u8>)
    requires
        valid_utf8(s@),
    ensures
        r@ == json_string_text(s@),
{
    serde_json::Value::String(String::from_utf8_lossy(s).into_owned()).to_string().into_bytes()
}

/// The value of the first member with the key.
fn find_member(entries: &Vec<(Vec<u8>, Vec<u8>)>, key: &[u8]) -> (r: Option<Vec<u8>>)
    ensures
        match member(pairs_view(entries@), key@) {
            Some(v) => r matches Some(x) && x@ == v,
            None => r is None,
        },
{
    let ghost pv = pairs_view(entries@);
    let mut i: usize = 0;
    assert(pv.subrange(0, pv.len() as int) =~= pv);
    while i < entries.len()
        invariant
            i <= entries@.len(),
            pv == pairs_view(entries@),
            member(pv, key@) == member(pv.subrange(i as int, pv.len() as int), key@),
        decreases entries@.len() - i,
    {
        let ghost rest = pv.subrange(i as int, pv.len() as int);
        assert(rest[0] == pv[i as int]);
        if bytes_equal(entries[i].0.as_slice(), key) {
            return Some(copy_bytes(entries[i].1.as_slice()));
        }
        assert(rest.drop_first() =~= pv.subrange(i + 1, pv.len() as int));
        i = i + 1;
    }
    assert(pv.subrange(i as int, pv.len() as int) =~= Seq::<(Seq<u8>, Seq<u8>)>::empty());
    None
}

fn kind_name_bytes(kind: Option<JsonKind>) -> (r: Vec<u8>)
    ensures
        r@ == kind_name(kind),
{
    match kind {
        None => vec![133u8, 74, 83, 79, 78, 63],
        Some(JsonKind::Object) => vec![140u8, 74, 83, 79, 78, 47, 79, 66, 74, 69, 67, 84, 63],
        Some(JsonKind::Str) => vec![140u8, 74, 83, 79, 78, 47, 83, 84, 82, 73, 78, 71, 63],
        Some(JsonKind::Number) => vec![140u8, 74, 83, 79, 78, 47, 78, 85, 77, 66, 69, 82, 63],
        Some(JsonKind::Bool) => vec![141u8, 74, 83, 79, 78, 47, 66, 79, 79, 76, 69, 65, 78, 63],
        Some(JsonKind::Array) => vec![139u8, 74, 83, 79, 78, 47, 65, 82, 82, 65, 89, 63],
        Some(JsonKind::Null) => vec![138u8, 74, 83, 79, 78, 47, 78, 85, 76, 76, 63],
    }
}

fn handle_kind_test(env: &mut Env, instruction: &[u8], kind: Option<JsonKind>) -> (r: PassResult)
    ensures
        answers(named(instruction@, kind_name(kind), kind_step(old(env)@, kind)), old(env)@, final(env)@, result_model(r)),
{
    if !is_instruction(instruction, kind_name_bytes(kind)) {
        return Err(Error::UnknownInstruction);
    }
    let a = match pop_single(env) {
        Ok(a) => a,
        Err(e) => return Err(e),
    };
    let v = match json_kind(a.as_slice()) {
        Some(k) => match kind {
            None => true,
            Some(want) => k == want,
        },
        None => false,
    };
    push_bool(env, v);
    Ok(())
}

fn handle_kind_tests(env: &mut Env, instruction: &[u8]) -> (r: PassResult)
    ensures
        answers(kind_tests(old(env)@, instruction@), old(env)@, final(env)@, result_model(r)),
{
    let r = handle_kind_test(env, instruction, None);
    if !r.is_unhandled() {
        return r;
    }
    let r = handle_kind_test(env, instruction, Some(JsonKind::Object));
    if !r.is_unhandled() {
        return r;
    }
    let r = handle_kind_test(env, instruction, Some(JsonKind::Str));
    if !r.is_unhandled() {
        return r;
    }
    let r = handle_kind_test(env, instruction, Some(JsonKind::Number));
    if !r.is_unhandled() {
        return r;
    }
    let r = handle_kind_test(env, instruction, Some(JsonKind::Bool));
    if !r.is_unhandled() {
        return r;
    }
    let r = handle_kind_test(env, instruction, Some(JsonKind::Array));
    if !r.is_unhandled() {
        return r;
    }
    handle_kind_test(env, instruction, Some(JsonKind::Null))
}

fn handle_get(env: &mut Env, instruction: &[u8]) -> (r: PassResult)
    ensures
        answers(named(instruction@, json_get_name(), json_get_step(old(env)@)), old(env)@, final(env)@, result_model(r)),
{
    if !is_instruction(instruction, vec![136u8, 74, 83, 79, 78, 47, 71, 69, 84]) {
        return Err(Error::UnknownInstruction);
    }
    let (a, field) = match pop_pair(env) {
        Ok(p) => p,
        Err(e) => return Err(e),
    };
    if !utf8_valid(field.as_slice()) {
        return Err(error_invalid_value(field.as_slice()));
    }
    match json_members(a.as_slice()) {
        Some(e) => match find_member(&e, field.as_slice()) {
            Some(v) => {
                push_value(env, v);
                Ok(())
            },
            None => Err(error_invalid_value(field.as_slice())),
        },
        None => Err(error_invalid_value(a.as_slice())),
    }
}

fn handle_has(env: &mut Env, instruction: &[u8]) -> (r: PassResult)
    ensures
        answers(named(instruction@, json_has_name(), json_has_step(old(env)@)), old(env)@, final(env)@, result_model(r)),
{
    if !is_instruction(instruction, vec![137u8, 74, 83, 79, 78, 47, 72, 65, 83, 63]) {
        return Err(Error::UnknownInstruction);
    }
    let (a, field) = match pop_pair(env) {
        Ok(p) => p,
        Err(e) => return Err(e),
    };
    if !utf8_valid(field.as_slice()) {
        return Err(error_invalid_value(field.as_slice()));
    }
    match json_members(a.as_slice()) {
        Some(e) => {
            let found = find_member(&e, field.as_slice());
            push_bool(env, found.is_some());
            Ok(())
        },
        None => Err(error_invalid_value(a.as_slice())),
    }
}

fn handle_set(env: &mut Env, instruction: &[u8]) -> (r: PassResult)
    ensures
        answers(named(instruction@, json_set_name(), json_set_step(old(env)@)), old(env)@, final(env)@, result_model(r)),
{
    if !is_instruction(instruction, vec![136u8, 74, 83, 79, 78, 47, 83, 69, 84]) {
        return Err(Error::UnknownInstruction);
    }
    let (a, field, value) = match pop_three(env) {
        Ok(p) => p,
        Err(e) => return Err(e),
    };
    if !utf8_valid(field.as_slice()) {
        return Err(error_invalid_value(field.as_slice()));
    }
    if json_kind(value.as_slice()).is_none() {
        return Err(error_invalid_value(value.as_slice()));
    }
    match json_kind(a.as_slice()) {
        Some(JsonKind::Object) => {
            push_value(env, set_member_text(a.as_slice(), field.as_slice(), value.as_slice()));
            Ok(())
        },
        _ => Err(error_invalid_value(a.as_slice())),
    }
}

fn handle_string_to(env: &mut Env, instruction: &[u8]) -> (r: PassResult)
    ensures
        answers(named(instruction@, json_string_to_name(), json_string_to_step(old(env)@)), old(env)@, final(env)@, result_model(r)),
{
    if !is_instruction(instruction, vec![141u8, 74, 83, 79, 78, 47, 83, 84, 82, 73, 78, 71, 45, 62]) {
        return Err(Error::UnknownInstruction);
    }
    let a = match pop_single(env) {
        Ok(a) => a,
        Err(e) => return Err(e),
    };
    match json_string_content(a.as_slice()) {
        Some(s) => {
            push_value(env, s);
            Ok(())
        },
        None => Err(error_invalid_value(a.as_slice())),
    }
}

fn handle_to_string(env: &mut Env, instruction: &[u8]) -> (r: PassResult)
    ensures
        answers(named(instruction@, json_to_string_name(), json_to_string_step(old(env)@)), old(env)@, final(env)@, result_model(r)),
{
    if !is_instruction(instruction, vec![141u8, 74, 83, 79, 78, 47, 45, 62, 83, 84, 82, 73, 78, 71]) {
        return Err(Error::UnknownInstruction);
    }
    let a = match pop_single(env) {
        Ok(a) => a,
        Err(e) => return Err(e),
    };
    if !utf8_valid(a.as_slice()) {
        return Err(error_invalid_value(a.as_slice()));
    }
    push_value(env, json_quote(a.as_slice()));
    Ok(())
}

/// Runs an instruction of the JSON module; any other instruction is left
/// unhandled.
pub fn handle(env: &mut Env, instruction: &[u8]) -> (r: PassResult)
    ensures
        answers(json_module_step(old(env)@, instruction@), old(env)@, final(env)@, result_model(r)),
{
    let r = handle_kind_tests(env, instruction);
    if !r.is_unhandled() {
        return r;
    }
    let r = handle_get(env, instruction);
    if !r.is_unhandled() {
        return r;
    }
    let r = handle_has(env, instruction);
    if !r.is_unhandled() {
        return r;
    }
    let r = handle_set(env, instruction);
    if !r.is_unhandled() {
        return r;
    }
    let r = handle_string_to(env, instruction);
    if !r.is_unhandled() {
        return r;
    }
    handle_to_string(env, instruction)
}

} // verus!
