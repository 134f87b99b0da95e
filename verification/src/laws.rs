//! Properties of the interpreter that span several steps or functions.
use vstd::prelude::*;
use crate::env::{EnvModel, dictionary_insert, dictionary_lookup, scope_find, scope_insert, lemma_scope_find};
use crate::instructions::Outcome;
use crate::mod_msg::HandlerModel;
use crate::messaging::{
    ControlModel,
    SimpleModel,
    callback_of,
    deliveries,
    find_in,
    identifiers,
    lemma_find_in,
    simple_step,
    subscribe_spec,
    subscribers_of,
    topics,
    unsubscribe_spec,
};
use crate::scheduler::{ResponseModel, SchedulerModel, handle_step, pass_step, instruction_step, scheduler_step};
use crate::mod_string::{decimal, digits_value, int_text, is_digit, signed_decimal, uint_text};
use crate::mod_numbers::abs;
use crate::envheap::{allocated, heap_wf, region_taken};
use crate::mod_storage::{assoc_name, duplicate_key_error, end_name, nested_write_error, storage_module_step, write_name};
use crate::storage::{ReplyModel, RequestModel, TxnKind};
use crate::script::ErrorModel;
use crate::mod_uuid::{hex_bytes, hex_digit, hex_text, hex_value, hyphenated, uuid_text};

verus! {

/// Whether a step leaves the count of running TRYs as it was.
pub open spec fn keeps_tracking(m: EnvModel, o: Option<Outcome>) -> bool {
    o matches Some((m3, _)) ==> m3.tracking_errors == m.tracking_errors
}

/// Looking up a definition just made in the innermost scope gives it back.
pub proof fn law_dictionary_set_get(d: Seq<Seq<(Seq<u8>, Seq<u8>)>>, key: Seq<u8>, value: Seq<u8>)
    ensures
        dictionary_lookup(dictionary_insert(d, key, value), key) == Some(value),
{
    let d2 = dictionary_insert(d, key, value);
    if d.len() == 0 {
        assert(d2.last() == seq![(key, value)]);
        assert(scope_find(d2.last(), key) == Some(0nat));
    } else {
        let s = d.last();
        lemma_scope_find(s, key);
        match scope_find(s, key) {
            Some(j) => {
                let s2 = s.update(j as int, (key, value));
                assert(scope_insert(s, key, value) == s2);
                lemma_scope_find_updated(s, key, value, j);
            },
            None => {
                assert(scope_insert(s, key, value).last() == (key, value));
            },
        }
        assert(d2.last() == scope_insert(s, key, value));
    }
}

proof fn lemma_scope_find_updated(s: Seq<(Seq<u8>, Seq<u8>)>, key: Seq<u8>, value: Seq<u8>, j: nat)
    requires
        scope_find(s, key) == Some(j),
    ensures
        scope_find(s.update(j as int, (key, value)), key) == Some(j),
    decreases s.len(),
{
    lemma_scope_find(s, key);
    let s2 = s.update(j as int, (key, value));
    if j == s.len() - 1 {
    } else {
        assert(s.last().0 != key);
        assert(s2.last() == s.last());
        assert(s2.drop_last() =~= s.drop_last().update(j as int, (key, value)));
        lemma_scope_find_updated(s.drop_last(), key, value, j);
    }
}

proof fn lemma_schedule_times_keeps(m: EnvModel, code: Seq<u8>, n: nat)
    ensures
        crate::mod_core::schedule_times(m, code, n).tracking_errors == m.tracking_errors,
    decreases n,
{
    if n > 0 {
        lemma_schedule_times_keeps(m, code, (n - 1) as nat);
    }
}

proof fn lemma_core_keeps_tracking(m: EnvModel, i: Seq<u8>)
    ensures
        keeps_tracking(m, crate::mod_core::core_module_step(m, i)),
{
    if m.stack.len() >= 2 {
        let n = m.stack.len() - 2;
        let t = m.stack.subrange(n, m.stack.len() as int);
        lemma_schedule_times_keeps(EnvModel { stack: m.stack.subrange(0, n), ..m }, t[0], crate::encoding::be_value(t[1]));
    }
    assert(crate::mod_core::if_step(m).0.tracking_errors == m.tracking_errors);
    assert(crate::mod_core::dowhile_step(m).0.tracking_errors == m.tracking_errors);
    assert(crate::mod_core::times_step(m).0.tracking_errors == m.tracking_errors);
    assert(crate::mod_core::scope_end_step(m).0.tracking_errors == m.tracking_errors);
    assert(crate::mod_core::eval_step(m).0.tracking_errors == m.tracking_errors);
    assert(crate::mod_core::eval_valid_step(m).0.tracking_errors == m.tracking_errors);
    assert(crate::mod_core::eval_scoped_step(m).0.tracking_errors == m.tracking_errors);
    assert(crate::mod_core::define_step(m, true).0.tracking_errors == m.tracking_errors);
    assert(crate::mod_core::define_step(m, false).0.tracking_errors == m.tracking_errors);
    assert(crate::mod_core::not_step(m).0.tracking_errors == m.tracking_errors);
    assert(crate::mod_core::logic_step(m, true).0.tracking_errors == m.tracking_errors);
    assert(crate::mod_core::logic_step(m, false).0.tracking_errors == m.tracking_errors);
    assert(crate::mod_core::ifelse_step(m).0.tracking_errors == m.tracking_errors);
    assert(crate::mod_core::feature_step(m).0.tracking_errors == m.tracking_errors);
}

proof fn lemma_unwrap_items_keeps(m: EnvModel, s: Seq<u8>)
    ensures
        crate::mod_stack::unwrap_items(m, s).0.tracking_errors == m.tracking_errors,
    decreases s.len(),
{
    if s.len() > 0 {
        match crate::encoding::parse_data_spec(s) {
            Some((h, l)) => lemma_unwrap_items_keeps(
                crate::instructions::push_all(m, seq![s.subrange(h as int, (h + l) as int)]),
                s.subrange((h + l) as int, s.len() as int),
            ),
            None => {},
        }
    }
}

proof fn lemma_stack_keeps_tracking(m: EnvModel, i: Seq<u8>)
    ensures
        keeps_tracking(m, crate::mod_stack::stack_module_step(m, i)),
{
    if m.stack.len() >= 1 {
        let n = m.stack.len() - 1;
        lemma_unwrap_items_keeps(EnvModel { stack: m.stack.subrange(0, n), ..m }, m.stack[n]);
    }
    assert(crate::mod_stack::drop_step(m).0.tracking_errors == m.tracking_errors);
    assert(crate::mod_stack::dup_step(m).0.tracking_errors == m.tracking_errors);
    assert(crate::mod_stack::three_drop_step(m).0.tracking_errors == m.tracking_errors);
    assert(crate::mod_stack::three_dup_step(m).0.tracking_errors == m.tracking_errors);
    assert(crate::mod_stack::swap_step(m).0.tracking_errors == m.tracking_errors);
    assert(crate::mod_stack::two_swap_step(m).0.tracking_errors == m.tracking_errors);
    assert(crate::mod_stack::rot_step(m).0.tracking_errors == m.tracking_errors);
    assert(crate::mod_stack::two_rot_step(m).0.tracking_errors == m.tracking_errors);
    assert(crate::mod_stack::over_step(m).0.tracking_errors == m.tracking_errors);
    assert(crate::mod_stack::two_over_step(m).0.tracking_errors == m.tracking_errors);
    assert(crate::mod_stack::depth_step(m).0.tracking_errors == m.tracking_errors);
    assert(crate::mod_stack::wrap_step(m).0.tracking_errors == m.tracking_errors);
    assert(crate::mod_stack::unwrap_step(m).0.tracking_errors == m.tracking_errors);
    assert(crate::mod_stack::push_stack_step(m).0.tracking_errors == m.tracking_errors);
    assert(crate::mod_stack::pop_stack_step(m).0.tracking_errors == m.tracking_errors);
    assert(crate::mod_stack::to_back_queue_step(m).0.tracking_errors == m.tracking_errors);
    assert(crate::mod_stack::from_back_queue_step(m).0.tracking_errors == m.tracking_errors);
    assert(crate::mod_stack::to_front_queue_step(m).0.tracking_errors == m.tracking_errors);
    assert(crate::mod_stack::from_front_queue_step(m).0.tracking_errors == m.tracking_errors);
    assert(crate::mod_stack::queue_empty_step(m).0.tracking_errors == m.tracking_errors);
}

proof fn lemma_sized_keeps(m: EnvModel, i: Seq<u8>, width: nat)
    ensures
        keeps_tracking(m, crate::mod_numbers::sized_from(m, i, width)),
    decreases 16 - width,
{
    if width > 0 && width <= 8 {
        lemma_sized_keeps(m, i, 2 * width);
        assert(crate::mod_numbers::sized_step(m, width, false, true).0.tracking_errors == m.tracking_errors);
        assert(crate::mod_numbers::sized_step(m, width, false, false).0.tracking_errors == m.tracking_errors);
        assert(crate::mod_numbers::sized_step(m, width, true, true).0.tracking_errors == m.tracking_errors);
        assert(crate::mod_numbers::sized_step(m, width, true, false).0.tracking_errors == m.tracking_errors);
    }
}

proof fn lemma_numbers_keeps_tracking(m: EnvModel, i: Seq<u8>)
    ensures
        keeps_tracking(m, crate::mod_numbers::numbers_module_step(m, i)),
{
    lemma_sized_keeps(m, i, 1);
    assert(crate::mod_numbers::uint_add_step(m).0.tracking_errors == m.tracking_errors);
    assert(crate::mod_numbers::uint_sub_step(m).0.tracking_errors == m.tracking_errors);
    assert(crate::mod_numbers::int_add_step(m).0.tracking_errors == m.tracking_errors);
    assert(crate::mod_numbers::int_sub_step(m).0.tracking_errors == m.tracking_errors);
    assert(crate::mod_numbers::int_to_uint_step(m).0.tracking_errors == m.tracking_errors);
    assert(crate::mod_numbers::uint_to_int_step(m).0.tracking_errors == m.tracking_errors);
    assert(crate::mod_numbers::uint_compare_step(m, 0).0.tracking_errors == m.tracking_errors);
    assert(crate::mod_numbers::uint_compare_step(m, 1).0.tracking_errors == m.tracking_errors);
    assert(crate::mod_numbers::uint_compare_step(m, 2).0.tracking_errors == m.tracking_errors);
    assert(crate::mod_numbers::int_compare_step(m, 0).0.tracking_errors == m.tracking_errors);
    assert(crate::mod_numbers::int_compare_step(m, 1).0.tracking_errors == m.tracking_errors);
    assert(crate::mod_numbers::int_compare_step(m, 2).0.tracking_errors == m.tracking_errors);
}

proof fn lemma_hash_keeps_tracking(m: EnvModel, i: Seq<u8>, which: nat)
    ensures
        keeps_tracking(m, crate::mod_hash::hash_from(m, i, which)),
    decreases 6 - which,
{
    assert(crate::mod_hash::hash_step(m, which).0.tracking_errors == m.tracking_errors);
    if which < 6 {
        lemma_hash_keeps_tracking(m, i, which + 1);
    } else {
        assert(crate::mod_hash::hash_step(m, 6).0.tracking_errors == m.tracking_errors);
    }
}

proof fn lemma_binaries_keeps_tracking(m: EnvModel, i: Seq<u8>)
    ensures
        keeps_tracking(m, crate::mod_binaries::binaries_module_step(m, i)),
{
}

/// Whether a failed step left the count of running TRYs as it was.
pub open spec fn failure_keeps_tracking(m: EnvModel, o: Option<crate::mod_msg::MsgOutcome>) -> bool {
    o matches Some((m3, _, Err(_))) ==> m3.tracking_errors == m.tracking_errors
}

proof fn lemma_sized_text_keeps(m: EnvModel, i: Seq<u8>, width: nat)
    ensures
        keeps_tracking(m, crate::mod_string::sized_text_from(m, i, width)),
    decreases 16 - width,
{
    if width > 0 && width <= 8 {
        lemma_sized_text_keeps(m, i, 2 * width);
        assert(crate::mod_string::string_to_sized_step(m, width, false).0.tracking_errors == m.tracking_errors);
        assert(crate::mod_string::string_to_sized_step(m, width, true).0.tracking_errors == m.tracking_errors);
    }
}

proof fn lemma_sized_to_text_keeps(m: EnvModel, i: Seq<u8>, width: nat)
    ensures
        keeps_tracking(m, crate::mod_string::sized_to_text_from(m, i, width)),
    decreases 16 - width,
{
    if width > 0 && width <= 8 {
        lemma_sized_to_text_keeps(m, i, 2 * width);
        assert(crate::mod_string::sized_to_string_step(m, width, false).0.tracking_errors == m.tracking_errors);
        assert(crate::mod_string::sized_to_string_step(m, width, true).0.tracking_errors == m.tracking_errors);
    }
}

#[verifier::spinoff_prover]
proof fn lemma_string_keeps_tracking(m: EnvModel, i: Seq<u8>)
    ensures
        keeps_tracking(m, crate::mod_string::string_module_step(m, i)),
{
    lemma_sized_text_keeps(m, i, 1);
    lemma_sized_to_text_keeps(m, i, 1);
}

#[verifier::spinoff_prover]
proof fn lemma_storage_keeps_tracking(m: EnvModel, i: Seq<u8>)
    ensures
        keeps_tracking(m, crate::mod_storage::storage_module_step(m, i)),
{
}

#[verifier::spinoff_prover]
proof fn lemma_json_keeps_tracking(m: EnvModel, i: Seq<u8>)
    ensures
        keeps_tracking(m, crate::mod_json::json_module_step(m, i)),
{
}

#[verifier::spinoff_prover]
proof fn lemma_hlc_keeps_tracking(m: EnvModel, i: Seq<u8>)
    ensures
        keeps_tracking(m, crate::mod_hlc::hlc_module_step(m, i)),
{
}

#[verifier::spinoff_prover]
proof fn lemma_uuid_keeps_tracking(m: EnvModel, h: HandlerModel, i: Seq<u8>)
    ensures
        failure_keeps_tracking(m, crate::mod_uuid::uuid_module_step(m, h, i)),
{
}

#[verifier::spinoff_prover]
#[verifier::rlimit(60)]
proof fn lemma_handle_failure_keeps_tracking(m: EnvModel, h: HandlerModel, i: Seq<u8>)
    ensures
        failure_keeps_tracking(m, handle_step(m, h, i)),
{
    lemma_core_keeps_tracking(m, i);
    lemma_stack_keeps_tracking(m, i);
    lemma_binaries_keeps_tracking(m, i);
    lemma_numbers_keeps_tracking(m, i);
    lemma_hash_keeps_tracking(m, i, 0);
    lemma_string_keeps_tracking(m, i);
    lemma_storage_keeps_tracking(m, i);
    lemma_json_keeps_tracking(m, i);
    lemma_hlc_keeps_tracking(m, i);
    lemma_uuid_keeps_tracking(m, h, i);
    assert(crate::scheduler::try_step(m).1 is Err ==> crate::scheduler::try_step(m).0.tracking_errors
        == m.tracking_errors);
    assert(failure_keeps_tracking(m, crate::mod_msg::msg_module_step(m, h, i)));
    assert(failure_keeps_tracking(m, crate::dispatcher::dispatcher_step(m, h, i)));
}

/// Law: while a TRY runs, no step of a program fails; an error is recorded
/// for the TRY instead, and the TRY's end pushes it.
pub proof fn law_no_failure_while_trying(m: EnvModel, h: HandlerModel)
    requires
        m.tracking_errors > 0,
    ensures
        pass_step(m, h).2 is Ok,
{
    if m.program.len() > 0 {
        let p = m.program.last();
        let m1 = EnvModel { program: m.program.drop_last(), ..m };
        if p.len() > 0 && crate::encoding::parse_data_spec(p) is None {
            match crate::binparser::instruction_spec(p) {
                Some(n) => {
                    let rest = p.subrange(n as int, p.len() as int);
                    let m2 = if rest.len() > 0 {
                        crate::instructions::schedule(m1, rest)
                    } else {
                        m1
                    };
                    lemma_handle_failure_keeps_tracking(m2, h, p.subrange(0, n as int));
                    assert(instruction_step(m2, h, p.subrange(0, n as int)).2 is Ok);
                },
                None => {},
            }
        }
    }
}

/// Law: UNWRAP undoes WRAP: unwrapping the encodings of values pushes
/// the values back, in order. (A value of 2^32 bytes or more does not come
/// back: its size header cannot hold its length.)
pub proof fn law_unwrap_undoes_wrap(m: EnvModel, items: Seq<Seq<u8>>)
    requires
        forall|i: int| 0 <= i < items.len() ==> #[trigger] items[i].len() < crate::encoding::max_header_size(),
    ensures
        crate::mod_stack::unwrap_items(m, crate::mod_stack::concat_encoded(items)) == crate::instructions::ok(
            crate::instructions::push_all(m, items),
        ),
    decreases items.len(),
{
    lemma_unwrap_concat(m, items, Seq::empty());
    assert(crate::mod_stack::concat_encoded(items) + Seq::<u8>::empty() =~= crate::mod_stack::concat_encoded(items));
}

/// Unwrapping the encodings of `items` followed by more bytes: the items
/// are pushed and the rest is unwrapped after them.
proof fn lemma_unwrap_concat(m: EnvModel, items: Seq<Seq<u8>>, rest: Seq<u8>)
    requires
        forall|i: int| 0 <= i < items.len() ==> #[trigger] items[i].len() < crate::encoding::max_header_size(),
    ensures
        crate::mod_stack::unwrap_items(m, crate::mod_stack::concat_encoded(items) + rest)
            == crate::mod_stack::unwrap_items(crate::instructions::push_all(m, items), rest),
    decreases items.len(),
{
    if items.len() == 0 {
        assert(crate::mod_stack::concat_encoded(items) + rest =~= rest);
        assert(crate::instructions::push_all(m, items).stack =~= m.stack);
        assert(crate::instructions::push_all(m, items) == m);
    } else {
        let first = items[0];
        let tail = items.drop_first();
        assert forall|i: int| 0 <= i < tail.len() implies #[trigger] tail[i].len() < crate::encoding::max_header_size() by {
            assert(tail[i] == items[i + 1]);
        }
        lemma_concat_encoded_first(items);
        let enc = crate::encoding::encode_data_spec(first);
        let s = crate::mod_stack::concat_encoded(items) + rest;
        assert(s =~= enc + (crate::mod_stack::concat_encoded(tail) + rest));
        crate::encoding::lemma_data_roundtrip(first, crate::mod_stack::concat_encoded(tail) + rest);
        let h = crate::encoding::size_header(first.len()).len();
        assert(s.len() > 0);
        assert(s.subrange((h + first.len()) as int, s.len() as int) =~= crate::mod_stack::concat_encoded(tail) + rest);
        let m1 = crate::instructions::push_all(m, seq![first]);
        lemma_unwrap_concat(m1, tail, rest);
        assert(crate::instructions::push_all(m1, tail).stack =~= crate::instructions::push_all(m, items).stack);
        assert(crate::instructions::push_all(m1, tail) == crate::instructions::push_all(m, items));
    }
}

/// The encodings of values start with the first value's.
proof fn lemma_concat_encoded_first(items: Seq<Seq<u8>>)
    requires
        items.len() > 0,
    ensures
        crate::mod_stack::concat_encoded(items) == crate::encoding::encode_data_spec(items[0])
            + crate::mod_stack::concat_encoded(items.drop_first()),
    decreases items.len(),
{
    if items.len() == 1 {
        assert(items.drop_last() =~= Seq::<Seq<u8>>::empty());
        assert(items.drop_first() =~= Seq::<Seq<u8>>::empty());
        assert(crate::mod_stack::concat_encoded(Seq::<Seq<u8>>::empty()) == Seq::<u8>::empty());
        assert(crate::mod_stack::concat_encoded(items.drop_last()) == Seq::<u8>::empty());
        assert(items.last() == items[0]);
        assert(crate::mod_stack::concat_encoded(items) =~= crate::encoding::encode_data_spec(items[0]));
    } else {
        lemma_concat_encoded_first(items.drop_last());
        assert(items.drop_last().drop_first() =~= items.drop_first().drop_last());
        assert(items.drop_first().last() == items.last());
        assert(items.drop_last()[0] == items[0]);
    }
}

/// Law: unpacking a packed integer gives it back.
pub proof fn law_int_roundtrip(v: int)
    ensures
        crate::mod_numbers::int_value(crate::mod_numbers::pack_int(v)) == Some(v),
{
    let mag = crate::mod_numbers::abs(v);
    crate::bignum::lemma_canonical_be(mag);
    crate::packable::lemma_int_roundtrip(v < 0, crate::bignum::canonical_be(mag));
}

/// No identifier is subscribed twice: what the broker keeps when it
/// starts empty and is only changed by its messages.
pub open spec fn broker_wf(s: SimpleModel) -> bool {
    forall|i: int, j: int|
        0 <= i < j < identifiers(s).len() ==> #[trigger] identifiers(s)[i] != #[trigger] identifiers(s)[j]
}

/// The broker's messages keep its identifiers distinct.
pub proof fn law_broker_wf_kept(s: SimpleModel, msg: ControlModel)
    requires
        broker_wf(s),
    ensures
        simple_step(s, msg) matches Some((s2, _)) ==> broker_wf(s2),
{
    match msg {
        ControlModel::Subscribe(topic, callback, identifier) => {
            let s2 = subscribe_spec(s, topic, callback, identifier);
            lemma_find_in(identifiers(s), identifier);
            match find_in(identifiers(s), identifier) {
                Some(k) => {
                    assert(identifiers(s2) =~= identifiers(s));
                },
                None => {
                    assert(identifiers(s2) =~= identifiers(s).push(identifier));
                },
            }
        },
        ControlModel::Unsubscribe(identifier) => {
            let s2 = unsubscribe_spec(s, identifier);
            match find_in(identifiers(s), identifier) {
                Some(k) => {
                    lemma_find_in(identifiers(s), identifier);
                    assert(identifiers(s2) =~= identifiers(s).remove(k as int));
                    assert forall|i: int, j: int| 0 <= i < j < identifiers(s2).len() implies #[trigger] identifiers(s2)[i]
                        != #[trigger] identifiers(s2)[j] by {
                        let ii = if i < k { i } else { i + 1 };
                        let jj = if j < k { j } else { j + 1 };
                        assert(identifiers(s2)[i] == identifiers(s)[ii]);
                        assert(identifiers(s2)[j] == identifiers(s)[jj]);
                    }
                },
                None => {},
            }
        },
        _ => {},
    }
}

/// Law: once subscribed, a callback gets what is published on the topic:
/// the last delivery of the publication is to it.
pub proof fn law_subscriber_receives(s: SimpleModel, topic: Seq<u8>, callback: u64, identifier: Seq<u8>, body: Seq<u8>)
    ensures
        ({
            let s1 = subscribe_spec(s, topic, callback, identifier);
            let ds = deliveries(s1, subscribers_of(s1, topic), topic, body);
            ds.len() > 0 && ds.last() == (callback, topic, body)
        }),
{
    let s1 = subscribe_spec(s, topic, callback, identifier);
    lemma_find_in(topics(s), topic);
    lemma_find_in(identifiers(s), identifier);
    match find_in(topics(s), topic) {
        Some(k) => {
            assert(topics(s1) =~= topics(s));
        },
        None => {
            assert(topics(s1) =~= topics(s).push(topic));
        },
    }
    match find_in(identifiers(s), identifier) {
        Some(k) => {
            assert(identifiers(s1) =~= identifiers(s));
        },
        None => {
            assert(identifiers(s1) =~= identifiers(s).push(identifier));
        },
    }
    assert(callback_of(s1, identifier) == Some(callback));
    let ids = subscribers_of(s1, topic);
    assert(ids.len() > 0 && ids.last() == identifier);
}

/// Law: after its only subscriber unsubscribed, nothing published on a
/// topic is delivered.
pub proof fn law_unsubscribed_receives_nothing(s: SimpleModel, topic: Seq<u8>, identifier: Seq<u8>, body: Seq<u8>)
    requires
        broker_wf(s),
        subscribers_of(s, topic) == seq![identifier],
    ensures
        ({
            let s2 = unsubscribe_spec(s, identifier);
            deliveries(s2, subscribers_of(s2, topic), topic, body).len() == 0
        }),
{
    let s2 = unsubscribe_spec(s, identifier);
    assert(topics(s2) =~= topics(s));
    assert(subscribers_of(s2, topic) == seq![identifier]);
    lemma_find_in(identifiers(s), identifier);
    match find_in(identifiers(s), identifier) {
        Some(k) => {
            assert(identifiers(s2) =~= identifiers(s).remove(k as int));
            assert forall|j: int| 0 <= j < identifiers(s2).len() implies identifiers(s2)[j] != identifier by {
                let jj = if j < k { j } else { j + 1 };
                assert(identifiers(s2)[j] == identifiers(s)[jj]);
            }
        },
        None => {
            assert(identifiers(s2) =~= identifiers(s));
        },
    }
    lemma_find_in(identifiers(s2), identifier);
    assert(callback_of(s2, identifier) is None);
    let ids = seq![identifier];
    assert(ids.drop_last() =~= Seq::<Seq<u8>>::empty());
    assert(ids.last() == identifier);
    assert(deliveries(s2, Seq::<Seq<u8>>::empty(), topic, body).len() == 0);
    assert(deliveries(s2, ids, topic, body) =~= deliveries(s2, ids.drop_last(), topic, body));
}

/// Law: a framed packet reads back as itself, and the read stops where the
/// frame ends (for packets shorter than 2^32 bytes, whose length the frame
/// holds).
pub proof fn law_packet_roundtrip(buf: Seq<u8>, rest: Seq<u8>)
    requires
        buf.len() < 0x1_0000_0000,
    ensures
        crate::packet::unframe(crate::packet::frame(buf) + rest) == Some((buf, rest)),
{
    crate::mod_numbers::lemma_pow256_small();
    crate::mod_numbers::lemma_fixed_be(buf.len(), 4);
    let s = crate::packet::frame(buf) + rest;
    let header = crate::mod_numbers::fixed_be(buf.len(), 4);
    assert(buf.len() % 0x1_0000_0000 == buf.len());
    assert(s.subrange(0, 4) =~= header);
    assert(s.subrange(4, (4 + buf.len()) as int) =~= buf);
    assert(s.subrange((4 + buf.len()) as int, s.len() as int) =~= rest);
}

/// Law: `<` opens an empty stack level and `>` discards it, whatever was
/// pushed or popped on it in between, giving back the stack as it was.
pub proof fn law_nested_stack_restores(m: EnvModel, inner: Seq<Seq<u8>>)
    ensures
        ({
            let opened = crate::mod_stack::push_stack_step(m).0;
            &&& opened.stack.len() == 0
            &&& crate::mod_stack::pop_stack_step(EnvModel { stack: inner, ..opened }) == crate::instructions::ok(m)
        }),
{
    let opened = crate::mod_stack::push_stack_step(m).0;
    assert(opened.stacks.drop_last() =~= m.stacks);
}

/// Law: a level opened on a fresh environment is the only one; `>` on a
/// single level fails and leaves the environment as it was.
pub proof fn law_single_level_pop_fails(m: EnvModel)
    requires
        m.stacks.len() == 0,
    ensures
        crate::mod_stack::pop_stack_step(m) == crate::instructions::fail(m, crate::script::empty_stack_error()),
{
}

/// Law: unsubscribing an identifier takes its callback away and leaves
/// every other identifier's callback and every topic's subscribers as they
/// were; so a publication still reaches every other subscriber, and never
/// the unsubscribed one.
pub proof fn law_unsubscribe_only_that_identifier(s: SimpleModel, identifier: Seq<u8>, other: Seq<u8>, topic: Seq<u8>)
    requires
        broker_wf(s),
        other != identifier,
    ensures
        callback_of(unsubscribe_spec(s, identifier), identifier) is None,
        callback_of(unsubscribe_spec(s, identifier), other) == callback_of(s, other),
        subscribers_of(unsubscribe_spec(s, identifier), topic) == subscribers_of(s, topic),
{
    let s2 = unsubscribe_spec(s, identifier);
    assert(topics(s2) =~= topics(s));
    lemma_find_in(identifiers(s), identifier);
    lemma_find_in(identifiers(s), other);
    match find_in(identifiers(s), identifier) {
        Some(k) => {
            assert(identifiers(s2) =~= identifiers(s).remove(k as int));
            assert forall|j: int| 0 <= j < identifiers(s2).len() implies identifiers(s2)[j] != identifier by {
                let jj = if j < k { j } else { j + 1 };
                assert(identifiers(s2)[j] == identifiers(s)[jj]);
            }
            lemma_find_in(identifiers(s2), identifier);
            lemma_find_in(identifiers(s2), other);
            match find_in(identifiers(s), other) {
                Some(o) => {
                    let o2: int = if o < k { o as int } else { o - 1 };
                    assert(o != k);
                    assert(identifiers(s2)[o2] == other);
                    assert(s2.identifiers[o2] == s.identifiers[o as int]);
                    lemma_unique_find(identifiers(s2), other, o2);
                },
                None => {
                    assert forall|j: int| 0 <= j < identifiers(s2).len() implies identifiers(s2)[j] != other by {
                        let jj = if j < k { j } else { j + 1 };
                        assert(identifiers(s2)[j] == identifiers(s)[jj]);
                    }
                },
            }
        },
        None => {
            assert(identifiers(s2) =~= identifiers(s));
        },
    }
}

/// In a list of distinct keys, the key at `i` is found at `i`.
proof fn lemma_unique_find(keys: Seq<Seq<u8>>, key: Seq<u8>, i: int)
    requires
        0 <= i < keys.len(),
        keys[i] == key,
        forall|a: int, b: int| 0 <= a < b < keys.len() ==> #[trigger] keys[a] != #[trigger] keys[b],
    ensures
        find_in(keys, key) == Some(i as nat),
    decreases keys.len(),
{
    if i < keys.len() - 1 {
        assert(keys.last() != key) by {
            assert(keys[i] != keys[keys.len() - 1]);
        }
        assert forall|a: int, b: int| 0 <= a < b < keys.drop_last().len() implies #[trigger] keys.drop_last()[a]
            != #[trigger] keys.drop_last()[b] by {
            assert(keys[a] != keys[b]);
        }
        lemma_unique_find(keys.drop_last(), key, i);
    }
}

/// Law: subscribing to a topic leaves every other topic's subscribers as
/// they were, so their publications reach no new callback.
pub proof fn law_subscribe_leaves_other_topics(s: SimpleModel, topic: Seq<u8>, callback: u64, identifier: Seq<u8>, other: Seq<u8>)
    requires
        other != topic,
    ensures
        subscribers_of(subscribe_spec(s, topic, callback, identifier), other) == subscribers_of(s, other),
{
    let s1 = subscribe_spec(s, topic, callback, identifier);
    lemma_find_in(topics(s), topic);
    lemma_find_in(topics(s), other);
    match find_in(topics(s), topic) {
        Some(k) => {
            assert(topics(s1) =~= topics(s));
        },
        None => {
            assert(topics(s1) =~= topics(s).push(topic));
            assert(topics(s1).drop_last() =~= topics(s));
        },
    }
}

proof fn lemma_decimal(n: nat)
    ensures
        decimal(n).len() > 0,
        forall|i: int| 0 <= i < decimal(n).len() ==> is_digit(#[trigger] decimal(n)[i]),
        digits_value(decimal(n)) == n,
    decreases n,
{
    if n >= 10 {
        lemma_decimal(n / 10);
        let p = decimal(n / 10);
        let s = p.push((48 + n % 10) as u8);
        assert(s.drop_last() =~= p);
        assert forall|i: int| 0 <= i < s.len() implies is_digit(#[trigger] s[i]) by {
            if i < p.len() {
                assert(s[i] == p[i]);
            }
        }
        assert(s.last() == (48 + n % 10) as u8);
        assert(digits_value(s) == digits_value(p) * 10 + (n % 10));
        assert((n / 10) * 10 + n % 10 == n);
    } else {
        let s = decimal(n);
        assert(s.drop_last() =~= Seq::<u8>::empty());
        assert(digits_value(s) == digits_value(s.drop_last()) * 10 + n);
    }
}

/// Law: the text UINT/->STRING writes reads back, by STRING/->UINT, as
/// the same number.
pub proof fn law_uint_text_roundtrip(n: nat)
    ensures
        uint_text(decimal(n)) == Some(n),
{
    lemma_decimal(n);
    let s = decimal(n);
    assert(is_digit(s[0]));
}

/// Law: the text INT/->STRING writes reads back, by STRING/->INT, as the
/// same integer.
pub proof fn law_int_text_roundtrip(v: int)
    ensures
        int_text(signed_decimal(v)) == Some(v),
{
    lemma_decimal(abs(v));
    let d = decimal(abs(v));
    assert(is_digit(d[0]));
    if v < 0 {
        let s = seq![45u8] + d;
        assert(s[1] == d[0]);
        assert(s.drop_first() =~= d);
        law_uint_text_roundtrip(abs(v));
    } else {
        law_uint_text_roundtrip(v as nat);
    }
}

proof fn lemma_hex_text_len(b: Seq<u8>)
    ensures
        hex_text(b).len() == 2 * b.len(),
    decreases b.len(),
{
    if b.len() > 0 {
        lemma_hex_text_len(b.drop_last());
    }
}

proof fn lemma_hex_text_concat(a: Seq<u8>, c: Seq<u8>)
    ensures
        hex_text(a + c) == hex_text(a) + hex_text(c),
    decreases c.len(),
{
    if c.len() == 0 {
        assert(a + c =~= a);
        assert(hex_text(a) + hex_text(c) =~= hex_text(a));
    } else {
        lemma_hex_text_concat(a, c.drop_last());
        assert((a + c).drop_last() =~= a + c.drop_last());
        assert((a + c).last() == c.last());
        let t = seq![hex_digit(c.last() as nat / 16), hex_digit(c.last() as nat % 16)];
        assert(hex_text(a) + hex_text(c.drop_last()) + t =~= hex_text(a) + (hex_text(c.drop_last()) + t));
    }
}

proof fn lemma_hex_roundtrip(b: Seq<u8>)
    ensures
        hex_bytes(hex_text(b)) == Some(b),
    decreases b.len(),
{
    if b.len() > 0 {
        let p = b.drop_last();
        let x = b.last();
        lemma_hex_roundtrip(p);
        lemma_hex_text_len(p);
        let h = hex_text(b);
        let hi = x as nat / 16;
        let lo = x as nat % 16;
        assert(h.subrange(0, h.len() - 2) =~= hex_text(p));
        assert(h[h.len() - 2] == hex_digit(hi));
        assert(h[h.len() - 1] == hex_digit(lo));
        assert(hex_value(hex_digit(hi)) == Some(hi));
        assert(hex_value(hex_digit(lo)) == Some(lo));
        assert(p.push((hi * 16 + lo) as u8) =~= b);
    }
}

/// Law: the text UUID/->STRING writes for 16 bytes reads back, by
/// UUID/STRING->, as the same bytes.
pub proof fn law_uuid_text_roundtrip(b: Seq<u8>)
    requires
        b.len() == 16,
    ensures
        uuid_text(hyphenated(b)) == Some(b),
{
    let p0 = b.subrange(0, 4);
    let p1 = b.subrange(4, 6);
    let p2 = b.subrange(6, 8);
    let p3 = b.subrange(8, 10);
    let p4 = b.subrange(10, 16);
    lemma_hex_text_len(p0);
    lemma_hex_text_len(p1);
    lemma_hex_text_len(p2);
    lemma_hex_text_len(p3);
    lemma_hex_text_len(p4);
    let (h0, h1, h2, h3, h4) = (hex_text(p0), hex_text(p1), hex_text(p2), hex_text(p3), hex_text(p4));
    let s = hyphenated(b);
    let dash = seq![45u8];
    assert(s =~= h0 + dash + h1 + dash + h2 + dash + h3 + dash + h4);
    assert(s.len() == 36);
    assert(s[8] == 45);
    assert(s[13] == 45);
    assert(s[18] == 45);
    assert(s[23] == 45);
    let joined = s.subrange(0, 8) + s.subrange(9, 13) + s.subrange(14, 18) + s.subrange(19, 23) + s.subrange(24, 36);
    assert(joined =~= h0 + h1 + h2 + h3 + h4);
    lemma_hex_text_concat(p0, p1);
    lemma_hex_text_concat(p0 + p1, p2);
    lemma_hex_text_concat(p0 + p1 + p2, p3);
    lemma_hex_text_concat(p0 + p1 + p2 + p3, p4);
    assert(p0 + p1 + p2 + p3 + p4 =~= b);
    lemma_hex_roundtrip(b);
}

/// Law: the scheduler takes the environments in turn. A step runs the
/// first one only; the others keep their order and state and move up one;
/// the one that ran either goes to the back of the line, with no answer,
/// or leaves it with the one answer it gets, under its id.
pub proof fn law_round_robin(s: SchedulerModel)
    requires
        s.envs.len() > 0,
    ensures
        ({
            let (s1, resp) = scheduler_step(s);
            let n = s.envs.len();
            &&& s1.envs.subrange(0, n - 1) == s.envs.drop_first()
            &&& match resp {
                None => s1.envs.len() == n && s1.envs[n - 1].0 == s.envs[0].0,
                Some(ResponseModel::EnvTerminated(pid, _)) => s1.envs.len() == n - 1 && pid == s.envs[0].0,
                Some(ResponseModel::EnvFailed(pid, _, _)) => s1.envs.len() == n - 1 && pid == s.envs[0].0,
            }
        }),
{
    let (s1, resp) = scheduler_step(s);
    let n = s.envs.len();
    let rest = s.envs.drop_first();
    assert(rest.subrange(0, n - 1) =~= rest);
    if s1.envs.len() == n {
        assert(s1.envs.subrange(0, n - 1) =~= s1.envs.drop_last());
    }
}

/// Deliveries depend only on the callbacks of the identifiers delivered to.
proof fn lemma_deliveries_same(s: SimpleModel, s2: SimpleModel, ids: Seq<Seq<u8>>, topic: Seq<u8>, body: Seq<u8>)
    requires
        forall|j: int| 0 <= j < ids.len() ==> callback_of(s2, #[trigger] ids[j]) == callback_of(s, ids[j]),
    ensures
        deliveries(s2, ids, topic, body) == deliveries(s, ids, topic, body),
    decreases ids.len(),
{
    if ids.len() > 0 {
        assert forall|j: int| 0 <= j < ids.drop_last().len() implies callback_of(s2, #[trigger] ids.drop_last()[j])
            == callback_of(s, ids.drop_last()[j]) by {
            assert(ids.drop_last()[j] == ids[j]);
        }
        lemma_deliveries_same(s, s2, ids.drop_last(), topic, body);
        assert(callback_of(s2, ids.last()) == callback_of(s, ids.last()));
    }
}

/// Law: subscribing a callback to a topic under a fresh identifier adds
/// exactly one delivery to each later publication on that topic, to that
/// callback, after those the topic already had.
pub proof fn law_subscribe_delivers_once(s: SimpleModel, topic: Seq<u8>, callback: u64, identifier: Seq<u8>, body: Seq<u8>)
    requires
        callback_of(s, identifier) is None,
        !subscribers_of(s, topic).contains(identifier),
    ensures
        ({
            let s1 = subscribe_spec(s, topic, callback, identifier);
            deliveries(s1, subscribers_of(s1, topic), topic, body)
                == deliveries(s, subscribers_of(s, topic), topic, body).push((callback, topic, body))
        }),
{
    let s1 = subscribe_spec(s, topic, callback, identifier);
    let old_ids = subscribers_of(s, topic);
    lemma_find_in(topics(s), topic);
    lemma_find_in(identifiers(s), identifier);
    match find_in(topics(s), topic) {
        Some(k) => {
            assert(topics(s1) =~= topics(s));
        },
        None => {
            assert(topics(s1) =~= topics(s).push(topic));
            assert(topics(s1).drop_last() =~= topics(s));
        },
    }
    assert(subscribers_of(s1, topic) =~= old_ids.push(identifier));
    assert(identifiers(s1) =~= identifiers(s).push(identifier));
    assert(identifiers(s1).drop_last() =~= identifiers(s));
    assert forall|j: int| 0 <= j < old_ids.len() implies callback_of(s1, #[trigger] old_ids[j]) == callback_of(s, old_ids[j]) by {
        assert(old_ids[j] != identifier);
        lemma_find_in(identifiers(s), old_ids[j]);
        match find_in(identifiers(s), old_ids[j]) {
            Some(o) => {
                assert(s1.identifiers[o as int] == s.identifiers[o as int]);
            },
            None => {},
        }
    }
    lemma_deliveries_same(s, s1, old_ids, topic, body);
    assert(callback_of(s1, identifier) == Some(callback));
    let ids = old_ids.push(identifier);
    assert(ids.drop_last() =~= old_ids);
}

/// Law: after an identifier is unsubscribed, a publication on a topic
/// reaches every other subscriber of it just as before, and the
/// unsubscribed one never.
pub proof fn law_unsubscribe_delivers_to_others(s: SimpleModel, identifier: Seq<u8>, others: Seq<Seq<u8>>, topic: Seq<u8>, body: Seq<u8>)
    requires
        broker_wf(s),
        !others.contains(identifier),
    ensures
        deliveries(unsubscribe_spec(s, identifier), others, topic, body) == deliveries(s, others, topic, body),
        deliveries(unsubscribe_spec(s, identifier), seq![identifier], topic, body).len() == 0,
{
    let s2 = unsubscribe_spec(s, identifier);
    assert forall|j: int| 0 <= j < others.len() implies callback_of(s2, #[trigger] others[j]) == callback_of(s, others[j]) by {
        assert(others[j] != identifier);
        law_unsubscribe_only_that_identifier(s, identifier, others[j], topic);
    }
    lemma_deliveries_same(s, s2, others, topic, body);
    assert(callback_of(s2, identifier) is None) by {
        let other = identifier.push(0);
        assert(other.len() != identifier.len());
        law_unsubscribe_only_that_identifier(s, identifier, other, topic);
    }
    let ids = seq![identifier];
    assert(ids.drop_last() =~= Seq::<Seq<u8>>::empty());
    assert(deliveries(s2, ids, topic, body) =~= deliveries(s2, ids.drop_last(), topic, body));
}

/// Law: an allocation hands out a region that fits in its chunk, is now
/// taken, and overlaps no region handed out before; the regions handed out
/// before stay where they were, still taken, and no chunk changes its
/// capacity.
pub proof fn law_allocation_disjoint(
    h: Seq<(usize, usize)>,
    size: usize,
    r: (usize, usize),
    h2: Seq<(usize, usize)>,
    prior: (usize, usize, usize),
)
    requires
        heap_wf(h),
        h.len() >= 1,
        allocated(h, size, r, h2),
        region_taken(h, prior),
    ensures
        heap_wf(h2),
        h2.len() >= h.len(),
        forall|j: int| 0 <= j < h.len() ==> (#[trigger] h2[j]).1 == h[j].1,
        region_taken(h2, (r.0, r.1, size)),
        region_taken(h2, prior),
        r.1 + size <= h2[r.0 as int].1,
        prior.0 != r.0 || prior.1 + prior.2 <= r.1,
{
    if r.0 < h.len() {
        assert forall|j: int| 0 <= j < h2.len() implies (#[trigger] h2[j]).0 <= h2[j].1 by {
            if j != r.0 {
                assert(h2[j] == h[j]);
            }
        }
    } else {
        assert forall|j: int| 0 <= j < h2.len() implies (#[trigger] h2[j]).0 <= h2[j].1 by {
            if j < h.len() {
                assert(h2[j] == h[j]);
            }
        }
    }
}

/// Law: a storage instruction that has no reply from the store yet
/// changes nothing of its environment's values or transactions: when it
/// does not fail, it only leaves its request and schedules itself to run
/// again.
pub proof fn law_storage_waits_for_reply(m: EnvModel, i: Seq<u8>)
    requires
        m.reply is None,
        i != end_name(TxnKind::Write),
        i != end_name(TxnKind::Read),
    ensures
        match storage_module_step(m, i) {
            Some((m2, Ok(()))) => m2 == (EnvModel { program: m.program.push(i), request: m2.request, ..m })
                && m2.request is Some,
            _ => true,
        },
{
}

/// Law: WRITE inside a transaction is refused.
pub proof fn law_nested_write_refused(m: EnvModel)
    requires
        m.reply is None,
        m.txns.len() > 0,
        m.stack.len() > 0,
    ensures
        storage_module_step(m, write_name()) matches Some((_, Err(e))) && e == nested_write_error(),
{
}

/// Law: a value once stored is never replaced: ASSOC only asks the store
/// for a put of a key that has no value, and when the store reports that
/// the key has one, ASSOC fails with a duplicate key error for it.
pub proof fn law_assoc_never_overwrites(m: EnvModel)
    requires
        m.stack.len() >= 2,
    ensures
        m.reply is None ==> (storage_module_step(m, assoc_name()) matches Some((m2, Ok(())))
            ==> m2.request == Some(RequestModel::Put(m.stack[m.stack.len() - 2], m.stack[m.stack.len() - 1]))),
        m.reply == Some(ReplyModel::Exists) ==> (storage_module_step(m, assoc_name()) matches Some((_, Err(e)))
            && e == duplicate_key_error(m.stack[m.stack.len() - 2])),
{
    let n = m.stack.len();
    assert(m.stack.subrange(n - 2, n as int)[0] == m.stack[n - 2]);
    assert(m.stack.subrange(n - 2, n as int)[1] == m.stack[n - 1]);
}

/// Law: the end of a TRY that caught a program error closes every
/// transaction of the environment and asks the store to do the same.
pub proof fn law_caught_error_closes_transactions(m: EnvModel, e: Seq<u8>)
    requires
        m.tracking_errors > 0,
        m.aborting_try.len() > 0,
        m.aborting_try.last() == ErrorModel::ProgramError(e),
    ensures
        crate::scheduler::try_end_step(m).0.txns.len() == 0,
        crate::scheduler::try_end_step(m).0.request == Some(RequestModel::EndAll),
{
}

/// Whether no two environments in line share an id.
pub open spec fn ids_distinct(envs: Seq<(u64, EnvModel)>) -> bool {
    forall|a: int, b: int| 0 <= a < b < envs.len() ==> #[trigger] envs[a].0 != #[trigger] envs[b].0
}

/// Law: with distinct ids in line, a step keeps them distinct, and an
/// environment that gets its answer is out of line for good: each program
/// is answered once.
pub proof fn law_answered_once(s: SchedulerModel)
    requires
        ids_distinct(s.envs),
    ensures
        ids_distinct(scheduler_step(s).0.envs),
        match scheduler_step(s).1 {
            Some(ResponseModel::EnvTerminated(pid, _)) => forall|j: int|
                0 <= j < scheduler_step(s).0.envs.len() ==> (#[trigger] scheduler_step(s).0.envs[j]).0 != pid,
            Some(ResponseModel::EnvFailed(pid, _, _)) => forall|j: int|
                0 <= j < scheduler_step(s).0.envs.len() ==> (#[trigger] scheduler_step(s).0.envs[j]).0 != pid,
            None => true,
        },
{
    if s.envs.len() > 0 {
        law_round_robin(s);
        let s1 = scheduler_step(s).0;
        let n = s.envs.len();
        let rest = s.envs.drop_first();
        assert forall|j: int| 0 <= j < rest.len() implies (#[trigger] rest[j]).0 != s.envs[0].0 by {
            assert(rest[j] == s.envs[j + 1]);
            assert(s.envs[0].0 != s.envs[j + 1].0);
        }
        assert forall|a: int, b: int| 0 <= a < b < s1.envs.len() implies #[trigger] s1.envs[a].0 != #[trigger] s1.envs[b].0 by {
            if b < n - 1 {
                assert(s1.envs[a] == s1.envs.subrange(0, n - 1)[a]);
                assert(s1.envs[b] == s1.envs.subrange(0, n - 1)[b]);
                assert(rest[a] == s.envs[a + 1]);
                assert(rest[b] == s.envs[b + 1]);
            } else {
                assert(s1.envs[a] == s1.envs.subrange(0, n - 1)[a]);
                assert(rest[a] == s.envs[a + 1]);
            }
        }
        assert forall|j: int| 0 <= j < s1.envs.len() && s1.envs.len() == n - 1 implies (#[trigger] s1.envs[j]).0
            != s.envs[0].0 by {
            assert(s1.envs[j] == s1.envs.subrange(0, n - 1)[j]);
        }
    }
}

/// Law: a Queue made by `new(max)` and then given any sequence of push and
/// pop calls holds as many elements as the pushes that returned `Ok` less
/// the pops that returned `Some`, and never more than `max`.
pub proof fn law_queue_length<T>(max: nat, calls: Seq<crate::queue::Call<T>>)
    ensures
        ({
            let (q, pushed, popped) = crate::queue::after_calls(Seq::<T>::empty(), max, calls);
            &&& q.len() + popped == pushed
            &&& q.len() <= max
        }),
    decreases calls.len(),
{
    if calls.len() > 0 {
        law_queue_length(max, calls.drop_last());
    }
}

/// Law: a TxnStack made by `new(max)` and then given any sequence of push and
/// pop calls holds as many elements as the pushes that returned `Ok` less
/// the pops that returned `Some`, and never more than `max`.
pub proof fn law_txn_stack_length<T>(max: nat, calls: Seq<crate::txn_stack::Call<T>>)
    ensures
        ({
            let (q, pushed, popped) = crate::txn_stack::after_calls(Seq::<T>::empty(), max, calls);
            &&& q.len() + popped == pushed
            &&& q.len() <= max
        }),
    decreases calls.len(),
{
    if calls.len() > 0 {
        law_txn_stack_length(max, calls.drop_last());
    }
}

/// Pushes and pops of values change the current stack only.
proof fn lemma_value_calls_keep_rest(m: EnvModel, calls: Seq<crate::env::ValueCall>)
    ensures
        crate::env::after_value_calls(m, calls) == (EnvModel { stack: crate::env::after_value_calls(m, calls).stack, ..m }),
    decreases calls.len(),
{
    if calls.len() > 0 {
        lemma_value_calls_keep_rest(m, calls.drop_last());
    }
}

/// Law: `pop_stack` after `push_stack` gives back the stack that was set
/// aside, whatever values were pushed and popped in between; with no stack
/// set aside, `pop_stack` answers `false` and changes nothing.
pub proof fn law_pop_stack_restores(m: EnvModel, calls: Seq<crate::env::ValueCall>)
    ensures
        crate::env::pop_stack_spec(crate::env::after_value_calls(crate::env::push_stack_spec(m), calls)) == (true, m),
        m.stacks.len() == 0 ==> crate::env::pop_stack_spec(m) == (false, m),
{
    let m1 = crate::env::push_stack_spec(m);
    lemma_value_calls_keep_rest(m1, calls);
    assert(m1.stacks.drop_last() =~= m.stacks);
}

/// The id a response is about.
pub open spec fn response_pid(r: ResponseModel) -> u64 {
    match r {
        ResponseModel::EnvTerminated(pid, _) => pid,
        ResponseModel::EnvFailed(pid, _, _) => pid,
    }
}

/// The scheduler after `k` steps, with the responses they gave, in order.
pub open spec fn run_steps(s: SchedulerModel, k: nat) -> (SchedulerModel, Seq<ResponseModel>)
    decreases k,
{
    if k == 0 {
        (s, Seq::empty())
    } else {
        let (s1, rs) = run_steps(s, (k - 1) as nat);
        let (s2, r) = scheduler_step(s1);
        (
            s2,
            match r {
                Some(x) => rs.push(x),
                None => rs,
            },
        )
    }
}

/// Whether an environment with the id waits in line.
pub open spec fn has_id(envs: Seq<(u64, EnvModel)>, pid: u64) -> bool {
    exists|j: int| 0 <= j < envs.len() && #[trigger] envs[j].0 == pid
}

/// What one step does to the ids in line: a response takes out the id of
/// the first environment, and nothing else changes.
proof fn lemma_step_ids(s: SchedulerModel)
    requires
        ids_distinct(s.envs),
    ensures
        ids_distinct(scheduler_step(s).0.envs),
        match scheduler_step(s).1 {
            None => forall|p: u64| has_id(scheduler_step(s).0.envs, p) == has_id(s.envs, p),
            Some(x) => {
                &&& s.envs.len() > 0
                &&& response_pid(x) == s.envs[0].0
                &&& !has_id(scheduler_step(s).0.envs, response_pid(x))
                &&& forall|p: u64| p != response_pid(x) ==> has_id(scheduler_step(s).0.envs, p) == has_id(s.envs, p)
            },
        },
{
    law_answered_once(s);
    let (s1, r) = scheduler_step(s);
    if s.envs.len() > 0 {
        law_round_robin(s);
        let n = s.envs.len();
        let rest = s.envs.drop_first();
        assert forall|p: u64| p != s.envs[0].0 implies has_id(s1.envs, p) == has_id(s.envs, p) by {
            if has_id(s.envs, p) {
                let j = choose|j: int| 0 <= j < s.envs.len() && #[trigger] s.envs[j].0 == p;
                assert(j > 0);
                assert(rest[j - 1] == s.envs[j]);
                assert(s1.envs.subrange(0, n - 1)[j - 1] == s1.envs[j - 1]);
            }
            if has_id(s1.envs, p) {
                let j = choose|j: int| 0 <= j < s1.envs.len() && #[trigger] s1.envs[j].0 == p;
                if j < n - 1 {
                    assert(s1.envs.subrange(0, n - 1)[j] == s1.envs[j]);
                    assert(rest[j] == s.envs[j + 1]);
                }
            }
        }
        match r {
            None => {
                assert(s1.envs[n - 1].0 == s.envs[0].0);
                assert(has_id(s1.envs, s.envs[0].0));
                assert(has_id(s.envs, s.envs[0].0));
            },
            Some(x) => {
                if has_id(s1.envs, response_pid(x)) {
                    let j = choose|j: int| 0 <= j < s1.envs.len() && #[trigger] s1.envs[j].0 == response_pid(x);
                }
            },
        }
    }
}

/// Law: with distinct ids in line, over any number of steps each
/// environment gets at most one response; a response is about an
/// environment that was in line and is not in line any more; and every
/// environment that was in line either still waits or got its response.
/// So each program that ends is answered exactly once.
pub proof fn law_each_answered_once(s: SchedulerModel, k: nat)
    requires
        ids_distinct(s.envs),
    ensures
        ({
            let (sk, rs) = run_steps(s, k);
            &&& ids_distinct(sk.envs)
            &&& forall|a: int, b: int| 0 <= a < b < rs.len() ==> response_pid(#[trigger] rs[a]) != response_pid(#[trigger] rs[b])
            &&& forall|a: int| 0 <= a < rs.len() ==> has_id(s.envs, response_pid(#[trigger] rs[a])) && !has_id(sk.envs, response_pid(rs[a]))
            &&& forall|p: u64| #[trigger] has_id(s.envs, p) == (has_id(sk.envs, p) || exists|a: int| 0 <= a < rs.len() && response_pid(#[trigger] rs[a]) == p)
        }),
    decreases k,
{
    if k > 0 {
        law_each_answered_once(s, (k - 1) as nat);
        let (s1, rs) = run_steps(s, (k - 1) as nat);
        lemma_step_ids(s1);
        let (s2, r) = scheduler_step(s1);
        match r {
            None => {
                assert(run_steps(s, k) == (s2, rs));
            },
            Some(x) => {
                let rs2 = rs.push(x);
                assert(run_steps(s, k) == (s2, rs2));
                let px = response_pid(x);
                assert(has_id(s1.envs, px)) by {
                    assert(s1.envs[0].0 == px);
                }
                assert forall|a: int, b: int| 0 <= a < b < rs2.len() implies response_pid(#[trigger] rs2[a]) != response_pid(#[trigger] rs2[b]) by {
                    if b == rs.len() {
                        assert(rs2[a] == rs[a]);
                        assert(!has_id(s1.envs, response_pid(rs[a])));
                    } else {
                        assert(rs2[a] == rs[a]);
                        assert(rs2[b] == rs[b]);
                    }
                }
                assert forall|a: int| 0 <= a < rs2.len() implies has_id(s.envs, response_pid(#[trigger] rs2[a])) && !has_id(s2.envs, response_pid(rs2[a])) by {
                    if a < rs.len() {
                        assert(rs2[a] == rs[a]);
                        assert(!has_id(s1.envs, response_pid(rs[a])));
                    } else {
                        assert(rs2[a] == x);
                    }
                }
                assert forall|p: u64| #[trigger] has_id(s.envs, p) == (has_id(s2.envs, p) || exists|a: int| 0 <= a < rs2.len() && response_pid(#[trigger] rs2[a]) == p) by {
                    if exists|a: int| 0 <= a < rs.len() && response_pid(#[trigger] rs[a]) == p {
                        let a = choose|a: int| 0 <= a < rs.len() && response_pid(#[trigger] rs[a]) == p;
                        assert(rs2[a] == rs[a]);
                    }
                    if exists|a: int| 0 <= a < rs2.len() && response_pid(#[trigger] rs2[a]) == p {
                        let a = choose|a: int| 0 <= a < rs2.len() && response_pid(#[trigger] rs2[a]) == p;
                        if a < rs.len() {
                            assert(rs2[a] == rs[a]);
                        } else {
                            assert(rs2[a] == x);
                        }
                    }
                    if p == px {
                        assert(rs2[rs.len() as int] == x);
                    }
                }
            },
        }
    }
}

/// Law: a step answers `EnvFailed` exactly when the program of the first
/// environment met an error, and that happens only when no TRY runs: the
/// error escaped every TRY.
pub proof fn law_failed_when_error_escapes(s: SchedulerModel)
    requires
        s.envs.len() > 0,
    ensures
        (scheduler_step(s).1 matches Some(ResponseModel::EnvFailed(_, _, _)))
            == (pass_step(s.envs[0].1, s.dispatcher).2 is Err),
        pass_step(s.envs[0].1, s.dispatcher).2 is Err ==> s.envs[0].1.tracking_errors == 0,
{
    if s.envs[0].1.tracking_errors > 0 {
        law_no_failure_while_trying(s.envs[0].1, s.dispatcher);
    }
}

/// The broker after a sequence of messages (a shutdown changes nothing).
pub open spec fn broker_after(s: SimpleModel, msgs: Seq<ControlModel>) -> SimpleModel
    decreases msgs.len(),
{
    if msgs.len() == 0 {
        s
    } else {
        let s1 = broker_after(s, msgs.drop_last());
        match simple_step(s1, msgs.last()) {
            Some((s2, _)) => s2,
            None => s1,
        }
    }
}

/// How many times an identifier occurs in a list.
pub open spec fn occurrences(ids: Seq<Seq<u8>>, id: Seq<u8>) -> nat
    decreases ids.len(),
{
    if ids.len() == 0 {
        0
    } else {
        occurrences(ids.drop_last(), id) + if ids.last() == id {
            1nat
        } else {
            0nat
        }
    }
}

/// How many deliveries go to a callback.
pub open spec fn count_to(ds: Seq<(u64, Seq<u8>, Seq<u8>)>, callback: u64) -> nat
    decreases ds.len(),
{
    if ds.len() == 0 {
        0
    } else {
        count_to(ds.drop_last(), callback) + if ds.last().0 == callback {
            1nat
        } else {
            0nat
        }
    }
}

/// Whether messages leave an identifier and a callback alone: they neither
/// subscribe under the identifier nor subscribe the callback, nor
/// unsubscribe the identifier, nor shut the broker down.
pub open spec fn leaves_alone(msgs: Seq<ControlModel>, id: Seq<u8>, callback: u64) -> bool {
    forall|j: int|
        0 <= j < msgs.len() ==> match #[trigger] msgs[j] {
            ControlModel::Subscribe(_, c, x) => x != id && c != callback,
            ControlModel::Unsubscribe(x) => x != id,
            ControlModel::Shutdown => false,
            ControlModel::Publish(_, _) => true,
        }
}

/// Whether no identifier but `id` has the callback.
pub open spec fn only_id_has(s: SimpleModel, id: Seq<u8>, callback: u64) -> bool {
    forall|x: Seq<u8>| callback_of(s, x) == Some(callback) ==> x == id
}

proof fn lemma_broker_after_concat(s: SimpleModel, a: Seq<ControlModel>, b: Seq<ControlModel>)
    ensures
        broker_after(s, a + b) == broker_after(broker_after(s, a), b),
    decreases b.len(),
{
    if b.len() == 0 {
        assert(a + b =~= a);
    } else {
        lemma_broker_after_concat(s, a, b.drop_last());
        assert((a + b).drop_last() =~= a + b.drop_last());
        assert((a + b).last() == b.last());
    }
}

proof fn lemma_subscribe_callback(s: SimpleModel, topic: Seq<u8>, callback: u64, id: Seq<u8>, x: Seq<u8>)
    ensures
        callback_of(subscribe_spec(s, topic, callback, id), x) == if x == id {
            Some(callback)
        } else {
            callback_of(s, x)
        },
{
    let s1 = subscribe_spec(s, topic, callback, id);
    lemma_find_in(identifiers(s), id);
    lemma_find_in(identifiers(s), x);
    match find_in(identifiers(s), id) {
        Some(k) => {
            assert(identifiers(s1) =~= identifiers(s));
            if x != id {
                match find_in(identifiers(s), x) {
                    Some(j) => {
                        assert(j != k);
                        assert(s1.identifiers[j as int] == s.identifiers[j as int]);
                    },
                    None => {},
                }
            }
        },
        None => {
            assert(identifiers(s1) =~= identifiers(s).push(id));
            assert(identifiers(s1).drop_last() =~= identifiers(s));
            if x != id {
                match find_in(identifiers(s), x) {
                    Some(j) => {
                        assert(s1.identifiers[j as int] == s.identifiers[j as int]);
                    },
                    None => {},
                }
            }
        },
    }
}

proof fn lemma_subscribe_subscribers(s: SimpleModel, t: Seq<u8>, callback: u64, id: Seq<u8>, topic: Seq<u8>)
    ensures
        subscribers_of(subscribe_spec(s, t, callback, id), topic) == if t == topic {
            subscribers_of(s, topic).push(id)
        } else {
            subscribers_of(s, topic)
        },
{
    if t != topic {
        law_subscribe_leaves_other_topics(s, t, callback, id, topic);
    } else {
        let s1 = subscribe_spec(s, t, callback, id);
        lemma_find_in(topics(s), topic);
        match find_in(topics(s), topic) {
            Some(k) => {
                assert(topics(s1) =~= topics(s));
            },
            None => {
                assert(topics(s1) =~= topics(s).push(topic));
                assert(s1.subscriptions.last().1 =~= Seq::<Seq<u8>>::empty().push(id));
            },
        }
    }
}

proof fn lemma_occurrences_push(ids: Seq<Seq<u8>>, x: Seq<u8>, id: Seq<u8>)
    ensures
        occurrences(ids.push(x), id) == occurrences(ids, id) + if x == id {
            1nat
        } else {
            0nat
        },
{
    assert(ids.push(x).drop_last() =~= ids);
}

/// What messages that leave an identifier and a callback alone keep: the
/// identifier's callback, how often it is subscribed to a topic, that no
/// other identifier has the callback, and the broker's well-formedness.
proof fn lemma_left_alone(s: SimpleModel, msgs: Seq<ControlModel>, id: Seq<u8>, callback: u64, topic: Seq<u8>)
    requires
        broker_wf(s),
        leaves_alone(msgs, id, callback),
    ensures
        broker_wf(broker_after(s, msgs)),
        callback_of(broker_after(s, msgs), id) == callback_of(s, id),
        occurrences(subscribers_of(broker_after(s, msgs), topic), id) == occurrences(subscribers_of(s, topic), id),
        only_id_has(s, id, callback) ==> only_id_has(broker_after(s, msgs), id, callback),
    decreases msgs.len(),
{
    if msgs.len() > 0 {
        let rest = msgs.drop_last();
        assert forall|j: int| 0 <= j < rest.len() implies match #[trigger] rest[j] {
            ControlModel::Subscribe(_, c, x) => x != id && c != callback,
            ControlModel::Unsubscribe(x) => x != id,
            ControlModel::Shutdown => false,
            ControlModel::Publish(_, _) => true,
        } by {
            assert(rest[j] == msgs[j]);
        }
        lemma_left_alone(s, rest, id, callback, topic);
        let s1 = broker_after(s, rest);
        let msg = msgs.last();
        assert(msg == msgs[msgs.len() - 1]);
        law_broker_wf_kept(s1, msg);
        match msg {
            ControlModel::Subscribe(t, c, x) => {
                lemma_subscribe_callback(s1, t, c, x, id);
                lemma_subscribe_subscribers(s1, t, c, x, topic);
                if t == topic {
                    lemma_occurrences_push(subscribers_of(s1, topic), x, id);
                }
                if only_id_has(s, id, callback) {
                    assert forall|y: Seq<u8>| callback_of(subscribe_spec(s1, t, c, x), y) == Some(callback) implies y == id by {
                        lemma_subscribe_callback(s1, t, c, x, y);
                    }
                }
            },
            ControlModel::Unsubscribe(x) => {
                law_unsubscribe_only_that_identifier(s1, x, id, topic);
                if only_id_has(s, id, callback) {
                    assert forall|y: Seq<u8>| callback_of(unsubscribe_spec(s1, x), y) == Some(callback) implies y == id by {
                        if y != x {
                            law_unsubscribe_only_that_identifier(s1, x, y, topic);
                        } else {
                            let z = x.push(0);
                            law_unsubscribe_only_that_identifier(s1, x, z, topic);
                        }
                    }
                }
            },
            _ => {},
        }
    }
}

/// The deliveries to a callback that only `id` has: one for each time `id`
/// is among the identifiers delivered to, if it has the callback.
proof fn lemma_count_deliveries(s: SimpleModel, ids: Seq<Seq<u8>>, topic: Seq<u8>, body: Seq<u8>, id: Seq<u8>, callback: u64)
    requires
        only_id_has(s, id, callback),
    ensures
        count_to(deliveries(s, ids, topic, body), callback) == if callback_of(s, id) == Some(callback) {
            occurrences(ids, id)
        } else {
            0
        },
    decreases ids.len(),
{
    if ids.len() > 0 {
        lemma_count_deliveries(s, ids.drop_last(), topic, body, id, callback);
        let prev = deliveries(s, ids.drop_last(), topic, body);
        match callback_of(s, ids.last()) {
            Some(cb) => {
                assert(deliveries(s, ids, topic, body) =~= prev.push((cb, topic, body)));
                assert(prev.push((cb, topic, body)).drop_last() =~= prev);
            },
            None => {
                assert(deliveries(s, ids, topic, body) =~= prev);
            },
        }
    }
}

/// Law: once a callback is subscribed to a topic under a fresh identifier,
/// a later publication on the topic calls it exactly once, whatever other
/// messages came between that leave the identifier and the callback alone.
pub proof fn law_subscriber_called_once(
    s: SimpleModel,
    topic: Seq<u8>,
    callback: u64,
    id: Seq<u8>,
    mid: Seq<ControlModel>,
    body: Seq<u8>,
)
    requires
        broker_wf(s),
        callback_of(s, id) is None,
        occurrences(subscribers_of(s, topic), id) == 0,
        forall|x: Seq<u8>| callback_of(s, x) != Some(callback),
        leaves_alone(mid, id, callback),
    ensures
        ({
            let s1 = broker_after(s, seq![ControlModel::Subscribe(topic, callback, id)] + mid);
            simple_step(s1, ControlModel::Publish(topic, body)) matches Some((s2, ds)) && s2 == s1
                && count_to(ds, callback) == 1
        }),
{
    let first = seq![ControlModel::Subscribe(topic, callback, id)];
    lemma_broker_after_concat(s, first, mid);
    assert(first.drop_last() =~= Seq::<ControlModel>::empty());
    assert(broker_after(s, first.drop_last()) == s);
    assert(first.last() == ControlModel::Subscribe(topic, callback, id));
    let s0 = broker_after(s, first);
    assert(s0 == subscribe_spec(s, topic, callback, id));
    law_broker_wf_kept(s, ControlModel::Subscribe(topic, callback, id));
    lemma_subscribe_callback(s, topic, callback, id, id);
    lemma_subscribe_subscribers(s, topic, callback, id, topic);
    lemma_occurrences_push(subscribers_of(s, topic), id, id);
    assert forall|y: Seq<u8>| callback_of(s0, y) == Some(callback) implies y == id by {
        lemma_subscribe_callback(s, topic, callback, id, y);
    }
    lemma_left_alone(s0, mid, id, callback, topic);
    let s1 = broker_after(s0, mid);
    lemma_count_deliveries(s1, subscribers_of(s1, topic), topic, body, id, callback);
}

/// Law: once the identifier a callback was subscribed under is
/// unsubscribed, a later publication on the topic never calls the
/// callback, whatever other messages came between; every other identifier
/// subscribed to the topic that still has a callback is delivered to.
pub proof fn law_unsubscribed_never_called(
    s: SimpleModel,
    topic: Seq<u8>,
    callback: u64,
    id: Seq<u8>,
    mid: Seq<ControlModel>,
    after: Seq<ControlModel>,
    body: Seq<u8>,
)
    requires
        broker_wf(s),
        callback_of(s, id) is None,
        forall|x: Seq<u8>| callback_of(s, x) != Some(callback),
        leaves_alone(mid, id, callback),
        leaves_alone(after, id, callback),
    ensures
        ({
            let s1 = broker_after(
                s,
                seq![ControlModel::Subscribe(topic, callback, id)] + mid + seq![ControlModel::Unsubscribe(id)] + after,
            );
            let ds = deliveries(s1, subscribers_of(s1, topic), topic, body);
            &&& simple_step(s1, ControlModel::Publish(topic, body)) == Some((s1, ds))
            &&& count_to(ds, callback) == 0
        }),
{
    let first = seq![ControlModel::Subscribe(topic, callback, id)];
    let unsub = seq![ControlModel::Unsubscribe(id)];
    lemma_broker_after_concat(s, first, mid);
    lemma_broker_after_concat(s, first + mid, unsub);
    lemma_broker_after_concat(s, first + mid + unsub, after);
    assert(first.drop_last() =~= Seq::<ControlModel>::empty());
    assert(unsub.drop_last() =~= Seq::<ControlModel>::empty());
    assert(broker_after(s, first.drop_last()) == s);
    assert(first.last() == ControlModel::Subscribe(topic, callback, id));
    let s0 = broker_after(s, first);
    assert(s0 == subscribe_spec(s, topic, callback, id));
    law_broker_wf_kept(s, ControlModel::Subscribe(topic, callback, id));
    assert forall|y: Seq<u8>| callback_of(s0, y) == Some(callback) implies y == id by {
        lemma_subscribe_callback(s, topic, callback, id, y);
    }
    lemma_left_alone(s0, mid, id, callback, topic);
    let sm = broker_after(s0, mid);
    let su = unsubscribe_spec(sm, id);
    assert(broker_after(sm, unsub.drop_last()) == sm);
    assert(unsub.last() == ControlModel::Unsubscribe(id));
    assert(broker_after(sm, unsub) == su);
    law_broker_wf_kept(sm, ControlModel::Unsubscribe(id));
    assert(id.push(0).len() != id.len());
    law_unsubscribe_only_that_identifier(sm, id, id.push(0), topic);
    assert forall|y: Seq<u8>| callback_of(su, y) == Some(callback) implies y == id by {
        if y != id {
            law_unsubscribe_only_that_identifier(sm, id, y, topic);
        }
    }
    lemma_left_alone(su, after, id, callback, topic);
    let s1 = broker_after(su, after);
    lemma_count_deliveries(s1, subscribers_of(s1, topic), topic, body, id, callback);
}

/// Law: a publication is delivered only to callbacks of identifiers
/// subscribed to its topic (so a topic nobody subscribed to calls
/// nothing), and to each of them that still has a callback.
pub proof fn law_publish_reaches_subscribers(s: SimpleModel, ids: Seq<Seq<u8>>, topic: Seq<u8>, body: Seq<u8>)
    ensures
        forall|k: int| #![trigger deliveries(s, ids, topic, body)[k]] 0 <= k < deliveries(s, ids, topic, body).len() ==> exists|x: int|
            0 <= x < ids.len() && callback_of(s, #[trigger] ids[x]) == Some(deliveries(s, ids, topic, body)[k].0)
                && deliveries(s, ids, topic, body)[k].1 == topic && deliveries(s, ids, topic, body)[k].2 == body,
        forall|x: int| 0 <= x < ids.len() && #[trigger] callback_of(s, ids[x]) is Some ==> deliveries(s, ids, topic, body).contains(
            (callback_of(s, ids[x])->0, topic, body),
        ),
    decreases ids.len(),
{
    if ids.len() > 0 {
        let rest = ids.drop_last();
        law_publish_reaches_subscribers(s, rest, topic, body);
        let prev = deliveries(s, rest, topic, body);
        let ds = deliveries(s, ids, topic, body);
        assert forall|x: int| 0 <= x < rest.len() implies rest[x] == ids[x] by {}
        match callback_of(s, ids.last()) {
            Some(cb) => {
                assert(ds =~= prev.push((cb, topic, body)));
                assert forall|k: int| #![trigger ds[k]] 0 <= k < ds.len() implies exists|x: int|
                    0 <= x < ids.len() && callback_of(s, #[trigger] ids[x]) == Some(ds[k].0) && ds[k].1 == topic && ds[k].2 == body by {
                    if k < prev.len() {
                        let x = choose|x: int| 0 <= x < rest.len() && callback_of(s, #[trigger] rest[x]) == Some(prev[k].0)
                            && prev[k].1 == topic && prev[k].2 == body;
                        assert(rest[x] == ids[x]);
                    } else {
                        assert(ids[ids.len() - 1] == ids.last());
                    }
                }
                assert forall|x: int| 0 <= x < ids.len() && #[trigger] callback_of(s, ids[x]) is Some implies ds.contains(
                    (callback_of(s, ids[x])->0, topic, body)) by {
                    if x < rest.len() {
                        assert(rest[x] == ids[x]);
                        let k = choose|k: int| 0 <= k < prev.len() && prev[k] == (callback_of(s, rest[x])->0, topic, body);
                        assert(ds[k] == prev[k]);
                    } else {
                        assert(ds[prev.len() as int] == (cb, topic, body));
                    }
                }
            },
            None => {
                assert(ds =~= prev);
                assert forall|x: int| 0 <= x < ids.len() && #[trigger] callback_of(s, ids[x]) is Some implies ds.contains(
                    (callback_of(s, ids[x])->0, topic, body)) by {
                    if x < rest.len() {
                        assert(rest[x] == ids[x]);
                    }
                }
                assert forall|k: int| #![trigger ds[k]] 0 <= k < ds.len() implies exists|x: int|
                    0 <= x < ids.len() && callback_of(s, #[trigger] ids[x]) == Some(ds[k].0) && ds[k].1 == topic && ds[k].2 == body by {
                    let x = choose|x: int| 0 <= x < rest.len() && callback_of(s, #[trigger] rest[x]) == Some(prev[k].0)
                        && prev[k].1 == topic && prev[k].2 == body;
                    assert(rest[x] == ids[x]);
                }
            },
        }
    }
}

/// Law: the text INT8/->STRING (and the like) writes for a value reads
/// back, by STRING/->INT8 (and the like), as the same value, and the bytes
/// STRING/->INT8 writes for a value in range are read back as it by the
/// fixed-size instructions.
pub proof fn law_sized_text_roundtrip(v: int, bytes: nat, signed: bool)
    requires
        bytes == 1 || bytes == 2 || bytes == 4 || bytes == 8,
        crate::mod_string::sized_low(bytes, signed) <= v < crate::mod_string::sized_high(bytes, signed),
    ensures
        crate::mod_string::plain_int_text(signed_decimal(v), signed) == Some(v),
        crate::mod_string::sized_value(crate::mod_string::pack_sized(v, bytes, signed), bytes, signed) == v,
{
    lemma_decimal(abs(v));
    let d = decimal(abs(v));
    assert(is_digit(d[0]));
    assert(crate::mod_string::all_digits(d));
    if v < 0 {
        let t = seq![45u8] + d;
        assert(t[0] == 45u8);
        assert(t.drop_first() =~= d);
    }
    crate::mod_numbers::lemma_pow256_small();
    let off: int = if signed { crate::mod_numbers::sign_offset(bytes) as int } else { 0 };
    let p = crate::mod_string::pack_sized(v, bytes, signed);
    crate::mod_numbers::lemma_fixed_be((v + off) as nat, bytes);
    assert(p.subrange(0, bytes as int) =~= p);
}

} // verus!
