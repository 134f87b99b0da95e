//! What the instructions do, stated value by value: the stack an
//! instruction leaves for every stack it starts from.
use vstd::prelude::*;
use crate::env::EnvModel;
use crate::instructions::{stack_bool, stack_false, stack_true};
use crate::mod_binaries::{concat_step, equal_step, gt_step, length_step, lex_less, lt_step};
use crate::bignum::canonical_be;
use crate::mod_core::{eval_step, if_step, ifelse_step, logic_step, not_step, schedule_times, times_step};
use crate::mod_binaries::{pad_step, slice_step};
use crate::mod_stack::{depth_step, from_back_queue_step, from_front_queue_step, queue_empty_step, to_back_queue_step, to_front_queue_step};
use crate::mod_numbers::{
    int_add_step,
    int_compare_step,
    int_sub_step,
    int_to_uint_step,
    pack_int,
    uint_add_step,
    uint_compare_step,
    uint_sub_step,
    uint_to_int_step,
};
use crate::script::{ErrorModel, invalid_value_error};
use crate::mod_hash::{
    hash_module_step,
    max_hash_input,
    sha1_digest,
    sha224_digest,
    sha256_digest,
    sha384_digest,
    sha512_digest,
    sha512_224_digest,
    sha512_256_digest,
};
use crate::mod_stack::{
    drop_step,
    dup_step,
    over_step,
    rot_step,
    swap_step,
    three_drop_step,
    three_dup_step,
    two_over_step,
    two_rot_step,
    two_swap_step,
};

verus! {

/// The environment with a stack, the top last.
pub open spec fn on_stack(m: EnvModel, s: Seq<Seq<u8>>) -> EnvModel {
    EnvModel { stack: s, ..m }
}

/// Law: DROP takes the top value away and leaves the rest.
pub proof fn law_drop(m: EnvModel, s: Seq<Seq<u8>>, a: Seq<u8>)
    ensures
        drop_step(on_stack(m, s.push(a))) == (on_stack(m, s), Ok::<(), crate::script::ErrorModel>(())),
{
    let t = s.push(a);
    assert(t.subrange(0, s.len() as int) =~= s);
    assert(s + Seq::<Seq<u8>>::empty() =~= s);
}

/// Law: DUP pushes a copy of the top value.
pub proof fn law_dup(m: EnvModel, s: Seq<Seq<u8>>, a: Seq<u8>)
    ensures
        dup_step(on_stack(m, s.push(a))) == (on_stack(m, s.push(a).push(a)), Ok::<(), crate::script::ErrorModel>(())),
{
    let t = s.push(a);
    let n = s.len() as int;
    assert(t.subrange(0, n) =~= s);
    assert(t.subrange(n, n + 1) =~= seq![a]);
    let p = crate::mod_stack::pick(t.subrange(n, n + 1), seq![0usize, 0]);
    assert(p =~= seq![a, a]);
    assert(s + p =~= s.push(a).push(a));
}

/// Law: 3DROP takes the top three values away.
pub proof fn law_three_drop(m: EnvModel, s: Seq<Seq<u8>>, a: Seq<u8>, b: Seq<u8>, c: Seq<u8>)
    ensures
        three_drop_step(on_stack(m, s.push(a).push(b).push(c))) == (on_stack(m, s), Ok::<(), crate::script::ErrorModel>(())),
{
    let t = s.push(a).push(b).push(c);
    assert(t.subrange(0, s.len() as int) =~= s);
    assert(s + Seq::<Seq<u8>>::empty() =~= s);
}

/// Law: 3DUP repeats the top three values, in their order: `a b c` becomes
/// `a b c a b c`.
pub proof fn law_three_dup(m: EnvModel, s: Seq<Seq<u8>>, a: Seq<u8>, b: Seq<u8>, c: Seq<u8>)
    ensures
        three_dup_step(on_stack(m, s.push(a).push(b).push(c)))
            == (on_stack(m, s.push(a).push(b).push(c).push(a).push(b).push(c)), Ok::<(), crate::script::ErrorModel>(())),
{
    let t = s.push(a).push(b).push(c);
    let n = s.len() as int;
    assert(t.subrange(0, n) =~= s);
    assert(t.subrange(n, n + 3) =~= seq![a, b, c]);
    let p = crate::mod_stack::pick(seq![a, b, c], seq![0usize, 1, 2, 0, 1, 2]);
    assert(p =~= seq![a, b, c, a, b, c]);
    assert(s + p =~= s.push(a).push(b).push(c).push(a).push(b).push(c));
}

/// Law: SWAP exchanges the top two values.
pub proof fn law_swap(m: EnvModel, s: Seq<Seq<u8>>, a: Seq<u8>, b: Seq<u8>)
    ensures
        swap_step(on_stack(m, s.push(a).push(b))) == (on_stack(m, s.push(b).push(a)), Ok::<(), crate::script::ErrorModel>(())),
{
    let t = s.push(a).push(b);
    let n = s.len() as int;
    assert(t.subrange(0, n) =~= s);
    assert(t.subrange(n, n + 2) =~= seq![a, b]);
    let p = crate::mod_stack::pick(seq![a, b], seq![1usize, 0]);
    assert(p =~= seq![b, a]);
    assert(s + p =~= s.push(b).push(a));
}

/// Law: 2SWAP exchanges the top two pairs: `a b c d` becomes `c d a b`.
pub proof fn law_two_swap(m: EnvModel, s: Seq<Seq<u8>>, a: Seq<u8>, b: Seq<u8>, c: Seq<u8>, d: Seq<u8>)
    ensures
        two_swap_step(on_stack(m, s.push(a).push(b).push(c).push(d)))
            == (on_stack(m, s.push(c).push(d).push(a).push(b)), Ok::<(), crate::script::ErrorModel>(())),
{
    let t = s.push(a).push(b).push(c).push(d);
    let n = s.len() as int;
    assert(t.subrange(0, n) =~= s);
    assert(t.subrange(n, n + 4) =~= seq![a, b, c, d]);
    let p = crate::mod_stack::pick(seq![a, b, c, d], seq![2usize, 3, 0, 1]);
    assert(p =~= seq![c, d, a, b]);
    assert(s + p =~= s.push(c).push(d).push(a).push(b));
}

/// Law: ROT brings the third value to the top: `a b c` becomes `b c a`.
pub proof fn law_rot(m: EnvModel, s: Seq<Seq<u8>>, a: Seq<u8>, b: Seq<u8>, c: Seq<u8>)
    ensures
        rot_step(on_stack(m, s.push(a).push(b).push(c))) == (on_stack(m, s.push(b).push(c).push(a)), Ok::<(), crate::script::ErrorModel>(())),
{
    let t = s.push(a).push(b).push(c);
    let n = s.len() as int;
    assert(t.subrange(0, n) =~= s);
    assert(t.subrange(n, n + 3) =~= seq![a, b, c]);
    let p = crate::mod_stack::pick(seq![a, b, c], seq![1usize, 2, 0]);
    assert(p =~= seq![b, c, a]);
    assert(s + p =~= s.push(b).push(c).push(a));
}

/// Law: 2ROT brings the third pair to the top: `a b c d e f` becomes
/// `c d e f a b`.
pub proof fn law_two_rot(
    m: EnvModel,
    s: Seq<Seq<u8>>,
    a: Seq<u8>,
    b: Seq<u8>,
    c: Seq<u8>,
    d: Seq<u8>,
    e: Seq<u8>,
    f: Seq<u8>,
)
    ensures
        two_rot_step(on_stack(m, s.push(a).push(b).push(c).push(d).push(e).push(f)))
            == (on_stack(m, s.push(c).push(d).push(e).push(f).push(a).push(b)), Ok::<(), crate::script::ErrorModel>(())),
{
    let t = s.push(a).push(b).push(c).push(d).push(e).push(f);
    let n = s.len() as int;
    assert(t.subrange(0, n) =~= s);
    assert(t.subrange(n, n + 6) =~= seq![a, b, c, d, e, f]);
    let p = crate::mod_stack::pick(seq![a, b, c, d, e, f], seq![2usize, 3, 4, 5, 0, 1]);
    assert(p =~= seq![c, d, e, f, a, b]);
    assert(s + p =~= s.push(c).push(d).push(e).push(f).push(a).push(b));
}

/// Law: OVER pushes a copy of the second value: `a b` becomes `a b a`.
pub proof fn law_over(m: EnvModel, s: Seq<Seq<u8>>, a: Seq<u8>, b: Seq<u8>)
    ensures
        over_step(on_stack(m, s.push(a).push(b))) == (on_stack(m, s.push(a).push(b).push(a)), Ok::<(), crate::script::ErrorModel>(())),
{
    let t = s.push(a).push(b);
    let n = s.len() as int;
    assert(t.subrange(0, n) =~= s);
    assert(t.subrange(n, n + 2) =~= seq![a, b]);
    let p = crate::mod_stack::pick(seq![a, b], seq![0usize, 1, 0]);
    assert(p =~= seq![a, b, a]);
    assert(s + p =~= s.push(a).push(b).push(a));
}

/// Law: 2OVER pushes copies of the second pair: `a b c d` becomes
/// `a b c d a b`.
pub proof fn law_two_over(m: EnvModel, s: Seq<Seq<u8>>, a: Seq<u8>, b: Seq<u8>, c: Seq<u8>, d: Seq<u8>)
    ensures
        two_over_step(on_stack(m, s.push(a).push(b).push(c).push(d)))
            == (on_stack(m, s.push(a).push(b).push(c).push(d).push(a).push(b)), Ok::<(), crate::script::ErrorModel>(())),
{
    let t = s.push(a).push(b).push(c).push(d);
    let n = s.len() as int;
    assert(t.subrange(0, n) =~= s);
    assert(t.subrange(n, n + 4) =~= seq![a, b, c, d]);
    let p = crate::mod_stack::pick(seq![a, b, c, d], seq![0usize, 1, 2, 3, 0, 1]);
    assert(p =~= seq![a, b, c, d, a, b]);
    assert(s + p =~= s.push(a).push(b).push(c).push(d).push(a).push(b));
}

/// The stack two values `x y` on top of `s` leave when a step pops them
/// and pushes one value.
pub open spec fn pops_two_pushes(m: EnvModel, s: Seq<Seq<u8>>, v: Seq<u8>) -> (EnvModel, Result<(), crate::script::ErrorModel>) {
    (on_stack(m, s.push(v)), Ok(()))
}

proof fn lemma_top_two(s: Seq<Seq<u8>>, x: Seq<u8>, y: Seq<u8>)
    ensures
        s.push(x).push(y).subrange(0, s.len() as int) == s,
        s.push(x).push(y).subrange(s.len() as int, s.len() as int + 2) == seq![x, y],
{
    let t = s.push(x).push(y);
    assert(t.subrange(0, s.len() as int) =~= s);
    assert(t.subrange(s.len() as int, s.len() as int + 2) =~= seq![x, y]);
}

/// Byte strings compare by their first differing byte.
proof fn lemma_lex_first_difference(x: Seq<u8>, y: Seq<u8>, i: int)
    requires
        0 <= i < x.len(),
        i < y.len(),
        x.subrange(0, i) == y.subrange(0, i),
        x[i] != y[i],
    ensures
        lex_less(x, y) == (x[i] < y[i]),
    decreases i,
{
    if i > 0 {
        assert(x[0] == x.subrange(0, i)[0]);
        assert(y[0] == y.subrange(0, i)[0]);
        assert(x.drop_first().subrange(0, i - 1) =~= x.subrange(0, i).drop_first());
        assert(y.drop_first().subrange(0, i - 1) =~= y.subrange(0, i).drop_first());
        lemma_lex_first_difference(x.drop_first(), y.drop_first(), i - 1);
    }
}

/// A prefix is below a longer string, and no string is below its prefix.
proof fn lemma_lex_prefix(x: Seq<u8>, y: Seq<u8>)
    requires
        x.len() <= y.len(),
        y.subrange(0, x.len() as int) == x,
    ensures
        lex_less(x, y) == (x.len() < y.len()),
        !lex_less(y, x),
    decreases x.len(),
{
    if x.len() > 0 {
        assert(y[0] == y.subrange(0, x.len() as int)[0]);
        assert(y.drop_first().subrange(0, x.len() - 1) =~= y.subrange(0, x.len() as int).drop_first());
        lemma_lex_prefix(x.drop_first(), y.drop_first());
    }
}

/// Law: LT? answers by the first byte in which the two values differ: true
/// when the deeper value's byte is the smaller one.
pub proof fn law_lt_first_difference(m: EnvModel, s: Seq<Seq<u8>>, x: Seq<u8>, y: Seq<u8>, i: int)
    requires
        0 <= i < x.len(),
        i < y.len(),
        x.subrange(0, i) == y.subrange(0, i),
        x[i] != y[i],
    ensures
        lt_step(on_stack(m, s.push(x).push(y))) == pops_two_pushes(m, s, stack_bool(x[i] < y[i])),
{
    lemma_top_two(s, x, y);
    lemma_lex_first_difference(x, y, i);
    assert(s + seq![stack_bool(x[i] < y[i])] =~= s.push(stack_bool(x[i] < y[i])));
}

/// Law: when one value starts the other, LT? is true exactly when the
/// deeper one is the shorter: no value is less than itself, and no value
/// is less than a value it starts with.
pub proof fn law_lt_prefix(m: EnvModel, s: Seq<Seq<u8>>, x: Seq<u8>, y: Seq<u8>)
    requires
        x.len() <= y.len(),
        y.subrange(0, x.len() as int) == x,
    ensures
        lt_step(on_stack(m, s.push(x).push(y))) == pops_two_pushes(m, s, stack_bool(x.len() < y.len())),
        lt_step(on_stack(m, s.push(y).push(x))) == pops_two_pushes(m, s, stack_false()),
{
    lemma_top_two(s, x, y);
    lemma_top_two(s, y, x);
    lemma_lex_prefix(x, y);
    assert(s + seq![stack_bool(x.len() < y.len())] =~= s.push(stack_bool(x.len() < y.len())));
    assert(s + seq![stack_bool(false)] =~= s.push(stack_false()));
}

/// Law: LT? on a value and itself is false.
pub proof fn law_lt_irreflexive(m: EnvModel, s: Seq<Seq<u8>>, x: Seq<u8>)
    ensures
        lt_step(on_stack(m, s.push(x).push(x))) == pops_two_pushes(m, s, stack_false()),
{
    assert(x.subrange(0, x.len() as int) =~= x);
    law_lt_prefix(m, s, x, x);
}

/// Law: GT? on `x y` answers as LT? on `y x`.
pub proof fn law_gt_is_lt_flipped(m: EnvModel, s: Seq<Seq<u8>>, x: Seq<u8>, y: Seq<u8>)
    ensures
        gt_step(on_stack(m, s.push(x).push(y))) == lt_step(on_stack(m, s.push(y).push(x))),
{
    lemma_top_two(s, x, y);
    lemma_top_two(s, y, x);
}

/// Law: EQUAL? is true exactly on equal values.
pub proof fn law_equal(m: EnvModel, s: Seq<Seq<u8>>, x: Seq<u8>, y: Seq<u8>)
    ensures
        equal_step(on_stack(m, s.push(x).push(y))) == pops_two_pushes(m, s, stack_bool(x == y)),
{
    lemma_top_two(s, x, y);
    assert(s + seq![stack_bool(x == y)] =~= s.push(stack_bool(x == y)));
}

/// Law: CONCAT joins the deeper value and the top one, in that order.
pub proof fn law_concat(m: EnvModel, s: Seq<Seq<u8>>, x: Seq<u8>, y: Seq<u8>)
    ensures
        concat_step(on_stack(m, s.push(x).push(y))) == pops_two_pushes(m, s, x + y),
{
    lemma_top_two(s, x, y);
    assert(s + seq![x + y] =~= s.push(x + y));
}

/// Law: LENGTH replaces a value with its length, as an unsigned number
/// whose value is the length.
pub proof fn law_length(m: EnvModel, s: Seq<Seq<u8>>, x: Seq<u8>)
    ensures
        length_step(on_stack(m, s.push(x))) == (on_stack(m, s.push(canonical_be(x.len()))), Ok::<(), crate::script::ErrorModel>(())),
        crate::encoding::be_value(canonical_be(x.len())) == x.len(),
{
    let t = s.push(x);
    assert(t.subrange(0, s.len() as int) =~= s);
    assert(t.subrange(s.len() as int, s.len() as int + 1) =~= seq![x]);
    assert(s + seq![canonical_be(x.len())] =~= s.push(canonical_be(x.len())));
    crate::bignum::lemma_canonical_be(x.len());
}

proof fn lemma_top_one(s: Seq<Seq<u8>>, x: Seq<u8>)
    ensures
        s.push(x).subrange(0, s.len() as int) == s,
        s.push(x).subrange(s.len() as int, s.len() as int + 1) == seq![x],
{
    let t = s.push(x);
    assert(t.subrange(0, s.len() as int) =~= s);
    assert(t.subrange(s.len() as int, s.len() as int + 1) =~= seq![x]);
}

proof fn lemma_push_one(s: Seq<Seq<u8>>, v: Seq<u8>)
    ensures
        s + seq![v] == s.push(v),
{
    assert(s + seq![v] =~= s.push(v));
}

/// Law: NOT turns true into false and false into true; any other value is
/// an invalid value.
pub proof fn law_not(m: EnvModel, s: Seq<Seq<u8>>, a: bool, x: Seq<u8>)
    ensures
        not_step(on_stack(m, s.push(stack_bool(a)))) == (on_stack(m, s.push(stack_bool(!a))), Ok::<(), ErrorModel>(())),
        x != stack_true() && x != stack_false() ==> not_step(on_stack(m, s.push(x))) == (
            on_stack(m, s),
            Err::<(), ErrorModel>(invalid_value_error(x)),
        ),
{
    lemma_top_one(s, stack_bool(a));
    lemma_top_one(s, x);
    lemma_push_one(s, stack_bool(!a));
    assert(stack_true() != stack_false()) by {
        assert(stack_true()[0] != stack_false()[0]);
    }
}

/// Law: AND of two booleans is true exactly when both are; OR is true
/// exactly when at least one is.
pub proof fn law_and_or(m: EnvModel, s: Seq<Seq<u8>>, a: bool, b: bool)
    ensures
        logic_step(on_stack(m, s.push(stack_bool(a)).push(stack_bool(b))), true) == pops_two_pushes(m, s, stack_bool(a && b)),
        logic_step(on_stack(m, s.push(stack_bool(a)).push(stack_bool(b))), false) == pops_two_pushes(m, s, stack_bool(a || b)),
{
    lemma_top_two(s, stack_bool(a), stack_bool(b));
    lemma_push_one(s, stack_bool(a && b));
    lemma_push_one(s, stack_bool(a || b));
    assert(stack_true() != stack_false()) by {
        assert(stack_true()[0] != stack_false()[0]);
    }
}

/// Law: INT->UINT takes every packed integer that is not negative, zero
/// included, to the unsigned bytes of the same number, and refuses a
/// negative one as an invalid value.
pub proof fn law_int_to_uint(m: EnvModel, s: Seq<Seq<u8>>, v: int)
    ensures
        v >= 0 ==> int_to_uint_step(on_stack(m, s.push(pack_int(v)))) == (
            on_stack(m, s.push(canonical_be(v as nat))),
            Ok::<(), ErrorModel>(()),
        ),
        v < 0 ==> int_to_uint_step(on_stack(m, s.push(pack_int(v)))) == (
            on_stack(m, s),
            Err::<(), ErrorModel>(invalid_value_error(pack_int(v))),
        ),
{
    lemma_top_one(s, pack_int(v));
    crate::laws::law_int_roundtrip(v);
    lemma_push_one(s, canonical_be(v as nat));
}

/// Law: UINT->INT takes the unsigned bytes of a number to the packed
/// integer of the same number, and INT->UINT takes it back.
pub proof fn law_uint_to_int(m: EnvModel, s: Seq<Seq<u8>>, n: nat)
    ensures
        uint_to_int_step(on_stack(m, s.push(canonical_be(n)))) == (
            on_stack(m, s.push(pack_int(n as int))),
            Ok::<(), ErrorModel>(()),
        ),
        int_to_uint_step(uint_to_int_step(on_stack(m, s.push(canonical_be(n)))).0) == (
            on_stack(m, s.push(canonical_be(n))),
            Ok::<(), ErrorModel>(()),
        ),
{
    lemma_top_one(s, canonical_be(n));
    crate::bignum::lemma_canonical_be(n);
    lemma_push_one(s, pack_int(n as int));
    assert(pack_int(n as int) =~= seq![1u8] + canonical_be(n));
    law_int_to_uint(m, s, n as int);
}

/// Law: UINT/ADD of two numbers pushes their sum; UINT/SUB pushes the
/// deeper less the top one, and refuses a top one that is larger.
pub proof fn law_uint_add_sub(m: EnvModel, s: Seq<Seq<u8>>, a: nat, b: nat)
    ensures
        uint_add_step(on_stack(m, s.push(canonical_be(a)).push(canonical_be(b)))) == pops_two_pushes(m, s, canonical_be(a + b)),
        b <= a ==> uint_sub_step(on_stack(m, s.push(canonical_be(a)).push(canonical_be(b)))) == pops_two_pushes(
            m,
            s,
            canonical_be((a - b) as nat),
        ),
        b > a ==> uint_sub_step(on_stack(m, s.push(canonical_be(a)).push(canonical_be(b)))) == (
            on_stack(m, s),
            Err::<(), ErrorModel>(invalid_value_error(canonical_be(b))),
        ),
{
    lemma_top_two(s, canonical_be(a), canonical_be(b));
    crate::bignum::lemma_canonical_be(a);
    crate::bignum::lemma_canonical_be(b);
    lemma_push_one(s, canonical_be(a + b));
    lemma_push_one(s, canonical_be((a - b) as nat));
}

/// Law: INT/ADD of two integers pushes their sum, INT/SUB the deeper less
/// the top one.
pub proof fn law_int_add_sub(m: EnvModel, s: Seq<Seq<u8>>, a: int, b: int)
    ensures
        int_add_step(on_stack(m, s.push(pack_int(a)).push(pack_int(b)))) == pops_two_pushes(m, s, pack_int(a + b)),
        int_sub_step(on_stack(m, s.push(pack_int(a)).push(pack_int(b)))) == pops_two_pushes(m, s, pack_int(a - b)),
{
    lemma_top_two(s, pack_int(a), pack_int(b));
    crate::laws::law_int_roundtrip(a);
    crate::laws::law_int_roundtrip(b);
    lemma_push_one(s, pack_int(a + b));
    lemma_push_one(s, pack_int(a - b));
    assert(b + a == a + b);
}

/// Law: the unsigned comparisons compare the numbers: EQUAL? (0) by
/// equality, GT? (1) whether the deeper is greater, LT? (2) whether it is
/// less.
pub proof fn law_uint_compare(m: EnvModel, s: Seq<Seq<u8>>, a: nat, b: nat)
    ensures
        uint_compare_step(on_stack(m, s.push(canonical_be(a)).push(canonical_be(b))), 0) == pops_two_pushes(m, s, stack_bool(a == b)),
        uint_compare_step(on_stack(m, s.push(canonical_be(a)).push(canonical_be(b))), 1) == pops_two_pushes(m, s, stack_bool(a > b)),
        uint_compare_step(on_stack(m, s.push(canonical_be(a)).push(canonical_be(b))), 2) == pops_two_pushes(m, s, stack_bool(a < b)),
{
    lemma_top_two(s, canonical_be(a), canonical_be(b));
    crate::bignum::lemma_canonical_be(a);
    crate::bignum::lemma_canonical_be(b);
    lemma_push_one(s, stack_bool(a == b));
    lemma_push_one(s, stack_bool(a > b));
    lemma_push_one(s, stack_bool(a < b));
}

/// Law: the signed comparisons compare the integers, as the unsigned ones
/// do.
pub proof fn law_int_compare(m: EnvModel, s: Seq<Seq<u8>>, a: int, b: int)
    ensures
        int_compare_step(on_stack(m, s.push(pack_int(a)).push(pack_int(b))), 0) == pops_two_pushes(m, s, stack_bool(a == b)),
        int_compare_step(on_stack(m, s.push(pack_int(a)).push(pack_int(b))), 1) == pops_two_pushes(m, s, stack_bool(a > b)),
        int_compare_step(on_stack(m, s.push(pack_int(a)).push(pack_int(b))), 2) == pops_two_pushes(m, s, stack_bool(a < b)),
{
    lemma_top_two(s, pack_int(a), pack_int(b));
    crate::laws::law_int_roundtrip(a);
    crate::laws::law_int_roundtrip(b);
    lemma_push_one(s, stack_bool(a == b));
    lemma_push_one(s, stack_bool(a > b));
    lemma_push_one(s, stack_bool(a < b));
}

/// Law: each hash instruction pushes the digest of the algorithm it is
/// named for: HASH/SHA1 the SHA-1 digest, HASH/SHA224 the SHA-224 one, and
/// so on.
pub proof fn law_hash_instructions(m: EnvModel, s: Seq<Seq<u8>>, data: Seq<u8>)
    requires
        data.len() < max_hash_input(),
    ensures
        hash_module_step(on_stack(m, s.push(data)), seq![137u8, 72, 65, 83, 72, 47, 83, 72, 65, 49]) == Some(
            (on_stack(m, s.push(sha1_digest(data))), Ok::<(), ErrorModel>(())),
        ),
        hash_module_step(on_stack(m, s.push(data)), seq![139u8, 72, 65, 83, 72, 47, 83, 72, 65, 50, 50, 52]) == Some(
            (on_stack(m, s.push(sha224_digest(data))), Ok::<(), ErrorModel>(())),
        ),
        hash_module_step(on_stack(m, s.push(data)), seq![139u8, 72, 65, 83, 72, 47, 83, 72, 65, 50, 53, 54]) == Some(
            (on_stack(m, s.push(sha256_digest(data))), Ok::<(), ErrorModel>(())),
        ),
        hash_module_step(on_stack(m, s.push(data)), seq![139u8, 72, 65, 83, 72, 47, 83, 72, 65, 51, 56, 52]) == Some(
            (on_stack(m, s.push(sha384_digest(data))), Ok::<(), ErrorModel>(())),
        ),
        hash_module_step(on_stack(m, s.push(data)), seq![139u8, 72, 65, 83, 72, 47, 83, 72, 65, 53, 49, 50]) == Some(
            (on_stack(m, s.push(sha512_digest(data))), Ok::<(), ErrorModel>(())),
        ),
        hash_module_step(on_stack(m, s.push(data)), seq![143u8, 72, 65, 83, 72, 47, 83, 72, 65, 53, 49, 50, 45, 50, 50, 52]) == Some(
            (on_stack(m, s.push(sha512_224_digest(data))), Ok::<(), ErrorModel>(())),
        ),
        hash_module_step(on_stack(m, s.push(data)), seq![143u8, 72, 65, 83, 72, 47, 83, 72, 65, 53, 49, 50, 45, 50, 53, 54]) == Some(
            (on_stack(m, s.push(sha512_256_digest(data))), Ok::<(), ErrorModel>(())),
        ),
{
    reveal_with_fuel(crate::mod_hash::hash_from, 8);
    lemma_top_one(s, data);
    lemma_push_one(s, sha1_digest(data));
    lemma_push_one(s, sha224_digest(data));
    lemma_push_one(s, sha256_digest(data));
    lemma_push_one(s, sha384_digest(data));
    lemma_push_one(s, sha512_digest(data));
    lemma_push_one(s, sha512_224_digest(data));
    lemma_push_one(s, sha512_256_digest(data));
}

proof fn lemma_top_three(s: Seq<Seq<u8>>, x: Seq<u8>, y: Seq<u8>, z: Seq<u8>)
    ensures
        s.push(x).push(y).push(z).subrange(0, s.len() as int) == s,
        s.push(x).push(y).push(z).subrange(s.len() as int, s.len() as int + 3) == seq![x, y, z],
{
    let t = s.push(x).push(y).push(z);
    assert(t.subrange(0, s.len() as int) =~= s);
    assert(t.subrange(s.len() as int, s.len() as int + 3) =~= seq![x, y, z]);
}

/// Law: IFELSE runs the first program when the condition is true and the
/// second when it is false; IF runs its program when the condition is
/// true and nothing when it is false.
pub proof fn law_if_ifelse(m: EnvModel, s: Seq<Seq<u8>>, c: bool, p: Seq<u8>, q: Seq<u8>)
    ensures
        ifelse_step(on_stack(m, s.push(stack_bool(c)).push(p).push(q))) == (
            EnvModel { stack: s, program: m.program.push(if c { p } else { q }), ..m },
            Ok::<(), ErrorModel>(()),
        ),
        if_step(on_stack(m, s.push(stack_bool(c)).push(p))) == (
            EnvModel { stack: s, program: m.program.push(if c { p } else { Seq::empty() }), ..m },
            Ok::<(), ErrorModel>(()),
        ),
{
    lemma_top_three(s, stack_bool(c), p, q);
    lemma_top_two(s, stack_bool(c), p);
    assert(stack_true() != stack_false()) by {
        assert(stack_true()[0] != stack_false()[0]);
    }
}

/// Law: EVAL runs the program on top of the stack next.
pub proof fn law_eval(m: EnvModel, s: Seq<Seq<u8>>, p: Seq<u8>)
    ensures
        eval_step(on_stack(m, s.push(p))) == (EnvModel { stack: s, program: m.program.push(p), ..m }, Ok::<(), ErrorModel>(())),
{
    lemma_top_one(s, p);
}

proof fn lemma_schedule_times(m: EnvModel, p: Seq<u8>, n: nat)
    ensures
        schedule_times(m, p, n) == (EnvModel { program: m.program + Seq::new(n, |k: int| p), ..m }),
    decreases n,
{
    if n == 0 {
        assert(m.program + Seq::new(0, |k: int| p) =~= m.program);
    } else {
        lemma_schedule_times(m, p, (n - 1) as nat);
        assert(m.program + Seq::new((n - 1) as nat, |k: int| p) + seq![p] =~= m.program + Seq::new(n, |k: int| p));
        assert((m.program + Seq::new((n - 1) as nat, |k: int| p)).push(p) =~= m.program + Seq::new(n, |k: int| p));
    }
}

/// Law: TIMES runs its program as many times as the count says (none for
/// zero).
pub proof fn law_times(m: EnvModel, s: Seq<Seq<u8>>, p: Seq<u8>, n: nat)
    requires
        n < 0x1_0000_0000_0000_0000,
    ensures
        times_step(on_stack(m, s.push(p).push(canonical_be(n)))) == (
            EnvModel { stack: s, program: m.program + Seq::new(n, |k: int| p), ..m },
            Ok::<(), ErrorModel>(()),
        ),
{
    lemma_top_two(s, p, canonical_be(n));
    crate::bignum::lemma_canonical_be(n);
    lemma_schedule_times(on_stack(m, s), p, n);
}

/// Law: DEPTH pushes the number of values the stack held.
pub proof fn law_depth(m: EnvModel, s: Seq<Seq<u8>>)
    ensures
        depth_step(on_stack(m, s)) == (on_stack(m, s.push(canonical_be(s.len()))), Ok::<(), ErrorModel>(())),
        crate::encoding::be_value(canonical_be(s.len())) == s.len(),
{
    lemma_push_one(s, canonical_be(s.len()));
    crate::bignum::lemma_canonical_be(s.len());
}

/// Law: values put at the back of the queue come back from the back last
/// in, first out, and from the front first in, first out; values put at
/// the front come back from the front first; Q? tells whether the queue
/// holds anything.
pub proof fn law_queue_ends(m: EnvModel, s: Seq<Seq<u8>>, q: Seq<Seq<u8>>, x: Seq<u8>)
    ensures
        to_back_queue_step(EnvModel { stack: s.push(x), queue: q, ..m }) == (
            EnvModel { stack: s, queue: q.push(x), ..m },
            Ok::<(), ErrorModel>(()),
        ),
        to_front_queue_step(EnvModel { stack: s.push(x), queue: q, ..m }) == (
            EnvModel { stack: s, queue: seq![x] + q, ..m },
            Ok::<(), ErrorModel>(()),
        ),
        from_back_queue_step(EnvModel { stack: s, queue: q.push(x), ..m }) == (
            EnvModel { stack: s.push(x), queue: q, ..m },
            Ok::<(), ErrorModel>(()),
        ),
        from_front_queue_step(EnvModel { stack: s, queue: seq![x] + q, ..m }) == (
            EnvModel { stack: s.push(x), queue: q, ..m },
            Ok::<(), ErrorModel>(()),
        ),
        queue_empty_step(EnvModel { stack: s, queue: q, ..m }) == (
            EnvModel { stack: s.push(stack_bool(q.len() > 0)), queue: q, ..m },
            Ok::<(), ErrorModel>(()),
        ),
{
    lemma_top_one(s, x);
    lemma_push_one(s, x);
    lemma_push_one(s, stack_bool(q.len() > 0));
    assert(q.push(x).drop_last() =~= q);
    assert((seq![x] + q).drop_first() =~= q);
}

/// Law: SLICE of a value from `start` to `end` (with `start <= end <= len`,
/// `start` inside a value that is not empty, and `end` below 2^64) pushes the `end - start`
/// bytes of the value from `start` on.
pub proof fn law_slice(m: EnvModel, s: Seq<Seq<u8>>, v: Seq<u8>, start: nat, end: nat)
    requires
        start <= end <= v.len(),
        end < 0x1_0000_0000_0000_0000,
        v.len() == 0 || start < v.len(),
    ensures
        slice_step(on_stack(m, s.push(v).push(canonical_be(start)).push(canonical_be(end)))) matches (m2, Ok(()))
            && m2 == on_stack(m, m2.stack) && m2.stack.len() == s.len() + 1 && m2.stack.subrange(0, s.len() as int) == s
            && m2.stack.last().len() == end - start
            && forall|k: int| 0 <= k < end - start ==> #[trigger] m2.stack.last()[k] == v[start + k],
{
    lemma_top_three(s, v, canonical_be(start), canonical_be(end));
    crate::bignum::lemma_canonical_be(start);
    crate::bignum::lemma_canonical_be(end);
    let w = v.subrange(start as int, end as int);
    lemma_push_one(s, w);
    assert(s.push(w).subrange(0, s.len() as int) =~= s);
}

/// Law: PAD of a value to `n` bytes (at least its length, at most 1024)
/// with a byte pushes `n` bytes: the byte repeated, then the value.
pub proof fn law_pad(m: EnvModel, s: Seq<Seq<u8>>, v: Seq<u8>, n: nat, b: u8)
    requires
        v.len() <= n <= 1024,
    ensures
        pad_step(on_stack(m, s.push(v).push(canonical_be(n)).push(seq![b]))) matches (m2, Ok(()))
            && m2 == on_stack(m, m2.stack) && m2.stack.len() == s.len() + 1 && m2.stack.subrange(0, s.len() as int) == s
            && m2.stack.last().len() == n
            && m2.stack.last().subrange(n - v.len(), n as int) == v
            && forall|k: int| 0 <= k < n - v.len() ==> #[trigger] m2.stack.last()[k] == b,
{
    lemma_top_three(s, v, canonical_be(n), seq![b]);
    crate::bignum::lemma_canonical_be(n);
    let w = Seq::new((n - v.len()) as nat, |i: int| b) + v;
    lemma_push_one(s, w);
    assert(s.push(w).subrange(0, s.len() as int) =~= s);
    assert(w.subrange(n - v.len(), n as int) =~= v);
}

proof fn lemma_sized_read(v: int, bytes: nat, signed: bool)
    requires
        bytes == 1 || bytes == 2 || bytes == 4 || bytes == 8,
        crate::mod_string::sized_low(bytes, signed) <= v < crate::mod_string::sized_high(bytes, signed),
    ensures
        crate::mod_string::pack_sized(v, bytes, signed).len() == bytes,
        crate::mod_string::pack_sized(v, bytes, signed).subrange(0, bytes as int) == crate::mod_string::pack_sized(v, bytes, signed),
        crate::encoding::be_value(crate::mod_string::pack_sized(v, bytes, signed)) == v + if signed {
            crate::mod_numbers::sign_offset(bytes) as int
        } else {
            0
        },
{
    crate::mod_numbers::lemma_pow256_small();
    let off: int = if signed { crate::mod_numbers::sign_offset(bytes) as int } else { 0 };
    crate::mod_numbers::lemma_fixed_be((v + off) as nat, bytes);
    let p = crate::mod_string::pack_sized(v, bytes, signed);
    assert(p.subrange(0, bytes as int) =~= p);
}

/// Law: the fixed-size ADD and SUB of two values of the type push the
/// type's bytes of their sum and of the deeper less the top one, when that
/// is in the type's range, and fail when it is not.
pub proof fn law_sized_add_sub(m: EnvModel, s: Seq<Seq<u8>>, bytes: nat, signed: bool, a: int, b: int)
    requires
        bytes == 1 || bytes == 2 || bytes == 4 || bytes == 8,
        crate::mod_string::sized_low(bytes, signed) <= a < crate::mod_string::sized_high(bytes, signed),
        crate::mod_string::sized_low(bytes, signed) <= b < crate::mod_string::sized_high(bytes, signed),
    ensures
        ({
            let m0 = on_stack(
                m,
                s.push(crate::mod_string::pack_sized(a, bytes, signed)).push(crate::mod_string::pack_sized(b, bytes, signed)),
            );
            let low = crate::mod_string::sized_low(bytes, signed);
            let high = crate::mod_string::sized_high(bytes, signed);
            &&& low <= a + b < high ==> crate::mod_numbers::sized_step(m0, bytes, signed, true) == pops_two_pushes(
                m,
                s,
                crate::mod_string::pack_sized(a + b, bytes, signed),
            )
            &&& !(low <= a + b < high) ==> crate::mod_numbers::sized_step(m0, bytes, signed, true).1 is Err
            &&& low <= a - b < high ==> crate::mod_numbers::sized_step(m0, bytes, signed, false) == pops_two_pushes(
                m,
                s,
                crate::mod_string::pack_sized(a - b, bytes, signed),
            )
            &&& !(low <= a - b < high) ==> crate::mod_numbers::sized_step(m0, bytes, signed, false).1 is Err
        }),
{
    let pa = crate::mod_string::pack_sized(a, bytes, signed);
    let pb = crate::mod_string::pack_sized(b, bytes, signed);
    lemma_top_two(s, pa, pb);
    lemma_sized_read(a, bytes, signed);
    lemma_sized_read(b, bytes, signed);
    crate::mod_numbers::lemma_pow256_small();
    lemma_push_one(s, crate::mod_string::pack_sized(a + b, bytes, signed));
    lemma_push_one(s, crate::mod_string::pack_sized(a - b, bytes, signed));
}

/// A timestamp: epoch, time and count, big-endian on 4, 8 and 4 bytes.
pub open spec fn stamp(epoch: nat, time: nat, count: nat) -> Seq<u8> {
    crate::mod_numbers::fixed_be(epoch, 4) + crate::mod_numbers::fixed_be(time, 8) + crate::mod_numbers::fixed_be(count, 4)
}

/// Law: HLC/LC pushes a timestamp's count, and HLC/TICK the same
/// timestamp with its count one up (from 2^32 - 1 back to 0).
pub proof fn law_hlc_tick_lc(m: EnvModel, s: Seq<Seq<u8>>, epoch: nat, time: nat, count: nat)
    requires
        epoch < 0x1_0000_0000,
        time < 0x1_0000_0000_0000_0000,
        count < 0x1_0000_0000,
    ensures
        crate::mod_hlc::hlc_lc_step(on_stack(m, s.push(stamp(epoch, time, count)))) == (
            on_stack(m, s.push(crate::mod_numbers::fixed_be(count, 4))),
            Ok::<(), ErrorModel>(()),
        ),
        crate::mod_hlc::hlc_tick_step(on_stack(m, s.push(stamp(epoch, time, count)))) == (
            on_stack(m, s.push(stamp(epoch, time, (count + 1) % 0x1_0000_0000))),
            Ok::<(), ErrorModel>(()),
        ),
{
    crate::mod_numbers::lemma_pow256_small();
    crate::mod_numbers::lemma_fixed_be(epoch, 4);
    crate::mod_numbers::lemma_fixed_be(time, 8);
    crate::mod_numbers::lemma_fixed_be(count, 4);
    let t = stamp(epoch, time, count);
    lemma_top_one(s, t);
    assert(t.subrange(12, 16) =~= crate::mod_numbers::fixed_be(count, 4));
    assert(t.subrange(0, 12) =~= crate::mod_numbers::fixed_be(epoch, 4) + crate::mod_numbers::fixed_be(time, 8));
    lemma_push_one(s, crate::mod_numbers::fixed_be(count, 4));
    lemma_push_one(s, stamp(epoch, time, (count + 1) % 0x1_0000_0000));
}

/// Whether a byte is a lower-case hexadecimal digit.
pub open spec fn lower_hex(c: u8) -> bool {
    (48 <= c <= 57) || (97 <= c <= 102)
}

proof fn lemma_hex_text_digits(x: Seq<u8>)
    ensures
        crate::mod_uuid::hex_text(x).len() == 2 * x.len(),
        forall|i: int| 0 <= i < crate::mod_uuid::hex_text(x).len() ==> lower_hex(#[trigger] crate::mod_uuid::hex_text(x)[i]),
    decreases x.len(),
{
    if x.len() > 0 {
        lemma_hex_text_digits(x.drop_last());
        let h = crate::mod_uuid::hex_text(x);
        let p = crate::mod_uuid::hex_text(x.drop_last());
        assert forall|i: int| 0 <= i < h.len() implies lower_hex(#[trigger] h[i]) by {
            if i < p.len() {
                assert(h[i] == p[i]);
            }
        }
    }
}

/// Law: UUID/->STRING writes 36 characters: lower-case hexadecimal
/// digits, with hyphens at 8, 13, 18 and 23.
pub proof fn law_uuid_text_shape(b: Seq<u8>)
    requires
        b.len() == 16,
    ensures
        crate::mod_uuid::hyphenated(b).len() == 36,
        forall|i: int| 0 <= i < 36 ==> if i == 8 || i == 13 || i == 18 || i == 23 {
            #[trigger] crate::mod_uuid::hyphenated(b)[i] == 45
        } else {
            lower_hex(crate::mod_uuid::hyphenated(b)[i])
        },
{
    let p0 = b.subrange(0, 4);
    let p1 = b.subrange(4, 6);
    let p2 = b.subrange(6, 8);
    let p3 = b.subrange(8, 10);
    let p4 = b.subrange(10, 16);
    lemma_hex_text_digits(p0);
    lemma_hex_text_digits(p1);
    lemma_hex_text_digits(p2);
    lemma_hex_text_digits(p3);
    lemma_hex_text_digits(p4);
    let (h0, h1, h2, h3, h4) = (
        crate::mod_uuid::hex_text(p0),
        crate::mod_uuid::hex_text(p1),
        crate::mod_uuid::hex_text(p2),
        crate::mod_uuid::hex_text(p3),
        crate::mod_uuid::hex_text(p4),
    );
    let h = crate::mod_uuid::hyphenated(b);
    let dash = seq![45u8];
    assert(h =~= h0 + dash + h1 + dash + h2 + dash + h3 + dash + h4);
    assert forall|i: int| 0 <= i < 36 implies if i == 8 || i == 13 || i == 18 || i == 23 {
        #[trigger] h[i] == 45
    } else {
        lower_hex(h[i])
    } by {
        if i < 8 {
            assert(h[i] == h0[i]);
        } else if 9 <= i < 13 {
            assert(h[i] == h1[i - 9]);
        } else if 14 <= i < 18 {
            assert(h[i] == h2[i - 14]);
        } else if 19 <= i < 23 {
            assert(h[i] == h3[i - 19]);
        } else if 24 <= i {
            assert(h[i] == h4[i - 24]);
        }
    }
}

/// Law: JSON/->STRING writes a string with no quote, backslash or control
/// character as the string itself in quotes, and a quote or a backslash as
/// itself after a backslash.
pub proof fn law_json_quote_plain(x: Seq<u8>)
    ensures
        (forall|i: int| 0 <= i < x.len() ==> #[trigger] x[i] >= 32 && x[i] != 34 && x[i] != 92) ==> crate::mod_json::json_string_text(x)
            == seq![34u8] + x + seq![34u8],
        crate::mod_json::json_string_text(seq![34u8]) == seq![34u8, 92, 34, 34],
        crate::mod_json::json_string_text(seq![92u8]) == seq![34u8, 92, 92, 34],
{
    if forall|i: int| 0 <= i < x.len() ==> #[trigger] x[i] >= 32 && x[i] != 34 && x[i] != 92 {
        lemma_escaped_plain(x);
    }
    let q = seq![34u8];
    assert(q.drop_last() =~= Seq::<u8>::empty());
    assert(q.last() == 34u8);
    assert(crate::mod_json::escaped_all(q.drop_last()) == Seq::<u8>::empty());
    assert(crate::mod_json::escaped(34u8) == seq![92u8, 34]);
    assert(crate::mod_json::escaped_all(q) =~= seq![92u8, 34]);
    assert(seq![34u8] + seq![92u8, 34] + seq![34u8] =~= seq![34u8, 92, 34, 34]);
    let r = seq![92u8];
    assert(r.drop_last() =~= Seq::<u8>::empty());
    assert(r.last() == 92u8);
    assert(crate::mod_json::escaped_all(r.drop_last()) == Seq::<u8>::empty());
    assert(crate::mod_json::escaped(92u8) == seq![92u8, 92]);
    assert(crate::mod_json::escaped_all(r) =~= seq![92u8, 92]);
    assert(seq![34u8] + seq![92u8, 92] + seq![34u8] =~= seq![34u8, 92, 92, 34]);
}

proof fn lemma_escaped_plain(x: Seq<u8>)
    requires
        forall|i: int| 0 <= i < x.len() ==> #[trigger] x[i] >= 32 && x[i] != 34 && x[i] != 92,
    ensures
        crate::mod_json::escaped_all(x) == x,
    decreases x.len(),
{
    if x.len() > 0 {
        assert forall|i: int| 0 <= i < x.drop_last().len() implies #[trigger] x.drop_last()[i] >= 32 && x.drop_last()[i] != 34
            && x.drop_last()[i] != 92 by {
            assert(x.drop_last()[i] == x[i]);
        }
        lemma_escaped_plain(x.drop_last());
        assert(x[x.len() - 1] == x.last());
        assert(x.drop_last() + seq![x.last()] =~= x);
    }
}

/// Law: each stack instruction is run by the step of its own name
/// (DROP, DUP, 3DROP, 3DUP, SWAP, 2SWAP, ROT, 2ROT, OVER, 2OVER, DEPTH).
pub proof fn law_stack_names(m: EnvModel)
    ensures
        crate::mod_stack::stack_module_step(m, seq![132u8, 68, 82, 79, 80]) == Some(crate::mod_stack::drop_step(m)),
        crate::mod_stack::stack_module_step(m, seq![131u8, 68, 85, 80]) == Some(crate::mod_stack::dup_step(m)),
        crate::mod_stack::stack_module_step(m, seq![133u8, 51, 68, 82, 79, 80]) == Some(crate::mod_stack::three_drop_step(m)),
        crate::mod_stack::stack_module_step(m, seq![132u8, 51, 68, 85, 80]) == Some(crate::mod_stack::three_dup_step(m)),
        crate::mod_stack::stack_module_step(m, seq![132u8, 83, 87, 65, 80]) == Some(crate::mod_stack::swap_step(m)),
        crate::mod_stack::stack_module_step(m, seq![133u8, 50, 83, 87, 65, 80]) == Some(crate::mod_stack::two_swap_step(m)),
        crate::mod_stack::stack_module_step(m, seq![131u8, 82, 79, 84]) == Some(crate::mod_stack::rot_step(m)),
        crate::mod_stack::stack_module_step(m, seq![132u8, 50, 82, 79, 84]) == Some(crate::mod_stack::two_rot_step(m)),
        crate::mod_stack::stack_module_step(m, seq![132u8, 79, 86, 69, 82]) == Some(crate::mod_stack::over_step(m)),
        crate::mod_stack::stack_module_step(m, seq![133u8, 50, 79, 86, 69, 82]) == Some(crate::mod_stack::two_over_step(m)),
        crate::mod_stack::stack_module_step(m, seq![133u8, 68, 69, 80, 84, 72]) == Some(crate::mod_stack::depth_step(m)),
{
}

/// Law: each binaries instruction is run by the step of its own name
/// (LT?, GT?, EQUAL?, CONCAT, LENGTH, SLICE, PAD).
pub proof fn law_binaries_names(m: EnvModel)
    ensures
        crate::mod_binaries::binaries_module_step(m, seq![131u8, 76, 84, 63]) == Some(crate::mod_binaries::lt_step(m)),
        crate::mod_binaries::binaries_module_step(m, seq![131u8, 71, 84, 63]) == Some(crate::mod_binaries::gt_step(m)),
        crate::mod_binaries::binaries_module_step(m, seq![134u8, 69, 81, 85, 65, 76, 63]) == Some(crate::mod_binaries::equal_step(m)),
        crate::mod_binaries::binaries_module_step(m, seq![134u8, 67, 79, 78, 67, 65, 84]) == Some(crate::mod_binaries::concat_step(m)),
        crate::mod_binaries::binaries_module_step(m, seq![134u8, 76, 69, 78, 71, 84, 72]) == Some(crate::mod_binaries::length_step(m)),
        crate::mod_binaries::binaries_module_step(m, seq![133u8, 83, 76, 73, 67, 69]) == Some(crate::mod_binaries::slice_step(m)),
        crate::mod_binaries::binaries_module_step(m, seq![131u8, 80, 65, 68]) == Some(crate::mod_binaries::pad_step(m)),
{
}

/// Law: each core instruction is run by the step of its own name
/// (NOT, AND, OR, IF, IFELSE, EVAL, TIMES).
pub proof fn law_core_names(m: EnvModel)
    ensures
        crate::mod_core::core_module_step(m, seq![131u8, 78, 79, 84]) == Some(crate::mod_core::not_step(m)),
        crate::mod_core::core_module_step(m, seq![131u8, 65, 78, 68]) == Some(crate::mod_core::logic_step(m, true)),
        crate::mod_core::core_module_step(m, seq![130u8, 79, 82]) == Some(crate::mod_core::logic_step(m, false)),
        crate::mod_core::core_module_step(m, seq![130u8, 73, 70]) == Some(crate::mod_core::if_step(m)),
        crate::mod_core::core_module_step(m, seq![134u8, 73, 70, 69, 76, 83, 69]) == Some(crate::mod_core::ifelse_step(m)),
        crate::mod_core::core_module_step(m, seq![132u8, 69, 86, 65, 76]) == Some(crate::mod_core::eval_step(m)),
        crate::mod_core::core_module_step(m, seq![133u8, 84, 73, 77, 69, 83]) == Some(crate::mod_core::times_step(m)),
{
}

/// Law: each numbers instruction is run by the step of its own name
/// (UINT/ADD, UINT/SUB, INT/ADD, INT/SUB, INT->UINT, UINT->INT, UINT/EQUAL?, UINT/GT?, UINT/LT?, INT/EQUAL?, INT/GT?, INT/LT?).
pub proof fn law_numbers_names(m: EnvModel)
    ensures
        crate::mod_numbers::numbers_module_step(m, seq![136u8, 85, 73, 78, 84, 47, 65, 68, 68]) == Some(crate::mod_numbers::uint_add_step(m)),
        crate::mod_numbers::numbers_module_step(m, seq![136u8, 85, 73, 78, 84, 47, 83, 85, 66]) == Some(crate::mod_numbers::uint_sub_step(m)),
        crate::mod_numbers::numbers_module_step(m, seq![135u8, 73, 78, 84, 47, 65, 68, 68]) == Some(crate::mod_numbers::int_add_step(m)),
        crate::mod_numbers::numbers_module_step(m, seq![135u8, 73, 78, 84, 47, 83, 85, 66]) == Some(crate::mod_numbers::int_sub_step(m)),
        crate::mod_numbers::numbers_module_step(m, seq![137u8, 73, 78, 84, 45, 62, 85, 73, 78, 84]) == Some(crate::mod_numbers::int_to_uint_step(m)),
        crate::mod_numbers::numbers_module_step(m, seq![137u8, 85, 73, 78, 84, 45, 62, 73, 78, 84]) == Some(crate::mod_numbers::uint_to_int_step(m)),
        crate::mod_numbers::numbers_module_step(m, seq![139u8, 85, 73, 78, 84, 47, 69, 81, 85, 65, 76, 63]) == Some(crate::mod_numbers::uint_compare_step(m, 0)),
        crate::mod_numbers::numbers_module_step(m, seq![136u8, 85, 73, 78, 84, 47, 71, 84, 63]) == Some(crate::mod_numbers::uint_compare_step(m, 1)),
        crate::mod_numbers::numbers_module_step(m, seq![136u8, 85, 73, 78, 84, 47, 76, 84, 63]) == Some(crate::mod_numbers::uint_compare_step(m, 2)),
        crate::mod_numbers::numbers_module_step(m, seq![138u8, 73, 78, 84, 47, 69, 81, 85, 65, 76, 63]) == Some(crate::mod_numbers::int_compare_step(m, 0)),
        crate::mod_numbers::numbers_module_step(m, seq![135u8, 73, 78, 84, 47, 71, 84, 63]) == Some(crate::mod_numbers::int_compare_step(m, 1)),
        crate::mod_numbers::numbers_module_step(m, seq![135u8, 73, 78, 84, 47, 76, 84, 63]) == Some(crate::mod_numbers::int_compare_step(m, 2)),
{
}

/// Law: once the store answered a lookup, RETR replaces the key with its
/// value, or fails with an unknown key error naming the key when it has
/// none; ASSOC? replaces the key with whether it has a value.
pub proof fn law_lookup_replies(m: EnvModel, s: Seq<Seq<u8>>, key: Seq<u8>, v: Seq<u8>, i: Seq<u8>)
    ensures
        crate::mod_storage::lookup_step(
            EnvModel { stack: s.push(key), reply: Some(crate::storage::ReplyModel::Found(v)), ..m },
            i,
            true,
        ) == (EnvModel { stack: s.push(v), reply: None, ..m }, Ok::<(), ErrorModel>(())),
        crate::mod_storage::lookup_step(
            EnvModel { stack: s.push(key), reply: Some(crate::storage::ReplyModel::Missing), ..m },
            i,
            true,
        ) == (EnvModel { stack: s, reply: None, ..m }, Err::<(), ErrorModel>(crate::mod_storage::unknown_key_error(key))),
        crate::mod_storage::lookup_step(
            EnvModel { stack: s.push(key), reply: Some(crate::storage::ReplyModel::Found(v)), ..m },
            i,
            false,
        ) == (EnvModel { stack: s.push(stack_true()), reply: None, ..m }, Ok::<(), ErrorModel>(())),
        crate::mod_storage::lookup_step(
            EnvModel { stack: s.push(key), reply: Some(crate::storage::ReplyModel::Missing), ..m },
            i,
            false,
        ) == (EnvModel { stack: s.push(stack_false()), reply: None, ..m }, Ok::<(), ErrorModel>(())),
{
    lemma_top_one(s, key);
    lemma_push_one(s, v);
    lemma_push_one(s, stack_true());
    lemma_push_one(s, stack_false());
}

} // verus!
