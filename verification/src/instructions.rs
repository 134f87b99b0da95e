//! What an instruction handler does, stated over the environment's model,
//! and the stack helpers the handlers share.
use vstd::prelude::*;
use crate::env::{Env, EnvModel, seqs, bytes_equal, copy_bytes, lemma_seqs_push};
use crate::script::{Error, ErrorModel, empty_stack_error, error_empty_stack};

verus! {

/// The environment after a step and what the step returned.
pub type Outcome = (EnvModel, Result<(), ErrorModel>);

/// `1`, the value of truth on the stack.
pub open spec fn stack_true() -> Seq<u8> {
    seq![1u8]
}

/// `0`, the value of falsehood on the stack.
pub open spec fn stack_false() -> Seq<u8> {
    seq![0u8]
}

/// The stack value for a boolean.
pub open spec fn stack_bool(b: bool) -> Seq<u8> {
    if b {
        stack_true()
    } else {
        stack_false()
    }
}

/// A successful step that leaves `m`.
pub open spec fn ok(m: EnvModel) -> Outcome {
    (m, Ok(()))
}

/// A failed step that leaves `m`.
pub open spec fn fail(m: EnvModel, e: ErrorModel) -> Outcome {
    (m, Err(e))
}

/// `m` with `vals` pushed on its stack, the last on top.
pub open spec fn push_all(m: EnvModel, vals: Seq<Seq<u8>>) -> EnvModel {
    EnvModel { stack: m.stack + vals, ..m }
}

/// `m` with `code` scheduled to run next.
pub open spec fn schedule(m: EnvModel, code: Seq<u8>) -> EnvModel {
    EnvModel { program: m.program.push(code), ..m }
}

/// Takes the top `k` values off the stack and continues with `f`, which
/// gets them bottom first. When the stack holds fewer, every value is taken
/// and the step fails with an empty stack error.
pub open spec fn after_pops(
    m: EnvModel,
    k: nat,
    f: spec_fn(EnvModel, Seq<Seq<u8>>) -> Outcome,
) -> Outcome {
    if m.stack.len() < k {
        fail(EnvModel { stack: Seq::empty(), ..m }, empty_stack_error())
    } else {
        let n = m.stack.len() - k;
        f(EnvModel { stack: m.stack.subrange(0, n), ..m }, m.stack.subrange(n, m.stack.len() as int))
    }
}

/// The step of a handler for the instruction `name`: `o` for that
/// instruction, nothing for any other.
pub open spec fn named(instruction: Seq<u8>, name: Seq<u8>, o: Outcome) -> Option<Outcome> {
    if instruction == name {
        Some(o)
    } else {
        None
    }
}

/// The first of two handlers that takes the instruction.
pub open spec fn or_else(a: Option<Outcome>, b: Option<Outcome>) -> Option<Outcome> {
    match a {
        Some(o) => Some(o),
        None => b,
    }
}

/// A handler's return and effect answer its step: an unhandled
/// instruction leaves the environment as it was; a handled one ends as the
/// step says and is never reported unhandled.
pub open spec fn answers(
    step: Option<Outcome>,
    before: EnvModel,
    after: EnvModel,
    r: Result<(), ErrorModel>,
) -> bool {
    match step {
        None => r == Err::<(), ErrorModel>(ErrorModel::UnknownInstruction) && after == before,
        Some(o) => (after, r) == o && !(r == Err::<(), ErrorModel>(ErrorModel::UnknownInstruction)),
    }
}

/// Whether an instruction is the one named.
pub fn is_instruction(instruction: &[u8], name: Vec<u8>) -> (r: bool)
    ensures
        r == (instruction@ == name@),
{
    bytes_equal(instruction, name.as_slice())
}

/// Takes the top `k` values off the stack, bottom first. When the stack
/// holds fewer, takes them all and returns an empty stack error.
pub fn pop_n(env: &mut Env, k: usize) -> (r: Result<Vec<Vec<u8>>, Error>)
    ensures
        old(env)@.stack.len() < k ==> final(env)@ == (EnvModel { stack: Seq::empty(), ..old(env)@ })
            && (r matches Err(e) && e.model() == empty_stack_error()),
        old(env)@.stack.len() >= k ==> ({
            let n = old(env)@.stack.len() - k;
            &&& final(env)@ == (EnvModel { stack: old(env)@.stack.subrange(0, n), ..old(env)@ })
            &&& r matches Ok(v) && seqs(v@) == old(env)@.stack.subrange(n, old(env)@.stack.len() as int)
        }),
{
    let mut taken: Vec<Vec<u8>> = Vec::new();
    let ghost s0 = old(env)@.stack;
    let mut i: usize = 0;
    assert(s0.subrange(0, s0.len() as int) =~= s0);
    assert(s0.subrange(s0.len() as int, s0.len() as int).reverse() =~= seqs(taken@));
    while i < k
        invariant
            s0 == old(env)@.stack,
            i <= k,
            i <= s0.len(),
            env@ == (EnvModel { stack: s0.subrange(0, s0.len() - i), ..old(env)@ }),
            seqs(taken@) == s0.subrange(s0.len() - i, s0.len() as int).reverse(),
        decreases k - i,
    {
        match env.pop() {
            Some(v) => {
                proof {
                    lemma_seqs_push(taken@, v);
                }
                taken.push(v);
                i = i + 1;
                assert(env@.stack =~= s0.subrange(0, s0.len() - i));
                assert(seqs(taken@) =~= s0.subrange(s0.len() - i, s0.len() as int).reverse());
            },
            None => {
                assert(s0.subrange(0, s0.len() - i).len() == 0);
                assert(s0.len() == i);
                assert(env@.stack =~= Seq::<Seq<u8>>::empty());
                return Err(error_empty_stack());
            },
        }
    }
    let mut result: Vec<Vec<u8>> = Vec::new();
    let ghost top = s0.subrange(s0.len() - k, s0.len() as int);
    assert(seqs(result@).reverse() =~= Seq::<Seq<u8>>::empty());
    assert(seqs(taken@) + seqs(result@).reverse() =~= top.reverse());
    while taken.len() > 0
        invariant
            seqs(taken@) + seqs(result@).reverse() == top.reverse(),
            s0 == old(env)@.stack,
            top == s0.subrange(s0.len() - k, s0.len() as int),
            k <= s0.len(),
            env@ == (EnvModel { stack: s0.subrange(0, s0.len() - k), ..old(env)@ }),
        decreases taken@.len(),
    {
        let v = taken.pop().unwrap();
        proof {
            lemma_seqs_push(result@, v);
        }
        result.push(v);
        assert(seqs(taken@) + seqs(result@).reverse() =~= top.reverse());
    }
    assert(seqs(result@).reverse() =~= top.reverse());
    assert(seqs(result@) =~= seqs(result@).reverse().reverse());
    assert(top =~= top.reverse().reverse());
    Ok(result)
}

/// Pushes a copy of `v`.
pub fn push_copy(env: &mut Env, v: &Vec<u8>)
    ensures
        final(env)@ == push_all(old(env)@, seq![v@]),
{
    env.push(copy_bytes(v.as_slice()));
    assert(old(env)@.stack.push(v@) =~= old(env)@.stack + seq![v@]);
}

/// Pushes a boolean.
pub fn push_bool(env: &mut Env, b: bool)
    ensures
        final(env)@ == push_all(old(env)@, seq![stack_bool(b)]),
{
    let v: Vec<u8> = if b {
        vec![1u8]
    } else {
        vec![0u8]
    };
    assert(v@ == stack_bool(b));
    env.push(v);
    assert(old(env)@.stack.push(stack_bool(b)) =~= old(env)@.stack + seq![stack_bool(b)]);
}

/// Reads a value as a boolean.
pub fn bool_value(v: &Vec<u8>) -> (r: Option<bool>)
    ensures
        r == (if v@ == stack_true() {
            Some(true)
        } else if v@ == stack_false() {
            Some(false)
        } else {
            None::<bool>
        }),
{
    if v.len() == 1 && v[0] == 1 {
        assert(v@ =~= stack_true());
        Some(true)
    } else if v.len() == 1 && v[0] == 0 {
        assert(v@ =~= stack_false());
        Some(false)
    } else {
        assert(v@ != stack_true());
        assert(v@ != stack_false());
        None
    }
}

} // verus!
