//! The environment of a running script: its program, stacks, dictionary,
//! error tracking and heap.
use vstd::prelude::*;
use crate::envheap::EnvHeap;
use crate::script::{Error, ErrorModel};
use crate::storage::{ReplyModel, RequestModel, StorageReply, StorageRequest, TxnKind};

verus! {

/// Initial heap chunk size.
pub const HEAP_SIZE: usize = 32768;

/// The bytes of each vector.
pub open spec fn seqs(v: Seq<Vec<u8>>) -> Seq<Seq<u8>> {
    v.map_values(|x: Vec<u8>| x@)
}

pub proof fn lemma_seqs_push(v: Seq<Vec<u8>>, x: Vec<u8>)
    ensures
        seqs(v.push(x)) == seqs(v).push(x@),
{
    assert(seqs(v.push(x)) =~= seqs(v).push(x@));
}

/// The index `scope_find` gives is that of an entry for the key.
pub proof fn lemma_scope_find(s: Seq<(Seq<u8>, Seq<u8>)>, key: Seq<u8>)
    ensures
        scope_find(s, key) matches Some(i) ==> i < s.len() && s[i as int].0 == key,
    decreases s.len(),
{
    if s.len() > 0 && s.last().0 != key {
        lemma_scope_find(s.drop_last(), key);
    }
}

/// A piece of program still to run: the rest of `code` from `pos` on.
pub struct Fragment {
    pub code: Vec<u8>,
    pub pos: usize,
}

impl Fragment {
    /// The bytes still to run.
    pub open spec fn rest(&self) -> Seq<u8> {
        if self.pos <= self.code@.len() {
            self.code@.subrange(self.pos as int, self.code@.len() as int)
        } else {
            Seq::empty()
        }
    }
}

/// A dictionary scope: definitions by instruction, the latest last.
pub type Scope = Vec<(Vec<u8>, Vec<u8>)>;

pub open spec fn scope_view(s: Seq<(Vec<u8>, Vec<u8>)>) -> Seq<(Seq<u8>, Seq<u8>)> {
    s.map_values(|p: (Vec<u8>, Vec<u8>)| (p.0@, p.1@))
}

/// The index of the last entry for `key` in a scope.
pub open spec fn scope_find(s: Seq<(Seq<u8>, Seq<u8>)>, key: Seq<u8>) -> Option<nat>
    decreases s.len(),
{
    if s.len() == 0 {
        None
    } else if s.last().0 == key {
        Some((s.len() - 1) as nat)
    } else {
        scope_find(s.drop_last(), key)
    }
}

/// A scope with `key` defined as `value`, replacing an earlier definition.
pub open spec fn scope_insert(s: Seq<(Seq<u8>, Seq<u8>)>, key: Seq<u8>, value: Seq<u8>) -> Seq<
    (Seq<u8>, Seq<u8>),
> {
    match scope_find(s, key) {
        Some(i) => s.update(i as int, (key, value)),
        None => s.push((key, value)),
    }
}

/// The definition of `key` in the innermost scope that has one.
pub open spec fn dictionary_lookup(d: Seq<Seq<(Seq<u8>, Seq<u8>)>>, key: Seq<u8>) -> Option<
    Seq<u8>,
>
    decreases d.len(),
{
    if d.len() == 0 {
        None
    } else {
        match scope_find(d.last(), key) {
            Some(i) => Some(d.last()[i as int].1),
            None => dictionary_lookup(d.drop_last(), key),
        }
    }
}

/// The dictionary with `key` defined as `value` in its innermost scope.
pub open spec fn dictionary_insert(
    d: Seq<Seq<(Seq<u8>, Seq<u8>)>>,
    key: Seq<u8>,
    value: Seq<u8>,
) -> Seq<Seq<(Seq<u8>, Seq<u8>)>> {
    if d.len() == 0 {
        seq![seq![(key, value)]]
    } else {
        d.drop_last().push(scope_insert(d.last(), key, value))
    }
}

/// Everything an environment holds but its heap.
pub struct EnvModel {
    /// Program fragments still to run, the next one last.
    pub program: Seq<Seq<u8>>,
    /// The current stack, its top last.
    pub stack: Seq<Seq<u8>>,
    /// Stacks set aside by `push_stack`, the latest last.
    pub stacks: Seq<Seq<Seq<u8>>>,
    pub return_stack: Seq<Seq<u8>>,
    /// Dictionary scopes, the innermost last.
    pub dictionary: Seq<Seq<(Seq<u8>, Seq<u8>)>>,
    /// How many TRYs are running.
    pub tracking_errors: nat,
    /// Errors that abort the running TRYs.
    pub aborting_try: Seq<ErrorModel>,
    /// A double-ended queue of values, its back last.
    pub queue: Seq<Seq<u8>>,
    /// Identifier of the callback that delivers published messages.
    pub callback: Option<u64>,
    /// The open transactions, the innermost last.
    pub txns: Seq<TxnKind>,
    /// A request to the store not yet taken.
    pub request: Option<RequestModel>,
    /// The store's reply not yet read.
    pub reply: Option<ReplyModel>,
}

/// Env is a representation of a stack and the heap.
pub struct Env {
    pub(crate) program: Vec<Fragment>,
    pub(crate) stack: Vec<Vec<u8>>,
    pub(crate) stacks: Vec<Vec<Vec<u8>>>,
    pub(crate) return_stack: Vec<Vec<u8>>,
    pub(crate) heap: EnvHeap,
    pub(crate) dictionary: Vec<Scope>,
    pub(crate) tracking_errors: usize,
    pub(crate) aborting_try: Vec<Error>,
    pub(crate) queue: Vec<Vec<u8>>,
    pub(crate) published_message_callback: Option<u64>,
    pub(crate) txns: Vec<TxnKind>,
    pub(crate) request: Option<StorageRequest>,
    pub(crate) reply: Option<StorageReply>,
}

impl View for Env {
    type V = EnvModel;

    closed spec fn view(&self) -> EnvModel {
        EnvModel {
            program: self.program@.map_values(|f: Fragment| f.rest()),
            stack: seqs(self.stack@),
            stacks: self.stacks@.map_values(|s: Vec<Vec<u8>>| seqs(s@)),
            return_stack: seqs(self.return_stack@),
            dictionary: self.dictionary@.map_values(|s: Scope| scope_view(s@)),
            tracking_errors: self.tracking_errors as nat,
            aborting_try: self.aborting_try@.map_values(|e: Error| e.model()),
            queue: seqs(self.queue@),
            callback: self.published_message_callback,
            txns: self.txns@,
            request: match &self.request {
                Some(q) => Some(q.model()),
                None => None,
            },
            reply: match &self.reply {
                Some(a) => Some(a.model()),
                None => None,
            },
        }
    }
}

/// The environment with its current stack set aside and an empty one
/// started.
pub open spec fn push_stack_spec(m: EnvModel) -> EnvModel {
    EnvModel { stack: Seq::empty(), stacks: m.stacks.push(m.stack), ..m }
}

/// Whether there is a stack set aside to return to, and the environment
/// after returning to it (unchanged when there is none).
pub open spec fn pop_stack_spec(m: EnvModel) -> (bool, EnvModel) {
    if m.stacks.len() > 0 {
        (true, EnvModel { stack: m.stacks.last(), stacks: m.stacks.drop_last(), ..m })
    } else {
        (false, m)
    }
}

/// A push or a pop of a value on the current stack.
pub enum ValueCall {
    Push(Seq<u8>),
    Pop,
}

/// The environment after pushes and pops of values, as `push` and `pop`
/// make them.
pub open spec fn after_value_calls(m: EnvModel, calls: Seq<ValueCall>) -> EnvModel
    decreases calls.len(),
{
    if calls.len() == 0 {
        m
    } else {
        let m1 = after_value_calls(m, calls.drop_last());
        match calls.last() {
            ValueCall::Push(v) => EnvModel { stack: m1.stack.push(v), ..m1 },
            ValueCall::Pop => if m1.stack.len() > 0 {
                EnvModel { stack: m1.stack.drop_last(), ..m1 }
            } else {
                m1
            },
        }
    }
}

/// The model of a fresh environment with the given stack.
pub open spec fn fresh_env(stack: Seq<Seq<u8>>) -> EnvModel {
    EnvModel {
        program: Seq::empty(),
        stack: stack,
        stacks: Seq::empty(),
        return_stack: Seq::empty(),
        dictionary: seq![Seq::empty()],
        tracking_errors: 0,
        aborting_try: Seq::empty(),
        queue: Seq::empty(),
        callback: None,
        txns: Seq::empty(),
        request: None,
        reply: None,
    }
}

/// Finds the last entry for `key` in a scope.
fn scope_find_exec(scope: &Scope, key: &Vec<u8>) -> (r: Option<usize>)
    ensures
        match r {
            Some(j) => scope_find(scope_view(scope@), key@) == Some(j as nat),
            None => scope_find(scope_view(scope@), key@) is None,
        },
{
    let mut i: usize = scope.len();
    assert(scope_view(scope@).subrange(0, i as int) =~= scope_view(scope@));
    proof {
        lemma_scope_find(scope_view(scope@), key@);
    }
    while i > 0
        invariant
            i <= scope@.len(),
            scope_find(scope_view(scope@), key@) == scope_find(scope_view(scope@).subrange(0, i as int), key@),
        decreases i,
    {
        let ghost s = scope_view(scope@).subrange(0, i as int);
        assert(s.drop_last() =~= scope_view(scope@).subrange(0, i - 1));
        if bytes_equal(scope[i - 1].0.as_slice(), key.as_slice()) {
            return Some(i - 1);
        }
        i = i - 1;
    }
    None
}

/// Whether two byte strings are equal.
pub fn bytes_equal(a: &[u8], b: &[u8]) -> (r: bool)
    ensures
        r == (a@ == b@),
{
    if a.len() != b.len() {
        return false;
    }
    let mut i: usize = 0;
    while i < a.len()
        invariant
            i <= a@.len(),
            a@.len() == b@.len(),
            forall|j: int| 0 <= j < i ==> a@[j] == b@[j],
        decreases a@.len() - i,
    {
        if a[i] != b[i] {
            return false;
        }
        i = i + 1;
    }
    assert(a@ =~= b@);
    true
}

/// Copies bytes into a new vector.
pub fn copy_bytes(v: &[u8]) -> (r: Vec<u8>)
    ensures
        r@ == v@,
{
    let mut r: Vec<u8> = Vec::new();
    crate::encoding::append_bytes(&mut r, v);
    r
}

impl Env {
    /// Creates an environment with an empty stack.
    pub fn new() -> (r: Result<Self, Error>)
        ensures
            r matches Ok(env) && env@ == fresh_env(Seq::empty()),
    {
        let v: Vec<Vec<u8>> = Vec::new();
        assert(seqs(v@) =~= Seq::<Seq<u8>>::empty());
        Env::new_with_stack(v)
    }

    /// Creates an environment with the given stack, its top last.
    pub fn new_with_stack(stack: Vec<Vec<u8>>) -> (r: Result<Self, Error>)
        ensures
            r matches Ok(env) && env@ == fresh_env(seqs(stack@)),
    {
        let mut dictionary: Vec<Scope> = Vec::new();
        dictionary.push(Vec::new());
        let env = Env {
            program: Vec::new(),
            stack: stack,
            stacks: Vec::new(),
            return_stack: Vec::new(),
            heap: EnvHeap::new(HEAP_SIZE),
            dictionary: dictionary,
            tracking_errors: 0,
            aborting_try: Vec::new(),
            queue: Vec::new(),
            published_message_callback: None,
            txns: Vec::new(),
            request: None,
            reply: None,
        };
        assert(env@.program =~= Seq::<Seq<u8>>::empty());
        assert(env@.stacks =~= Seq::<Seq<Seq<u8>>>::empty());
        assert(env@.return_stack =~= Seq::<Seq<u8>>::empty());
        assert(env@.dictionary =~~= seq![Seq::<(Seq<u8>, Seq<u8>)>::empty()]);
        assert(env@.aborting_try =~= Seq::<ErrorModel>::empty());
        assert(env@.queue =~= Seq::<Seq<u8>>::empty());
        Ok(env)
    }

    /// Sets the current stack aside and starts an empty one.
    pub fn push_stack(&mut self)
        ensures
            final(self)@ == (EnvModel {
                stack: Seq::empty(),
                stacks: old(self)@.stacks.push(old(self)@.stack),
                ..old(self)@
            }),
            final(self)@ == push_stack_spec(old(self)@),
    {
        let mut current: Vec<Vec<u8>> = Vec::new();
        std::mem::swap(&mut current, &mut self.stack);
        self.stacks.push(current);
        assert(self@.stack =~= Seq::<Seq<u8>>::empty());
        assert(self@.stacks =~= old(self)@.stacks.push(old(self)@.stack));
    }

    /// Drops the current stack and returns to the one set aside last, if
    /// there is one.
    pub fn pop_stack(&mut self) -> (r: bool)
        ensures
            r == (old(self)@.stacks.len() > 0),
            r ==> final(self)@ == (EnvModel {
                stack: old(self)@.stacks.last(),
                stacks: old(self)@.stacks.drop_last(),
                ..old(self)@
            }),
            !r ==> final(self)@ == old(self)@,
            (r, final(self)@) == pop_stack_spec(old(self)@),
    {
        match self.stacks.pop() {
            Some(s) => {
                self.stack = s;
                assert(self@.stacks =~= old(self)@.stacks.drop_last());
                true
            },
            None => false,
        }
    }

    pub fn push_return(&mut self, data: Vec<u8>)
        ensures
            final(self)@ == (EnvModel {
                return_stack: old(self)@.return_stack.push(data@),
                ..old(self)@
            }),
    {
        self.return_stack.push(data);
        assert(self@.return_stack =~= old(self)@.return_stack.push(data@));
    }

    pub fn pop_return(&mut self) -> (r: Option<Vec<u8>>)
        ensures
            old(self)@.return_stack.len() == 0 ==> r is None && final(self)@ == old(self)@,
            old(self)@.return_stack.len() > 0 ==> (r matches Some(v) && v@
                == old(self)@.return_stack.last() && final(self)@ == (EnvModel {
                return_stack: old(self)@.return_stack.drop_last(),
                ..old(self)@
            })),
    {
        let r = self.return_stack.pop();
        proof {
            if old(self)@.return_stack.len() > 0 {
                assert(self@.return_stack =~= old(self)@.return_stack.drop_last());
            } else {
                assert(self@.return_stack =~= old(self)@.return_stack);
            }
        }
        r
    }

    /// The entire current stack, its top last.
    pub fn stack(&self) -> (r: &Vec<Vec<u8>>)
        ensures
            seqs(r@) == self@.stack,
    {
        &self.stack
    }

    /// A copy of the entire current stack, its top last.
    pub fn stack_copy(&self) -> (r: Vec<Vec<u8>>)
        ensures
            seqs(r@) == self@.stack,
    {
        let mut r: Vec<Vec<u8>> = Vec::new();
        let mut i: usize = 0;
        while i < self.stack.len()
            invariant
                i <= self.stack@.len(),
                seqs(r@) == seqs(self.stack@).subrange(0, i as int),
            decreases self.stack@.len() - i,
        {
            let c = copy_bytes(self.stack[i].as_slice());
            proof {
                lemma_seqs_push(r@, c);
            }
            r.push(c);
            i = i + 1;
            assert(seqs(r@) =~= seqs(self.stack@).subrange(0, i as int));
        }
        assert(seqs(self.stack@).subrange(0, i as int) =~= seqs(self.stack@));
        r
    }

    /// The top of the stack, left in place.
    pub fn stack_top(&self) -> (r: Option<&Vec<u8>>)
        ensures
            self@.stack.len() == 0 ==> r is None,
            self@.stack.len() > 0 ==> (r matches Some(v) && v@ == self@.stack.last()),
    {
        let len = self.stack.len();
        if len == 0 {
            None
        } else {
            Some(&self.stack[len - 1])
        }
    }

    /// Removes the top of the stack and returns it.
    pub fn pop(&mut self) -> (r: Option<Vec<u8>>)
        ensures
            old(self)@.stack.len() == 0 ==> r is None && final(self)@ == old(self)@,
            old(self)@.stack.len() > 0 ==> (r matches Some(v) && v@ == old(self)@.stack.last()
                && final(self)@ == (EnvModel { stack: old(self)@.stack.drop_last(), ..old(self)@ })),
    {
        let r = self.stack.pop();
        proof {
            if old(self)@.stack.len() > 0 {
                assert(self@.stack =~= old(self)@.stack.drop_last());
            } else {
                assert(self@.stack =~= old(self)@.stack);
            }
        }
        r
    }

    /// The kind of the innermost open transaction.
    pub fn top_txn(&self) -> (r: Option<TxnKind>)
        ensures
            r == (if self@.txns.len() > 0 {
                Some(self@.txns.last())
            } else {
                None
            }),
    {
        let n = self.txns.len();
        if n > 0 {
            Some(self.txns[n - 1])
        } else {
            None
        }
    }

    /// Opens a transaction of a kind.
    pub fn push_txn(&mut self, kind: TxnKind)
        ensures
            final(self)@ == (EnvModel { txns: old(self)@.txns.push(kind), ..old(self)@ }),
    {
        self.txns.push(kind);
    }

    /// Closes the innermost open transaction, if there is one.
    pub fn pop_txn(&mut self)
        ensures
            final(self)@ == (EnvModel {
                txns: if old(self)@.txns.len() > 0 {
                    old(self)@.txns.drop_last()
                } else {
                    old(self)@.txns
                },
                ..old(self)@
            }),
    {
        if self.txns.len() > 0 {
            self.txns.pop();
            assert(self.txns@ =~= old(self)@.txns.drop_last());
        }
    }

    /// Closes every open transaction, and asks the store to do the same.
    pub fn close_transactions(&mut self)
        ensures
            final(self)@ == (EnvModel { txns: Seq::empty(), request: Some(RequestModel::EndAll), ..old(self)@ }),
    {
        self.txns = Vec::new();
        self.request = Some(StorageRequest::EndAll);
    }

    /// Leaves a request for the store.
    pub fn post_request(&mut self, q: StorageRequest)
        ensures
            final(self)@ == (EnvModel { request: Some(q.model()), ..old(self)@ }),
    {
        self.request = Some(q);
    }

    /// Takes the request left for the store.
    pub fn take_request(&mut self) -> (r: Option<StorageRequest>)
        ensures
            (match r {
                Some(q) => Some(q.model()),
                None => None,
            }) == old(self)@.request,
            final(self)@ == (EnvModel { request: None, ..old(self)@ }),
    {
        let mut q: Option<StorageRequest> = None;
        std::mem::swap(&mut q, &mut self.request);
        q
    }

    /// Hands the environment the store's reply.
    pub fn give_reply(&mut self, a: StorageReply)
        ensures
            final(self)@ == (EnvModel { reply: Some(a.model()), ..old(self)@ }),
    {
        self.reply = Some(a);
    }

    /// Takes the store's reply.
    pub fn take_reply(&mut self) -> (r: Option<StorageReply>)
        ensures
            (match r {
                Some(a) => Some(a.model()),
                None => None,
            }) == old(self)@.reply,
            final(self)@ == (EnvModel { reply: None, ..old(self)@ }),
    {
        let mut a: Option<StorageReply> = None;
        std::mem::swap(&mut a, &mut self.reply);
        a
    }

    /// Pushes a value on top of the stack.
    pub fn push(&mut self, data: Vec<u8>)
        ensures
            final(self)@ == (EnvModel { stack: old(self)@.stack.push(data@), ..old(self)@ }),
    {
        self.stack.push(data);
        assert(self@.stack =~= old(self)@.stack.push(data@));
    }

    /// Allocates `len` zeroed bytes off the environment's heap.
    pub fn allocate(&mut self, len: usize) -> (r: Result<Vec<u8>, Error>)
        ensures
            final(self)@ == old(self)@,
            r matches Ok(v) && v@ == Seq::new(len as nat, |i: int| 0u8),
    {
        if self.heap.chunk_count() >= 1 {
            let _ = self.heap.allocate(len);
        }
        let mut v: Vec<u8> = Vec::new();
        let mut i: usize = 0;
        while i < len
            invariant
                i <= len,
                v@ == Seq::new(i as nat, |j: int| 0u8),
            decreases len - i,
        {
            v.push(0);
            i = i + 1;
            assert(v@ =~= Seq::new(i as nat, |j: int| 0u8));
        }
        Ok(v)
    }

    /// Opens a new innermost dictionary scope.
    pub fn push_dictionary(&mut self)
        ensures
            final(self)@ == (EnvModel {
                dictionary: old(self)@.dictionary.push(Seq::empty()),
                ..old(self)@
            }),
    {
        self.dictionary.push(Vec::new());
        assert(self@.dictionary =~~= old(self)@.dictionary.push(Seq::empty()));
    }

    /// Closes the innermost dictionary scope, keeping at least one.
    pub fn pop_dictionary(&mut self)
        ensures
            final(self)@ == (EnvModel {
                dictionary: if old(self)@.dictionary.len() <= 1 {
                    seq![Seq::empty()]
                } else {
                    old(self)@.dictionary.drop_last()
                },
                ..old(self)@
            }),
    {
        let _ = self.dictionary.pop();
        if self.dictionary.len() == 0 {
            self.dictionary.push(Vec::new());
            assert(self@.dictionary =~~= seq![Seq::<(Seq<u8>, Seq<u8>)>::empty()]);
        } else {
            assert(self@.dictionary =~= old(self)@.dictionary.drop_last());
        }
    }

    /// The definition of an instruction in the innermost scope that has one.
    pub fn dictionary_get(&self, key: &Vec<u8>) -> (r: Option<Vec<u8>>)
        ensures
            match dictionary_lookup(self@.dictionary, key@) {
                Some(v) => r matches Some(x) && x@ == v,
                None => r is None,
            },
    {
        let mut i: usize = self.dictionary.len();
        assert(self@.dictionary.subrange(0, i as int) =~= self@.dictionary);
        while i > 0
            invariant
                i <= self.dictionary@.len(),
                dictionary_lookup(self@.dictionary, key@) == dictionary_lookup(
                    self@.dictionary.subrange(0, i as int),
                    key@,
                ),
            decreases i,
        {
            let ghost d = self@.dictionary.subrange(0, i as int);
            assert(d.drop_last() =~= self@.dictionary.subrange(0, i - 1));
            let scope = &self.dictionary[i - 1];
            assert(d.last() == scope_view(scope@));
            match scope_find_exec(scope, key) {
                Some(j) => {
                    proof {
                        lemma_scope_find(scope_view(scope@), key@);
                        assert(scope_view(scope@)[j as int] == (scope@[j as int].0@, scope@[j as int].1@));
                        assert(scope_find(d.last(), key@) == Some(j as nat));
                        assert(dictionary_lookup(d, key@) == Some(scope@[j as int].1@));
                    }
                    return Some(copy_bytes(scope[j].1.as_slice()));
                },
                None => {},
            }
            i = i - 1;
        }
        None
    }

    /// Defines an instruction in the innermost scope.
    pub fn dictionary_set(&mut self, key: Vec<u8>, value: Vec<u8>)
        ensures
            final(self)@ == (EnvModel {
                dictionary: dictionary_insert(old(self)@.dictionary, key@, value@),
                ..old(self)@
            }),
    {
        match self.dictionary.pop() {
            None => {
                let mut scope: Scope = Vec::new();
                scope.push((key, value));
                self.dictionary.push(scope);
                assert(self@.dictionary =~~= dictionary_insert(old(self)@.dictionary, key@, value@));
            },
            Some(scope) => {
                let mut scope = scope;
                let ghost before = scope_view(scope@);
                assert(before == old(self)@.dictionary.last());
                proof {
                    lemma_scope_find(before, key@);
                }
                match scope_find_exec(&scope, &key) {
                    Some(j) => {
                        scope.set(j, (key, value));
                        assert(scope_view(scope@) =~= before.update(j as int, (key@, value@)));
                        assert(scope_view(scope@) =~= scope_insert(before, key@, value@));
                    },
                    None => {
                        scope.push((key, value));
                        assert(scope_view(scope@) =~= before.push((key@, value@)));
                        assert(scope_view(scope@) =~= scope_insert(before, key@, value@));
                    },
                }
                assert(scope_view(scope@) =~= scope_insert(before, key@, value@));
                self.dictionary.push(scope);
                assert(self@.dictionary =~= old(self)@.dictionary.drop_last().push(
                    scope_insert(before, key@, value@),
                ));
            },
        }
    }

    /// Sets the callback that delivers the messages this environment
    /// subscribes to.
    pub fn set_published_message_callback(&mut self, callback: u64)
        ensures
            final(self)@ == (EnvModel { callback: Some(callback), ..old(self)@ }),
    {
        self.published_message_callback = Some(callback);
    }

    /// The callback that delivers published messages, if set.
    pub fn published_message_callback(&self) -> (r: Option<u64>)
        ensures
            r == self@.callback,
    {
        self.published_message_callback
    }

    /// Adds a value at the back of the queue.
    pub fn queue_back_push(&mut self, data: Vec<u8>)
        ensures
            final(self)@ == (EnvModel { queue: old(self)@.queue.push(data@), ..old(self)@ }),
    {
        self.queue.push(data);
        assert(self@.queue =~= old(self)@.queue.push(data@));
    }

    /// Takes the value at the back of the queue.
    pub fn queue_back_pop(&mut self) -> (r: Option<Vec<u8>>)
        ensures
            old(self)@.queue.len() == 0 ==> r is None && final(self)@ == old(self)@,
            old(self)@.queue.len() > 0 ==> (r matches Some(v) && v@ == old(self)@.queue.last()
                && final(self)@ == (EnvModel { queue: old(self)@.queue.drop_last(), ..old(self)@ })),
    {
        let r = self.queue.pop();
        proof {
            if old(self)@.queue.len() > 0 {
                assert(self@.queue =~= old(self)@.queue.drop_last());
            } else {
                assert(self@.queue =~= old(self)@.queue);
            }
        }
        r
    }

    /// Adds a value at the front of the queue.
    pub fn queue_front_push(&mut self, data: Vec<u8>)
        ensures
            final(self)@ == (EnvModel {
                queue: seq![data@] + old(self)@.queue,
                ..old(self)@
            }),
    {
        self.queue.insert(0, data);
        assert(self@.queue =~= seq![data@] + old(self)@.queue);
    }

    /// Takes the value at the front of the queue.
    pub fn queue_front_pop(&mut self) -> (r: Option<Vec<u8>>)
        ensures
            old(self)@.queue.len() == 0 ==> r is None && final(self)@ == old(self)@,
            old(self)@.queue.len() > 0 ==> (r matches Some(v) && v@ == old(self)@.queue[0]
                && final(self)@ == (EnvModel { queue: old(self)@.queue.drop_first(), ..old(self)@ })),
    {
        if self.queue.len() == 0 {
            None
        } else {
            let v = self.queue.remove(0);
            assert(self@.queue =~= old(self)@.queue.drop_first());
            Some(v)
        }
    }

    /// Whether the queue is empty.
    pub fn queue_empty(&self) -> (r: bool)
        ensures
            r == (self@.queue.len() == 0),
    {
        self.queue.len() == 0
    }

    /// Schedules `code` to run next.
    pub fn push_program(&mut self, code: Vec<u8>)
        ensures
            final(self)@ == (EnvModel { program: old(self)@.program.push(code@), ..old(self)@ }),
    {
        let f = Fragment { code: code, pos: 0 };
        assert(f.rest() =~= code@);
        self.program.push(f);
        assert(self@.program =~= old(self)@.program.push(code@));
    }

    /// Takes the program fragment to run next.
    pub fn pop_fragment(&mut self) -> (r: Option<Fragment>)
        ensures
            old(self)@.program.len() == 0 ==> r is None && final(self)@ == old(self)@,
            old(self)@.program.len() > 0 ==> (r matches Some(f) && f.rest()
                == old(self)@.program.last() && final(self)@ == (EnvModel {
                program: old(self)@.program.drop_last(),
                ..old(self)@
            })),
    {
        let r = self.program.pop();
        proof {
            if old(self)@.program.len() > 0 {
                assert(self@.program =~= old(self)@.program.drop_last());
            } else {
                assert(self@.program =~= old(self)@.program);
            }
        }
        r
    }

    /// Schedules a fragment to run next.
    pub fn push_fragment(&mut self, f: Fragment)
        ensures
            final(self)@ == (EnvModel { program: old(self)@.program.push(f.rest()), ..old(self)@ }),
    {
        self.program.push(f);
        assert(self@.program =~= old(self)@.program.push(f.rest()));
    }

    /// How many TRYs are running.
    pub fn tracking_errors(&self) -> (r: usize)
        ensures
            r == self@.tracking_errors,
    {
        self.tracking_errors
    }

    /// Sets how many TRYs are running.
    pub fn set_tracking_errors(&mut self, n: usize)
        ensures
            final(self)@ == (EnvModel { tracking_errors: n as nat, ..old(self)@ }),
    {
        self.tracking_errors = n;
    }

    /// Whether no error is aborting a TRY.
    pub fn aborting_try_is_empty(&self) -> (r: bool)
        ensures
            r == (self@.aborting_try.len() == 0),
    {
        self.aborting_try.len() == 0
    }

    /// Records an error that aborts the running TRY.
    pub fn push_aborting_try(&mut self, e: Error)
        ensures
            final(self)@ == (EnvModel {
                aborting_try: old(self)@.aborting_try.push(e.model()),
                ..old(self)@
            }),
    {
        self.aborting_try.push(e);
        assert(self@.aborting_try =~= old(self)@.aborting_try.push(e.model()));
    }

    /// Takes the error recorded last for the running TRY.
    pub fn pop_aborting_try(&mut self) -> (r: Option<Error>)
        ensures
            old(self)@.aborting_try.len() == 0 ==> r is None && final(self)@ == old(self)@,
            old(self)@.aborting_try.len() > 0 ==> (r matches Some(e) && e.model()
                == old(self)@.aborting_try.last() && final(self)@ == (EnvModel {
                aborting_try: old(self)@.aborting_try.drop_last(),
                ..old(self)@
            })),
    {
        let r = self.aborting_try.pop();
        proof {
            if old(self)@.aborting_try.len() > 0 {
                assert(self@.aborting_try =~= old(self)@.aborting_try.drop_last());
            } else {
                assert(self@.aborting_try =~= old(self)@.aborting_try);
            }
        }
        r
    }

    /// Whether no program is left to run.
    pub fn program_is_done(&self) -> (r: bool)
        ensures
            r == (self@.program.len() == 0 || (self@.program.len() == 1
                && self@.program[0].len() == 0)),
    {
        let n = self.program.len();
        if n == 0 {
            return true;
        }
        if n == 1 {
            let f = &self.program[0];
            assert(self@.program[0] == f.rest());
            return f.pos >= f.code.len();
        }
        false
    }
}

} // verus!
