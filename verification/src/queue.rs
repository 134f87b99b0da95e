//! A bounded last-in, first-out container.
use vstd::prelude::*;

verus! {

/// Refusal to add an element to a full container.
#[derive(Debug, PartialEq, Eq, Structural)]
pub enum InsertError {
    Full,
}

/// Holds at most `capacity` elements; `pop` and `peek` see the element
/// pushed last.
#[derive(Debug)]
pub struct Queue<T> {
    max_size: usize,
    count: usize,
    elements: Vec<T>,
}

/// A call on the container.
pub enum Call<T> {
    Push(T),
    Pop,
}

/// The elements after a push on a container holding at most `max`: a full
/// one is left as it is.
pub open spec fn push_spec<T>(items: Seq<T>, max: nat, el: T) -> Seq<T> {
    if items.len() < max {
        items.push(el)
    } else {
        items
    }
}

/// The elements after a pop: the last one goes, if there is one.
pub open spec fn pop_spec<T>(items: Seq<T>) -> Seq<T> {
    if items.len() > 0 {
        items.drop_last()
    } else {
        items
    }
}

/// The elements after a sequence of calls, with the number of pushes that
/// returned `Ok` and of pops that returned `Some`.
pub open spec fn after_calls<T>(items: Seq<T>, max: nat, calls: Seq<Call<T>>) -> (Seq<T>, nat, nat)
    decreases calls.len(),
{
    if calls.len() == 0 {
        (items, 0, 0)
    } else {
        let (q, pushed, popped) = after_calls(items, max, calls.drop_last());
        match calls.last() {
            Call::Push(el) => if q.len() < max {
                (push_spec(q, max, el), pushed + 1, popped)
            } else {
                (q, pushed, popped)
            },
            Call::Pop => if q.len() > 0 {
                (pop_spec(q), pushed, popped + 1)
            } else {
                (q, pushed, popped)
            },
        }
    }
}

impl<T> View for Queue<T> {
    type V = Seq<T>;

    closed spec fn view(&self) -> Seq<T> {
        self.elements@
    }
}

impl<T> Queue<T> {
    #[verifier::type_invariant]
    closed spec fn inv(self) -> bool {
        &&& self.count == self.elements@.len()
        &&& self.count <= self.max_size
    }

    /// The most elements the container holds.
    pub closed spec fn max(&self) -> nat {
        self.max_size as nat
    }

    pub fn new(max_size: usize) -> (r: Self)
        ensures
            r@ == Seq::<T>::empty(),
            r.max() == max_size,
    {
        Queue { max_size: max_size, count: 0, elements: Vec::new() }
    }

    pub fn len(&self) -> (r: usize)
        ensures
            r == self@.len(),
            r <= self.max(),
    {
        proof {
            use_type_invariant(self);
        }
        self.count
    }

    pub fn capacity(&self) -> (r: usize)
        ensures
            r == self.max(),
            self@.len() <= r,
    {
        proof {
            use_type_invariant(self);
        }
        self.max_size
    }

    /// Adds an element and returns the new number of elements, or refuses
    /// when the container is full.
    pub fn push(&mut self, el: T) -> (r: Result<usize, InsertError>)
        ensures
            final(self).max() == old(self).max(),
            old(self)@.len() >= old(self).max() ==> r == Err::<usize, InsertError>(InsertError::Full)
                && final(self)@ == old(self)@,
            old(self)@.len() < old(self).max() ==> r == Ok::<usize, InsertError>(
                (old(self)@.len() + 1) as usize,
            ) && final(self)@ == old(self)@.push(el),
            final(self)@ == push_spec(old(self)@, old(self).max(), el),
    {
        proof {
            use_type_invariant(&*self);
        }
        if self.count >= self.max_size {
            return Err(InsertError::Full);
        }
        let max_size = self.max_size;
        let count = self.count + 1;
        let mut taken = Self { max_size: 0, count: 0, elements: Vec::new() };
        std::mem::swap(&mut taken, self);
        proof {
            use_type_invariant(&taken);
        }
        let Self { max_size: _, count: _, elements } = taken;
        let mut elements = elements;
        elements.push(el);
        *self = Self { max_size: max_size, count: count, elements: elements };
        Ok(count)
    }

    /// The element pushed last, if any.
    pub fn peek(&self) -> (r: Option<&T>)
        ensures
            self@.len() == 0 ==> r is None,
            self@.len() > 0 ==> r == Some(&self@.last()),
    {
        if self.elements.len() == 0 {
            None
        } else {
            Some(&self.elements[self.elements.len() - 1])
        }
    }

    /// Removes and returns the element pushed last, if any.
    pub fn pop(&mut self) -> (r: Option<T>)
        ensures
            final(self).max() == old(self).max(),
            old(self)@.len() == 0 ==> r is None && final(self)@ == old(self)@,
            old(self)@.len() > 0 ==> r == Some(old(self)@.last()) && final(self)@ == old(
                self,
            )@.drop_last(),
            final(self)@ == pop_spec(old(self)@),
    {
        proof {
            use_type_invariant(&*self);
        }
        let max_size = self.max_size;
        let mut taken = Self { max_size: 0, count: 0, elements: Vec::new() };
        std::mem::swap(&mut taken, self);
        proof {
            use_type_invariant(&taken);
        }
        let Self { max_size: _, count: _, elements } = taken;
        let mut elements = elements;
        let r = elements.pop();
        let count = elements.len();
        *self = Self { max_size: max_size, count: count, elements: elements };
        r
    }
}

} // verus!
