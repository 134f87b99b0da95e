//! Bookkeeping of an environment's heap.
//!
//! The heap is a list of chunks. A chunk is never resized: when no chunk
//! has room for an allocation, a new chunk is added, so a region once handed
//! out is never moved or handed out again.
use vstd::prelude::*;

verus! {

/// Whether `size` bytes fit in a chunk with `used` of `cap` bytes taken.
pub open spec fn fits(chunk: (usize, usize), size: usize) -> bool {
    chunk.0 <= chunk.1 && size <= chunk.1 - chunk.0
}

/// What `allocate` does: `r` is the chunk and offset of a region of `size`
/// bytes, taken from the first chunk of `before` with room for it, or else
/// from a new chunk as large as the last one (or as `size`, if that is
/// larger); `after` is the heap once the region is taken.
pub open spec fn allocated(before: Seq<(usize, usize)>, size: usize, r: (usize, usize), after: Seq<(usize, usize)>) -> bool {
    &&& r.0 <= before.len()
    &&& r.0 < before.len() ==> {
        &&& fits(before[r.0 as int], size)
        &&& forall|j: int| 0 <= j < r.0 ==> !fits(#[trigger] before[j], size)
        &&& r.1 == before[r.0 as int].0
        &&& after == before.update(r.0 as int, ((r.1 + size) as usize, before[r.0 as int].1))
    }
    &&& r.0 == before.len() ==> {
        &&& forall|j: int| 0 <= j < before.len() ==> !fits(#[trigger] before[j], size)
        &&& r.1 == 0
        &&& after == before.push(
            (
                size,
                if before.last().1 >= size {
                    before.last().1
                } else {
                    size
                },
            ),
        )
    }
}

/// Whether every chunk has taken no more than its capacity.
pub open spec fn heap_wf(h: Seq<(usize, usize)>) -> bool {
    forall|j: int| 0 <= j < h.len() ==> (#[trigger] h[j]).0 <= h[j].1
}

/// Whether a region (chunk, offset, length) lies in the taken part of its
/// chunk.
pub open spec fn region_taken(h: Seq<(usize, usize)>, region: (usize, usize, usize)) -> bool {
    region.0 < h.len() && region.1 + region.2 <= h[region.0 as int].0
}

pub struct EnvHeap {
    /// For each chunk, the bytes taken and its capacity.
    chunks: Vec<(usize, usize)>,
}

impl View for EnvHeap {
    type V = Seq<(usize, usize)>;

    closed spec fn view(&self) -> Seq<(usize, usize)> {
        self.chunks@
    }
}

impl EnvHeap {
    /// Every chunk has taken no more than its capacity, and there is at
    /// least one chunk.
    #[verifier::type_invariant]
    closed spec fn inv(self) -> bool {
        &&& heap_wf(self.chunks@)
        &&& self.chunks@.len() >= 1
    }

    /// Creates a heap with one empty chunk of `chunk_size` bytes.
    pub fn new(chunk_size: usize) -> (r: Self)
        ensures
            r@ == seq![(0usize, chunk_size)],
    {
        let mut chunks: Vec<(usize, usize)> = Vec::new();
        chunks.push((0, chunk_size));
        assert(chunks@ =~= seq![(0usize, chunk_size)]);
        EnvHeap { chunks }
    }

    /// The number of chunks.
    pub fn chunk_count(&self) -> (r: usize)
        ensures
            r == self@.len(),
            r >= 1,
            heap_wf(self@),
    {
        proof {
            use_type_invariant(self);
        }
        self.chunks.len()
    }

    /// Allocates `size` bytes: in the first chunk with room for them, or
    /// else in a new chunk as large as the last one (or as `size`, if that
    /// is larger). Returns the chunk's index and the offset of the region,
    /// which fits in its chunk, is now taken, and overlaps no region taken
    /// before; the regions taken before stay where they were, still taken.
    pub fn allocate(&mut self, size: usize) -> (r: (usize, usize))
        ensures
            allocated(old(self)@, size, r, final(self)@),
            heap_wf(old(self)@),
            heap_wf(final(self)@),
            region_taken(final(self)@, (r.0, r.1, size)),
            r.1 + size <= final(self)@[r.0 as int].1,
            forall|prior: (usize, usize, usize)| #[trigger] region_taken(old(self)@, prior) ==> {
                &&& region_taken(final(self)@, prior)
                &&& (prior.0 != r.0 || prior.1 + prior.2 <= r.1)
            },
    {
        proof {
            use_type_invariant(&*self);
        }
        let mut taken = EnvHeap { chunks: vec![(0usize, 0usize)] };
        std::mem::swap(&mut taken, self);
        proof {
            use_type_invariant(&taken);
        }
        let EnvHeap { chunks } = taken;
        let ghost before = chunks@;
        let mut chunks = chunks;
        let n = chunks.len();
        let mut i: usize = 0;
        let mut found: Option<usize> = None;
        while i < n
            invariant
                i <= n,
                n == chunks@.len(),
                chunks@ == before,
                found matches Some(k) ==> k < n && fits(before[k as int], size)
                    && forall|j: int| 0 <= j < k ==> !fits(#[trigger] before[j], size),
                found is None ==> forall|j: int| 0 <= j < i ==> !fits(#[trigger] before[j], size),
                found is Some ==> i == n,
            decreases n - i,
        {
            let (used, cap) = chunks[i];
            if used <= cap && size <= cap - used {
                found = Some(i);
                i = n;
            } else {
                i = i + 1;
            }
        }
        let r: (usize, usize) = match found {
            Some(k) => {
                let (used, cap) = chunks[k];
                chunks.set(k, (used + size, cap));
                (k, used)
            },
            None => {
                let last_cap = chunks[n - 1].1;
                let cap = if last_cap >= size {
                    last_cap
                } else {
                    size
                };
                chunks.push((size, cap));
                (n, 0)
            },
        };
        proof {
            assert(allocated(before, size, r, chunks@));
            assert forall|prior: (usize, usize, usize)| #[trigger] region_taken(before, prior) implies {
                &&& region_taken(chunks@, prior)
                &&& (prior.0 != r.0 || prior.1 + prior.2 <= r.1)
            } by {
                crate::laws::law_allocation_disjoint(before, size, r, chunks@, prior);
            }
            crate::laws::law_allocation_disjoint(before, size, r, chunks@, (0, 0, 0));
        }
        *self = EnvHeap { chunks };
        r
    }
}

} // verus!
