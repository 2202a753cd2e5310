use vstd::prelude::*;

verus! {

/// How many buffers a fresh pool holds, and the capacity each is given.
pub const INIT_CAPACITY: usize = 8;

/// A pool of reusable vector buffers, kept to avoid per-call heap churn:
/// scratch vectors are taken from the pool around a resolution call and
/// handed back afterwards.
#[derive(Debug)]
pub struct VecPool<T> {
    pool: Vec<Vec<T>>,
}

impl<T> VecPool<T> {
    /// How many buffers the pool currently holds.
    pub closed spec fn pooled(&self) -> nat {
        self.pool@.len()
    }

    /// A pool pre-filled with buffers that have capacity already reserved.
    pub fn new_fat() -> (r: Self)
        ensures
            r.pooled() == INIT_CAPACITY,
    {
        let mut pool: Vec<Vec<T>> = Vec::new();
        let mut i: usize = 0;
        while i < INIT_CAPACITY
            invariant
                pool@.len() == i,
                i <= INIT_CAPACITY,
            decreases INIT_CAPACITY - i,
        {
            pool.push(Vec::with_capacity(INIT_CAPACITY));
            i = i + 1;
        }
        VecPool { pool }
    }

    /// An empty buffer: one of the pooled ones if any is left, else a fresh
    /// allocation. Buffers are cleared on both paths, so the emptiness of
    /// what a caller receives does not rest on the pool's history.
    pub fn get(&mut self) -> (r: Vec<T>)
        ensures
            r@.len() == 0,
            final(self).pooled() == if old(self).pooled() > 0 {
                (old(self).pooled() - 1) as nat
            } else {
                old(self).pooled()
            },
    {
        match self.pool.pop() {
            Some(mut v) => {
                v.clear();
                v
            },
            None => Vec::with_capacity(INIT_CAPACITY),
        }
    }

    /// Hands a buffer back to the pool; its contents are dropped.
    pub fn ret(&mut self, vec: Vec<T>)
        ensures
            final(self).pooled() == old(self).pooled() + 1,
    {
        let mut vec = vec;
        vec.clear();
        self.pool.push(vec);
    }
}

impl<T> Default for VecPool<T> {
    /// The same pre-filled pool as `new_fat`.
    fn default() -> (r: Self)
        ensures
            r.pooled() == INIT_CAPACITY,
    {
        Self::new_fat()
    }
}

} // verus!
