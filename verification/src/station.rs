//! Fixed-capacity measurement-station keys and the hash that buckets them.

use vstd::prelude::*;

verus! {

/// The longest station name a key can hold.
pub const NAME_MAX_LEN: usize = 100;

/// One step of the Fowler-Noll-Vo hash: fold a byte in, then multiply by
/// the FNV prime, wrapping.
pub open spec fn fnv_step(h: u64, b: u8) -> u64 {
    vstd::wrapping::u64_specs::wrapping_mul(h ^ (b as u64), 0x100000001b3)
}

pub open spec fn spec_hash_upto(s: Seq<u8>, k: int) -> u64
    decreases k,
{
    if k <= 0 {
        0xcbf29ce484222325
    } else {
        fnv_step(spec_hash_upto(s, k - 1), s[k - 1])
    }
}

/// The bucketing hash: FNV-1a folded over at most the first four bytes of
/// the name.
pub open spec fn spec_hash(s: Seq<u8>) -> u64 {
    if s.len() < 4 {
        spec_hash_upto(s, s.len() as int)
    } else {
        spec_hash_upto(s, 4)
    }
}

/// FNV-1a over at most the first four bytes of `data`.
pub fn hash(data: &[u8]) -> (r: u64)
    ensures
        r == spec_hash(data@),
{
    let n = if data.len() < 4 {
        data.len()
    } else {
        4
    };
    let mut h: u64 = 0xcbf29ce484222325;
    let mut i: usize = 0;
    while i < n
        invariant
            n <= data@.len(),
            i <= n,
            h == spec_hash_upto(data@, i as int),
        decreases n - i,
    {
        h = (h ^ (data[i] as u64)).wrapping_mul(0x100000001b3);
        i = i + 1;
    }
    h
}

/// A station name held inline in a fixed buffer, so a table of keys stays
/// free of per-entry allocations.
#[derive(Debug, Clone, Copy)]
pub struct Key {
    len: u8,
    data: [u8; NAME_MAX_LEN],
}

impl Key {
    #[verifier::type_invariant]
    spec fn wf(&self) -> bool {
        self.len as int <= NAME_MAX_LEN
    }

    /// The name this key holds.
    pub closed spec fn spec_name(&self) -> Seq<u8> {
        self.data@.take(self.len as int)
    }

    /// A key holding `name`.
    pub fn new(name: &[u8]) -> (r: Key)
        requires
            name@.len() <= NAME_MAX_LEN,
        ensures
            r.spec_name() == name@,
    {
        let mut data = [0u8; NAME_MAX_LEN];
        let n = name.len();
        let mut i: usize = 0;
        while i < n
            invariant
                n == name@.len(),
                n <= NAME_MAX_LEN,
                i <= n,
                forall|j: int| 0 <= j < i ==> data@[j] == name@[j],
        decreases n - i,
        {
            data[i] = name[i];
            i = i + 1;
        }
        let r = Key { len: n as u8, data };
        proof {
            assert(r.spec_name() =~= name@);
        }
        r
    }

    /// Whether this key holds exactly `name`.
    pub fn eq_name(&self, name: &[u8]) -> (r: bool)
        ensures
            r == (self.spec_name() == name@),
    {
        proof {
            use_type_invariant(self);
        }
        if name.len() != self.len as usize {
            proof {
                assert(self.spec_name().len() != name@.len());
            }
            return false;
        }
        let n = name.len();
        let mut i: usize = 0;
        while i < n
            invariant
                n == name@.len(),
                n == self.len as int,
                self.wf(),
                i <= n,
                forall|j: int| 0 <= j < i ==> self.data@[j] == name@[j],
            decreases n - i,
        {
            if self.data[i] != name[i] {
                proof {
                    assert(self.spec_name()[i as int] != name@[i as int]);
                }
                return false;
            }
            i = i + 1;
        }
        proof {
            assert(self.spec_name() =~= name@);
        }
        true
    }

    /// The name as a byte slice.
    pub fn as_bytes(&self) -> (r: &[u8])
        ensures
            r@ == self.spec_name(),
    {
        proof {
            use_type_invariant(self);
        }
        let r = vstd::slice::slice_subrange(self.data.as_slice(), 0, self.len as usize);
        proof {
            assert(r@ =~= self.spec_name());
        }
        r
    }
}

impl Default for Key {
    /// The empty name.
    fn default() -> (r: Key)
        ensures
            r.spec_name() == Seq::<u8>::empty(),
    {
        let r = Key { len: 0, data: [0u8; NAME_MAX_LEN] };
        proof {
            assert(r.spec_name() =~= Seq::<u8>::empty());
        }
        r
    }
}

} // verus!
