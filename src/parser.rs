use vstd::prelude::*;
use vstd::slice::slice_subrange;

verus! {

/// Failure of writing into a caller-supplied buffer.
#[derive(PartialEq, Eq, Copy, Clone, Debug)]
pub enum StreamError {
    BufferOverflow { max_bytes: usize, actual_size: usize },
}

/// A read-only cursor over a byte slice, with a read position that only moves forward.
pub struct RawIter<'a> {
    data: &'a [u8],
    index: usize,
}

impl<'a> RawIter<'a> {
    /// The whole input the cursor walks over.
    pub closed spec fn input(&self) -> Seq<u8> {
        self.data@
    }

    /// The number of bytes consumed so far.
    pub closed spec fn pos(&self) -> nat {
        self.index as nat
    }

    /// The position never passes the end of the input.
    pub open spec fn wf(&self) -> bool {
        self.pos() <= self.input().len()
    }

    /// The bytes not yet consumed.
    pub open spec fn rest(&self) -> Seq<u8> {
        self.input().subrange(self.pos() as int, self.input().len() as int)
    }

    pub fn new(data: &'a [u8]) -> (r: Self)
        ensures
            r.input() == data@,
            r.pos() == 0,
            r.wf(),
    {
        Self { index: 0, data }
    }

    /// The unconsumed remainder of the input.
    pub fn data(&self) -> (r: &[u8])
        requires
            self.wf(),
        ensures
            r@ == self.rest(),
    {
        slice_subrange(self.data, self.index, self.data.len())
    }

    /// Moves the read position forward by `len` bytes.
    pub fn advance(&mut self, len: usize)
        requires
            old(self).pos() + len <= old(self).input().len(),
        ensures
            final(self).input() == old(self).input(),
            final(self).pos() == old(self).pos() + len,
            final(self).wf(),
    {
        assert(self.data@.len() == self.data.len());
        self.index = self.index + len;
    }

    /// The number of bytes consumed so far.
    pub fn index(&self) -> (r: usize)
        ensures
            r == self.pos(),
    {
        self.index
    }
}

/// The bytes of a run of ASCII characters.
pub open spec fn ascii(cs: Seq<char>) -> Seq<u8> {
    Seq::new(cs.len(), |i: int| cs[i] as u8)
}

/// Whether `t` occurs in `d` starting at offset `k`.
pub open spec fn occurs_at(d: Seq<u8>, k: int, t: Seq<u8>) -> bool {
    0 <= k && k + t.len() <= d.len() && d.subrange(k, k + t.len()) == t
}

/// Tests whether the bytes of `t` stand in `d` at offset `k`.
pub fn matches_at(d: &[u8], k: usize, t: &[u8]) -> (r: bool)
    ensures
        r == occurs_at(d@, k as int, t@),
{
    if k > d.len() || t.len() > d.len() - k {
        return false;
    }
    let mut i: usize = 0;
    while i < t.len()
        invariant
            i <= t@.len(),
            k + t@.len() <= d@.len(),
            d@.len() == d.len(),
            forall|j: int| 0 <= j < i ==> d@[k + j] == t@[j],
        decreases t@.len() - i,
    {
        if d[k + i] != t[i] {
            assert(d@.subrange(k as int, k + t@.len())[i as int] != t@[i as int]);
            return false;
        }
        i = i + 1;
    }
    assert(d@.subrange(k as int, k + t@.len()) =~= t@);
    true
}

} // verus!
