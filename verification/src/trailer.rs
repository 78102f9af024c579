//! Sliding buffer that holds back the most recent bytes of an upload stream.
//!
//! The upload protocol appends the expected checksum as literal trailing
//! bytes.  While the stream is read, the buffer retains only the newest
//! `size` bytes; everything it evicts is confirmed payload and may be written
//! through to storage and hashed.
use vstd::prelude::*;

verus! {

use vstd::slice::slice_index_get;

/// The last `min(cap, s.len())` elements of `s`, in original order.
pub open spec fn suffix_within(s: Seq<u8>, cap: nat) -> Seq<u8> {
    if s.len() <= cap {
        s
    } else {
        s.skip(s.len() - cap)
    }
}

/// Pushing onto the retained suffix keeps the same suffix as pushing onto
/// the whole stream.
pub proof fn lemma_suffix_absorb(s: Seq<u8>, t: Seq<u8>, cap: nat)
    ensures
        suffix_within(suffix_within(s, cap) + t, cap) == suffix_within(s + t, cap),
{
    let a = suffix_within(s, cap);
    if s.len() <= cap {
        assert(a + t =~= s + t);
    } else {
        assert(a.len() == cap);
        let lhs = suffix_within(a + t, cap);
        let rhs = suffix_within(s + t, cap);
        assert forall|j: int| 0 <= j < lhs.len() implies lhs[j] == rhs[j] by {
            if t.len() + j < cap {
                assert(lhs[j] == a[t.len() + j]);
                assert(rhs[j] == (s + t)[s.len() + t.len() - cap + j]);
            }
        }
        assert(lhs =~= rhs);
    }
}

/// A buffer that keeps exactly the most recently pushed `size` bytes of a
/// chunked stream, handing the older, evicted bytes back to the caller.
pub struct UploadBuffer {
    size: usize,
    buff: Vec<u8>,
    fed: Ghost<Seq<u8>>,
}

impl UploadBuffer {
    /// The capacity the buffer was created with.
    pub closed spec fn cap(self) -> nat {
        self.size as nat
    }

    /// The bytes currently held, oldest first.
    pub closed spec fn contents(self) -> Seq<u8> {
        self.buff@
    }

    /// Every byte ever pushed, in order.
    pub closed spec fn all_fed(self) -> Seq<u8> {
        self.fed@
    }

    /// The buffer always holds exactly the newest `min(cap, total pushed)`
    /// bytes of the stream.
    pub closed spec fn wf(self) -> bool {
        self.buff@ == suffix_within(self.fed@, self.size as nat)
    }

    /// Create a new buffer.
    pub fn new(size: usize) -> (r: UploadBuffer)
        ensures
            r.wf(),
            r.cap() == size,
            r.all_fed() == Seq::<u8>::empty(),
            r.contents() == Seq::<u8>::empty(),
    {
        UploadBuffer { size, buff: Vec::new(), fed: Ghost(Seq::empty()) }
    }

    /// Push `bytes` into the buffer and return the bytes this push evicts:
    /// the oldest bytes beyond the capacity, in original stream order.
    pub fn push(&mut self, bytes: &[u8]) -> (evicted: Vec<u8>)
        requires
            old(self).wf(),
            old(self).all_fed().len() + bytes@.len() <= usize::MAX,
        ensures
            final(self).wf(),
            final(self).cap() == old(self).cap(),
            final(self).all_fed() == old(self).all_fed() + bytes@,
            evicted@ + final(self).contents() == old(self).contents() + bytes@,
            final(self).contents() == suffix_within(old(self).contents() + bytes@, old(self).cap()),
    {
        proof {
            assert(self.buff@.len() <= self.fed@.len());
        }
        let mut i: usize = 0;
        let ghost pre = self.buff@;
        while i < bytes.len()
            invariant
                i <= bytes@.len(),
                self.buff@ == pre + bytes@.take(i as int),
                pre.len() + bytes@.len() <= usize::MAX,
                self.size == old(self).size,
                self.fed@ == old(self).fed@,
            decreases bytes@.len() - i,
        {
            self.buff.push(*slice_index_get(bytes, i));
            assert(pre + bytes@.take(i + 1) == (pre + bytes@.take(i as int)).push(
                bytes@[i as int]));
            i += 1;
        }
        assert(bytes@.take(bytes@.len() as int) == bytes@);
        let cut: usize = if self.buff.len() > self.size {
            self.buff.len() - self.size
        } else {
            0
        };
        let mut evicted = self.buff.split_off(cut);
        core::mem::swap(&mut self.buff, &mut evicted);
        proof {
            let prior = self.fed@;
            self.fed@ = self.fed@ + bytes@;
            assert(evicted@ + self.buff@ =~= pre + bytes@);
            assert(self.buff@ =~= suffix_within(pre + bytes@, self.size as nat));
            lemma_suffix_absorb(prior, bytes@, self.size as nat);
        }
        evicted
    }

    /// Replace the held bytes as if everything had been pushed one byte at a
    /// time, dropping whatever is evicted.
    pub fn set(&mut self, bytes: &[u8])
        requires
            old(self).wf(),
            old(self).all_fed().len() + bytes@.len() <= usize::MAX,
        ensures
            final(self).wf(),
            final(self).cap() == old(self).cap(),
            final(self).all_fed() == old(self).all_fed() + bytes@,
    {
        let _ = self.push(bytes);
    }

    /// The current buffer value: exactly the last `min(cap, total pushed)`
    /// bytes of everything pushed so far, oldest to newest.
    pub fn get(&self) -> (r: Vec<u8>)
        requires
            self.wf(),
        ensures
            r@ == self.contents(),
            r@ == suffix_within(self.all_fed(), self.cap()),
    {
        vstd::slice::slice_to_vec(self.buff.as_slice())
    }

    /// How many bytes the buffer currently holds.
    pub fn len(&self) -> (r: usize)
        ensures
            r == self.contents().len(),
    {
        self.buff.len()
    }

    /// The buffer's capacity.
    pub fn size(&self) -> (r: usize)
        ensures
            r == self.cap(),
    {
        self.size
    }
}

} // verus!
