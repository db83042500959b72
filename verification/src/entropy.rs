//! Entropy sources.
//!
//! Every sampling operation is driven by a caller-supplied source of
//! uniform random words.  A conforming source holds a finite (possibly
//! astronomically large) amount of entropy, measured abstractly by
//! `entropy()`.  Once the source is exhausted it keeps answering, with
//! all-zero word fills and `false` coins; every request either consumes
//! entropy or gives such a degenerate answer.  The rejection-sampling
//! loops built on top terminate on that account: a zero magnitude is
//! below every non-zero bound, and a `false` coin accepts a zero draw.
use vstd::prelude::*;
use crate::words::gen_all_zero;

verus! {

/// A source of uniform random words, bits and bytes.
pub trait EntropySource: Sized {
    /// Abstract measure of the entropy left in the source.
    open spec fn entropy(&self) -> nat {
        0
    }

    /// Fills the buffer with uniform random words, keeping its length.
    fn fill_words(&mut self, data: &mut Vec<u32>)
        ensures
            final(data)@.len() == old(data)@.len(),
            final(self).entropy() <= old(self).entropy(),
            final(self).entropy() < old(self).entropy() || gen_all_zero(final(data)@),
    ;

    /// Draws one uniform random bit.
    fn coin(&mut self) -> (r: bool)
        ensures
            final(self).entropy() <= old(self).entropy(),
            r ==> final(self).entropy() < old(self).entropy(),
    ;

    /// Fills the buffer with uniform random bytes, keeping its length.
    fn fill_bytes(&mut self, data: &mut Vec<u8>)
        ensures
            final(data)@.len() == old(data)@.len(),
            final(self).entropy() <= old(self).entropy(),
    ;
}

/// A deterministic source that replays a fixed stream of words, then
/// yields zeros.  Meant for reproducible draws and for tests.
pub struct MockEntropy {
    stream: Vec<u32>,
    pos: usize,
}

impl MockEntropy {
    /// The words not yet handed out.
    pub closed spec fn remaining(&self) -> Seq<u32> {
        if self.pos <= self.stream@.len() {
            self.stream@.skip(self.pos as int)
        } else {
            Seq::empty()
        }
    }

    pub fn new(stream: Vec<u32>) -> (r: MockEntropy)
        ensures
            r.remaining() == stream@,
            r.entropy() == stream@.len(),
    {
        let r = MockEntropy { stream, pos: 0 };
        proof {
            assert(r.remaining() =~= r.stream@);
        }
        r
    }

    /// The next word of the stream, or zero once it is exhausted.
    fn next_word(&mut self) -> (r: u32)
        ensures
            old(self).remaining().len() > 0 ==> r == old(self).remaining()[0]
                && final(self).remaining() == old(self).remaining().skip(1),
            old(self).remaining().len() == 0 ==> r == 0
                && final(self).remaining() == old(self).remaining(),
    {
        if self.pos < self.stream.len() {
            let w = self.stream[self.pos];
            self.pos = self.pos + 1;
            proof {
                assert(final(self).remaining() =~= old(self).remaining().skip(1));
            }
            w
        } else {
            0
        }
    }
}

impl EntropySource for MockEntropy {
    closed spec fn entropy(&self) -> nat {
        self.remaining().len()
    }

    fn fill_words(&mut self, data: &mut Vec<u32>) {
        let n = data.len();
        let mut i: usize = 0;
        while i < n
            invariant
                i <= n,
                data@.len() == n,
                self.entropy() <= old(self).entropy(),
                self.entropy() < old(self).entropy() || (forall|j: int|
                    0 <= j < i ==> data@[j] == 0),
            decreases n - i,
        {
            let w = self.next_word();
            data[i] = w;
            i = i + 1;
        }
    }

    fn coin(&mut self) -> (r: bool) {
        let w = self.next_word();
        w % 2 == 1
    }

    fn fill_bytes(&mut self, data: &mut Vec<u8>) {
        let n = data.len();
        let mut i: usize = 0;
        while i < n
            invariant
                i <= n,
                data@.len() == n,
                self.entropy() <= old(self).entropy(),
            decreases n - i,
        {
            let w = self.next_word();
            data[i] = (w % 256) as u8;
            i = i + 1;
        }
    }
}

} // verus!
