//! An explicit randomness supply: key generation and encryption draw mask
//! and noise words from a caller-provided buffer instead of an ambient
//! generator, so every consumer states exactly how much randomness it uses.
use vstd::prelude::*;

verus! {

/// A buffer of random torus words with a cursor; each draw consumes words
/// from the front.
pub struct EntropySource {
    pub words: Vec<u64>,
    pub next: usize,
}

impl EntropySource {
    pub open spec fn wf(&self) -> bool {
        self.next <= self.words@.len()
    }

    pub open spec fn remaining(&self) -> nat {
        (self.words@.len() - self.next) as nat
    }

    /// Wrap a buffer of random words.
    pub fn new(words: Vec<u64>) -> (r: EntropySource)
        ensures
            r.wf(),
            r.words == words,
            r.next == 0,
            r.remaining() == words@.len(),
    {
        EntropySource { words, next: 0 }
    }

    /// Draw one word.
    pub fn draw(&mut self) -> (r: u64)
        requires
            old(self).wf(),
            old(self).remaining() >= 1,
        ensures
            final(self).wf(),
            r == old(self).words@[old(self).next as int],
            final(self).words == old(self).words,
            final(self).next == old(self).next + 1,
            final(self).remaining() == old(self).remaining() - 1,
    {
        let r = self.words[self.next];
        let len = self.words.len();
        assert(self.next < len);
        self.next = self.next + 1;
        r
    }

    /// Draw n words.
    pub fn draw_vec(&mut self, n: usize) -> (r: Vec<u64>)
        requires
            old(self).wf(),
            old(self).remaining() >= n,
        ensures
            final(self).wf(),
            r@ == old(self).words@.subrange(
                old(self).next as int,
                old(self).next + n,
            ),
            final(self).words == old(self).words,
            final(self).next == old(self).next + n,
            final(self).remaining() == old(self).remaining() - n,
    {
        let mut r: Vec<u64> = Vec::new();
        let mut i: usize = 0;
        while i < n
            invariant
                self.wf(),
                self.words == old(self).words,
                self.next == old(self).next + i,
                i <= n,
                old(self).next + n <= self.words@.len(),
                r@.len() == i,
                forall|t: int| 0 <= t < i ==> r@[t] == self.words@[old(self).next + t],
            decreases n - i,
        {
            let w = self.draw();
            r.push(w);
            i = i + 1;
        }
        assert(r@ =~= old(self).words@.subrange(old(self).next as int, old(self).next + n));
        r
    }

    /// Draw a list of `count` polynomials of `n` words each.
    pub fn draw_poly_list(&mut self, count: usize, n: usize) -> (r: Vec<Vec<u64>>)
        requires
            old(self).wf(),
            old(self).remaining() >= count * n,
        ensures
            final(self).wf(),
            r@.len() == count,
            forall|t: int| 0 <= t < count ==> (#[trigger] r@[t])@.len() == n,
            final(self).words == old(self).words,
            final(self).remaining() == old(self).remaining() - count * n,
    {
        let mut r: Vec<Vec<u64>> = Vec::new();
        let mut i: usize = 0;
        while i < count
            invariant
                self.wf(),
                self.words == old(self).words,
                i <= count,
                old(self).remaining() >= count * n,
                self.remaining() == old(self).remaining() - i * n,
                r@.len() == i,
                forall|t: int| 0 <= t < i ==> (#[trigger] r@[t])@.len() == n,
            decreases count - i,
        {
            proof {
                assert((i + 1) * n <= count * n) by (nonlinear_arith)
                    requires
                        i + 1 <= count,
                        n >= 0,
                ;
                assert(i * n + n == (i + 1) * n) by (nonlinear_arith);
            }
            let p = self.draw_vec(n);
            r.push(p);
            i = i + 1;
        }
        r
    }
}

/// Peel one item's worth off a budget product.
pub proof fn lemma_peel(x: int, p: int)
    requires
        x >= 1,
    ensures
        x * p == p + (x - 1) * p,
{
    assert(x * p == p + (x - 1) * p) by (nonlinear_arith);
}

} // verus!
