//! Exhaustive brute force: every string over a fixed alphabet whose
//! length lies in an inclusive range, ascending by length and, within
//! one length, in counting-odometer (lexicographic index) order.

use vstd::prelude::*;
use crate::errors::CrackError;
use crate::odometer::{Odometer, charsets_wf, total_words, word_at, lemma_total_pos};

verus! {

/// `l` copies of the alphabet `a`: the position alphabets of the
/// length-`l` block.
pub open spec fn uniform_charsets(a: Seq<u8>, l: nat) -> Seq<Seq<u8>> {
    Seq::new(l, |i: int| a)
}

/// All strings over `a` of each length `l..=max`, shortest block first,
/// each block in counting order.
pub open spec fn space_from(a: Seq<u8>, l: nat, max: nat) -> Seq<Seq<u8>>
    decreases max + 1 - l,
{
    if l > max {
        Seq::empty()
    } else {
        Seq::new(
            total_words(uniform_charsets(a, l)),
            |i: int| word_at(uniform_charsets(a, l), i as nat),
        ) + space_from(a, (l + 1) as nat, max)
    }
}

/// Over an empty alphabet there is no string of positive length.
proof fn lemma_space_from_empty(a: Seq<u8>, l: nat, max: nat)
    requires
        a.len() == 0,
        l >= 1,
    ensures
        space_from(a, l, max) == Seq::<Seq<u8>>::empty(),
    decreases max + 1 - l,
{
    if l > max {
    } else {
        assert(uniform_charsets(a, l).last() == a);
        assert(total_words(uniform_charsets(a, l)) == 0);
        lemma_space_from_empty(a, (l + 1) as nat, max);
        assert(space_from(a, l, max) =~= Seq::<Seq<u8>>::empty());
    }
}

/// Candidate producer over all strings of `alphabet` with lengths
/// `min_len..=max_len`.
pub struct DefaultQuery {
    /// The fixed candidate alphabet.
    pub alphabet: Vec<u8>,
    /// Inclusive length bounds.
    pub min_len: usize,
    /// Inclusive upper length bound.
    pub max_len: usize,
    /// Length of the block being enumerated.
    pub cur_len: usize,
    /// Odometer over the current block.
    pub odo: Odometer,
    /// Set once every length has been exhausted.
    pub done: bool,
}

impl DefaultQuery {
    /// Internal consistency of the cursor.
    pub open spec fn wf(&self) -> bool {
        &&& self.min_len <= self.max_len
        &&& !self.done ==> {
            &&& self.alphabet@.len() > 0
            &&& self.min_len <= self.cur_len <= self.max_len
            &&& self.odo.wf()
            &&& self.odo.cs() == uniform_charsets(self.alphabet@, self.cur_len as nat)
        }
    }

    /// The candidates not yet emitted, in emission order.
    pub open spec fn remaining(&self) -> Seq<Seq<u8>> {
        if self.done {
            Seq::empty()
        } else {
            self.odo.remaining() + space_from(
                self.alphabet@,
                (self.cur_len + 1) as nat,
                self.max_len as nat,
            )
        }
    }

    /// A fresh byte vector with the same contents as `src`.
    fn copy_bytes(src: &Vec<u8>) -> (r: Vec<u8>)
        ensures
            r@ == src@,
    {
        let mut out: Vec<u8> = Vec::new();
        let mut i: usize = 0;
        while i < src.len()
            invariant
                i <= src@.len(),
                out@ == src@.take(i as int),
            decreases src@.len() - i,
        {
            let b = src[i];
            out.push(b);
            assert(out@ =~= src@.take((i + 1) as int));
            i = i + 1;
        }
        assert(src@.take(src@.len() as int) =~= src@);
        out
    }

    /// `l` copies of `alphabet` as a vector of alphabets.
    fn uniform(alphabet: &Vec<u8>, l: usize) -> (r: Vec<Vec<u8>>)
        requires
            alphabet@.len() > 0,
        ensures
            r.deep_view() == uniform_charsets(alphabet@, l as nat),
            charsets_wf(r.deep_view()),
    {
        let mut charsets: Vec<Vec<u8>> = Vec::new();
        let mut i: usize = 0;
        while i < l
            invariant
                i <= l,
                alphabet@.len() > 0,
                charsets@.len() == i,
                forall|j: int| 0 <= j < i ==> (#[trigger] charsets@[j])@ == alphabet@,
            decreases l - i,
        {
            let cpy = Self::copy_bytes(alphabet);
            charsets.push(cpy);
            i = i + 1;
        }
        assert(charsets.deep_view() =~~= uniform_charsets(alphabet@, l as nat));
        charsets
    }

    /// Builds a producer for all strings of `alphabet` with lengths
    /// `min_len..=max_len`.
    ///
    /// Fails with `InvalidRangeError` when the length bounds are out of
    /// order, or when the alphabet is empty and the minimum length is
    /// zero.  An empty alphabet with a positive minimum admits no
    /// string at all: the producer starts exhausted.
    pub fn new(alphabet: Vec<u8>, min_len: usize, max_len: usize) -> (r: Result<
        Self,
        CrackError,
    >)
        ensures
            (min_len > max_len || (min_len == 0 && alphabet@.len() == 0)) <==> (r matches Err(e)
                && e == CrackError::InvalidRangeError),
            !(min_len > max_len || (min_len == 0 && alphabet@.len() == 0)) ==> (r matches Ok(q)
                && q.wf() && q.remaining() == space_from(alphabet@, min_len as nat, max_len as nat)),
    {
        if min_len > max_len || (min_len == 0 && alphabet.len() == 0) {
            return Err(CrackError::InvalidRangeError);
        }
        if alphabet.len() == 0 {
            let q = DefaultQuery {
                alphabet,
                min_len,
                max_len,
                cur_len: min_len,
                odo: Odometer { charsets: Vec::new(), digits: Vec::new(), done: true },
                done: true,
            };
            proof {
                lemma_space_from_empty(q.alphabet@, min_len as nat, max_len as nat);
            }
            return Ok(q);
        }
        let charsets = Self::uniform(&alphabet, min_len);
        let odo = Odometer::new(charsets);
        let q = DefaultQuery { alphabet, min_len, max_len, cur_len: min_len, odo, done: false };
        proof {
            assert(q.remaining() =~= space_from(q.alphabet@, min_len as nat, max_len as nat));
        }
        Ok(q)
    }

    /// Emits the next candidate, or `None` once every length is
    /// exhausted; exhaustion is terminal and stable.
    pub fn next(&mut self) -> (r: Option<Vec<u8>>)
        requires
            old(self).wf(),
        ensures
            final(self).wf(),
            old(self).remaining().len() > 0 ==> (r matches Some(v)
                && v@ == old(self).remaining()[0]
                && final(self).remaining() == old(self).remaining().drop_first()),
            old(self).remaining().len() == 0 ==> r is None && final(self).remaining()
                == old(self).remaining(),
    {
        if self.done {
            return None;
        }
        let ghost tail0 = space_from(
            self.alphabet@,
            (self.cur_len + 1) as nat,
            self.max_len as nat,
        );
        match self.odo.next() {
            Some(w) => {
                proof {
                    assert(old(self).odo.remaining().len() > 0);
                    assert(self.remaining() =~= old(self).remaining().drop_first());
                }
                Some(w)
            },
            None => {
                // The current length block was already exhausted, so the
                // whole remaining space is the later blocks.
                assert(old(self).odo.remaining().len() == 0);
                assert(old(self).remaining() =~= tail0);
                if self.cur_len == self.max_len {
                    self.done = true;
                    assert(self.remaining() =~= Seq::<Seq<u8>>::empty());
                    None
                } else {
                    self.cur_len = self.cur_len + 1;
                    let charsets = Self::uniform(&self.alphabet, self.cur_len);
                    self.odo = Odometer::new(charsets);
                    proof {
                        lemma_total_pos(self.odo.cs());
                    }
                    let r = self.odo.next();
                    proof {
                        let a = self.alphabet@;
                        let l = self.cur_len as nat;
                        let m = self.max_len as nat;
                        assert(tail0 == Seq::new(
                            total_words(uniform_charsets(a, l)),
                            |i: int| word_at(uniform_charsets(a, l), i as nat),
                        ) + space_from(a, (l + 1) as nat, m));
                        assert(self.remaining() =~= tail0.drop_first());
                    }
                    r
                }
            },
        }
    }
}

} // verus!
