//! A mixed-radix odometer: lazily enumerates, in counting order, every
//! word whose position `i` ranges over a fixed byte alphabet `cs[i]`.
//! The rightmost position varies fastest, so words come out in
//! lexicographic order of their position indices.

use vstd::prelude::*;
use vstd::arithmetic::div_mod::lemma_fundamental_div_mod_converse;

verus! {

/// Every position offers at least one byte.
pub open spec fn charsets_wf(cs: Seq<Seq<u8>>) -> bool {
    forall|i: int| 0 <= i < cs.len() ==> (#[trigger] cs[i]).len() > 0
}

/// Number of words over the given position alphabets (1 for no
/// positions: the empty word).
pub open spec fn total_words(cs: Seq<Seq<u8>>) -> nat
    decreases cs.len(),
{
    if cs.len() == 0 {
        1
    } else {
        total_words(cs.drop_last()) * cs.last().len()
    }
}

/// The word at counting index `idx`: the radix decomposition of `idx`,
/// each digit looked up in its position's alphabet.
pub open spec fn word_at(cs: Seq<Seq<u8>>, idx: nat) -> Seq<u8>
    decreases cs.len(),
{
    if cs.len() == 0 {
        Seq::empty()
    } else {
        word_at(cs.drop_last(), idx / cs.last().len()).push(
            cs.last()[(idx % cs.last().len()) as int],
        )
    }
}

/// The digit vector is as long as the alphabets and in range everywhere.
pub open spec fn digits_wf(cs: Seq<Seq<u8>>, ds: Seq<usize>) -> bool {
    &&& ds.len() == cs.len()
    &&& forall|i: int| 0 <= i < ds.len() ==> ds[i] < (#[trigger] cs[i]).len()
}

/// The counting index denoted by a digit vector (rightmost digit least
/// significant).
pub open spec fn digits_val(cs: Seq<Seq<u8>>, ds: Seq<usize>) -> nat
    decreases ds.len(),
{
    if ds.len() == 0 || cs.len() == 0 {
        0
    } else {
        (digits_val(cs.drop_last(), ds.drop_last()) * cs.last().len() + ds.last()) as nat
    }
}

proof fn lemma_drop_last_wf(cs: Seq<Seq<u8>>, ds: Seq<usize>)
    requires
        charsets_wf(cs),
        digits_wf(cs, ds),
        ds.len() > 0,
    ensures
        charsets_wf(cs.drop_last()),
        digits_wf(cs.drop_last(), ds.drop_last()),
{
    assert(forall|i: int| 0 <= i < cs.drop_last().len() ==> cs.drop_last()[i] == cs[i]);
    assert(forall|i: int| 0 <= i < ds.drop_last().len() ==> ds.drop_last()[i] == ds[i]);
}

/// A digit vector's index lies below the total word count.
pub proof fn lemma_val_bound(cs: Seq<Seq<u8>>, ds: Seq<usize>)
    requires
        charsets_wf(cs),
        digits_wf(cs, ds),
    ensures
        digits_val(cs, ds) < total_words(cs),
    decreases ds.len(),
{
    if ds.len() == 0 {
    } else {
        lemma_drop_last_wf(cs, ds);
        lemma_val_bound(cs.drop_last(), ds.drop_last());
        let v = digits_val(cs.drop_last(), ds.drop_last());
        let t = total_words(cs.drop_last());
        let k = cs.last().len();
        let d = ds.last() as nat;
        assert(v * k + d < t * k) by (nonlinear_arith)
            requires
                v < t,
                d < k,
        ;
    }
}

/// A word space over non-empty alphabets holds at least one word.
pub proof fn lemma_total_pos(cs: Seq<Seq<u8>>)
    requires
        charsets_wf(cs),
    ensures
        total_words(cs) >= 1,
    decreases cs.len(),
{
    if cs.len() == 0 {
    } else {
        assert(forall|i: int| 0 <= i < cs.drop_last().len() ==> cs.drop_last()[i] == cs[i]);
        lemma_total_pos(cs.drop_last());
        let t = total_words(cs.drop_last());
        let k = cs.last().len();
        assert(t * k >= 1) by (nonlinear_arith)
            requires
                t >= 1,
                k >= 1,
        ;
    }
}

/// The all-zero digit vector denotes index 0.
proof fn lemma_val_zero(cs: Seq<Seq<u8>>, ds: Seq<usize>)
    requires
        ds.len() == cs.len(),
        forall|i: int| 0 <= i < ds.len() ==> ds[i] == 0usize,
    ensures
        digits_val(cs, ds) == 0,
    decreases ds.len(),
{
    if ds.len() == 0 {
    } else {
        assert(forall|i: int| 0 <= i < ds.drop_last().len() ==> ds.drop_last()[i] == ds[i]);
        lemma_val_zero(cs.drop_last(), ds.drop_last());
        let k = cs.last().len();
        assert(digits_val(cs.drop_last(), ds.drop_last()) * k == 0) by (nonlinear_arith)
            requires
                digits_val(cs.drop_last(), ds.drop_last()) == 0,
        ;
    }
}

/// An all-maximal digit vector denotes the last index.
proof fn lemma_val_all_max(cs: Seq<Seq<u8>>, ds: Seq<usize>)
    requires
        charsets_wf(cs),
        digits_wf(cs, ds),
        forall|i: int| 0 <= i < ds.len() ==> ds[i] + 1 == (#[trigger] cs[i]).len(),
    ensures
        digits_val(cs, ds) == total_words(cs) - 1,
    decreases ds.len(),
{
    if ds.len() == 0 {
    } else {
        lemma_drop_last_wf(cs, ds);
        assert(forall|i: int| 0 <= i < ds.drop_last().len() ==> ds.drop_last()[i] == ds[i]);
        lemma_val_all_max(cs.drop_last(), ds.drop_last());
        let t = total_words(cs.drop_last());
        let k = cs.last().len();
        assert(t >= 1) by {
            lemma_val_bound(cs.drop_last(), ds.drop_last());
        }
        assert((t - 1) * k + (k - 1) == t * k - 1) by (nonlinear_arith);
    }
}

/// Reading a digit vector's word position by position agrees with the
/// radix decomposition of its counting index.
proof fn lemma_word_at_val(cs: Seq<Seq<u8>>, ds: Seq<usize>)
    requires
        charsets_wf(cs),
        digits_wf(cs, ds),
    ensures
        word_at(cs, digits_val(cs, ds)) == Seq::new(ds.len(), |i: int| cs[i][ds[i] as int]),
    decreases ds.len(),
{
    if ds.len() == 0 {
        assert(word_at(cs, digits_val(cs, ds)) =~= Seq::new(ds.len(), |i: int| cs[i][ds[i] as int]));
    } else {
        lemma_drop_last_wf(cs, ds);
        lemma_word_at_val(cs.drop_last(), ds.drop_last());
        let v = digits_val(cs.drop_last(), ds.drop_last());
        let k = cs.last().len();
        let d = ds.last() as nat;
        let idx = digits_val(cs, ds);
        assert(idx == v * k + d);
        lemma_fundamental_div_mod_converse(idx as int, k as int, v as int, d as int);
        assert(idx / k == v);
        assert(idx % k == d);
        assert(word_at(cs, idx) == word_at(cs.drop_last(), v).push(cs.last()[d as int]));
        assert(word_at(cs, idx) =~= Seq::new(ds.len(), |i: int| cs[i][ds[i] as int]));
    }
}

/// Bumping digit `b - 1` and zeroing every maximal digit to its right
/// advances the counting index by exactly one.
proof fn lemma_val_inc(cs: Seq<Seq<u8>>, ds0: Seq<usize>, ds1: Seq<usize>, b: int)
    requires
        charsets_wf(cs),
        digits_wf(cs, ds0),
        digits_wf(cs, ds1),
        1 <= b <= ds0.len(),
        ds1.len() == ds0.len(),
        forall|p: int| 0 <= p < b - 1 ==> ds1[p] == ds0[p],
        ds1[b - 1] == ds0[b - 1] + 1,
        forall|p: int| b <= p < ds0.len() ==> #[trigger] ds0[p] + 1 == cs[p].len(),
        forall|p: int| b <= p < ds0.len() ==> #[trigger] ds1[p] == 0usize,
    ensures
        digits_val(cs, ds1) == digits_val(cs, ds0) + 1,
    decreases ds0.len(),
{
    let n = ds0.len() as int;
    lemma_drop_last_wf(cs, ds0);
    lemma_drop_last_wf(cs, ds1);
    let k = cs.last().len();
    if b == n {
        assert(ds1.drop_last() =~= ds0.drop_last());
    } else {
        assert(forall|p: int| 0 <= p < n - 1 && b <= p ==> #[trigger] ds0.drop_last()[p] + 1 == cs.drop_last()[p].len());
        assert(forall|p: int| 0 <= p < n - 1 && b <= p ==> #[trigger] ds1.drop_last()[p] == 0usize);
        assert(ds1.drop_last()[b - 1] == ds0.drop_last()[b - 1] + 1);
        lemma_val_inc(cs.drop_last(), ds0.drop_last(), ds1.drop_last(), b);
        let vo = digits_val(cs.drop_last(), ds0.drop_last());
        let vn = digits_val(cs.drop_last(), ds1.drop_last());
        assert(vn == vo + 1);
        assert((vo + 1) * k == vo * k + k) by (nonlinear_arith);
        assert(ds0.last() + 1 == k);
        assert(ds1.last() == 0usize);
    }
}

/// Exhaustible cursor over the word space of a fixed alphabet vector.
pub struct Odometer {
    /// One byte alphabet per word position.
    pub charsets: Vec<Vec<u8>>,
    /// Current digit (alphabet index) of each position.
    pub digits: Vec<usize>,
    /// Set once every word has been emitted.
    pub done: bool,
}

impl Odometer {
    /// The position alphabets as mathematical sequences.
    pub open spec fn cs(&self) -> Seq<Seq<u8>> {
        self.charsets.deep_view()
    }

    /// Internal consistency of the cursor.
    pub open spec fn wf(&self) -> bool {
        charsets_wf(self.cs()) && digits_wf(self.cs(), self.digits@)
    }

    /// The words not yet emitted, in emission order.
    pub open spec fn remaining(&self) -> Seq<Seq<u8>> {
        if self.done {
            Seq::empty()
        } else {
            Seq::new(
                (total_words(self.cs()) - digits_val(self.cs(), self.digits@)) as nat,
                |i: int| word_at(self.cs(), (digits_val(self.cs(), self.digits@) + i) as nat),
            )
        }
    }

    /// A fresh odometer over `charsets`, positioned at the first word.
    pub fn new(charsets: Vec<Vec<u8>>) -> (r: Self)
        requires
            charsets_wf(charsets.deep_view()),
        ensures
            r.wf(),
            r.cs() == charsets.deep_view(),
            r.remaining() == Seq::new(
                total_words(charsets.deep_view()),
                |i: int| word_at(charsets.deep_view(), i as nat),
            ),
    {
        let n = charsets.len();
        let mut digits: Vec<usize> = Vec::new();
        let mut i: usize = 0;
        while i < n
            invariant
                i <= n,
                digits@.len() == i,
                forall|j: int| 0 <= j < i ==> digits@[j] == 0usize,
            decreases n - i,
        {
            digits.push(0usize);
            i = i + 1;
        }
        let r = Odometer { charsets, digits, done: false };
        proof {
            lemma_val_zero(r.cs(), r.digits@);
            lemma_val_bound(r.cs(), r.digits@);
            assert(r.remaining() =~= Seq::new(
                total_words(r.cs()),
                |i: int| word_at(r.cs(), i as nat),
            ));
        }
        r
    }

    /// Emits the next word, or `None` once the space is exhausted;
    /// exhaustion is terminal and stable.
    pub fn next(&mut self) -> (r: Option<Vec<u8>>)
        requires
            old(self).wf(),
        ensures
            final(self).wf(),
            final(self).cs() == old(self).cs(),
            old(self).remaining().len() > 0 ==> (r matches Some(v)
                && v@ == old(self).remaining()[0]
                && final(self).remaining() == old(self).remaining().drop_first()),
            old(self).remaining().len() == 0 ==> r is None && final(self).remaining()
                == old(self).remaining(),
    {
        if self.done {
            return None;
        }
        proof {
            lemma_val_bound(self.cs(), self.digits@);
            lemma_word_at_val(self.cs(), self.digits@);
        }
        let ghost cs = self.cs();
        let ghost ds0 = self.digits@;
        let ghost v0 = digits_val(cs, ds0);
        // Render the word at the current digits.
        let n = self.digits.len();
        let mut w: Vec<u8> = Vec::new();
        let mut i: usize = 0;
        while i < n
            invariant
                i <= n,
                n == ds0.len(),
                self.cs() == cs,
                !self.done,
                self.digits@ == ds0,
                charsets_wf(cs),
                digits_wf(cs, ds0),
                self.charsets@.len() == cs.len(),
                w@ == Seq::new(i as nat, |j: int| cs[j][ds0[j] as int]),
            decreases n - i,
        {
            assert(self.charsets@[i as int]@ == cs[i as int]);
            let b = self.charsets[i][self.digits[i]];
            w.push(b);
            assert(w@ =~= Seq::new((i + 1) as nat, |j: int| cs[j][ds0[j] as int]));
            i = i + 1;
        }
        assert(w@ == word_at(cs, v0));
        // Advance: bump the rightmost non-maximal digit, zeroing the
        // maximal digits to its right; wrap-around exhausts the space.
        let mut j: usize = n;
        let mut bumped: bool = false;
        while j > 0 && !bumped
            invariant
                j <= n,
                n == ds0.len(),
                self.cs() == cs,
                charsets_wf(cs),
                digits_wf(cs, ds0),
                digits_wf(cs, self.digits@),
                self.digits@.len() == n,
                self.charsets@.len() == cs.len(),
                v0 == digits_val(cs, ds0),
                !self.done,
                !bumped ==> forall|p: int| 0 <= p < j ==> self.digits@[p] == ds0[p],
                !bumped ==> forall|p: int| j <= p < n ==> #[trigger] ds0[p] + 1 == cs[p].len(),
                !bumped ==> forall|p: int| j <= p < n ==> #[trigger] self.digits@[p] == 0usize,
                bumped ==> digits_val(cs, self.digits@) == v0 + 1,
            decreases 2 * j + (if bumped { 0int } else { 1int }),
        {
            let d = self.digits[j - 1];
            assert(self.charsets@[j - 1]@ == cs[j - 1]);
            let limit = self.charsets[j - 1].len();
            if d + 1 < limit {
                self.digits[j - 1] = d + 1;
                proof {
                    assert(forall|p: int| 0 <= p < n ==> self.digits@[p] < (#[trigger] cs[p]).len());
                    lemma_val_inc(cs, ds0, self.digits@, j as int);
                }
                bumped = true;
            } else {
                self.digits[j - 1] = 0;
                assert(forall|p: int| 0 <= p < n ==> self.digits@[p] < (#[trigger] cs[p]).len());
                j = j - 1;
            }
        }
        if !bumped {
            proof {
                lemma_val_all_max(cs, ds0);
            }
            self.done = true;
        } else {
            proof {
                lemma_val_bound(cs, self.digits@);
            }
        }
        proof {
            assert(old(self).remaining()[0] == word_at(cs, v0));
            assert(old(self).remaining().len() == total_words(cs) - v0);
            if bumped {
                assert(self.remaining().len() == old(self).remaining().len() - 1);
                assert forall|i: int| 0 <= i < self.remaining().len() implies self.remaining()[i]
                    == old(self).remaining().drop_first()[i] by {
                    assert(self.remaining()[i] == word_at(cs, (v0 + 1 + i) as nat));
                    assert(old(self).remaining().drop_first()[i] == old(self).remaining()[i + 1]);
                    assert(old(self).remaining()[i + 1] == word_at(cs, (v0 + (i + 1)) as nat));
                }
            } else {
                assert(v0 == total_words(cs) - 1);
                assert(old(self).remaining().len() == 1);
            }
            assert(self.remaining() =~= old(self).remaining().drop_first());
        }
        Some(w)
    }
}

} // verus!
