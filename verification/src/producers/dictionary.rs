//! Streams wordlist lines as candidates, in order, each exactly once.
//! Lines are separated by `\n`; a terminator `\n` or `\r\n` is trimmed
//! (nothing else is), and a final unterminated line is kept as it is.

use vstd::prelude::*;

verus! {

/// `l` with one trailing carriage return removed, if present.
pub open spec fn trim_cr(l: Seq<u8>) -> Seq<u8> {
    if l.len() > 0 && l.last() == 13 {
        l.drop_last()
    } else {
        l
    }
}

/// The lines of `s` still to be produced, given the bytes `cur` of the
/// current partially read line.
pub open spec fn lines_from(s: Seq<u8>, cur: Seq<u8>) -> Seq<Seq<u8>>
    decreases s.len(),
{
    if s.len() == 0 {
        if cur.len() == 0 {
            Seq::empty()
        } else {
            seq![cur]
        }
    } else if s[0] == 10 {
        seq![trim_cr(cur)] + lines_from(s.drop_first(), Seq::empty())
    } else {
        lines_from(s.drop_first(), cur.push(s[0]))
    }
}

/// The candidate lines of a wordlist's raw bytes.
pub open spec fn spec_lines(s: Seq<u8>) -> Seq<Seq<u8>> {
    lines_from(s, Seq::empty())
}

/// Splits a wordlist's raw bytes into candidate lines.
pub fn split_lines(data: &[u8]) -> (r: Vec<Vec<u8>>)
    ensures
        r.deep_view() == spec_lines(data@),
{
    let ghost t = data@;
    let mut out: Vec<Vec<u8>> = Vec::new();
    let mut cur: Vec<u8> = Vec::new();
    let mut i: usize = 0;
    proof {
        assert(t.skip(0) =~= t);
    }
    while i < data.len()
        invariant
            i <= t.len(),
            data@ == t,
            spec_lines(t) == out.deep_view() + lines_from(t.skip(i as int), cur@),
        decreases t.len() - i,
    {
        let ghost dv0 = out.deep_view();
        let b = data[i];
        assert(t.skip(i as int)[0] == t[i as int]);
        assert(t.skip(i as int).drop_first() =~= t.skip(i + 1));
        if b == 10 {
            let ghost curv = cur@;
            let mut line = cur;
            if line.len() > 0 && line[line.len() - 1] == 13 {
                line.pop();
                assert(line@ =~= trim_cr(curv));
            }
            assert(line@ == trim_cr(curv));
            out.push(line);
            cur = Vec::new();
            proof {
                assert(out.deep_view() =~~= dv0.push(trim_cr(curv)));
                assert(dv0 + (seq![trim_cr(curv)] + lines_from(t.skip(i + 1), cur@))
                    =~= dv0.push(trim_cr(curv)) + lines_from(t.skip(i + 1), cur@));
            }
        } else {
            cur.push(b);
        }
        i = i + 1;
    }
    assert(t.skip(i as int) =~= Seq::<u8>::empty());
    if cur.len() > 0 {
        let ghost dv0 = out.deep_view();
        let ghost curv = cur@;
        out.push(cur);
        proof {
            assert(out.deep_view() =~~= dv0.push(curv));
            assert(dv0 + seq![curv] =~= dv0.push(curv));
        }
    } else {
        assert(out.deep_view() + Seq::<Seq<u8>>::empty() =~= out.deep_view());
    }
    out
}

/// Candidate producer over a fixed, ordered list of lines.
pub struct LineProducer {
    /// The candidate lines, in order.
    pub lines: Vec<Vec<u8>>,
    /// Index of the next line to emit.
    pub idx: usize,
}

impl LineProducer {
    /// Internal consistency of the cursor.
    pub open spec fn wf(&self) -> bool {
        self.idx <= self.lines@.len()
    }

    /// The candidates not yet emitted, in emission order.
    pub open spec fn remaining(&self) -> Seq<Seq<u8>> {
        self.lines.deep_view().skip(self.idx as int)
    }

    /// Builds a producer that replays `lines` in order.
    pub fn new(lines: Vec<Vec<u8>>) -> (r: Self)
        ensures
            r.wf(),
            r.remaining() == lines.deep_view(),
    {
        let r = LineProducer { lines, idx: 0 };
        proof {
            assert(r.remaining() =~= r.lines.deep_view());
        }
        r
    }

    /// Builds a producer over the lines of a wordlist's raw bytes.
    pub fn from_bytes(data: &[u8]) -> (r: Self)
        ensures
            r.wf(),
            r.remaining() == spec_lines(data@),
    {
        Self::new(split_lines(data))
    }

    /// Emits the next candidate, or `None` once the list is exhausted;
    /// exhaustion is terminal and stable.
    pub fn next(&mut self) -> (r: Option<Vec<u8>>)
        requires
            old(self).wf(),
        ensures
            final(self).wf(),
            old(self).remaining().len() > 0 ==> (r matches Some(v)
                && v@ == old(self).remaining()[0]
                && final(self).remaining() == old(self).remaining().drop_first()),
            old(self).remaining().len() == 0 ==> r is None && final(self).remaining()
                == old(self).remaining(),
    {
        if self.idx < self.lines.len() {
            let mut v: Vec<u8> = Vec::new();
            let mut k: usize = 0;
            while k < self.lines[self.idx].len()
                invariant
                    self.idx < self.lines@.len(),
                    k <= self.lines@[self.idx as int]@.len(),
                    v@ == self.lines@[self.idx as int]@.take(k as int),
                decreases self.lines@[self.idx as int]@.len() - k,
            {
                let b = self.lines[self.idx][k];
                v.push(b);
                assert(v@ =~= self.lines@[self.idx as int]@.take((k + 1) as int));
                k = k + 1;
            }
            assert(v@ =~= self.lines@[self.idx as int]@);
            self.idx = self.idx + 1;
            proof {
                assert(old(self).remaining()[0] == self.lines.deep_view()[old(self).idx as int]);
                assert(v@ == old(self).remaining()[0]);
                assert(self.remaining() =~= old(self).remaining().drop_first());
            }
            Some(v)
        } else {
            assert(old(self).remaining().len() == 0);
            None
        }
    }
}

} // verus!
