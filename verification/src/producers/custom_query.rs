//! Expands a wildcard template into all matching literal strings.
//! A template is a byte string in which `?d`, `?l` and `?u` stand for
//! one decimal digit, one lowercase letter and one uppercase letter,
//! `??` stands for a literal `?`, and every other byte stands for
//! itself.  Expansion is a counting-odometer over the wildcard
//! positions, leftmost position varying slowest.

use vstd::prelude::*;
use crate::errors::CrackError;
use crate::odometer::{Odometer, charsets_wf, total_words, word_at};

verus! {

/// One contiguous ascending run of byte values `lo..=hi`.
pub open spec fn byte_run_seq(lo: u8, hi: u8) -> Seq<u8> {
    Seq::new((hi - lo + 1) as nat, |i: int| (lo + i) as u8)
}

/// The alphabet a wildcard class byte denotes, if any.
pub open spec fn class_alphabet(c: u8) -> Option<Seq<u8>> {
    if c == 100 {  // 'd'
        Some(byte_run_seq(48, 57))
    } else if c == 108 {  // 'l'
        Some(byte_run_seq(97, 122))
    } else if c == 117 {  // 'u'
        Some(byte_run_seq(65, 90))
    } else if c == 63 {  // '?'
        Some(seq![63u8])
    } else {
        None
    }
}

/// The per-position alphabets a template denotes, or `None` when the
/// template holds an unknown wildcard token or ends inside an escape.
pub open spec fn spec_parse_template(t: Seq<u8>) -> Option<Seq<Seq<u8>>>
    decreases t.len(),
{
    if t.len() == 0 {
        Some(Seq::empty())
    } else if t[0] == 63 {
        if t.len() == 1 {
            None
        } else {
            match class_alphabet(t[1]) {
                Some(cls) => match spec_parse_template(t.skip(2)) {
                    Some(rest) => Some(seq![cls] + rest),
                    None => None,
                },
                None => None,
            }
        }
    } else {
        match spec_parse_template(t.skip(1)) {
            Some(rest) => Some(seq![seq![t[0]]] + rest),
            None => None,
        }
    }
}

/// The bytes `lo..=hi` as a vector.
fn byte_run(lo: u8, hi: u8) -> (r: Vec<u8>)
    requires
        lo <= hi,
    ensures
        r@ == byte_run_seq(lo, hi),
{
    let mut out: Vec<u8> = Vec::new();
    let count: usize = (hi as usize) - (lo as usize) + 1;
    let mut n: usize = 0;
    while n < count
        invariant
            lo <= hi,
            count == hi - lo + 1,
            n <= count,
            out@ == Seq::new(n as nat, |i: int| (lo + i) as u8),
        decreases count - n,
    {
        let b: u8 = lo + (n as u8);
        out.push(b);
        assert(out@ =~= Seq::new((n + 1) as nat, |i: int| (lo + i) as u8));
        n = n + 1;
    }
    assert(out@ =~= byte_run_seq(lo, hi));
    out
}

/// Candidate producer over all expansions of a wildcard template.
pub struct CustomQuery {
    /// Odometer over the template's per-position alphabets.
    pub odo: Odometer,
}

impl CustomQuery {
    /// Internal consistency of the cursor.
    pub open spec fn wf(&self) -> bool {
        self.odo.wf()
    }

    /// The candidates not yet emitted, in emission order.
    pub open spec fn remaining(&self) -> Seq<Seq<u8>> {
        self.odo.remaining()
    }

    /// Builds a producer expanding `template`.
    ///
    /// Fails with `InvalidTemplateError` on an unknown wildcard token or
    /// a template that ends inside an escape.  The `pad` flag exists for
    /// interface symmetry with the range producer; wildcard classes are
    /// fixed-width, so it does not change the emitted space.
    pub fn new(template: &[u8], _pad: bool) -> (r: Result<Self, CrackError>)
        ensures
            spec_parse_template(template@) is None <==> (r matches Err(e) && e
                == CrackError::InvalidTemplateError),
            spec_parse_template(template@) is Some ==> (r matches Ok(q) && q.wf()
                && q.remaining() == Seq::new(
                    total_words(spec_parse_template(template@).unwrap()),
                    |i: int| word_at(spec_parse_template(template@).unwrap(), i as nat),
                )),
    {
        let ghost t = template@;
        let mut charsets: Vec<Vec<u8>> = Vec::new();
        proof {
            assert(t.skip(0) =~= t);
            assert(charsets.deep_view() =~= Seq::<Seq<u8>>::empty());
            let tail = spec_parse_template(t);
            if tail is Some {
                assert(charsets.deep_view() + tail.unwrap() =~= tail.unwrap());
            }
        }
        let mut i: usize = 0;
        while i < template.len()
            invariant
                i <= t.len(),
                template@ == t,
                charsets_wf(charsets.deep_view()),
                spec_parse_template(t) == match spec_parse_template(t.skip(i as int)) {
                    Some(rest) => Some(charsets.deep_view() + rest),
                    None => None::<Seq<Seq<u8>>>,
                },
            decreases t.len() - i,
        {
            let ghost dv0 = charsets.deep_view();
            let b = template[i];
            assert(t.skip(i as int)[0] == t[i as int]);
            if b == 63 {
                if i + 1 == template.len() {
                    assert(t.skip(i as int).len() == 1);
                    assert(spec_parse_template(t) is None);
                    return Err(CrackError::InvalidTemplateError);
                }
                let c = template[i + 1];
                assert(t.skip(i as int)[1] == t[i + 1]);
                assert(t.skip(i as int).skip(2) =~= t.skip(i + 2));
                let cls: Vec<u8> = if c == 100 {
                    byte_run(48, 57)
                } else if c == 108 {
                    byte_run(97, 122)
                } else if c == 117 {
                    byte_run(65, 90)
                } else if c == 63 {
                    byte_run(63, 63)
                } else {
                    assert(class_alphabet(t[i + 1]) is None);
                    assert(spec_parse_template(t) is None);
                    return Err(CrackError::InvalidTemplateError);
                };
                assert(class_alphabet(t[i + 1]) == Some(cls@));
                charsets.push(cls);
                proof {
                    let cls_s = class_alphabet(t[i + 1]).unwrap();
                    assert(charsets.deep_view() =~~= dv0.push(cls_s));
                    let tail = spec_parse_template(t.skip(i + 2));
                    if tail is Some {
                        assert(dv0 + (seq![cls_s] + tail.unwrap()) =~= dv0.push(cls_s)
                            + tail.unwrap());
                    }
                    assert(charsets_wf(charsets.deep_view()));
                }
                i = i + 2;
            } else {
                let mut lit: Vec<u8> = Vec::new();
                lit.push(b);
                assert(lit@ =~= seq![t[i as int]]);
                charsets.push(lit);
                proof {
                    assert(t.skip(i as int).skip(1) =~= t.skip(i + 1));
                    assert(charsets.deep_view() =~~= dv0.push(seq![t[i as int]]));
                    let tail = spec_parse_template(t.skip(i + 1));
                    if tail is Some {
                        assert(dv0 + (seq![seq![t[i as int]]] + tail.unwrap())
                            =~= dv0.push(seq![t[i as int]]) + tail.unwrap());
                    }
                    assert(charsets_wf(charsets.deep_view()));
                }
                i = i + 1;
            }
        }
        assert(t.skip(i as int) =~= Seq::<u8>::empty());
        assert(spec_parse_template(t) == Some(charsets.deep_view() + Seq::<Seq<u8>>::empty()));
        assert(charsets.deep_view() + Seq::<Seq<u8>>::empty() =~= charsets.deep_view());
        let odo = Odometer::new(charsets);
        Ok(CustomQuery { odo })
    }

    /// Emits the next candidate, or `None` once the space is exhausted;
    /// exhaustion is terminal and stable.
    pub fn next(&mut self) -> (r: Option<Vec<u8>>)
        requires
            old(self).wf(),
        ensures
            final(self).wf(),
            old(self).remaining().len() > 0 ==> (r matches Some(v)
                && v@ == old(self).remaining()[0]
                && final(self).remaining() == old(self).remaining().drop_first()),
            old(self).remaining().len() == 0 ==> r is None && final(self).remaining()
                == old(self).remaining(),
    {
        self.odo.next()
    }
}

} // verus!
