//! Enumerates an inclusive integer interval in ascending order, each
//! value rendered as its decimal string, optionally left-padded with
//! zeros to the digit width of the upper bound.

use vstd::prelude::*;
use crate::digits::{spec_decimal, spec_padded_decimal, decimal_width, to_padded_decimal};
use crate::errors::CrackError;

verus! {

/// Candidate producer over the integers `lower..=upper`.
pub struct RangeProducer {
    /// Next integer to emit.
    pub current: u64,
    /// Inclusive upper bound.
    pub upper: u64,
    /// Pad width (0 when padding is off; otherwise the digit width of
    /// `upper`).
    pub width: usize,
    /// Set once the whole interval has been emitted.
    pub done: bool,
}

impl RangeProducer {
    /// Internal consistency of the cursor.
    pub open spec fn wf(&self) -> bool {
        !self.done ==> self.current <= self.upper
    }

    /// The candidates not yet emitted, in emission order.
    pub open spec fn remaining(&self) -> Seq<Seq<u8>> {
        if self.done {
            Seq::empty()
        } else {
            Seq::new(
                (self.upper - self.current + 1) as nat,
                |i: int| spec_padded_decimal((self.current + i) as nat, self.width as nat),
            )
        }
    }

    /// Builds a producer for `lower..=upper`.
    ///
    /// Fails with `InvalidRangeError` when the bounds are out of order.
    /// With `pad` set, every candidate is left-padded with `'0'` to the
    /// digit width of `upper` (a zero upper bound has width 1).
    pub fn new(lower: u64, upper: u64, pad: bool) -> (r: Result<Self, CrackError>)
        ensures
            lower > upper <==> (r matches Err(e) && e == CrackError::InvalidRangeError),
            lower <= upper ==> (r matches Ok(p) && p.wf() && p.remaining() == Seq::new(
                (upper - lower + 1) as nat,
                |i: int| spec_padded_decimal(
                    (lower + i) as nat,
                    if pad { spec_decimal(upper as nat).len() } else { 0 },
                ),
            )),
    {
        if lower > upper {
            Err(CrackError::InvalidRangeError)
        } else {
            let width: usize = if pad { decimal_width(upper) } else { 0 };
            Ok(RangeProducer { current: lower, upper, width, done: false })
        }
    }

    /// Emits the next candidate, or `None` once the interval is
    /// exhausted; exhaustion is terminal and stable.
    pub fn next(&mut self) -> (r: Option<Vec<u8>>)
        requires
            old(self).wf(),
        ensures
            final(self).wf(),
            old(self).remaining().len() > 0 ==> (r matches Some(v) && v@ == old(self).remaining()[0]
                && final(self).remaining() == old(self).remaining().drop_first()),
            old(self).remaining().len() == 0 ==> r is None && final(self).remaining()
                == old(self).remaining(),
    {
        if self.done {
            None
        } else {
            let v = to_padded_decimal(self.current, self.width);
            if self.current == self.upper {
                self.done = true;
            } else {
                self.current = self.current + 1;
            }
            proof {
                assert(self.remaining() =~= old(self).remaining().drop_first());
            }
            Some(v)
        }
    }
}

} // verus!
