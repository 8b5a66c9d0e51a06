//! The candidate producer family: five enumeration strategies behind
//! one dispatching sum type.

pub mod custom_query;
pub mod dates;
pub mod dictionary;
pub mod default_query;
pub mod number_ranges;

use vstd::prelude::*;
use crate::producers::custom_query::CustomQuery;
use crate::producers::dates::DateProducer;
use crate::producers::dictionary::LineProducer;
use crate::producers::default_query::DefaultQuery;
use crate::producers::number_ranges::RangeProducer;

verus! {

/// A lazy source of password candidates.  Each variant enumerates its
/// configured space in a fixed order, without duplicates or gaps, and
/// its exhaustion is terminal and stable.
pub enum Producer {
    /// Wordlist playback.
    Wordlist(LineProducer),
    /// Ascending integer interval.
    Range(RangeProducer),
    /// Wildcard template expansion.
    Custom(CustomQuery),
    /// Calendar date interval.
    Dates(DateProducer),
    /// Exhaustive brute force over an alphabet.
    BruteForce(DefaultQuery),
}

impl Producer {
    /// Internal consistency of the cursor.
    pub open spec fn wf(&self) -> bool {
        match self {
            Producer::Wordlist(p) => p.wf(),
            Producer::Range(p) => p.wf(),
            Producer::Custom(p) => p.wf(),
            Producer::Dates(p) => p.wf(),
            Producer::BruteForce(p) => p.wf(),
        }
    }

    /// The candidates not yet emitted, in emission order.
    pub open spec fn remaining(&self) -> Seq<Seq<u8>> {
        match self {
            Producer::Wordlist(p) => p.remaining(),
            Producer::Range(p) => p.remaining(),
            Producer::Custom(p) => p.remaining(),
            Producer::Dates(p) => p.remaining(),
            Producer::BruteForce(p) => p.remaining(),
        }
    }

    /// Emits the next candidate, or `None` once the configured space is
    /// exhausted; exhaustion is terminal and stable.
    pub fn next(&mut self) -> (r: Option<Vec<u8>>)
        requires
            old(self).wf(),
        ensures
            final(self).wf(),
            old(self).remaining().len() > 0 ==> (r matches Some(v)
                && v@ == old(self).remaining()[0]
                && final(self).remaining() == old(self).remaining().drop_first()),
            old(self).remaining().len() == 0 ==> r is None && final(self).remaining()
                == old(self).remaining(),
    {
        match self {
            Producer::Wordlist(p) => p.next(),
            Producer::Range(p) => p.next(),
            Producer::Custom(p) => p.next(),
            Producer::Dates(p) => p.next(),
            Producer::BruteForce(p) => p.next(),
        }
    }
}

} // verus!
