//! Enumerates every calendar date of an inclusive interval in ascending
//! order, emitting two numeric renderings per date: day-month-year and
//! year-month-day, each component zero-padded to fixed width.

use vstd::prelude::*;
use crate::digits::{spec_padded_decimal, to_padded_decimal};
use crate::errors::CrackError;

verus! {

/// One calendar date of the proleptic Gregorian calendar.
#[derive(Clone, Copy, Debug, PartialEq, Eq, Structural)]
pub struct Date {
    /// Year, `1..=9999`.
    pub year: u16,
    /// Month, `1..=12`.
    pub month: u8,
    /// Day of month, `1..=days_in_month`.
    pub day: u8,
}

/// Whether `y` is a Gregorian leap year.
pub open spec fn spec_is_leap(y: int) -> bool {
    y % 4 == 0 && (y % 100 != 0 || y % 400 == 0)
}

/// The number of days of month `m` in year `y`.
pub open spec fn spec_days_in_month(y: int, m: int) -> int {
    if m == 2 {
        if spec_is_leap(y) {
            29
        } else {
            28
        }
    } else if m == 4 || m == 6 || m == 9 || m == 11 {
        30
    } else {
        31
    }
}

/// A representable calendar date.
pub open spec fn date_valid(d: Date) -> bool {
    &&& 1 <= d.year <= 9999
    &&& 1 <= d.month <= 12
    &&& 1 <= d.day <= spec_days_in_month(d.year as int, d.month as int)
}

/// Calendar order.
pub open spec fn date_le(a: Date, b: Date) -> bool {
    if a.year != b.year {
        a.year < b.year
    } else if a.month != b.month {
        a.month < b.month
    } else {
        a.day <= b.day
    }
}

/// The day after `d`.
pub open spec fn date_succ(d: Date) -> Date {
    if d.day < spec_days_in_month(d.year as int, d.month as int) {
        Date { year: d.year, month: d.month, day: (d.day + 1) as u8 }
    } else if d.month < 12 {
        Date { year: d.year, month: (d.month + 1) as u8, day: 1 }
    } else {
        Date { year: (d.year + 1) as u16, month: 1, day: 1 }
    }
}

/// The two candidate renderings of one date: `DDMMYYYY`, `YYYYMMDD`.
pub open spec fn date_renders(d: Date) -> Seq<Seq<u8>> {
    seq![
        spec_padded_decimal(d.day as nat, 2) + spec_padded_decimal(d.month as nat, 2)
            + spec_padded_decimal(d.year as nat, 4),
        spec_padded_decimal(d.year as nat, 4) + spec_padded_decimal(d.month as nat, 2)
            + spec_padded_decimal(d.day as nat, 2),
    ]
}

/// Both renderings of every date from `d` through `end`, in ascending
/// calendar order.
pub open spec fn space_from_date(d: Date, end: Date) -> Seq<Seq<u8>>
    decreases (end.year + 1 - d.year) * 372 + (12 - d.month) * 31 + (31 - d.day),
{
    if !date_valid(d) || !date_le(d, end) {
        Seq::empty()
    } else {
        date_renders(d) + space_from_date(date_succ(d), end)
    }
}

/// The successor of a valid date that is strictly before a valid `e`
/// stays valid and does not pass `e`; no date's successor precedes it.
pub proof fn lemma_date_succ(d: Date, e: Date)
    requires
        date_valid(d),
        date_valid(e),
        date_le(d, e),
        d != e,
    ensures
        date_valid(date_succ(d)),
        date_le(date_succ(d), e),
{
}

/// Exhaustion of the interval: the day after `e` starts an empty space.
pub proof fn lemma_space_after_end(d: Date, e: Date)
    requires
        !date_le(d, e),
    ensures
        space_from_date(d, e) == Seq::<Seq<u8>>::empty(),
{
}

/// The number of days of month `m` in year `y`.
fn days_in_month(y: u16, m: u8) -> (r: u8)
    requires
        1 <= m <= 12,
    ensures
        r == spec_days_in_month(y as int, m as int),
{
    if m == 2 {
        if (y % 4 == 0 && y % 100 != 0) || y % 400 == 0 {
            29
        } else {
            28
        }
    } else if m == 4 || m == 6 || m == 9 || m == 11 {
        30
    } else {
        31
    }
}

/// Candidate producer over the dates `start..=end`.
pub struct DateProducer {
    /// Next date to render.
    pub current: Date,
    /// Inclusive last date.
    pub end: Date,
    /// Which rendering of `current` comes next (0 or 1).
    pub fmt: u8,
    /// Set once the whole interval has been emitted.
    pub done: bool,
}

impl DateProducer {
    /// Internal consistency of the cursor.
    pub open spec fn wf(&self) -> bool {
        !self.done ==> {
            &&& date_valid(self.current)
            &&& date_valid(self.end)
            &&& date_le(self.current, self.end)
            &&& self.fmt <= 1
        }
    }

    /// The candidates not yet emitted, in emission order.
    pub open spec fn remaining(&self) -> Seq<Seq<u8>> {
        if self.done {
            Seq::empty()
        } else {
            date_renders(self.current).skip(self.fmt as int) + space_from_date(
                date_succ(self.current),
                self.end,
            )
        }
    }

    /// Builds a producer for the dates `start..=end`.
    ///
    /// Fails with `InvalidRangeError` when either bound is not a
    /// representable calendar date or the bounds are out of order.
    pub fn new(start: Date, end: Date) -> (r: Result<Self, CrackError>)
        ensures
            (date_valid(start) && date_valid(end) && date_le(start, end)) <==> (r matches Ok(p)
                && p.wf() && p.remaining() == space_from_date(start, end)),
            !(date_valid(start) && date_valid(end) && date_le(start, end)) <==> (r matches Err(e)
                && e == CrackError::InvalidRangeError),
    {
        let start_ok = 1 <= start.year && start.year <= 9999 && 1 <= start.month && start.month
            <= 12 && 1 <= start.day && start.day <= days_in_month(start.year, start.month);
        if !start_ok {
            return Err(CrackError::InvalidRangeError);
        }
        let end_ok = 1 <= end.year && end.year <= 9999 && 1 <= end.month && end.month <= 12
            && 1 <= end.day && end.day <= days_in_month(end.year, end.month);
        if !end_ok {
            return Err(CrackError::InvalidRangeError);
        }
        let le = if start.year != end.year {
            start.year < end.year
        } else if start.month != end.month {
            start.month < end.month
        } else {
            start.day <= end.day
        };
        if !le {
            return Err(CrackError::InvalidRangeError);
        }
        let p = DateProducer { current: start, end, fmt: 0, done: false };
        proof {
            assert(p.remaining() =~= space_from_date(start, end));
        }
        Ok(p)
    }

    /// Renders `current` in the format selected by `fmt`.
    fn render(&self) -> (r: Vec<u8>)
        requires
            self.wf(),
            !self.done,
        ensures
            r@ == date_renders(self.current)[self.fmt as int],
    {
        let mut out: Vec<u8>;
        if self.fmt == 0 {
            out = to_padded_decimal(self.current.day as u64, 2);
            let mut mid = to_padded_decimal(self.current.month as u64, 2);
            let mut tail = to_padded_decimal(self.current.year as u64, 4);
            out.append(&mut mid);
            out.append(&mut tail);
        } else {
            out = to_padded_decimal(self.current.year as u64, 4);
            let mut mid = to_padded_decimal(self.current.month as u64, 2);
            let mut tail = to_padded_decimal(self.current.day as u64, 2);
            out.append(&mut mid);
            out.append(&mut tail);
        }
        out
    }

    /// Emits the next candidate, or `None` once the interval is
    /// exhausted; exhaustion is terminal and stable.
    pub fn next(&mut self) -> (r: Option<Vec<u8>>)
        requires
            old(self).wf(),
        ensures
            final(self).wf(),
            old(self).remaining().len() > 0 ==> (r matches Some(v)
                && v@ == old(self).remaining()[0]
                && final(self).remaining() == old(self).remaining().drop_first()),
            old(self).remaining().len() == 0 ==> r is None && final(self).remaining()
                == old(self).remaining(),
    {
        if self.done {
            return None;
        }
        let v = self.render();
        if self.fmt == 0 {
            self.fmt = 1;
            proof {
                assert(self.remaining() =~= old(self).remaining().drop_first());
            }
            Some(v)
        } else {
            if self.current.year == self.end.year && self.current.month == self.end.month
                && self.current.day == self.end.day {
                self.done = true;
                proof {
                    lemma_space_after_end(date_succ(old(self).current), old(self).end);
                    assert(old(self).remaining().len() == 1);
                    assert(self.remaining() =~= old(self).remaining().drop_first());
                }
                Some(v)
            } else {
                proof {
                    assert(old(self).current != old(self).end);
                    lemma_date_succ(old(self).current, old(self).end);
                }
                let dim = days_in_month(self.current.year, self.current.month);
                if self.current.day < dim {
                    self.current = Date {
                        year: self.current.year,
                        month: self.current.month,
                        day: self.current.day + 1,
                    };
                } else if self.current.month < 12 {
                    self.current = Date {
                        year: self.current.year,
                        month: self.current.month + 1,
                        day: 1,
                    };
                } else {
                    self.current = Date { year: self.current.year + 1, month: 1, day: 1 };
                }
                self.fmt = 0;
                proof {
                    assert(self.current == date_succ(old(self).current));
                    assert(self.remaining() =~= space_from_date(self.current, self.end));
                    assert(old(self).remaining().drop_first() =~= space_from_date(
                        self.current,
                        self.end,
                    ));
                }
                Some(v)
            }
        }
    }
}

} // verus!
