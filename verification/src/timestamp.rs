//! Moments in time as plain calendar fields, and the two ways this tool
//! writes them.
use vstd::prelude::*;

use crate::text::{decimal, push_decimal, push_decimal_padded, string_of, zero_pad};

verus! {

/// A moment in UTC, as calendar fields. A second that holds a leap second
/// carries it as `nanosecond >= 1_000_000_000`.
#[derive(Debug, Clone, Copy, PartialEq, Eq)]
pub struct Timestamp {
    pub year: i32,
    pub month: u32,
    pub day: u32,
    pub hour: u32,
    pub minute: u32,
    pub second: u32,
    pub nanosecond: u32,
}

/// How `%Y` writes a year: four digits with leading zeros, and a sign when the
/// year lies outside 0..=9999.
pub open spec fn year_text(y: int) -> Seq<char> {
    if 0 <= y <= 9999 {
        zero_pad(decimal(y as nat), 4)
    } else if y > 9999 {
        "+"@ + decimal(y as nat)
    } else {
        "-"@ + zero_pad(decimal((-y) as nat), 4)
    }
}

/// How `%m`, `%d`, `%H`, `%M` and `%S` write a field: two digits.
pub open spec fn two_digits(v: nat) -> Seq<char> {
    zero_pad(decimal(v), 2)
}

impl Timestamp {
    /// The fields lie in the ranges of a calendar date and a time of day.
    pub open spec fn wf(&self) -> bool {
        &&& -262144 <= self.year <= 262143
        &&& 1 <= self.month <= 12
        &&& 1 <= self.day <= 31
        &&& self.hour < 24
        &&& self.minute < 60
        &&& self.second < 60
        &&& self.nanosecond < 2_000_000_000
    }

    /// The second as `%S` shows it (60 during a leap second).
    pub open spec fn shown_second(&self) -> nat {
        (self.second + self.nanosecond / 1_000_000_000) as nat
    }

    /// `%Y%m%d%H%M%S`.
    pub open spec fn compact_text(&self) -> Seq<char> {
        year_text(self.year as int) + two_digits(self.month as nat) + two_digits(self.day as nat)
            + two_digits(self.hour as nat) + two_digits(self.minute as nat) + two_digits(
            self.shown_second(),
        )
    }

    /// `%Y-%m-%d`.
    pub open spec fn date_text(&self) -> Seq<char> {
        year_text(self.year as int) + "-"@ + two_digits(self.month as nat) + "-"@ + two_digits(
            self.day as nat,
        )
    }

    /// Whether the fields are in range.
    pub fn is_valid(&self) -> (r: bool)
        ensures
            r == self.wf(),
    {
        -262144 <= self.year && self.year <= 262143 && 1 <= self.month && self.month <= 12 && 1
            <= self.day && self.day <= 31 && self.hour < 24 && self.minute < 60 && self.second
            < 60 && self.nanosecond < 2_000_000_000
    }

    fn push_year(&self, out: &mut Vec<char>)
        requires
            self.wf(),
        ensures
            final(out)@ == old(out)@ + year_text(self.year as int),
    {
        proof {
            reveal_strlit("+");
            reveal_strlit("-");
        }
        if 0 <= self.year && self.year <= 9999 {
            push_decimal_padded(out, self.year as u64, 4);
        } else if self.year > 9999 {
            let ghost before = out@;
            out.push('+');
            push_decimal(out, self.year as u64);
            assert(out@ =~= before + year_text(self.year as int));
        } else {
            let ghost before = out@;
            out.push('-');
            let m = (0 - self.year) as u64;
            push_decimal_padded(out, m, 4);
            assert(out@ =~= before + year_text(self.year as int));
        }
    }

    /// The moment as `%Y%m%d%H%M%S`, the stamp that starts a changeset file name.
    pub fn compact(&self) -> (r: String)
        requires
            self.wf(),
        ensures
            r@ == self.compact_text(),
    {
        let mut v: Vec<char> = Vec::new();
        self.push_year(&mut v);
        push_decimal_padded(&mut v, self.month as u64, 2);
        push_decimal_padded(&mut v, self.day as u64, 2);
        push_decimal_padded(&mut v, self.hour as u64, 2);
        push_decimal_padded(&mut v, self.minute as u64, 2);
        let s = self.second + self.nanosecond / 1_000_000_000;
        push_decimal_padded(&mut v, s as u64, 2);
        assert(v@ =~= self.compact_text());
        string_of(&v)
    }

    /// The day as `%Y-%m-%d`, the date of a changelog entry.
    pub fn date(&self) -> (r: String)
        requires
            self.wf(),
        ensures
            r@ == self.date_text(),
    {
        proof {
            reveal_strlit("-");
        }
        let mut v: Vec<char> = Vec::new();
        self.push_year(&mut v);
        v.push('-');
        push_decimal_padded(&mut v, self.month as u64, 2);
        v.push('-');
        push_decimal_padded(&mut v, self.day as u64, 2);
        assert(v@ =~= self.date_text());
        string_of(&v)
    }
}

} // verus!
