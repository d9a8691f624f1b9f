//! Calendar dates of trading days.
use chrono::Datelike;
use vstd::prelude::*;

use crate::error::MarketError;

verus! {

/// What chrono reads from an ISO `YYYY-MM-DD` text: the day's number counted
/// from 1 January of year 1, and the month; `None` where it reads no date.
pub uninterp spec fn iso_calendar_date(s: Seq<char>) -> Option<(int, int)>;

/// Relies on chrono's `FromStr for NaiveDate` (the `YYYY-MM-DD` form) and on
/// its `Datelike::num_days_from_ce` and `Datelike::month`, the latter from 1 to 12.
#[verifier::external_body]
fn read_iso_date(s: &str) -> (r: Option<(i32, u32)>)
    ensures
        match r {
            Some((day, month)) => iso_calendar_date(s@) == Some((day as int, month as int))
                && 1 <= month <= 12,
            None => iso_calendar_date(s@) is None,
        },
{
    match s.parse::<chrono::NaiveDate>() {
        Ok(d) => Some((d.num_days_from_ce(), d.month())),
        Err(_) => None,
    }
}

/// A calendar day: its number, which orders days and counts the days between
/// them, and its month.
#[derive(Clone, Copy, Debug, PartialEq, Eq, Structural)]
pub struct PriceDate {
    /// Days since 1 January of year 1, that day being 1.
    pub day: i32,
    /// Month of the year, 1 to 12.
    pub month: u32,
}

impl PriceDate {
    pub open spec fn wf(self) -> bool {
        1 <= self.month <= 12
    }

    /// Reads an ISO `YYYY-MM-DD` date.
    pub fn parse(s: &str) -> (r: Result<PriceDate, MarketError>)
        ensures
            match r {
                Ok(d) => d.wf() && iso_calendar_date(s@) == Some((d.day as int, d.month as int)),
                Err(e) => e == MarketError::Parse && iso_calendar_date(s@) is None,
            },
    {
        match read_iso_date(s) {
            Some((day, month)) => Ok(PriceDate { day, month }),
            None => Err(MarketError::Parse),
        }
    }
}

} // verus!
