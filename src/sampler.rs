//! One representative close per calendar month of the trailing year.
use vstd::prelude::*;

use crate::date::PriceDate;
use crate::error::MarketError;
use crate::series::{ascending_by_day, PricePoint, PriceSeries};

verus! {

/// Length of the trailing window, in days.
pub const WINDOW_DAYS: i64 = 365;

/// The close kept for one month.
#[derive(Clone, Copy, Debug, PartialEq, Eq, Structural)]
pub struct MonthlyPrice {
    pub month: u32,
    pub date: PriceDate,
    pub close: u64,
}

/// `p` lies in the trailing year before `today`: after the day 365 days
/// before it, and strictly before `today` itself.
pub open spec fn in_window(p: PricePoint, today: PriceDate) -> bool {
    today.day - WINDOW_DAYS < p.date.day && p.date.day < today.day
}

/// Some point of `s` in the window falls in month `m`.
pub open spec fn month_in_window(s: Seq<PricePoint>, today: PriceDate, m: int) -> bool {
    exists|j: int| 0 <= j < s.len() && in_window(#[trigger] s[j], today) && s[j].date.month == m
}

/// `s[j]` is the first point of `s` in the window that falls in month `m`.
spec fn first_in_month(s: Seq<PricePoint>, today: PriceDate, m: int, j: int) -> bool {
    &&& 0 <= j < s.len()
    &&& in_window(s[j], today)
    &&& s[j].date.month == m
    &&& forall|k: int| 0 <= k < j ==> !(in_window(#[trigger] s[k], today) && s[k].date.month == m)
}

/// `e` is the earliest point of `s` in the window within its month.
pub open spec fn is_earliest_of_month(s: Seq<PricePoint>, today: PriceDate, e: MonthlyPrice) -> bool {
    &&& exists|j: int|
        0 <= j < s.len() && in_window(#[trigger] s[j], today) && s[j].date == e.date && s[j].close
            == e.close && s[j].date.month == e.month
    &&& forall|j: int|
        0 <= j < s.len() && in_window(#[trigger] s[j], today) && s[j].date.month == e.month
            ==> e.date.day <= s[j].date.day
}

/// For each calendar month with a point in the trailing year before `today`
/// (later than 365 days before it, earlier than `today`), the close of that
/// month's earliest such point, months ascending. Fails
/// with `EmptySeries` when no point falls in that window.
pub fn sample_last_year(series: &PriceSeries, today: PriceDate) -> (r: Result<Vec<MonthlyPrice>, MarketError>)
    ensures
        r is Err <==> forall|m: int| 1 <= m <= 12 ==> !month_in_window(series@, today, m),
        match r {
            Ok(out) => {
                &&& 0 < out@.len() <= 12
                &&& forall|a: int, b: int| 0 <= a < b < out@.len() ==> out@[a].month < out@[b].month
                &&& forall|k: int| 0 <= k < out@.len() ==> 1 <= (#[trigger] out@[k]).month <= 12
                &&& forall|k: int|
                    0 <= k < out@.len() ==> is_earliest_of_month(series@, today, #[trigger] out@[k])
                &&& forall|m: int|
                    #![trigger month_in_window(series@, today, m)]
                    1 <= m <= 12 && month_in_window(series@, today, m) ==> exists|k: int|
                        0 <= k < out@.len() && (#[trigger] out@[k]).month == m
            },
            Err(e) => e == MarketError::EmptySeries,
        },
{
    let points = series.points();
    let ghost s = series@;
    let n = points.len();
    let mut slots: Vec<Option<usize>> = Vec::new();
    let mut m: usize = 0;
    while m < 13
        invariant
            slots@.len() == m,
            m <= 13,
            forall|x: int| 0 <= x < m ==> slots@[x] is None,
        decreases 13 - m,
    {
        slots.push(None);
        m = m + 1;
    }
    let mut i: usize = 0;
    while i < n
        invariant
            points@ == s,
            ascending_by_day(s),
            n == s.len(),
            i <= n,
            slots@.len() == 13,
            forall|x: int|
                #![trigger slots@[x]]
                0 <= x < 13 ==> match slots@[x] {
                    Some(j) => j < i && first_in_month(s, today, x, j as int),
                    None => forall|k: int|
                        0 <= k < i ==> !(in_window(#[trigger] s[k], today) && s[k].date.month == x),
                },
        decreases n - i,
    {
        let p = points[i];
        proof {
            assert(s[i as int].date.wf());
        }
        let inside = (p.date.day as i64) > (today.day as i64) - WINDOW_DAYS && p.date.day < today.day;
        let mi = p.date.month as usize;
        if inside && slots[mi].is_none() {
            slots.set(mi, Some(i));
            proof {
                assert(first_in_month(s, today, mi as int, i as int));
            }
        }
        proof {
            assert forall|x: int| #![trigger slots@[x]] 0 <= x < 13 implies match slots@[x] {
                Some(j) => j < i + 1 && first_in_month(s, today, x, j as int),
                None => forall|k: int|
                    0 <= k < i + 1 ==> !(in_window(#[trigger] s[k], today) && s[k].date.month == x),
            } by {
                if slots@[x] is None {
                    assert forall|k: int| 0 <= k < i + 1 implies !(in_window(#[trigger] s[k], today)
                        && s[k].date.month == x) by {
                        if k == i && x == mi {
                        }
                    }
                }
            }
        }
        i = i + 1;
    }
    let mut out: Vec<MonthlyPrice> = Vec::new();
    let mut month: usize = 1;
    while month <= 12
        invariant
            points@ == s,
            ascending_by_day(s),
            n == s.len(),
            1 <= month <= 13,
            slots@.len() == 13,
            forall|x: int|
                #![trigger slots@[x]]
                0 <= x < 13 ==> match slots@[x] {
                    Some(j) => j < n && first_in_month(s, today, x, j as int),
                    None => forall|k: int|
                        0 <= k < n ==> !(in_window(#[trigger] s[k], today) && s[k].date.month == x),
                },
            out@.len() < month,
            forall|a: int, b: int| 0 <= a < b < out@.len() ==> out@[a].month < out@[b].month,
            forall|k: int| 0 <= k < out@.len() ==> 1 <= (#[trigger] out@[k]).month < month,
            forall|k: int|
                0 <= k < out@.len() ==> is_earliest_of_month(s, today, #[trigger] out@[k]),
            forall|x: int|
                #![trigger slots@[x]]
                1 <= x < month && slots@[x] is Some ==> exists|k: int|
                    0 <= k < out@.len() && (#[trigger] out@[k]).month == x,
        decreases 13 - month,
    {
        let ghost old_out = out@;
        match slots[month] {
            Some(j) => {
                let p = points[j];
                let e = MonthlyPrice { month: month as u32, date: p.date, close: p.close };
                proof {
                    assert(first_in_month(s, today, month as int, j as int));
                    assert forall|k: int|
                        0 <= k < s.len() && in_window(#[trigger] s[k], today) && s[k].date.month
                            == e.month implies e.date.day <= s[k].date.day by {
                        if k < j {
                        } else if k > j {
                        }
                    }
                    assert(in_window(s[j as int], today));
                    assert(is_earliest_of_month(s, today, e));
                }
                out.push(e);
                proof {
                    assert(out@[out@.len() - 1] == e);
                }
            },
            None => {},
        }
        proof {
            assert forall|x: int|
                #![trigger slots@[x]]
                1 <= x < month + 1 && slots@[x] is Some implies exists|k: int|
                    0 <= k < out@.len() && (#[trigger] out@[k]).month == x by {
                if x < month {
                    let k = choose|k: int| 0 <= k < old_out.len() && (#[trigger] old_out[k]).month == x;
                    assert(out@[k] == old_out[k]);
                } else {
                    assert(out@[out@.len() - 1].month == x);
                }
            }
        }
        month = month + 1;
    }
    proof {
        assert forall|x: int| 1 <= x <= 12 && month_in_window(s, today, x) implies slots@[x] is Some by {
            let k = choose|k: int| 0 <= k < s.len() && in_window(#[trigger] s[k], today) && s[k].date.month == x;
            if slots@[x] is None {
                assert(!(in_window(s[k], today) && s[k].date.month == x));
            }
        }
    }
    if out.len() == 0 {
        proof {
            assert forall|x: int| 1 <= x <= 12 implies !month_in_window(s, today, x) by {
                if month_in_window(s, today, x) {
                    assert(slots@[x] is Some);
                }
            }
        }
        return Err(MarketError::EmptySeries);
    }
    proof {
        let e = out@[0];
        assert(is_earliest_of_month(s, today, e));
        let j = choose|j: int|
            0 <= j < s.len() && in_window(#[trigger] s[j], today) && s[j].date == e.date && s[j].close
                == e.close && s[j].date.month == e.month;
        assert(month_in_window(s, today, e.month as int));
    }
    Ok(out)
}

} // verus!
