//! Daily price records and the date-ordered series built from them.
use vstd::prelude::*;

use crate::date::{iso_calendar_date, PriceDate};
use crate::decimal::{fixed_point_value, parse_fixed_point};
use crate::error::MarketError;

verus! {

/// One trading day as the provider sends it: every field still text.
#[derive(Debug)]
pub struct RawDailyRecord {
    pub date: String,
    pub open: String,
    pub high: String,
    pub low: String,
    pub close: String,
    pub volume: String,
}

/// One trading day, prices and volume in fixed point (`PRICE_SCALE` units).
#[derive(Clone, Copy, Debug, PartialEq, Eq, Structural)]
pub struct PricePoint {
    pub date: PriceDate,
    pub open: u64,
    pub high: u64,
    pub low: u64,
    pub close: u64,
    pub volume: u64,
}

/// The point a record stands for, if its date and its five numbers all read.
pub open spec fn point_of(r: RawDailyRecord) -> Option<PricePoint> {
    match (
        iso_calendar_date(r.date@),
        fixed_point_value(r.open@),
        fixed_point_value(r.high@),
        fixed_point_value(r.low@),
        fixed_point_value(r.close@),
        fixed_point_value(r.volume@),
    ) {
        (Some(d), Some(o), Some(h), Some(l), Some(c), Some(v)) => Some(
            PricePoint {
                date: PriceDate { day: d.0 as i32, month: d.1 as u32 },
                open: o as u64,
                high: h as u64,
                low: l as u64,
                close: c as u64,
                volume: v as u64,
            },
        ),
        _ => None,
    }
}

/// Days strictly increase along `s`, and every date is a valid one.
pub open spec fn ascending_by_day(s: Seq<PricePoint>) -> bool {
    &&& forall|i: int, j: int| 0 <= i < j < s.len() ==> s[i].date.day < s[j].date.day
    &&& forall|i: int| 0 <= i < s.len() ==> (#[trigger] s[i]).date.wf()
}

/// `p` lies strictly before the optional end date.
pub open spec fn before_end(p: PricePoint, until: Option<PriceDate>) -> bool {
    match until {
        Some(u) => p.date.day < u.day,
        None => true,
    }
}

/// Every record reads as a point.
pub open spec fn all_readable(rs: Seq<RawDailyRecord>) -> bool {
    forall|i: int| 0 <= i < rs.len() ==> (#[trigger] point_of(rs[i])) is Some
}

/// No two records kept before the end date fall on the same day.
pub open spec fn kept_days_distinct(rs: Seq<RawDailyRecord>, until: Option<PriceDate>) -> bool {
    forall|i: int, j: int|
        0 <= i < rs.len() && 0 <= j < rs.len() && i != j && point_of(rs[i]) is Some && point_of(
            rs[j],
        ) is Some && before_end(point_of(rs[i]).unwrap(), until) && before_end(
            point_of(rs[j]).unwrap(),
            until,
        ) ==> #[trigger] point_of(rs[i]).unwrap().date.day != #[trigger] point_of(
            rs[j],
        ).unwrap().date.day
}

/// `p` is the point of some record kept before the end date.
pub open spec fn is_kept_point(rs: Seq<RawDailyRecord>, until: Option<PriceDate>, p: PricePoint) -> bool {
    exists|i: int| 0 <= i < rs.len() && #[trigger] point_of(rs[i]) == Some(p) && before_end(p, until)
}

/// Reads one record: its ISO date and its five decimal numbers.
pub fn read_record(r: &RawDailyRecord) -> (res: Result<PricePoint, MarketError>)
    ensures
        match res {
            Ok(p) => point_of(*r) == Some(p) && p.date.wf(),
            Err(e) => e == MarketError::Parse && point_of(*r) is None,
        },
{
    let date = match PriceDate::parse(r.date.as_str()) {
        Ok(d) => d,
        Err(e) => return Err(e),
    };
    let open = parse_fixed_point(r.open.as_str());
    let high = parse_fixed_point(r.high.as_str());
    let low = parse_fixed_point(r.low.as_str());
    let close = parse_fixed_point(r.close.as_str());
    let volume = parse_fixed_point(r.volume.as_str());
    match (open, high, low, close, volume) {
        (Some(open), Some(high), Some(low), Some(close), Some(volume)) => Ok(
            PricePoint { date, open, high, low, close, volume },
        ),
        _ => Err(MarketError::Parse),
    }
}

/// A date-keyed series of trading days, in ascending date order with no day
/// twice.
pub struct PriceSeries {
    points: Vec<PricePoint>,
}

impl View for PriceSeries {
    type V = Seq<PricePoint>;

    closed spec fn view(&self) -> Seq<PricePoint> {
        self.points@
    }
}

impl PriceSeries {
    #[verifier::type_invariant]
    spec fn inv(self) -> bool {
        ascending_by_day(self.points@)
    }

    /// The points, oldest first.
    pub fn points(&self) -> (r: &Vec<PricePoint>)
        ensures
            r@ == self@,
            ascending_by_day(self@),
    {
        proof {
            use_type_invariant(self);
        }
        &self.points
    }

    /// Number of trading days.
    pub fn len(&self) -> (r: usize)
        ensures
            r == self@.len(),
    {
        self.points.len()
    }

    /// The close of the most recent day. Fails with `EmptySeries` on an empty
    /// series.
    pub fn latest_close(&self) -> (r: Result<u64, MarketError>)
        ensures
            match r {
                Ok(c) => self@.len() > 0 && c == self@.last().close,
                Err(e) => self@.len() == 0 && e == MarketError::EmptySeries,
            },
    {
        let n = self.points.len();
        if n == 0 {
            return Err(MarketError::EmptySeries);
        }
        Ok(self.points[n - 1].close)
    }

    /// Reads the provider's records into a series, keeping the days strictly
    /// before `until` when it is given. Fails with `Parse` when a record does
    /// not read, or when two kept records fall on the same day.
    pub fn from_records(records: &Vec<RawDailyRecord>, until: Option<PriceDate>) -> (r: Result<
        PriceSeries,
        MarketError,
    >)
        ensures
            r is Ok <==> all_readable(records@) && kept_days_distinct(records@, until),
            match r {
                Ok(s) => ascending_by_day(s@) && forall|p: PricePoint|
                    #[trigger] s@.contains(p) <==> is_kept_point(records@, until, p),
                Err(e) => e == MarketError::Parse,
            },
    {
        let mut out: Vec<PricePoint> = Vec::new();
        let n = records.len();
        let mut i: usize = 0;
        while i < n
            invariant
                n == records@.len(),
                i <= n,
                ascending_by_day(out@),
                all_readable(records@.take(i as int)),
                kept_days_distinct(records@.take(i as int), until),
                forall|p: PricePoint|
                    #[trigger] out@.contains(p) <==> is_kept_point(records@.take(i as int), until, p),
            decreases n - i,
        {
            let ghost rs = records@;
            let ghost before = rs.take(i as int);
            let ghost after = rs.take(i + 1);
            assert(after.drop_last() =~= before);
            assert(forall|j: int| 0 <= j < i ==> after[j] == before[j]);
            assert(after[i as int] == rs[i as int]);
            let p = match read_record(&records[i]) {
                Ok(p) => p,
                Err(e) => {
                    proof {
                        assert(point_of(rs[i as int]) is None);
                    }
                    return Err(e);
                },
            };
            let kept = match until {
                Some(u) => p.date.day < u.day,
                None => true,
            };
            assert(kept == before_end(p, until));
            assert(point_of(after[i as int]) == Some(p));
            if kept {
                let mut pos: usize = 0;
                while pos < out.len() && out[pos].date.day < p.date.day
                    invariant
                        pos <= out@.len(),
                        forall|k: int| 0 <= k < pos ==> out@[k].date.day < p.date.day,
                    decreases out@.len() - pos,
                {
                    pos = pos + 1;
                }
                if pos < out.len() && out[pos].date.day == p.date.day {
                    proof {
                        let q = out@[pos as int];
                        assert(out@.contains(q));
                        let j = choose|j: int|
                            0 <= j < before.len() && #[trigger] point_of(before[j]) == Some(q)
                                && before_end(q, until);
                        assert(point_of(rs[j]) == Some(q));
                        assert(point_of(rs[i as int]) == Some(p));
                        assert(j < i);
                        assert(before_end(point_of(rs[j]).unwrap(), until));
                        assert(before_end(point_of(rs[i as int]).unwrap(), until));
                        assert(point_of(rs[j]).unwrap().date.day == point_of(
                            rs[i as int],
                        ).unwrap().date.day);
                        assert(!kept_days_distinct(rs, until));
                    }
                    return Err(MarketError::Parse);
                }
                let ghost old_out = out@;
                proof {
                    assert forall|k: int| 0 <= k < old_out.len() implies old_out[k].date.day
                        != p.date.day by {
                        if k >= pos {
                            assert(old_out[pos as int].date.day > p.date.day);
                        }
                    }
                }
                out.insert(pos, p);
                proof {
                    assert(forall|k: int| 0 <= k < pos ==> out@[k] == old_out[k]);
                    assert(out@[pos as int] == p);
                    assert(forall|k: int| pos < k < out@.len() ==> out@[k] == old_out[k - 1]);
                    assert forall|q: PricePoint| #[trigger] out@.contains(q) <==> (q == p
                        || old_out.contains(q)) by {
                        if out@.contains(q) {
                            let k = choose|k: int| 0 <= k < out@.len() && out@[k] == q;
                            if k < pos {
                                assert(old_out[k] == q);
                            } else if k > pos {
                                assert(old_out[k - 1] == q);
                            }
                        }
                        if old_out.contains(q) {
                            let k = choose|k: int| 0 <= k < old_out.len() && old_out[k] == q;
                            if k < pos {
                                assert(out@[k] == q);
                            } else {
                                assert(out@[k + 1] == q);
                            }
                        }
                        if q == p {
                            assert(out@[pos as int] == q);
                        }
                    }
                    assert(kept_days_distinct(after, until)) by {
                        assert forall|a: int, b: int|
                            0 <= a < after.len() && 0 <= b < after.len() && a != b && point_of(
                                after[a],
                            ) is Some && point_of(after[b]) is Some && before_end(
                                point_of(after[a]).unwrap(),
                                until,
                            ) && before_end(point_of(after[b]).unwrap(), until) implies #[trigger] point_of(
                            after[a],
                        ).unwrap().date.day != #[trigger] point_of(after[b]).unwrap().date.day by {
                            if a < i && b < i {
                                assert(after[a] == before[a] && after[b] == before[b]);
                            } else {
                                let j = if a < i { a } else { b };
                                let q = point_of(before[j]).unwrap();
                                assert(after[j] == before[j]);
                                assert(is_kept_point(before, until, q));
                                assert(old_out.contains(q));
                            }
                        }
                    }
                }
            } else {
                proof {
                    assert(kept_days_distinct(after, until)) by {
                        assert forall|a: int, b: int|
                            0 <= a < after.len() && 0 <= b < after.len() && a != b && point_of(
                                after[a],
                            ) is Some && point_of(after[b]) is Some && before_end(
                                point_of(after[a]).unwrap(),
                                until,
                            ) && before_end(point_of(after[b]).unwrap(), until) implies #[trigger] point_of(
                            after[a],
                        ).unwrap().date.day != #[trigger] point_of(after[b]).unwrap().date.day by {
                            assert(after[a] == before[a] && after[b] == before[b]);
                        }
                    }
                }
            }
            proof {
                assert(all_readable(after)) by {
                    assert forall|j: int| 0 <= j < after.len() implies (#[trigger] point_of(
                        after[j],
                    )) is Some by {
                        if j < i {
                            assert(after[j] == before[j]);
                        }
                    }
                }
                assert forall|q: PricePoint| #[trigger] out@.contains(q) <==> is_kept_point(
                    after,
                    until,
                    q,
                ) by {
                    if is_kept_point(before, until, q) {
                        let j = choose|j: int|
                            0 <= j < before.len() && #[trigger] point_of(before[j]) == Some(q)
                                && before_end(q, until);
                        assert(point_of(after[j]) == Some(q));
                    }
                    if is_kept_point(after, until, q) {
                        let j = choose|j: int|
                            0 <= j < after.len() && #[trigger] point_of(after[j]) == Some(q)
                                && before_end(q, until);
                        if j < i {
                            assert(point_of(before[j]) == Some(q));
                        }
                    }
                }
            }
            i = i + 1;
        }
        proof {
            assert(records@.take(n as int) =~= records@);
        }
        Ok(PriceSeries { points: out })
    }
}

} // verus!
