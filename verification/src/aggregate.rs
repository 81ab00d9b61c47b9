use vstd::prelude::*;

use crate::calendar::{date_before, date_lt, parse_date, spec_parse_date, Date};
use crate::provider::{days_wf, quotes_wf, DayRates, MonthRates, Quote};
use crate::sync::SyncService;

verus! {

/// Whether a response entry is a parsable date lying in the given month of
/// the given year. Entries with unparsable dates count for nothing.
pub open spec fn entry_in_month(d: DayRates, year: i32, month: u8) -> bool {
    match spec_parse_date(d.date@) {
        Some(dt) => dt.year == year && dt.month == month,
        None => false,
    }
}

/// The calendar date of an entry; meaningful only when the date parses.
pub open spec fn entry_date(d: DayRates) -> Date {
    spec_parse_date(d.date@)->0
}

/// Entry `w` is the month's representative day: it lies in the month, no
/// entry of the month has a later date, and no earlier entry of the
/// response has the same date.
pub open spec fn is_winner(days: Seq<DayRates>, year: i32, month: u8, w: int) -> bool {
    &&& 0 <= w < days.len()
    &&& entry_in_month(days[w], year, month)
    &&& forall|j: int|
        0 <= j < days.len() && entry_in_month(#[trigger] days[j], year, month) ==> !date_before(
            entry_date(days[w]),
            entry_date(days[j]),
        )
    &&& forall|j: int|
        0 <= j < w && entry_in_month(#[trigger] days[j], year, month) ==> date_before(
            entry_date(days[j]),
            entry_date(days[w]),
        )
}

/// Result entry `i` carries exactly the quote set of the representative
/// day of its month.
pub open spec fn aggregated_month_ok(
    days: Seq<DayRates>,
    year: i32,
    out: Seq<MonthRates>,
    i: int,
) -> bool {
    exists|w: int| is_winner(days, year, out[i].month, w) && out[i].quotes@ == days[w].quotes@
}

/// Some entry of the response lies in the given month of the year.
pub open spec fn month_has_entry(days: Seq<DayRates>, year: i32, month: u8) -> bool {
    exists|j: int| 0 <= j < days.len() && entry_in_month(#[trigger] days[j], year, month)
}

/// The aggregated result carries an entry for the given month.
pub open spec fn month_listed(out: Seq<MonthRates>, month: u8) -> bool {
    exists|i: int| 0 <= i < out.len() && (#[trigger] out[i]).month == month
}

fn clone_quotes(v: &Vec<Quote>) -> (r: Vec<Quote>)
    ensures
        r@ == v@,
{
    let n = v.len();
    let mut r: Vec<Quote> = Vec::new();
    let mut i: usize = 0;
    while i < n
        invariant
            n == v@.len(),
            0 <= i <= n,
            r@ =~= v@.take(i as int),
        decreases n - i,
    {
        r.push(v[i].clone());
        proof {
            assert(r@ =~= v@.take(i + 1));
        }
        i += 1;
    }
    proof {
        assert(v@.take(n as int) =~= v@);
    }
    r
}

fn best_entry_for_month(days: &Vec<DayRates>, year: i32, month: u8) -> (r: Option<usize>)
    ensures
        match r {
            Some(w) => is_winner(days@, year, month, w as int),
            None => forall|j: int|
                0 <= j < days@.len() ==> !entry_in_month(#[trigger] days@[j], year, month),
        },
{
    let n = days.len();
    let mut best: Option<(usize, Date)> = None;
    let mut j: usize = 0;
    while j < n
        invariant
            n == days@.len(),
            0 <= j <= n,
            match best {
                Some((b, bd)) => {
                    &&& 0 <= b < j
                    &&& entry_in_month(days@[b as int], year, month)
                    &&& bd == entry_date(days@[b as int])
                    &&& forall|t: int|
                        0 <= t < j && entry_in_month(#[trigger] days@[t], year, month)
                            ==> !date_before(bd, entry_date(days@[t]))
                    &&& forall|t: int|
                        0 <= t < b && entry_in_month(#[trigger] days@[t], year, month)
                            ==> date_before(entry_date(days@[t]), bd)
                },
                None => forall|t: int|
                    0 <= t < j ==> !entry_in_month(#[trigger] days@[t], year, month),
            },
        decreases n - j,
    {
        let parsed = parse_date(days[j].date.as_slice());
        match parsed {
            Some(dt) => {
                if dt.year == year && dt.month == month {
                    match best {
                        None => {
                            best = Some((j, dt));
                        },
                        Some((_b, bd)) => {
                            if date_lt(&bd, &dt) {
                                best = Some((j, dt));
                            }
                        },
                    }
                }
            },
            None => {},
        }
        j += 1;
    }
    match best {
        None => None,
        Some((b, _bd)) => Some(b),
    }
}

impl SyncService {
    /// Collapses a provider response to at most one entry per month of the
    /// target year: the representative day of each month is the latest
    /// parsable date seen for it, and that day's quote set wins whole —
    /// quotes of different days are never mixed into one month. Entries
    /// with unparsable dates and entries outside the target year are
    /// dropped. The result lists months in ascending order.
    pub fn process_frankfurter_rates(days: &Vec<DayRates>, target_year: i32) -> (out: Vec<
        MonthRates,
    >)
        ensures
            forall|i: int, k: int|
                0 <= i < k < out@.len() ==> (#[trigger] out@[i]).month < (#[trigger] out@[k]).month,
            forall|i: int|
                0 <= i < out@.len() ==> 1 <= (#[trigger] out@[i]).month <= 12,
            forall|i: int| 0 <= i < out@.len() ==> aggregated_month_ok(days@, target_year, out@, i),
            forall|m: u8|
                1 <= m <= 12 ==> (month_has_entry(days@, target_year, m) <==> month_listed(
                    out@,
                    m,
                )),
            days_wf(days@) ==> forall|i: int|
                0 <= i < out@.len() ==> quotes_wf((#[trigger] out@[i]).quotes@),
    {
        let mut out: Vec<MonthRates> = Vec::new();
        let mut month: u8 = 1;
        while month <= 12
            invariant
                1 <= month <= 13,
                forall|i: int|
                    0 <= i < out@.len() ==> 1 <= (#[trigger] out@[i]).month < month,
                forall|i: int, k: int|
                    0 <= i < k < out@.len() ==> (#[trigger] out@[i]).month < (
                    #[trigger] out@[k]).month,
                forall|i: int|
                    0 <= i < out@.len() ==> aggregated_month_ok(days@, target_year, out@, i),
                forall|m: u8|
                    1 <= m < month ==> (month_has_entry(days@, target_year, m) <==> month_listed(
                        out@,
                        m,
                    )),
            decreases 13 - month,
        {
            let ghost prev = out@;
            match best_entry_for_month(days, target_year, month) {
                Some(w) => {
                    let quotes = clone_quotes(&days[w].quotes);
                    out.push(MonthRates { month, quotes });
                    proof {
                        assert forall|i: int| 0 <= i < prev.len() implies out@[i] == prev[i] by {}
                        assert(out@[out@.len() - 1].month == month);
                        assert(is_winner(days@, target_year, month, w as int));
                        assert(out@[out@.len() - 1].quotes@ == days@[w as int].quotes@);
                        assert forall|i: int|
                            0 <= i < out@.len() implies aggregated_month_ok(
                            days@,
                            target_year,
                            out@,
                            i,
                        ) by {
                            if i < prev.len() {
                                assert(out@[i] == prev[i]);
                                assert(aggregated_month_ok(days@, target_year, prev, i));
                                let ww = choose|ww: int|
                                    is_winner(days@, target_year, prev[i].month, ww)
                                        && prev[i].quotes@ == days@[ww].quotes@;
                                assert(is_winner(days@, target_year, out@[i].month, ww)
                                    && out@[i].quotes@ == days@[ww].quotes@);
                            } else {
                                assert(is_winner(days@, target_year, out@[i].month, w as int)
                                    && out@[i].quotes@ == days@[w as int].quotes@);
                            }
                        }
                    }
                },
                None => {},
            }
            proof {
                assert forall|m: u8|
                    1 <= m < month + 1 implies (month_has_entry(days@, target_year, m)
                    <==> month_listed(out@, m)) by {
                    if m < month {
                        if month_listed(prev, m) {
                            let i = choose|i: int|
                                0 <= i < prev.len() && (#[trigger] prev[i]).month == m;
                            assert(out@[i].month == m);
                            assert(month_listed(out@, m));
                        }
                        if month_listed(out@, m) {
                            let i = choose|i: int|
                                0 <= i < out@.len() && (#[trigger] out@[i]).month == m;
                            assert(i < prev.len() && prev[i].month == m);
                            assert(month_listed(prev, m));
                        }
                    } else {
                        if month_has_entry(days@, target_year, m) {
                            let j = choose|j: int|
                                0 <= j < days@.len() && entry_in_month(
                                    #[trigger] days@[j],
                                    target_year,
                                    m,
                                );
                            assert(out@[out@.len() - 1].month == m);
                            assert(month_listed(out@, m));
                        }
                        if month_listed(out@, m) {
                            assert(month_has_entry(days@, target_year, m));
                        }
                    }
                }
            }
            month += 1;
        }
        proof {
            if days_wf(days@) {
                assert forall|i: int|
                    0 <= i < out@.len() implies quotes_wf((#[trigger] out@[i]).quotes@) by {
                    assert(aggregated_month_ok(days@, target_year, out@, i));
                    let w = choose|w: int|
                        is_winner(days@, target_year, out@[i].month, w) && out@[i].quotes@
                            == days@[w].quotes@;
                    assert(quotes_wf(days@[w].quotes@));
                }
            }
        }
        out
    }
}

} // verus!
