use vstd::prelude::*;

use crate::calendar::Date;
use crate::finalize::{has_finalized_rate, lookup_finalized};
use crate::store::{snapshot_wf, StoredRate};
use crate::sync::SyncService;

verus! {

/// A month can be requested only once it has begun: any month of a past
/// year, or a month of the current year up to and including the current
/// month.
pub open spec fn month_reachable(year: i32, month: u8, today: Date) -> bool {
    year < today.year || (year == today.year && month <= today.month)
}

/// A month is closed when every tracked foreign currency has a finalized
/// rate against the home currency for it.
pub open spec fn month_closed(
    s: Seq<StoredRate>,
    year: i32,
    month: u8,
    foreigns: Seq<String>,
    home: Seq<char>,
) -> bool {
    forall|k: int|
        0 <= k < foreigns.len() ==> has_finalized_rate(s, year, month, (#[trigger] foreigns[k])@, home)
}

/// A month still needs data: it has begun, and some tracked currency lacks
/// a finalized rate for it.
pub open spec fn month_open(
    s: Seq<StoredRate>,
    year: i32,
    month: u8,
    foreigns: Seq<String>,
    home: Seq<char>,
    today: Date,
) -> bool {
    month_reachable(year, month, today) && !month_closed(s, year, month, foreigns, home)
}

/// What the coordinator does with one year.
#[derive(Clone, Copy, PartialEq, Eq, Structural, Debug)]
pub enum YearPlan {
    /// The year lies strictly in the past and every month of it is closed:
    /// no request is issued for it.
    Skip,
    /// Request the window from the first day of `start_month` through
    /// December 31 of the year, for all tracked foreign currencies against
    /// the home currency base.
    Fetch { start_month: u8 },
}

fn month_closed_exec(
    snapshot: &Vec<StoredRate>,
    year: i32,
    month: u8,
    foreigns: &Vec<String>,
    home: &String,
) -> (b: bool)
    requires
        snapshot_wf(snapshot@),
        year >= 1,
        1 <= month <= 12,
    ensures
        b == month_closed(snapshot@, year, month, foreigns@, home@),
{
    let n = foreigns.len();
    let mut k: usize = 0;
    while k < n
        invariant
            n == foreigns@.len(),
            0 <= k <= n,
            snapshot_wf(snapshot@),
            year >= 1,
            1 <= month <= 12,
            forall|t: int|
                0 <= t < k ==> has_finalized_rate(snapshot@, year, month, (#[trigger] foreigns@[t])@, home@),
        decreases n - k,
    {
        if !lookup_finalized(snapshot, year, month, &foreigns[k], home) {
            return false;
        }
        k += 1;
    }
    true
}

impl SyncService {
    /// Scans the months of `year` in order and returns the earliest month
    /// that has begun but is not yet closed, together with whether any such
    /// month exists. Months that have not begun are not considered; when no
    /// month is open the reported month defaults to January.
    pub fn find_earliest_incomplete_month(
        year: i32,
        today: Date,
        foreign_currencies: &Vec<String>,
        home_currency: &String,
        rate_map: &Vec<StoredRate>,
    ) -> (r: (u8, bool))
        requires
            year >= 1,
            today.wf(),
            snapshot_wf(rate_map@),
        ensures
            r.1 == exists|m: u8|
                1 <= m <= 12 && month_open(
                    rate_map@,
                    year,
                    m,
                    foreign_currencies@,
                    home_currency@,
                    today,
                ),
            r.1 ==> 1 <= r.0 <= 12 && month_open(
                rate_map@,
                year,
                r.0,
                foreign_currencies@,
                home_currency@,
                today,
            ) && forall|m: u8|
                1 <= m < r.0 ==> !month_open(
                    rate_map@,
                    year,
                    m,
                    foreign_currencies@,
                    home_currency@,
                    today,
                ),
            !r.1 ==> r.0 == 1,
    {
        let mut month: u8 = 1;
        while month <= 12
            invariant
                1 <= month <= 13,
                year >= 1,
                today.wf(),
                snapshot_wf(rate_map@),
                forall|m: u8|
                    1 <= m < month ==> !month_open(
                        rate_map@,
                        year,
                        m,
                        foreign_currencies@,
                        home_currency@,
                        today,
                    ),
            decreases 13 - month,
        {
            if year > today.year || (year == today.year && month > today.month) {
                proof {
                    assert forall|m: u8|
                        1 <= m <= 12 implies !month_open(
                        rate_map@,
                        year,
                        m,
                        foreign_currencies@,
                        home_currency@,
                        today,
                    ) by {
                        if m >= month {
                            assert(!month_reachable(year, m, today));
                        }
                    }
                }
                return (1, false);
            }
            if !month_closed_exec(rate_map, year, month, foreign_currencies, home_currency) {
                proof {
                    assert(month_open(
                        rate_map@,
                        year,
                        month,
                        foreign_currencies@,
                        home_currency@,
                        today,
                    ));
                }
                return (month, true);
            }
            month += 1;
        }
        (1, false)
    }

    /// Plans one year of the run: a year that is strictly past and fully
    /// closed is skipped outright; every other year is fetched from its
    /// earliest open month (from January when the current year has no open
    /// month) through the year's end.
    pub fn plan_year(
        year: i32,
        today: Date,
        foreign_currencies: &Vec<String>,
        home_currency: &String,
        rate_map: &Vec<StoredRate>,
    ) -> (p: YearPlan)
        requires
            year >= 1,
            today.wf(),
            snapshot_wf(rate_map@),
        ensures
            match p {
                YearPlan::Skip => year < today.year && !(exists|m: u8|
                    1 <= m <= 12 && month_open(
                        rate_map@,
                        year,
                        m,
                        foreign_currencies@,
                        home_currency@,
                        today,
                    )),
                YearPlan::Fetch { start_month } => {
                    &&& !(year < today.year && !(exists|m: u8|
                        1 <= m <= 12 && month_open(
                            rate_map@,
                            year,
                            m,
                            foreign_currencies@,
                            home_currency@,
                            today,
                        )))
                    &&& if exists|m: u8|
                        1 <= m <= 12 && month_open(
                            rate_map@,
                            year,
                            m,
                            foreign_currencies@,
                            home_currency@,
                            today,
                        ) {
                        &&& 1 <= start_month <= 12
                        &&& month_open(
                            rate_map@,
                            year,
                            start_month,
                            foreign_currencies@,
                            home_currency@,
                            today,
                        )
                        &&& forall|m: u8|
                            1 <= m < start_month ==> !month_open(
                                rate_map@,
                                year,
                                m,
                                foreign_currencies@,
                                home_currency@,
                                today,
                            )
                    } else {
                        start_month == 1
                    }
                },
            },
    {
        let (earliest_month, any_incomplete) = Self::find_earliest_incomplete_month(
            year,
            today,
            foreign_currencies,
            home_currency,
            rate_map,
        );
        if !any_incomplete && year < today.year {
            YearPlan::Skip
        } else {
            YearPlan::Fetch { start_month: earliest_month }
        }
    }
}

} // verus!
