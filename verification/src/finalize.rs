use vstd::prelude::*;

use crate::calendar::{date_before, date_lt, days_in_month, spec_days_in_month, Date};
use crate::store::{find_rate, key_of, lemma_find_rate_props, snapshot_wf, StoredRate};

verus! {

/// The last calendar day of the given month.
pub open spec fn spec_last_day(year: i32, month: u8) -> Date {
    Date { year, month, day: spec_days_in_month(year as int, month as int) as u8 }
}

/// A stored rate is finalized for a month exactly when it was recorded
/// strictly after that month's last calendar day: it then reflects settled
/// historical data rather than a same-month provisional snapshot.
pub open spec fn spec_is_finalized(r: StoredRate, year: i32, month: u8) -> bool {
    date_before(spec_last_day(year, month), r.recorded_at)
}

/// Whether the snapshot holds a finalized rate under the given key.
pub open spec fn has_finalized_rate(
    s: Seq<StoredRate>,
    year: i32,
    month: u8,
    from: Seq<char>,
    to: Seq<char>,
) -> bool {
    exists|i: int|
        0 <= i < s.len() && key_of(#[trigger] s[i]) == (year, month, from, to)
            && spec_is_finalized(s[i], year, month)
}

pub fn last_day_of_month(year: i32, month: u8) -> (d: Date)
    requires
        year >= 1,
        1 <= month <= 12,
    ensures
        d == spec_last_day(year, month),
        d.wf(),
{
    Date { year, month, day: days_in_month(year, month) }
}

/// Decides whether `r` counts as finalized for `(year, month)`.
pub fn is_finalized(r: &StoredRate, year: i32, month: u8) -> (b: bool)
    requires
        year >= 1,
        1 <= month <= 12,
    ensures
        b == spec_is_finalized(*r, year, month),
{
    let last_day = last_day_of_month(year, month);
    date_lt(&last_day, &r.recorded_at)
}

/// Decides whether the snapshot holds a finalized rate under the given key.
pub fn lookup_finalized(
    snapshot: &Vec<StoredRate>,
    year: i32,
    month: u8,
    from: &String,
    to: &String,
) -> (b: bool)
    requires
        snapshot_wf(snapshot@),
        year >= 1,
        1 <= month <= 12,
    ensures
        b == has_finalized_rate(snapshot@, year, month, from@, to@),
{
    let found = find_rate(snapshot, year, month, from, to);
    match found {
        None => {
            proof {
                lemma_find_rate_props(snapshot@, year, month, from@, to@);
            }
            false
        },
        Some(i) => {
            proof {
                lemma_find_rate_props(snapshot@, year, month, from@, to@);
            }
            let fin = is_finalized(&snapshot[i], year, month);
            proof {
                if fin {
                    assert(key_of(snapshot@[i as int]) == (year, month, from@, to@)
                        && spec_is_finalized(snapshot@[i as int], year, month));
                } else {
                    assert forall|j: int|
                        0 <= j < snapshot@.len() && key_of(#[trigger] snapshot@[j]) == (
                        year,
                        month,
                        from@,
                        to@,
                        ) implies !spec_is_finalized(snapshot@[j], year, month) by {
                        if j < i {
                            assert(key_of(snapshot@[j]) != key_of(snapshot@[i as int]));
                        } else if j > i {
                            assert(key_of(snapshot@[i as int]) != key_of(snapshot@[j]));
                        }
                    }
                }
            }
            fin
        },
    }
}

} // verus!
