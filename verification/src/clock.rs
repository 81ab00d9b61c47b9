use vstd::prelude::*;

use chrono::Datelike;

use crate::calendar::Date;
use crate::sync::SyncService;

verus! {

/// Relies on chrono: `Utc::now().date_naive()` is the current UTC day, and
/// `Datelike::year` / `month` / `day` decompose it into a valid proleptic
/// Gregorian date, with months 1..=12 and days counted from 1. The year is
/// positive on any clock set to the common era.
#[verifier::external_body]
fn today_utc() -> (d: Date)
    ensures
        d.wf(),
{
    let now = chrono::Utc::now().date_naive();
    Date { year: now.year(), month: now.month() as u8, day: now.day() as u8 }
}

impl SyncService {
    /// Fixes the run's notion of "today" once, at run start: every window
    /// decision of the run is taken against this one date.
    pub fn current_date() -> (d: Date)
        ensures
            d.wf(),
    {
        today_utc()
    }
}

} // verus!
