use vstd::prelude::*;

use crate::sheets::{BalanceSheet, BalanceSheetService};
use crate::settings::{UserSettings, UserSettingsService};

verus! {

/// The synchronization engine's driver type. Its associated functions make
/// every decision of a run — input resolution, window planning, aggregation
/// and reconciliation — as pure functions of plain values; the caller
/// performs the fetches and the store writes between them.
pub struct SyncService;

/// The one failure that aborts a whole run: without a home currency there
/// is nothing meaningful to sync.
pub enum SyncError {
    MissingUserSettings,
}

impl SyncError {
    pub fn message(&self) -> (m: &'static str)
        ensures
            m@ == "User settings not found"@,
    {
        "User settings not found"
    }
}

/// Whether some entry of `v` reads `c`.
pub open spec fn lists_currency(v: Seq<String>, c: Seq<char>) -> bool {
    exists|i: int| 0 <= i < v.len() && (#[trigger] v[i])@ == c
}

/// How a run begins, per the error taxonomy: a missing settings row is
/// fatal, an empty workload ends the run as a successful no-op, and
/// otherwise the resolved inputs drive the per-year loop.
pub enum RunSetup {
    MissingSettings,
    NothingToSync,
    Ready { home_currency: String, foreign_currencies: Vec<String>, years: Vec<i32> },
}

impl SyncService {
    /// The distinct foreign currencies among the tracked accounts'
    /// currencies, the home currency excluded, in order of first
    /// appearance.
    pub fn resolve_foreign_currencies(account_currencies: &Vec<String>, home_currency: &String) -> (r:
        Vec<String>)
        ensures
            forall|c: Seq<char>|
                lists_currency(r@, c) <==> (lists_currency(account_currencies@, c) && c
                    != home_currency@),
            forall|i: int, j: int| 0 <= i < j < r@.len() ==> (#[trigger] r@[i])@ != (#[trigger] r@[j])@,
    {
        let mut out: Vec<String> = Vec::new();
        let n = account_currencies.len();
        let mut i: usize = 0;
        while i < n
            invariant
                n == account_currencies@.len(),
                0 <= i <= n,
                forall|c: Seq<char>|
                    lists_currency(out@, c) ==> (lists_currency(account_currencies@, c) && c
                        != home_currency@),
                forall|k: int|
                    0 <= k < i ==> ((#[trigger] account_currencies@[k])@ == home_currency@
                        || lists_currency(out@, account_currencies@[k]@)),
                forall|p: int, q: int|
                    0 <= p < q < out@.len() ==> (#[trigger] out@[p])@ != (#[trigger] out@[q])@,
            decreases n - i,
        {
            let cur = &account_currencies[i];
            let ghost prev = out@;
            if !cur.eq(home_currency) && !contains_currency(&out, cur) {
                out.push(cur.clone());
                proof {
                    assert(out@[out@.len() - 1]@ == cur@);
                    assert(account_currencies@[i as int]@ == cur@);
                    assert forall|c: Seq<char>| lists_currency(prev, c) implies lists_currency(
                        out@,
                        c,
                    ) by {
                        let p = choose|p: int| 0 <= p < prev.len() && (#[trigger] prev[p])@ == c;
                        assert(out@[p]@ == c);
                    }
                    assert forall|c: Seq<char>| lists_currency(out@, c) implies (lists_currency(
                        prev,
                        c,
                    ) || c == cur@) by {
                        let p = choose|p: int| 0 <= p < out@.len() && (#[trigger] out@[p])@ == c;
                        if p < prev.len() {
                            assert(prev[p]@ == c);
                        }
                    }
                }
            }
            proof {
                if account_currencies@[i as int]@ != home_currency@ {
                    assert(lists_currency(out@, account_currencies@[i as int]@));
                }
            }
            i += 1;
        }
        proof {
            assert forall|c: Seq<char>|
                lists_currency(account_currencies@, c) && c != home_currency@ implies lists_currency(
                out@,
                c,
            ) by {
                let k = choose|k: int|
                    0 <= k < account_currencies@.len() && (#[trigger] account_currencies@[k])@ == c;
                assert(account_currencies@[k]@ == home_currency@ || lists_currency(
                    out@,
                    account_currencies@[k]@,
                ));
            }
        }
        out
    }

    /// Resolves a run's inputs: the home currency from the first settings
    /// row, the distinct foreign currencies of the tracked accounts, and
    /// the distinct years of the balance sheets.
    pub fn resolve_inputs(
        settings: &Vec<UserSettings>,
        account_currencies: &Vec<String>,
        sheets: &Vec<BalanceSheet>,
    ) -> (r: RunSetup)
        ensures
            match r {
                RunSetup::MissingSettings => settings@.len() == 0,
                RunSetup::NothingToSync => settings@.len() > 0 && (sheets@.len() == 0 || !(exists|
                    c: Seq<char>,
                |
                    lists_currency(account_currencies@, c) && c != settings@[0].home_currency@)),
                RunSetup::Ready { home_currency, foreign_currencies, years } => {
                    &&& settings@.len() > 0
                    &&& home_currency@ == settings@[0].home_currency@
                    &&& foreign_currencies@.len() > 0
                    &&& years@.len() > 0
                    &&& forall|c: Seq<char>|
                        lists_currency(foreign_currencies@, c) <==> (lists_currency(
                            account_currencies@,
                            c,
                        ) && c != home_currency@)
                    &&& forall|i: int, j: int|
                        0 <= i < j < foreign_currencies@.len() ==> (
                        #[trigger] foreign_currencies@[i])@ != (#[trigger] foreign_currencies@[j])@
                    &&& forall|y: i32|
                        years@.contains(y) <==> exists|i: int|
                            0 <= i < sheets@.len() && (#[trigger] sheets@[i]).year == y
                    &&& forall|i: int, j: int| 0 <= i < j < years@.len() ==> years@[i] != years@[j]
                },
            },
    {
        let home_currency = match UserSettingsService::home_currency_of(settings) {
            None => {
                return RunSetup::MissingSettings;
            },
            Some(c) => c,
        };
        let foreign_currencies = Self::resolve_foreign_currencies(account_currencies, &home_currency);
        if foreign_currencies.len() == 0 {
            proof {
                assert forall|c: Seq<char>|
                    !(lists_currency(account_currencies@, c) && c != home_currency@) by {
                    assert(!lists_currency(foreign_currencies@, c));
                }
            }
            return RunSetup::NothingToSync;
        }
        let years = BalanceSheetService::years_of(sheets);
        if years.len() == 0 {
            proof {
                if sheets@.len() > 0 {
                    assert(years@.contains(sheets@[0].year));
                }
            }
            return RunSetup::NothingToSync;
        }
        RunSetup::Ready { home_currency, foreign_currencies, years }
    }
}

fn contains_currency(v: &Vec<String>, c: &String) -> (b: bool)
    ensures
        b == lists_currency(v@, c@),
{
    let n = v.len();
    let mut i: usize = 0;
    while i < n
        invariant
            n == v@.len(),
            0 <= i <= n,
            forall|k: int| 0 <= k < i ==> (#[trigger] v@[k])@ != c@,
        decreases n - i,
    {
        if v[i].eq(c) {
            proof {
                assert(v@[i as int]@ == c@);
            }
            return true;
        }
        i += 1;
    }
    false
}

} // verus!
