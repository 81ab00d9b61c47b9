use vstd::prelude::*;

use crate::finalize::has_finalized_rate;
use crate::provider::{spec_bits_finite, bits_finite, MonthRates, Quote};
use crate::store::{find_rate, snapshot_wf, spec_find_rate, StoredRate};
use crate::sync::SyncService;

verus! {

/// One write the engine asks the rate store to perform: update the row at
/// `existing_id` when present, insert a new row otherwise. `rate_bits` is
/// already in store direction — units of home currency per one unit of the
/// foreign currency.
pub struct UpsertCommand {
    pub existing_id: Option<u64>,
    pub from_currency: String,
    pub to_currency: String,
    pub rate_bits: u64,
    pub month: u8,
    pub year: i32,
}

/// The mathematical shadow of an `UpsertCommand`, with currency codes as
/// character sequences.
pub struct CmdModel {
    pub existing_id: Option<u64>,
    pub from: Seq<char>,
    pub to: Seq<char>,
    pub rate_bits: u64,
    pub month: u8,
    pub year: i32,
}

impl UpsertCommand {
    pub open spec fn model(self) -> CmdModel {
        CmdModel {
            existing_id: self.existing_id,
            from: self.from_currency@,
            to: self.to_currency@,
            rate_bits: self.rate_bits,
            month: self.month,
            year: self.year,
        }
    }
}

pub open spec fn cmd_models(s: Seq<UpsertCommand>) -> Seq<CmdModel> {
    s.map_values(|c: UpsertCommand| c.model())
}

/// Per-rate counts of one reconciliation pass. A skipped pair had a
/// finalized rate already stored; a failed pair's reciprocal was not a
/// finite number and was never persisted.
pub struct SyncStats {
    pub skipped_finalized: usize,
    pub failed_non_finite: usize,
}

/// What becomes of one fetched quote of one month.
pub enum RateDecision {
    SkipFinalized,
    FailNonFinite,
    Persist(CmdModel),
}

/// The reconciliation rule for a single `(month, currency)` pair: a key
/// whose stored rate is already finalized is never touched; a non-finite
/// reciprocal is never persisted; everything else is upserted, against the
/// existing row's handle when one exists.
pub open spec fn spec_rate_decision(
    snap: Seq<StoredRate>,
    year: i32,
    home: Seq<char>,
    month: u8,
    q: Quote,
) -> RateDecision {
    if has_finalized_rate(snap, year, month, q.currency@, home) {
        RateDecision::SkipFinalized
    } else if !spec_bits_finite(q.recip_bits) {
        RateDecision::FailNonFinite
    } else {
        RateDecision::Persist(
            CmdModel {
                existing_id: match spec_find_rate(snap, year, month, q.currency@, home) {
                    Some(i) => Some(snap[i].id),
                    None => None,
                },
                from: q.currency@,
                to: home,
                rate_bits: q.recip_bits,
                month,
                year,
            },
        )
    }
}

/// The commands one month's quotes give rise to, in quote order.
pub open spec fn spec_month_commands(
    snap: Seq<StoredRate>,
    year: i32,
    home: Seq<char>,
    month: u8,
    quotes: Seq<Quote>,
) -> Seq<CmdModel>
    decreases quotes.len(),
{
    if quotes.len() == 0 {
        Seq::empty()
    } else {
        let rest = spec_month_commands(snap, year, home, month, quotes.drop_last());
        match spec_rate_decision(snap, year, home, month, quotes.last()) {
            RateDecision::Persist(c) => rest.push(c),
            _ => rest,
        }
    }
}

pub open spec fn spec_month_skipped(
    snap: Seq<StoredRate>,
    year: i32,
    home: Seq<char>,
    month: u8,
    quotes: Seq<Quote>,
) -> int
    decreases quotes.len(),
{
    if quotes.len() == 0 {
        0
    } else {
        spec_month_skipped(snap, year, home, month, quotes.drop_last()) + match spec_rate_decision(
            snap,
            year,
            home,
            month,
            quotes.last(),
        ) {
            RateDecision::SkipFinalized => 1int,
            _ => 0int,
        }
    }
}

pub open spec fn spec_month_failed(
    snap: Seq<StoredRate>,
    year: i32,
    home: Seq<char>,
    month: u8,
    quotes: Seq<Quote>,
) -> int
    decreases quotes.len(),
{
    if quotes.len() == 0 {
        0
    } else {
        spec_month_failed(snap, year, home, month, quotes.drop_last()) + match spec_rate_decision(
            snap,
            year,
            home,
            month,
            quotes.last(),
        ) {
            RateDecision::FailNonFinite => 1int,
            _ => 0int,
        }
    }
}

/// The commands a whole aggregated year gives rise to, months in input
/// order.
pub open spec fn spec_commands(
    snap: Seq<StoredRate>,
    year: i32,
    home: Seq<char>,
    monthly: Seq<MonthRates>,
) -> Seq<CmdModel>
    decreases monthly.len(),
{
    if monthly.len() == 0 {
        Seq::empty()
    } else {
        spec_commands(snap, year, home, monthly.drop_last()) + spec_month_commands(
            snap,
            year,
            home,
            monthly.last().month,
            monthly.last().quotes@,
        )
    }
}

pub open spec fn spec_skipped(
    snap: Seq<StoredRate>,
    year: i32,
    home: Seq<char>,
    monthly: Seq<MonthRates>,
) -> int
    decreases monthly.len(),
{
    if monthly.len() == 0 {
        0
    } else {
        spec_skipped(snap, year, home, monthly.drop_last()) + spec_month_skipped(
            snap,
            year,
            home,
            monthly.last().month,
            monthly.last().quotes@,
        )
    }
}

pub open spec fn spec_failed(
    snap: Seq<StoredRate>,
    year: i32,
    home: Seq<char>,
    monthly: Seq<MonthRates>,
) -> int
    decreases monthly.len(),
{
    if monthly.len() == 0 {
        0
    } else {
        spec_failed(snap, year, home, monthly.drop_last()) + spec_month_failed(
            snap,
            year,
            home,
            monthly.last().month,
            monthly.last().quotes@,
        )
    }
}

pub open spec fn spec_total_quotes(monthly: Seq<MonthRates>) -> int
    decreases monthly.len(),
{
    if monthly.len() == 0 {
        0
    } else {
        spec_total_quotes(monthly.drop_last()) + monthly.last().quotes@.len()
    }
}

pub(crate) proof fn lemma_month_counts_bounded(
    snap: Seq<StoredRate>,
    year: i32,
    home: Seq<char>,
    month: u8,
    quotes: Seq<Quote>,
)
    ensures
        0 <= spec_month_skipped(snap, year, home, month, quotes),
        0 <= spec_month_failed(snap, year, home, month, quotes),
        spec_month_skipped(snap, year, home, month, quotes) + spec_month_failed(
            snap,
            year,
            home,
            month,
            quotes,
        ) + spec_month_commands(snap, year, home, month, quotes).len() == quotes.len(),
    decreases quotes.len(),
{
    if quotes.len() > 0 {
        lemma_month_counts_bounded(snap, year, home, month, quotes.drop_last());
    }
}

pub(crate) proof fn lemma_counts_bounded(
    snap: Seq<StoredRate>,
    year: i32,
    home: Seq<char>,
    monthly: Seq<MonthRates>,
)
    ensures
        0 <= spec_skipped(snap, year, home, monthly),
        0 <= spec_failed(snap, year, home, monthly),
        spec_skipped(snap, year, home, monthly) + spec_failed(snap, year, home, monthly)
            + spec_commands(snap, year, home, monthly).len() == spec_total_quotes(monthly),
    decreases monthly.len(),
{
    if monthly.len() > 0 {
        lemma_counts_bounded(snap, year, home, monthly.drop_last());
        lemma_month_counts_bounded(
            snap,
            year,
            home,
            monthly.last().month,
            monthly.last().quotes@,
        );
    }
}

proof fn lemma_total_quotes_prefix(monthly: Seq<MonthRates>, i: int)
    requires
        0 <= i <= monthly.len(),
    ensures
        spec_total_quotes(monthly.take(i)) <= spec_total_quotes(monthly),
    decreases monthly.len() - i,
{
    if i == monthly.len() {
        assert(monthly.take(i) =~= monthly);
    } else {
        lemma_total_quotes_prefix(monthly, i + 1);
        assert(monthly.take(i + 1).drop_last() =~= monthly.take(i));
        assert(spec_total_quotes(monthly.take(i + 1)) == spec_total_quotes(monthly.take(i))
            + monthly[i].quotes@.len());
    }
}

impl SyncService {
    /// Merges one year's aggregated monthly rates against the snapshot:
    /// finalized keys are skipped, non-finite reciprocals are counted as
    /// failed, and every remaining pair becomes one upsert command carrying
    /// the reciprocal value, in month-then-quote order.
    pub fn reconcile_rates(
        monthly: &Vec<MonthRates>,
        year: i32,
        home_currency: &String,
        snapshot: &Vec<StoredRate>,
    ) -> (r: (Vec<UpsertCommand>, SyncStats))
        requires
            snapshot_wf(snapshot@),
            year >= 1,
            forall|i: int| 0 <= i < monthly@.len() ==> 1 <= (#[trigger] monthly@[i]).month <= 12,
            spec_total_quotes(monthly@) <= usize::MAX,
        ensures
            cmd_models(r.0@) == spec_commands(snapshot@, year, home_currency@, monthly@),
            r.1.skipped_finalized == spec_skipped(snapshot@, year, home_currency@, monthly@),
            r.1.failed_non_finite == spec_failed(snapshot@, year, home_currency@, monthly@),
    {
        let ghost snap = snapshot@;
        let ghost home = home_currency@;
        let mut cmds: Vec<UpsertCommand> = Vec::new();
        let mut skipped: usize = 0;
        let mut failed: usize = 0;
        let n = monthly.len();
        let mut i: usize = 0;
        proof {
            assert(monthly@.take(0) =~= Seq::<MonthRates>::empty());
        }
        while i < n
            invariant
                n == monthly@.len(),
                0 <= i <= n,
                snap == snapshot@,
                home == home_currency@,
                snapshot_wf(snap),
                year >= 1,
                forall|t: int| 0 <= t < monthly@.len() ==> 1 <= (#[trigger] monthly@[t]).month <= 12,
                spec_total_quotes(monthly@) <= usize::MAX,
                cmd_models(cmds@) == spec_commands(snap, year, home, monthly@.take(i as int)),
                skipped == spec_skipped(snap, year, home, monthly@.take(i as int)),
                failed == spec_failed(snap, year, home, monthly@.take(i as int)),
                skipped + failed + cmds@.len() == spec_total_quotes(monthly@.take(i as int)),
            decreases n - i,
        {
            let month = monthly[i].month;
            let quotes = &monthly[i].quotes;
            let ghost qs = quotes@;
            let m = quotes.len();
            let mut k: usize = 0;
            proof {
                assert(qs.take(0) =~= Seq::<Quote>::empty());
                lemma_total_quotes_prefix(monthly@, i + 1);
                assert(monthly@.take(i + 1).drop_last() =~= monthly@.take(i as int));
                assert(spec_total_quotes(monthly@.take(i + 1)) == spec_total_quotes(
                    monthly@.take(i as int),
                ) + qs.len());
            }
            while k < m
                invariant
                    n == monthly@.len(),
                    0 <= i < n,
                    m == qs.len(),
                    0 <= k <= m,
                    snap == snapshot@,
                    home == home_currency@,
                    snapshot_wf(snap),
                    year >= 1,
                    month == monthly@[i as int].month,
                    1 <= month <= 12,
                    qs == monthly@[i as int].quotes@,
                    quotes@ == qs,
                    spec_total_quotes(monthly@.take(i as int)) + qs.len() <= usize::MAX,
                    cmd_models(cmds@) == spec_commands(snap, year, home, monthly@.take(i as int))
                        + spec_month_commands(snap, year, home, month, qs.take(k as int)),
                    skipped == spec_skipped(snap, year, home, monthly@.take(i as int))
                        + spec_month_skipped(snap, year, home, month, qs.take(k as int)),
                    failed == spec_failed(snap, year, home, monthly@.take(i as int))
                        + spec_month_failed(snap, year, home, month, qs.take(k as int)),
                    skipped + failed + cmds@.len() == spec_total_quotes(monthly@.take(i as int))
                        + k,
                decreases m - k,
            {
                let q = &quotes[k];
                let ghost prev_cmds = cmds@;
                proof {
                    assert(qs.take(k + 1).drop_last() =~= qs.take(k as int));
                    assert(qs.take(k + 1).last() == qs[k as int]);
                }
                let fin = crate::finalize::lookup_finalized(
                    snapshot,
                    year,
                    month,
                    &q.currency,
                    home_currency,
                );
                if fin {
                    skipped += 1;
                } else if !bits_finite(q.recip_bits) {
                    failed += 1;
                } else {
                    let existing = find_rate(snapshot, year, month, &q.currency, home_currency);
                    proof {
                        crate::store::lemma_find_rate_props(snap, year, month, q.currency@, home);
                    }
                    let existing_id = match existing {
                        Some(idx) => Some(snapshot[idx].id),
                        None => None,
                    };
                    let cmd = UpsertCommand {
                        existing_id,
                        from_currency: q.currency.clone(),
                        to_currency: home_currency.clone(),
                        rate_bits: q.recip_bits,
                        month,
                        year,
                    };
                    cmds.push(cmd);
                    proof {
                        let cm = cmds@.last().model();
                        assert(cmd_models(cmds@) =~= cmd_models(prev_cmds).push(cm));
                        match spec_rate_decision(snap, year, home, month, qs[k as int]) {
                            RateDecision::Persist(c) => {
                                assert(cm == c);
                            },
                            _ => {
                                assert(false);
                            },
                        }
                    }
                }
                k += 1;
            }
            proof {
                assert(qs.take(m as int) =~= qs);
                assert(monthly@.take(i + 1).drop_last() =~= monthly@.take(i as int));
                assert(monthly@.take(i + 1).last() == monthly@[i as int]);
            }
            i += 1;
        }
        proof {
            assert(monthly@.take(n as int) =~= monthly@);
        }
        (cmds, SyncStats { skipped_finalized: skipped, failed_non_finite: failed })
    }
}

} // verus!
