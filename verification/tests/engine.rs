use rate_sync::calendar::Date;
use rate_sync::planner::YearPlan;
use rate_sync::provider::{DayRates, MonthRates, Quote};
use rate_sync::reconcile::UpsertCommand;
use rate_sync::store::StoredRate;
use rate_sync::sync::SyncService;

fn date(year: i32, month: u8, day: u8) -> Date {
    Date { year, month, day }
}

fn quote(currency: &str, rate: f64) -> Quote {
    Quote {
        currency: currency.to_string(),
        rate_bits: rate.to_bits(),
        recip_bits: (1.0f64 / rate).to_bits(),
    }
}

fn day(d: &str, pairs: &[(&str, f64)]) -> DayRates {
    DayRates {
        date: d.as_bytes().to_vec(),
        quotes: pairs.iter().map(|(c, r)| quote(c, *r)).collect(),
    }
}

fn rate_row(id: u64, from: &str, to: &str, rate: f64, month: u8, year: i32, rec: Date) -> StoredRate {
    StoredRate {
        id,
        from_currency: from.to_string(),
        to_currency: to.to_string(),
        rate_bits: rate.to_bits(),
        month,
        year,
        recorded_at: rec,
    }
}

fn month_entry<'a>(out: &'a [MonthRates], month: u8) -> &'a MonthRates {
    out.iter().find(|m| m.month == month).expect("month missing")
}

/// Carries a pass's commands out against an in-memory store, the way the
/// rate store's upsert does: update the row at the given id, else insert.
fn apply(store: &mut Vec<StoredRate>, cmds: &[UpsertCommand], rec: Date, mut next_id: u64) {
    for c in cmds {
        let slot = c
            .existing_id
            .and_then(|id| store.iter().position(|r| r.id == id));
        match slot {
            Some(i) => {
                store[i].from_currency = c.from_currency.clone();
                store[i].to_currency = c.to_currency.clone();
                store[i].rate_bits = c.rate_bits;
                store[i].month = c.month;
                store[i].year = c.year;
                store[i].recorded_at = rec;
            },
            None => {
                store.push(StoredRate {
                    id: next_id,
                    from_currency: c.from_currency.clone(),
                    to_currency: c.to_currency.clone(),
                    rate_bits: c.rate_bits,
                    month: c.month,
                    year: c.year,
                    recorded_at: rec,
                });
                next_id += 1;
            },
        }
    }
}

#[test]
fn test_process_frankfurter_rates() {
    let rates = vec![
        day("2024-01-01", &[("EUR", 0.8)]),
        day("2024-01-15", &[("EUR", 0.9)]),
        day("2024-02-05", &[("EUR", 1.1)]),
        day("2023-12-31", &[("EUR", 0.75)]),
    ];

    let processed = SyncService::process_frankfurter_rates(&rates, 2024);

    assert_eq!(processed.len(), 2);
    assert_eq!(month_entry(&processed, 1).quotes[0].rate_bits, 0.9f64.to_bits());
    assert_eq!(month_entry(&processed, 2).quotes[0].rate_bits, 1.1f64.to_bits());
}

#[test]
fn aggregation_takes_the_latest_day_whole() {
    // The later day carries a different currency set; it must replace the
    // earlier day's map entirely, never merge with it.
    let rates = vec![
        day("2024-03-10", &[("EUR", 0.90), ("GBP", 0.80)]),
        day("2024-03-25", &[("EUR", 0.92)]),
    ];
    let processed = SyncService::process_frankfurter_rates(&rates, 2024);
    assert_eq!(processed.len(), 1);
    let m3 = month_entry(&processed, 3);
    assert_eq!(m3.quotes.len(), 1);
    assert_eq!(m3.quotes[0].currency, "EUR");
    assert_eq!(m3.quotes[0].rate_bits, 0.92f64.to_bits());
}

#[test]
fn aggregation_drops_unparsable_dates() {
    let rates = vec![
        day("not-a-date", &[("EUR", 0.5)]),
        day("2024-06-31", &[("EUR", 0.6)]),
        day("2024-06-30", &[("EUR", 0.7)]),
    ];
    let processed = SyncService::process_frankfurter_rates(&rates, 2024);
    assert_eq!(processed.len(), 1);
    assert_eq!(month_entry(&processed, 6).quotes[0].rate_bits, 0.7f64.to_bits());
}

#[test]
fn planner_reports_earliest_open_month() {
    // Months 1..=3 finalized for EUR against USD, month 4 and later bare.
    let snapshot = vec![
        rate_row(1, "EUR", "USD", 1.1, 1, 2024, date(2024, 2, 2)),
        rate_row(2, "EUR", "USD", 1.1, 2, 2024, date(2024, 3, 2)),
        rate_row(3, "EUR", "USD", 1.1, 3, 2024, date(2024, 4, 2)),
    ];
    let foreigns = vec!["EUR".to_string()];
    let home = "USD".to_string();
    let today = date(2025, 6, 15);
    let (earliest, any) =
        SyncService::find_earliest_incomplete_month(2024, today, &foreigns, &home, &snapshot);
    assert!(any);
    assert_eq!(earliest, 4);
}

#[test]
fn planner_skips_a_fully_finalized_past_year() {
    let mut snapshot = Vec::new();
    for m in 1..=12u8 {
        snapshot.push(rate_row(m as u64, "EUR", "USD", 1.1, m, 2023, date(2024, 2, 1)));
    }
    let foreigns = vec!["EUR".to_string()];
    let home = "USD".to_string();
    let today = date(2024, 6, 15);
    let (earliest, any) =
        SyncService::find_earliest_incomplete_month(2023, today, &foreigns, &home, &snapshot);
    assert!(!any);
    assert_eq!(earliest, 1);
    let plan = SyncService::plan_year(2023, today, &foreigns, &home, &snapshot);
    assert_eq!(plan, YearPlan::Skip);
}

#[test]
fn planner_still_fetches_the_current_year_when_all_reachable_months_are_closed() {
    // All months up to today's month are finalized, yet the current year
    // is fetched from January: the request is only skipped for past years.
    let mut snapshot = Vec::new();
    for m in 1..=6u8 {
        snapshot.push(rate_row(m as u64, "EUR", "USD", 1.1, m, 2024, date(2024, 8, 1)));
    }
    let foreigns = vec!["EUR".to_string()];
    let home = "USD".to_string();
    let today = date(2024, 6, 15);
    let (earliest, any) =
        SyncService::find_earliest_incomplete_month(2024, today, &foreigns, &home, &snapshot);
    assert!(!any);
    assert_eq!(earliest, 1);
    let plan = SyncService::plan_year(2024, today, &foreigns, &home, &snapshot);
    assert_eq!(plan, YearPlan::Fetch { start_month: 1 });
}

#[test]
fn planner_opens_the_current_year_at_the_first_unfinalized_month() {
    let snapshot = vec![
        rate_row(1, "EUR", "USD", 1.1, 1, 2024, date(2024, 2, 2)),
        rate_row(2, "EUR", "USD", 1.1, 2, 2024, date(2024, 3, 2)),
    ];
    let foreigns = vec!["EUR".to_string()];
    let home = "USD".to_string();
    let today = date(2024, 6, 15);
    let plan = SyncService::plan_year(2024, today, &foreigns, &home, &snapshot);
    assert_eq!(plan, YearPlan::Fetch { start_month: 3 });
}

#[test]
fn planner_treats_unreachable_months_as_not_open() {
    let snapshot: Vec<StoredRate> = Vec::new();
    let foreigns = vec!["EUR".to_string()];
    let home = "USD".to_string();
    // A year wholly in the future has no reachable month at all.
    let today = date(2024, 6, 15);
    let (earliest, any) =
        SyncService::find_earliest_incomplete_month(2025, today, &foreigns, &home, &snapshot);
    assert!(!any);
    assert_eq!(earliest, 1);
    // The current year is open from January when nothing is stored.
    let (earliest, any) =
        SyncService::find_earliest_incomplete_month(2024, today, &foreigns, &home, &snapshot);
    assert!(any);
    assert_eq!(earliest, 1);
}

#[test]
fn reconcile_inverts_and_counts_zero_rates_as_failed() {
    let monthly = vec![MonthRates {
        month: 3,
        quotes: vec![quote("EUR", 0.92), quote("GBP", 0.0)],
    }];
    let snapshot: Vec<StoredRate> = Vec::new();
    let home = "USD".to_string();
    let (cmds, stats) = SyncService::reconcile_rates(&monthly, 2024, &home, &snapshot);
    assert_eq!(cmds.len(), 1);
    assert_eq!(stats.skipped_finalized, 0);
    assert_eq!(stats.failed_non_finite, 1);
    let c = &cmds[0];
    assert_eq!(c.from_currency, "EUR");
    assert_eq!(c.to_currency, "USD");
    assert_eq!(c.month, 3);
    assert_eq!(c.year, 2024);
    assert_eq!(c.existing_id, None);
    let stored = f64::from_bits(c.rate_bits);
    assert!((stored - 1.0f64 / 0.92f64).abs() < 1e-12);
}

#[test]
fn reconcile_never_overwrites_finalized_rates() {
    // The stored, finalized rate differs from what the provider now says;
    // it must stay untouched and be counted as skipped.
    let snapshot = vec![rate_row(7, "EUR", "USD", 1.25, 3, 2024, date(2024, 4, 2))];
    let monthly = vec![MonthRates { month: 3, quotes: vec![quote("EUR", 0.92)] }];
    let home = "USD".to_string();
    let (cmds, stats) = SyncService::reconcile_rates(&monthly, 2024, &home, &snapshot);
    assert_eq!(cmds.len(), 0);
    assert_eq!(stats.skipped_finalized, 1);
    assert_eq!(stats.failed_non_finite, 0);
}

#[test]
fn reconcile_updates_a_provisional_rate_in_place() {
    let snapshot = vec![rate_row(7, "EUR", "USD", 1.11, 3, 2024, date(2024, 3, 20))];
    let monthly = vec![MonthRates { month: 3, quotes: vec![quote("EUR", 0.92)] }];
    let home = "USD".to_string();
    let (cmds, stats) = SyncService::reconcile_rates(&monthly, 2024, &home, &snapshot);
    assert_eq!(cmds.len(), 1);
    assert_eq!(stats.skipped_finalized, 0);
    assert_eq!(cmds[0].existing_id, Some(7));
    assert_eq!(cmds[0].rate_bits, (1.0f64 / 0.92f64).to_bits());
}

#[test]
fn scenario_one_tracked_euro_year() {
    // Home USD, foreign {EUR}, tracked year 2024; the provider reports two
    // March days. One row is persisted: EUR -> USD, March 2024, 1/0.92.
    let days = vec![
        day("2024-03-10", &[("EUR", 0.90)]),
        day("2024-03-25", &[("EUR", 0.92)]),
    ];
    let monthly = SyncService::process_frankfurter_rates(&days, 2024);
    let home = "USD".to_string();
    let snapshot: Vec<StoredRate> = Vec::new();
    let (cmds, stats) = SyncService::reconcile_rates(&monthly, 2024, &home, &snapshot);

    assert_eq!(cmds.len(), 1);
    assert_eq!(stats.skipped_finalized, 0);
    assert_eq!(stats.failed_non_finite, 0);
    let c = &cmds[0];
    assert_eq!(c.from_currency, "EUR");
    assert_eq!(c.to_currency, "USD");
    assert_eq!(c.month, 3);
    assert_eq!(c.year, 2024);
    let stored = f64::from_bits(c.rate_bits);
    assert!((stored - 1.0870f64).abs() < 1e-3);
    assert!((stored - 1.0f64 / 0.92f64).abs() < 1e-12);
    assert!((stored - 1.0f64 / 0.90f64).abs() > 1e-3);
}

#[test]
fn running_twice_changes_nothing_further() {
    let days = vec![
        day("2024-03-10", &[("EUR", 0.90)]),
        day("2024-03-25", &[("EUR", 0.92), ("GBP", 0.80)]),
        day("2024-05-02", &[("EUR", 0.95), ("GBP", 0.81)]),
    ];
    let monthly = SyncService::process_frankfurter_rates(&days, 2024);
    let home = "USD".to_string();

    let mut store: Vec<StoredRate> = vec![
        // A finalized March row that must survive both passes unchanged.
        rate_row(1, "CHF", "USD", 1.09, 3, 2024, date(2024, 4, 3)),
    ];
    let (cmds1, _) = SyncService::reconcile_rates(&monthly, 2024, &home, &store);
    apply(&mut store, &cmds1, date(2024, 5, 2), 100);
    let after_first: Vec<(u64, String, String, u64, u8, i32)> = store
        .iter()
        .map(|r| {
            (r.id, r.from_currency.clone(), r.to_currency.clone(), r.rate_bits, r.month, r.year)
        })
        .collect();

    let (cmds2, stats2) = SyncService::reconcile_rates(&monthly, 2024, &home, &store);
    // Every second-pass command only rewrites an existing row in place.
    for c in &cmds2 {
        assert!(c.existing_id.is_some());
        let row = store
            .iter()
            .find(|r| Some(r.id) == c.existing_id)
            .expect("command must target an existing row");
        assert_eq!(row.rate_bits, c.rate_bits);
        assert_eq!(row.month, c.month);
        assert_eq!(row.year, c.year);
    }
    assert_eq!(stats2.failed_non_finite, 0);
    apply(&mut store, &cmds2, date(2024, 5, 2), 200);
    let after_second: Vec<(u64, String, String, u64, u8, i32)> = store
        .iter()
        .map(|r| {
            (r.id, r.from_currency.clone(), r.to_currency.clone(), r.rate_bits, r.month, r.year)
        })
        .collect();
    assert_eq!(after_first, after_second);
    // The untouched finalized row is still there, word for word.
    let chf = store.iter().find(|r| r.from_currency == "CHF").unwrap();
    assert_eq!(chf.rate_bits, 1.09f64.to_bits());
    assert_eq!(chf.recorded_at, date(2024, 4, 3));
}

#[test]
fn a_finalizing_record_date_freezes_the_row_for_later_runs() {
    let days = vec![day("2024-03-25", &[("EUR", 0.92)])];
    let monthly = SyncService::process_frankfurter_rates(&days, 2024);
    let home = "USD".to_string();
    let mut store: Vec<StoredRate> = Vec::new();
    let (cmds1, _) = SyncService::reconcile_rates(&monthly, 2024, &home, &store);
    assert_eq!(cmds1.len(), 1);
    // The store records the write after March closed: the row finalizes.
    apply(&mut store, &cmds1, date(2024, 4, 10), 1);

    let fresher = vec![day("2024-03-28", &[("EUR", 0.93)])];
    let monthly2 = SyncService::process_frankfurter_rates(&fresher, 2024);
    let (cmds2, stats2) = SyncService::reconcile_rates(&monthly2, 2024, &home, &store);
    assert_eq!(cmds2.len(), 0);
    assert_eq!(stats2.skipped_finalized, 1);
    assert_eq!(store[0].rate_bits, (1.0f64 / 0.92f64).to_bits());
}
