use rate_sync::calendar::{days_in_month, parse_date, Date};
use rate_sync::finalize::{is_finalized, last_day_of_month};
use rate_sync::provider::bits_finite;
use rate_sync::settings::{UserSettings, UserSettingsService};
use rate_sync::sheets::{BalanceSheet, BalanceSheetService};
use rate_sync::store::StoredRate;
use rate_sync::sync::{RunSetup, SyncError, SyncService};

fn date(year: i32, month: u8, day: u8) -> Date {
    Date { year, month, day }
}

fn rate_row(id: u64, from: &str, to: &str, rate: f64, month: u8, year: i32, rec: Date) -> StoredRate {
    StoredRate {
        id,
        from_currency: from.to_string(),
        to_currency: to.to_string(),
        rate_bits: rate.to_bits(),
        month,
        year,
        recorded_at: rec,
    }
}

#[test]
fn days_in_month_follows_gregorian_rules() {
    assert_eq!(days_in_month(2024, 2), 29);
    assert_eq!(days_in_month(2023, 2), 28);
    assert_eq!(days_in_month(1900, 2), 28);
    assert_eq!(days_in_month(2000, 2), 29);
    assert_eq!(days_in_month(2024, 4), 30);
    assert_eq!(days_in_month(2024, 12), 31);
    assert_eq!(days_in_month(2024, 1), 31);
}

#[test]
fn last_day_of_month_rolls_december_within_the_year() {
    assert_eq!(last_day_of_month(2024, 12), date(2024, 12, 31));
    assert_eq!(last_day_of_month(2024, 2), date(2024, 2, 29));
    assert_eq!(last_day_of_month(2024, 6), date(2024, 6, 30));
}

#[test]
fn parse_date_accepts_only_existing_iso_dates() {
    assert_eq!(parse_date(b"2024-03-10"), Some(date(2024, 3, 10)));
    assert_eq!(parse_date(b"2024-02-29"), Some(date(2024, 2, 29)));
    assert_eq!(parse_date(b"2023-02-29"), None);
    assert_eq!(parse_date(b"2024-13-01"), None);
    assert_eq!(parse_date(b"2024-00-10"), None);
    assert_eq!(parse_date(b"2024-01-32"), None);
    assert_eq!(parse_date(b"2024-01-00"), None);
    assert_eq!(parse_date(b"0000-01-01"), None);
    assert_eq!(parse_date(b"2024-1-05"), None);
    assert_eq!(parse_date(b"2024/01/05"), None);
    assert_eq!(parse_date(b"garbage"), None);
    assert_eq!(parse_date(b""), None);
}

#[test]
fn finalization_needs_a_record_after_month_end() {
    let on_last_day = rate_row(1, "EUR", "USD", 1.1, 3, 2024, date(2024, 3, 31));
    let day_after = rate_row(2, "EUR", "USD", 1.1, 3, 2024, date(2024, 4, 1));
    let much_later = rate_row(3, "EUR", "USD", 1.1, 3, 2024, date(2025, 1, 1));
    assert!(!is_finalized(&on_last_day, 2024, 3));
    assert!(is_finalized(&day_after, 2024, 3));
    assert!(is_finalized(&much_later, 2024, 3));
}

#[test]
fn bits_finite_tells_infinities_and_nans_apart() {
    assert!(bits_finite(0.0f64.to_bits()));
    assert!(bits_finite(1.5f64.to_bits()));
    assert!(bits_finite((-2.25f64).to_bits()));
    assert!(!bits_finite(f64::INFINITY.to_bits()));
    assert!(!bits_finite(f64::NEG_INFINITY.to_bits()));
    assert!(!bits_finite(f64::NAN.to_bits()));
    assert!(!bits_finite((1.0f64 / 0.0f64).to_bits()));
}

#[test]
fn home_currency_comes_from_the_first_settings_row() {
    let none: Vec<UserSettings> = Vec::new();
    assert!(UserSettingsService::home_currency_of(&none).is_none());
    let rows = vec![
        UserSettings { id: 1, name: "A".to_string(), home_currency: "NZD".to_string() },
        UserSettings { id: 2, name: "B".to_string(), home_currency: "USD".to_string() },
    ];
    assert_eq!(UserSettingsService::home_currency_of(&rows), Some("NZD".to_string()));
}

#[test]
fn years_of_deduplicates_in_first_seen_order() {
    let sheets = vec![
        BalanceSheet { id: 1, year: 2024 },
        BalanceSheet { id: 2, year: 2023 },
        BalanceSheet { id: 3, year: 2024 },
        BalanceSheet { id: 4, year: 2025 },
    ];
    assert_eq!(BalanceSheetService::years_of(&sheets), vec![2024, 2023, 2025]);
}

#[test]
fn foreign_currencies_exclude_home_and_duplicates() {
    let accounts = vec![
        "EUR".to_string(),
        "USD".to_string(),
        "GBP".to_string(),
        "EUR".to_string(),
    ];
    let home = "USD".to_string();
    let foreigns = SyncService::resolve_foreign_currencies(&accounts, &home);
    assert_eq!(foreigns, vec!["EUR".to_string(), "GBP".to_string()]);
}

#[test]
fn resolve_inputs_covers_the_error_taxonomy() {
    let settings = vec![UserSettings {
        id: 1,
        name: "A".to_string(),
        home_currency: "USD".to_string(),
    }];
    let accounts = vec!["EUR".to_string()];
    let sheets = vec![BalanceSheet { id: 1, year: 2024 }];

    let no_settings: Vec<UserSettings> = Vec::new();
    match SyncService::resolve_inputs(&no_settings, &accounts, &sheets) {
        RunSetup::MissingSettings => {},
        _ => panic!("expected MissingSettings"),
    }

    let home_only = vec!["USD".to_string()];
    match SyncService::resolve_inputs(&settings, &home_only, &sheets) {
        RunSetup::NothingToSync => {},
        _ => panic!("expected NothingToSync without foreign currencies"),
    }

    let no_sheets: Vec<BalanceSheet> = Vec::new();
    match SyncService::resolve_inputs(&settings, &accounts, &no_sheets) {
        RunSetup::NothingToSync => {},
        _ => panic!("expected NothingToSync without balance sheets"),
    }

    match SyncService::resolve_inputs(&settings, &accounts, &sheets) {
        RunSetup::Ready { home_currency, foreign_currencies, years } => {
            assert_eq!(home_currency, "USD".to_string());
            assert_eq!(foreign_currencies, vec!["EUR".to_string()]);
            assert_eq!(years, vec![2024]);
        },
        _ => panic!("expected Ready"),
    }
}

#[test]
fn current_date_is_a_plausible_calendar_date() {
    let today = SyncService::current_date();
    assert!(today.year >= 2024);
    assert!((1..=12).contains(&today.month));
    assert!((1..=31).contains(&today.day));
    assert!(today.day <= days_in_month(today.year, today.month));
}

#[test]
fn missing_settings_message_matches_the_run_error() {
    let e = SyncError::MissingUserSettings;
    assert_eq!(e.message(), "User settings not found");
}
