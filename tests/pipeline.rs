use options_pricing::date::PriceDate;
use options_pricing::decimal::parse_fixed_point;
use options_pricing::error::MarketError;
use options_pricing::fetcher::new;
use options_pricing::pricing::OptionContract;
use options_pricing::sampler::sample_last_year;
use options_pricing::series::{read_record, PriceSeries, RawDailyRecord};
use options_pricing::volatility::{compute_returns, estimate, historical_volatility};

fn record(date: &str, close: &str) -> RawDailyRecord {
    RawDailyRecord {
        date: date.to_string(),
        open: close.to_string(),
        high: close.to_string(),
        low: close.to_string(),
        close: close.to_string(),
        volume: "1000".to_string(),
    }
}

fn series(days: &[(&str, &str)]) -> PriceSeries {
    let records: Vec<RawDailyRecord> = days.iter().map(|(d, c)| record(d, c)).collect();
    PriceSeries::from_records(&records, None).unwrap()
}

#[test]
fn decimal_with_four_places() {
    assert_eq!(parse_fixed_point("187.4400"), Some(187_440_000));
    assert_eq!(parse_fixed_point("0.5"), Some(500_000));
    assert_eq!(parse_fixed_point("12"), Some(12_000_000));
    assert_eq!(parse_fixed_point("123456789012"), Some(123_456_789_012_000_000));
}

#[test]
fn decimal_rejects_malformed_text() {
    assert_eq!(parse_fixed_point(""), None);
    assert_eq!(parse_fixed_point("abc"), None);
    assert_eq!(parse_fixed_point(".5"), None);
    assert_eq!(parse_fixed_point("5."), None);
    assert_eq!(parse_fixed_point("1.2.3"), None);
    assert_eq!(parse_fixed_point("-1.0"), None);
    assert_eq!(parse_fixed_point("1.1234567"), None);
    assert_eq!(parse_fixed_point("1234567890123"), None);
}

#[test]
fn dates_read_and_count_days() {
    let a = PriceDate::parse("2023-01-01").unwrap();
    let b = PriceDate::parse("2024-01-01").unwrap();
    let c = PriceDate::parse("2024-03-01").unwrap();
    assert_eq!(a.month, 1);
    assert_eq!(c.month, 3);
    assert_eq!(b.day - a.day, 365);
    assert_eq!(c.day - b.day, 60);
    assert_eq!(PriceDate::parse("0001-01-01").unwrap().day, 1);
    assert_eq!(PriceDate::parse("2024-13-01"), Err(MarketError::Parse));
    assert_eq!(PriceDate::parse("yesterday"), Err(MarketError::Parse));
}

#[test]
fn record_with_bad_number_is_a_parse_error() {
    assert_eq!(read_record(&record("2024-01-02", "n/a")), Err(MarketError::Parse));
    let p = read_record(&record("2024-01-02", "101.25")).unwrap();
    assert_eq!(p.close, 101_250_000);
    assert_eq!(p.volume, 1_000_000_000);
}

#[test]
fn series_is_sorted_and_filtered_by_end_date() {
    let records = vec![
        record("2024-01-03", "3"),
        record("2024-01-01", "1"),
        record("2024-01-04", "4"),
        record("2024-01-02", "2"),
    ];
    let all = PriceSeries::from_records(&records, None).unwrap();
    let closes: Vec<u64> = all.points().iter().map(|p| p.close).collect();
    assert_eq!(closes, vec![1_000_000, 2_000_000, 3_000_000, 4_000_000]);
    let until = PriceDate::parse("2024-01-03").unwrap();
    let early = PriceSeries::from_records(&records, Some(until)).unwrap();
    let closes: Vec<u64> = early.points().iter().map(|p| p.close).collect();
    assert_eq!(closes, vec![1_000_000, 2_000_000]);
}

#[test]
fn series_rejects_a_day_given_twice() {
    let records = vec![record("2024-01-01", "1"), record("2024-01-01", "2")];
    assert!(matches!(PriceSeries::from_records(&records, None), Err(MarketError::Parse)));
    let until = PriceDate::parse("2024-01-01").unwrap();
    assert_eq!(PriceSeries::from_records(&records, Some(until)).unwrap().len(), 0);
}

#[test]
fn latest_close_of_series() {
    let s = series(&[("2024-02-01", "7.5"), ("2024-01-01", "9")]);
    assert_eq!(s.latest_close(), Ok(7_500_000));
    let empty = PriceSeries::from_records(&Vec::new(), None).unwrap();
    assert_eq!(empty.latest_close(), Err(MarketError::EmptySeries));
}

#[test]
fn returns_are_one_fewer_than_points() {
    let s = series(&[("2024-01-01", "50"), ("2024-01-02", "40"), ("2024-01-03", "60"), ("2024-01-04", "60")]);
    let r = compute_returns(&s).unwrap();
    assert_eq!(r.len(), s.len() - 1);
    assert_eq!(r, vec![-200_000_000, 500_000_000, 0]);
}

#[test]
fn ten_percent_growth_has_zero_volatility() {
    let s = series(&[("2024-01-01", "100"), ("2024-01-02", "110"), ("2024-01-03", "121")]);
    let r = compute_returns(&s).unwrap();
    assert_eq!(r, vec![100_000_000, 100_000_000]);
    assert_eq!(estimate(&r), Ok(0));
    assert_eq!(historical_volatility(&s), Ok(0));
}

#[test]
fn returns_need_two_points() {
    assert_eq!(compute_returns(&series(&[("2024-01-01", "100")])), Err(MarketError::InsufficientData));
    assert_eq!(compute_returns(&series(&[])), Err(MarketError::InsufficientData));
}

#[test]
fn zero_close_is_a_domain_error() {
    let s = series(&[("2024-01-01", "0"), ("2024-01-02", "1"), ("2024-01-03", "2")]);
    assert_eq!(compute_returns(&s), Err(MarketError::Domain));
    assert_eq!(historical_volatility(&s), Err(MarketError::Domain));
    let last_zero = series(&[("2024-01-01", "1"), ("2024-01-02", "0")]);
    assert_eq!(compute_returns(&last_zero), Ok(vec![-1_000_000_000]));
}

#[test]
fn estimate_needs_two_returns() {
    assert_eq!(estimate(&vec![]), Err(MarketError::InsufficientData));
    assert_eq!(estimate(&vec![5]), Err(MarketError::InsufficientData));
    let two_points = series(&[("2024-01-01", "100"), ("2024-01-02", "110")]);
    assert_eq!(historical_volatility(&two_points), Err(MarketError::InsufficientData));
}

#[test]
fn estimate_is_population_deviation() {
    assert_eq!(estimate(&vec![-1, 1]), Ok(1));
    assert_eq!(estimate(&vec![0, 2]), Ok(1));
    // variance (10000 + 0 + 10000) / 3, square root 81.6
    assert_eq!(estimate(&vec![100, 200, 300]), Ok(81));
    assert_eq!(estimate(&vec![-500_000_000, 500_000_000]), Ok(500_000_000));
}

#[test]
fn estimate_refuses_extreme_returns() {
    assert_eq!(estimate(&vec![0, 1_000_000_000_001]), Err(MarketError::Overflow));
    assert_eq!(estimate(&vec![0, 1_000_000_000_000]), Ok(500_000_000_000));
}

#[test]
fn option_terms_need_positive_volatility_and_maturity() {
    assert_eq!(OptionContract::new(52_000_000, 50_000_000, 500_000_000, 50_000_000, 0), Err(MarketError::Domain));
    assert_eq!(OptionContract::new(52_000_000, 50_000_000, 0, 50_000_000, 120_000_000), Err(MarketError::Domain));
    assert_eq!(OptionContract::new(0, 50_000_000, 500_000_000, 50_000_000, 120_000_000), Err(MarketError::Domain));
    let c = OptionContract::new(52_000_000, 50_000_000, 500_000_000, -50_000_000, 120_000_000).unwrap();
    assert_eq!(c.spot(), 52_000_000);
    assert_eq!(c.strike(), 50_000_000);
    assert_eq!(c.time_to_maturity(), 500_000_000);
    assert_eq!(c.risk_free_rate(), -50_000_000);
    assert_eq!(c.volatility(), 120_000_000);
}

#[test]
fn monthly_sample_keeps_earliest_close_of_each_month() {
    let mut days: Vec<(String, String)> = Vec::new();
    for year in [2023, 2024] {
        for month in 1..=12 {
            for day in [5, 15, 25] {
                days.push((format!("{}-{:02}-{:02}", year, month, day), format!("{}.{}", month, day)));
            }
        }
    }
    let records: Vec<RawDailyRecord> = days.iter().map(|(d, c)| record(d, c)).collect();
    let s = PriceSeries::from_records(&records, None).unwrap();
    let today = PriceDate::parse("2024-06-20").unwrap();
    let sample = sample_last_year(&s, today).unwrap();
    assert_eq!(sample.len(), 12);
    let months: Vec<u32> = sample.iter().map(|e| e.month).collect();
    assert_eq!(months, (1..=12).collect::<Vec<u32>>());
    // June: the window opens on 2023-06-22, so 2023-06-25 is June's earliest.
    assert_eq!(sample[5].close, 6_250_000);
    assert_eq!(sample[5].date, PriceDate::parse("2023-06-25").unwrap());
    // July: July 2023 lies wholly in the window and keeps its 5th.
    assert_eq!(sample[6].date, PriceDate::parse("2023-07-05").unwrap());
    assert_eq!(sample[6].close, 7_500_000);
    // January: only January 2024 is in the window.
    assert_eq!(sample[0].date, PriceDate::parse("2024-01-05").unwrap());
    // May: 2023-05 lies before the window, so May 2024 keeps its 5th.
    assert_eq!(sample[4].date, PriceDate::parse("2024-05-05").unwrap());
}

#[test]
fn monthly_sample_of_an_old_series_is_empty() {
    let s = series(&[("2020-01-01", "1"), ("2020-02-01", "2")]);
    let today = PriceDate::parse("2024-06-20").unwrap();
    assert_eq!(sample_last_year(&s, today), Err(MarketError::EmptySeries));
    let edge = series(&[("2023-06-21", "1"), ("2023-06-22", "2")]);
    let today = PriceDate::parse("2024-06-20").unwrap();
    let sample = sample_last_year(&edge, today).unwrap();
    assert_eq!(sample.len(), 1);
    assert_eq!(sample[0].close, 2_000_000);
}

#[test]
fn provider_urls() {
    let f = new("KEY".to_string());
    assert_eq!(
        f.daily_series_url("AAPL"),
        "https://www.alphavantage.co/query?function=TIME_SERIES_DAILY&symbol=AAPL&outputsize=full&apikey=KEY"
    );
    assert_eq!(
        f.symbol_search_url("AAPL"),
        "https://www.alphavantage.co/query?function=SYMBOL_SEARCH&keywords=AAPL&apikey=KEY"
    );
}

#[test]
fn monthly_sample_leaves_today_out() {
    let today = PriceDate::parse("2024-06-20").unwrap();
    let only_today = series(&[("2024-06-20", "5")]);
    assert_eq!(sample_last_year(&only_today, today), Err(MarketError::EmptySeries));
    let s = series(&[("2024-05-31", "4"), ("2024-06-20", "5"), ("2024-06-21", "6")]);
    let sample = sample_last_year(&s, today).unwrap();
    assert_eq!(sample.len(), 1);
    assert_eq!(sample[0].month, 5);
    assert_eq!(sample[0].close, 4_000_000);
    let with_yesterday = series(&[("2024-06-19", "3"), ("2024-06-20", "5")]);
    let sample = sample_last_year(&with_yesterday, today).unwrap();
    assert_eq!(sample.len(), 1);
    assert_eq!(sample[0].date, PriceDate::parse("2024-06-19").unwrap());
}

#[test]
fn volatility_errors_pass_through_in_order() {
    let zero_first = series(&[("2024-01-01", "0"), ("2024-01-02", "1")]);
    assert_eq!(historical_volatility(&zero_first), Err(MarketError::Domain));
    assert_eq!(historical_volatility(&series(&[("2024-01-01", "0")])), Err(MarketError::InsufficientData));
}
