use jep_rs::model::{MongoVendingRecord, VendingRecord};
use jep_rs::summary::{compute_vending_summary, records_in_range};

const DAY_MILLIS: i64 = 86_400_000;
const JAN1_2024: i64 = 1_704_067_200_000;
const JAN2_2024: i64 = JAN1_2024 + DAY_MILLIS;

fn record(id: &str, timestamp: i64, station: Option<&str>, amount: Option<i64>, kwh: Option<i64>) -> VendingRecord {
    VendingRecord {
        id: id.to_string(),
        timestamp,
        meter_number: None,
        address: None,
        community: None,
        customer_name: None,
        token: None,
        tariff: None,
        amount,
        kwh,
        user_id: None,
        vending_station: station.map(|s| s.to_string()),
        fixed_charge: None,
        transaction_id: None,
        remaining_credit: None,
    }
}

#[test]
fn example_rollup() {
    let records = vec![
        record("1", JAN1_2024, Some("A"), Some(10), Some(2)),
        record("2", JAN1_2024 + 3600_000, Some("A"), Some(5), Some(1)),
        record("3", JAN2_2024, Some("B"), None, None),
    ];
    let s = compute_vending_summary(&records, JAN1_2024, JAN2_2024 + DAY_MILLIS - 1);
    assert_eq!(s.total_transactions, 3);
    assert_eq!(s.total_amount, 15);
    assert_eq!(s.total_kwh, 3);
    assert_eq!(s.period_start, "2024-01-01");
    assert_eq!(s.period_end, "2024-01-02");
    assert_eq!(s.vending_station_summaries.len(), 2);

    let a = &s.vending_station_summaries[0];
    assert_eq!(a.vending_station, "A");
    assert_eq!(a.total_transactions, 2);
    assert_eq!(a.total_amount, 15);
    assert_eq!(a.total_kwh, 3);
    assert_eq!(a.period_start, "2024-01-01");
    assert_eq!(a.period_end, "2024-01-02");
    assert_eq!(a.daily_summaries.len(), 1);
    assert_eq!(a.daily_summaries[0].date, "2024-01-01");
    assert_eq!(a.daily_summaries[0].total_transactions, 2);
    assert_eq!(a.daily_summaries[0].total_amount, 15);
    assert_eq!(a.daily_summaries[0].total_kwh, 3);

    let b = &s.vending_station_summaries[1];
    assert_eq!(b.vending_station, "B");
    assert_eq!(b.total_transactions, 1);
    assert_eq!(b.total_amount, 0);
    assert_eq!(b.total_kwh, 0);
    assert_eq!(b.daily_summaries.len(), 1);
    assert_eq!(b.daily_summaries[0].date, "2024-01-02");
    assert_eq!(b.daily_summaries[0].total_transactions, 1);
    assert_eq!(b.daily_summaries[0].total_amount, 0);
    assert_eq!(b.daily_summaries[0].total_kwh, 0);
}

#[test]
fn empty_range_yields_zeroed_summary() {
    let records = vec![record("1", JAN1_2024 - DAY_MILLIS, Some("A"), Some(1), Some(1))];
    let s = compute_vending_summary(&records, JAN1_2024, JAN2_2024);
    assert_eq!(s.total_transactions, 0);
    assert_eq!(s.total_amount, 0);
    assert_eq!(s.total_kwh, 0);
    assert!(s.vending_station_summaries.is_empty());
    assert_eq!(s.period_start, "2024-01-01");
    assert_eq!(s.period_end, "2024-01-02");
}

#[test]
fn no_records_at_all_is_not_an_error() {
    let records: Vec<VendingRecord> = Vec::new();
    let s = compute_vending_summary(&records, JAN1_2024, JAN2_2024);
    assert_eq!(s.total_transactions, 0);
    assert!(s.vending_station_summaries.is_empty());
}

#[test]
fn missing_fields_count_once_and_go_to_unknown() {
    let records = vec![record("1", JAN1_2024, None, None, None)];
    let s = compute_vending_summary(&records, JAN1_2024, JAN2_2024);
    assert_eq!(s.total_transactions, 1);
    assert_eq!(s.total_amount, 0);
    assert_eq!(s.total_kwh, 0);
    assert_eq!(s.vending_station_summaries.len(), 1);
    let st = &s.vending_station_summaries[0];
    assert_eq!(st.vending_station, "Unknown");
    assert_eq!(st.total_transactions, 1);
    assert_eq!(st.total_amount, 0);
    assert_eq!(st.daily_summaries[0].total_transactions, 1);
    assert_eq!(st.daily_summaries[0].total_amount, 0);
}

#[test]
fn empty_station_string_goes_to_unknown() {
    let records = vec![record("1", JAN1_2024, Some(""), Some(3), Some(1))];
    let s = compute_vending_summary(&records, JAN1_2024, JAN2_2024);
    assert_eq!(s.vending_station_summaries[0].vending_station, "Unknown");
}

#[test]
fn stations_sorted_ascending() {
    let records = vec![
        record("1", JAN1_2024, Some("Borealis"), Some(1), Some(1)),
        record("2", JAN1_2024, Some("Austral"), Some(1), Some(1)),
        record("3", JAN1_2024, Some("Zephyr"), Some(1), Some(1)),
        record("4", JAN1_2024, Some("Austral"), Some(1), Some(1)),
    ];
    let s = compute_vending_summary(&records, JAN1_2024, JAN2_2024);
    let names: Vec<&str> = s
        .vending_station_summaries
        .iter()
        .map(|st| st.vending_station.as_str())
        .collect();
    assert_eq!(names, vec!["Austral", "Borealis", "Zephyr"]);
    assert_eq!(s.vending_station_summaries[0].total_transactions, 2);
}

#[test]
fn daily_summaries_sorted_and_merged() {
    let records = vec![
        record("1", JAN2_2024, Some("A"), Some(1), Some(1)),
        record("2", JAN1_2024, Some("A"), Some(2), Some(2)),
        record("3", JAN2_2024 + 1000, Some("A"), Some(4), Some(4)),
    ];
    let s = compute_vending_summary(&records, JAN1_2024, JAN2_2024 + DAY_MILLIS - 1);
    let a = &s.vending_station_summaries[0];
    assert_eq!(a.daily_summaries.len(), 2);
    assert_eq!(a.daily_summaries[0].date, "2024-01-01");
    assert_eq!(a.daily_summaries[0].total_amount, 2);
    assert_eq!(a.daily_summaries[1].date, "2024-01-02");
    assert_eq!(a.daily_summaries[1].total_transactions, 2);
    assert_eq!(a.daily_summaries[1].total_amount, 5);
}

#[test]
fn totals_agree_across_levels() {
    let records = vec![
        record("1", JAN1_2024, Some("A"), Some(7), Some(1)),
        record("2", JAN1_2024, Some("B"), Some(11), None),
        record("3", JAN2_2024, None, None, Some(5)),
        record("4", JAN2_2024, Some("A"), Some(-2), Some(3)),
    ];
    let s = compute_vending_summary(&records, JAN1_2024, JAN2_2024 + DAY_MILLIS - 1);
    let station_count: u32 = s.vending_station_summaries.iter().map(|st| st.total_transactions).sum();
    let station_amount: i128 = s.vending_station_summaries.iter().map(|st| st.total_amount).sum();
    let station_kwh: i128 = s.vending_station_summaries.iter().map(|st| st.total_kwh).sum();
    let day_count: u32 = s
        .vending_station_summaries
        .iter()
        .flat_map(|st| st.daily_summaries.iter())
        .map(|d| d.total_transactions)
        .sum();
    assert_eq!(s.total_transactions, station_count);
    assert_eq!(s.total_amount, station_amount);
    assert_eq!(s.total_kwh, station_kwh);
    assert_eq!(s.total_transactions, day_count);
    assert_eq!(s.total_amount, 16);
    assert_eq!(s.total_kwh, 9);
}

#[test]
fn negative_amounts_pass_through() {
    let records = vec![record("1", JAN1_2024, Some("A"), Some(-10), Some(-1))];
    let s = compute_vending_summary(&records, JAN1_2024, JAN2_2024);
    assert_eq!(s.total_amount, -10);
    assert_eq!(s.total_kwh, -1);
}

#[test]
fn repeated_aggregation_is_identical() {
    let records = vec![
        record("1", JAN1_2024, Some("A"), Some(10), Some(2)),
        record("2", JAN2_2024, None, None, None),
    ];
    let s1 = compute_vending_summary(&records, JAN1_2024, JAN2_2024 + DAY_MILLIS - 1);
    let s2 = compute_vending_summary(&records, JAN1_2024, JAN2_2024 + DAY_MILLIS - 1);
    assert_eq!(s1.total_transactions, s2.total_transactions);
    assert_eq!(s1.total_amount, s2.total_amount);
    assert_eq!(s1.total_kwh, s2.total_kwh);
    assert_eq!(s1.period_start, s2.period_start);
    assert_eq!(s1.period_end, s2.period_end);
    assert_eq!(
        s1.vending_station_summaries.len(),
        s2.vending_station_summaries.len()
    );
    for (a, b) in s1
        .vending_station_summaries
        .iter()
        .zip(s2.vending_station_summaries.iter())
    {
        assert_eq!(a.vending_station, b.vending_station);
        assert_eq!(a.total_transactions, b.total_transactions);
        assert_eq!(a.total_amount, b.total_amount);
        assert_eq!(a.total_kwh, b.total_kwh);
        assert_eq!(a.daily_summaries.len(), b.daily_summaries.len());
        for (da, db) in a.daily_summaries.iter().zip(b.daily_summaries.iter()) {
            assert_eq!(da.date, db.date);
            assert_eq!(da.total_transactions, db.total_transactions);
            assert_eq!(da.total_amount, db.total_amount);
            assert_eq!(da.total_kwh, db.total_kwh);
        }
    }
}

#[test]
fn range_boundaries_are_inclusive() {
    let records = vec![
        record("1", JAN1_2024, Some("A"), Some(1), Some(1)),
        record("2", JAN2_2024, Some("A"), Some(1), Some(1)),
        record("3", JAN1_2024 - 1, Some("A"), Some(1), Some(1)),
        record("4", JAN2_2024 + 1, Some("A"), Some(1), Some(1)),
    ];
    let s = compute_vending_summary(&records, JAN1_2024, JAN2_2024);
    assert_eq!(s.total_transactions, 2);
    let filtered = records_in_range(&records, JAN1_2024, JAN2_2024);
    assert_eq!(filtered.len(), 2);
    assert_eq!(filtered[0].id, "1");
    assert_eq!(filtered[1].id, "2");
}

#[test]
fn stored_record_maps_to_public_shape() {
    let stored = MongoVendingRecord {
        id: "abc".to_string(),
        timestamp: JAN1_2024,
        meter_number: "M-1".to_string(),
        address: "12 Hill Rd".to_string(),
        community: "North".to_string(),
        customer_name: "Jo".to_string(),
        token: "T-99".to_string(),
        tariff: Some(3),
        amount: None,
        kwh: Some(7),
        user_id: "u1".to_string(),
        vending_station: "A".to_string(),
        fixed_charge: None,
        transaction_id: Some("tx".to_string()),
        remaining_credit: None,
    };
    let rec = VendingRecord::from(stored);
    assert_eq!(rec.id, "abc");
    assert_eq!(rec.timestamp, JAN1_2024);
    assert_eq!(rec.meter_number.as_deref(), Some("M-1"));
    assert_eq!(rec.vending_station.as_deref(), Some("A"));
    assert_eq!(rec.amount, None);
    assert_eq!(rec.kwh, Some(7));
    assert_eq!(rec.transaction_id.as_deref(), Some("tx"));
}
