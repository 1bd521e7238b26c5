//! The record and summary shapes of the vending analytics core.
//!
//! Timestamps are UTC instants counted in milliseconds since the epoch.
//! Monetary amounts and energy quantities are fixed-point integers in the
//! caller's chosen minor unit, so that sums are exact; the surrounding
//! service converts to and from its floating-point wire format.

use vstd::prelude::*;

verus! {

/// One vending event. Every attribute besides `id` and `timestamp` is
/// optional: upstream data is inconsistently populated, and absence must
/// not disturb aggregation.
pub struct VendingRecord {
    pub id: String,
    pub timestamp: i64,
    pub meter_number: Option<String>,
    pub address: Option<String>,
    pub community: Option<String>,
    pub customer_name: Option<String>,
    pub token: Option<String>,
    pub tariff: Option<i64>,
    pub amount: Option<i64>,
    pub kwh: Option<i64>,
    pub user_id: Option<String>,
    pub vending_station: Option<String>,
    pub fixed_charge: Option<i64>,
    pub transaction_id: Option<String>,
    pub remaining_credit: Option<i64>,
}

/// The stored representation of a record: the storage schema requires the
/// descriptive strings and makes the numeric attributes optional.
pub struct MongoVendingRecord {
    pub id: String,
    pub timestamp: i64,
    pub meter_number: String,
    pub address: String,
    pub community: String,
    pub customer_name: String,
    pub token: String,
    pub tariff: Option<i64>,
    pub amount: Option<i64>,
    pub kwh: Option<i64>,
    pub user_id: String,
    pub vending_station: String,
    pub fixed_charge: Option<i64>,
    pub transaction_id: Option<String>,
    pub remaining_credit: Option<i64>,
}

/// Mathematical image of a record: strings as character sequences,
/// numbers as unbounded integers.
pub struct VendingRecordView {
    pub id: Seq<char>,
    pub timestamp: int,
    pub meter_number: Option<Seq<char>>,
    pub address: Option<Seq<char>>,
    pub community: Option<Seq<char>>,
    pub customer_name: Option<Seq<char>>,
    pub token: Option<Seq<char>>,
    pub tariff: Option<int>,
    pub amount: Option<int>,
    pub kwh: Option<int>,
    pub user_id: Option<Seq<char>>,
    pub vending_station: Option<Seq<char>>,
    pub fixed_charge: Option<int>,
    pub transaction_id: Option<Seq<char>>,
    pub remaining_credit: Option<int>,
}

pub open spec fn opt_str_view(o: Option<String>) -> Option<Seq<char>> {
    match o {
        Some(s) => Some(s@),
        None => None,
    }
}

pub open spec fn opt_int_view(o: Option<i64>) -> Option<int> {
    match o {
        Some(v) => Some(v as int),
        None => None,
    }
}

impl View for VendingRecord {
    type V = VendingRecordView;

    open spec fn view(&self) -> VendingRecordView {
        VendingRecordView {
            id: self.id@,
            timestamp: self.timestamp as int,
            meter_number: opt_str_view(self.meter_number),
            address: opt_str_view(self.address),
            community: opt_str_view(self.community),
            customer_name: opt_str_view(self.customer_name),
            token: opt_str_view(self.token),
            tariff: opt_int_view(self.tariff),
            amount: opt_int_view(self.amount),
            kwh: opt_int_view(self.kwh),
            user_id: opt_str_view(self.user_id),
            vending_station: opt_str_view(self.vending_station),
            fixed_charge: opt_int_view(self.fixed_charge),
            transaction_id: opt_str_view(self.transaction_id),
            remaining_credit: opt_int_view(self.remaining_credit),
        }
    }
}

/// The sequence of record images of a sequence of records.
pub open spec fn records_view(rs: Seq<VendingRecord>) -> Seq<VendingRecordView> {
    rs.map_values(|r: VendingRecord| r@)
}

impl VendingRecord {
    /// An exact copy of the record.
    pub fn duplicate(&self) -> (r: Self)
        ensures
            r == *self,
    {
        VendingRecord {
            id: self.id.clone(),
            timestamp: self.timestamp,
            meter_number: clone_opt_string(&self.meter_number),
            address: clone_opt_string(&self.address),
            community: clone_opt_string(&self.community),
            customer_name: clone_opt_string(&self.customer_name),
            token: clone_opt_string(&self.token),
            tariff: self.tariff,
            amount: self.amount,
            kwh: self.kwh,
            user_id: clone_opt_string(&self.user_id),
            vending_station: clone_opt_string(&self.vending_station),
            fixed_charge: self.fixed_charge,
            transaction_id: clone_opt_string(&self.transaction_id),
            remaining_credit: self.remaining_credit,
        }
    }
}

fn clone_opt_string(o: &Option<String>) -> (r: Option<String>)
    ensures
        r == *o,
{
    match o {
        Some(s) => Some(s.clone()),
        None => None,
    }
}

impl From<MongoVendingRecord> for VendingRecord {
    /// A stored record maps to the public shape: the attributes that the
    /// storage schema requires become present optionals, and the optional
    /// ones carry over unchanged.
    fn from(stored: MongoVendingRecord) -> (r: VendingRecord) {
        VendingRecord {
            id: stored.id,
            timestamp: stored.timestamp,
            meter_number: Some(stored.meter_number),
            address: Some(stored.address),
            community: Some(stored.community),
            customer_name: Some(stored.customer_name),
            token: Some(stored.token),
            tariff: stored.tariff,
            amount: stored.amount,
            kwh: stored.kwh,
            user_id: Some(stored.user_id),
            vending_station: Some(stored.vending_station),
            fixed_charge: stored.fixed_charge,
            transaction_id: stored.transaction_id,
            remaining_credit: stored.remaining_credit,
        }
    }
}

impl vstd::std_specs::convert::FromSpecImpl<MongoVendingRecord> for VendingRecord {
    open spec fn obeys_from_spec() -> bool {
        true
    }

    open spec fn from_spec(stored: MongoVendingRecord) -> VendingRecord {
        VendingRecord {
            id: stored.id,
            timestamp: stored.timestamp,
            meter_number: Some(stored.meter_number),
            address: Some(stored.address),
            community: Some(stored.community),
            customer_name: Some(stored.customer_name),
            token: Some(stored.token),
            tariff: stored.tariff,
            amount: stored.amount,
            kwh: stored.kwh,
            user_id: Some(stored.user_id),
            vending_station: Some(stored.vending_station),
            fixed_charge: stored.fixed_charge,
            transaction_id: stored.transaction_id,
            remaining_credit: stored.remaining_credit,
        }
    }
}

/// Aggregate of one (station, calendar day) bucket.
pub struct DailySummary {
    pub date: String,
    pub total_transactions: u32,
    pub total_amount: i128,
    pub total_kwh: i128,
}

/// Aggregate of one station over the whole queried period.
pub struct VendingStationSummary {
    pub vending_station: String,
    pub total_transactions: u32,
    pub total_amount: i128,
    pub total_kwh: i128,
    pub period_start: String,
    pub period_end: String,
    pub daily_summaries: Vec<DailySummary>,
}

/// The full two-level rollup over the queried period.
pub struct VendingSummary {
    pub total_transactions: u32,
    pub total_amount: i128,
    pub total_kwh: i128,
    pub period_start: String,
    pub period_end: String,
    pub vending_station_summaries: Vec<VendingStationSummary>,
}

pub struct DailySummaryView {
    pub date: Seq<char>,
    pub total_transactions: int,
    pub total_amount: int,
    pub total_kwh: int,
}

pub struct VendingStationSummaryView {
    pub vending_station: Seq<char>,
    pub total_transactions: int,
    pub total_amount: int,
    pub total_kwh: int,
    pub period_start: Seq<char>,
    pub period_end: Seq<char>,
    pub daily_summaries: Seq<DailySummaryView>,
}

pub struct VendingSummaryView {
    pub total_transactions: int,
    pub total_amount: int,
    pub total_kwh: int,
    pub period_start: Seq<char>,
    pub period_end: Seq<char>,
    pub vending_station_summaries: Seq<VendingStationSummaryView>,
}

impl View for DailySummary {
    type V = DailySummaryView;

    open spec fn view(&self) -> DailySummaryView {
        DailySummaryView {
            date: self.date@,
            total_transactions: self.total_transactions as int,
            total_amount: self.total_amount as int,
            total_kwh: self.total_kwh as int,
        }
    }
}

/// The sequence of images of a day-bucket list.
pub open spec fn days_view(ds: Seq<DailySummary>) -> Seq<DailySummaryView> {
    ds.map_values(|d: DailySummary| d@)
}

impl View for VendingStationSummary {
    type V = VendingStationSummaryView;

    open spec fn view(&self) -> VendingStationSummaryView {
        VendingStationSummaryView {
            vending_station: self.vending_station@,
            total_transactions: self.total_transactions as int,
            total_amount: self.total_amount as int,
            total_kwh: self.total_kwh as int,
            period_start: self.period_start@,
            period_end: self.period_end@,
            daily_summaries: days_view(self.daily_summaries@),
        }
    }
}

/// The sequence of images of a station-summary list.
pub open spec fn stations_view(ss: Seq<VendingStationSummary>) -> Seq<VendingStationSummaryView> {
    ss.map_values(|s: VendingStationSummary| s@)
}

impl View for VendingSummary {
    type V = VendingSummaryView;

    open spec fn view(&self) -> VendingSummaryView {
        VendingSummaryView {
            total_transactions: self.total_transactions as int,
            total_amount: self.total_amount as int,
            total_kwh: self.total_kwh as int,
            period_start: self.period_start@,
            period_end: self.period_end@,
            vending_station_summaries: stations_view(self.vending_station_summaries@),
        }
    }
}

} // verus!
