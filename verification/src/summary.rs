//! The summary aggregator: reduces a date-filtered set of vending records
//! to a two-level rollup — grand totals, per-station totals, and
//! per-station-per-day totals — with deterministic ordering and null-safe
//! defaulting.
//!
//! The mathematical model is a fold over the record sequence: every
//! in-range record is normalized to a `(station, day, amount, kwh)` entry
//! (absent numbers count as zero, an absent or empty station becomes
//! "Unknown", the day is the record's UTC calendar day), and each entry is
//! folded into a station list kept sorted by station identifier, each
//! station holding a day list kept sorted by day key.

use vstd::prelude::*;

use crate::dates::day_chars_of_millis;
use crate::model::{
    days_view,
    records_view,
    stations_view,
    DailySummary,
    VendingRecord,
    DailySummaryView,
    VendingRecordView,
    VendingStationSummary,
    VendingStationSummaryView,
    VendingSummary,
    VendingSummaryView,
};
use crate::text::{lex_lt, lemma_lex_lt_connected, lemma_lex_lt_irreflexive, lemma_lex_lt_transitive};

verus! {

/// A normalized record: what aggregation reads of one vending event.
pub struct SummaryEntry {
    pub station: Seq<char>,
    pub day: Seq<char>,
    pub amount: int,
    pub kwh: int,
}

/// The station identifier a record is attributed to: its own when present
/// and non-empty, the sentinel "Unknown" otherwise.
pub open spec fn station_key(station: Option<Seq<char>>) -> Seq<char> {
    match station {
        Some(s) => if s.len() == 0 {
            "Unknown"@
        } else {
            s
        },
        None => "Unknown"@,
    }
}

/// An absent numeric attribute counts as zero.
pub open spec fn value_or_zero(v: Option<int>) -> int {
    match v {
        Some(x) => x,
        None => 0,
    }
}

/// The entry a record normalizes to.
pub open spec fn entry_of(r: VendingRecordView) -> SummaryEntry {
    SummaryEntry {
        station: station_key(r.vending_station),
        day: day_chars_of_millis(r.timestamp),
        amount: value_or_zero(r.amount),
        kwh: value_or_zero(r.kwh),
    }
}

/// The record's timestamp falls in the inclusive range.
pub open spec fn in_range(r: VendingRecordView, lo: int, hi: int) -> bool {
    lo <= r.timestamp <= hi
}

/// The entries of the in-range records, in record order.
pub open spec fn entries_of(rs: Seq<VendingRecordView>, lo: int, hi: int) -> Seq<SummaryEntry>
    decreases rs.len(),
{
    if rs.len() == 0 {
        Seq::empty()
    } else {
        let rest = entries_of(rs.drop_last(), lo, hi);
        if in_range(rs.last(), lo, hi) {
            rest.push(entry_of(rs.last()))
        } else {
            rest
        }
    }
}

/// Sum of the amounts of a sequence of entries.
pub open spec fn total_amount_of(es: Seq<SummaryEntry>) -> int
    decreases es.len(),
{
    if es.len() == 0 {
        0
    } else {
        total_amount_of(es.drop_last()) + es.last().amount
    }
}

/// Sum of the energy quantities of a sequence of entries.
pub open spec fn total_kwh_of(es: Seq<SummaryEntry>) -> int
    decreases es.len(),
{
    if es.len() == 0 {
        0
    } else {
        total_kwh_of(es.drop_last()) + es.last().kwh
    }
}

// ------------------------------------------------------------------
// The fold
// ------------------------------------------------------------------

pub open spec fn fresh_day(day: Seq<char>, amount: int, kwh: int) -> DailySummaryView {
    DailySummaryView { date: day, total_transactions: 1, total_amount: amount, total_kwh: kwh }
}

pub open spec fn bump_day(d: DailySummaryView, amount: int, kwh: int) -> DailySummaryView {
    DailySummaryView {
        date: d.date,
        total_transactions: d.total_transactions + 1,
        total_amount: d.total_amount + amount,
        total_kwh: d.total_kwh + kwh,
    }
}

/// Fold one entry into a day list kept sorted by day key.
pub open spec fn add_day(
    ds: Seq<DailySummaryView>,
    day: Seq<char>,
    amount: int,
    kwh: int,
) -> Seq<DailySummaryView>
    decreases ds.len(),
{
    if ds.len() == 0 {
        seq![fresh_day(day, amount, kwh)]
    } else if lex_lt(day, ds[0].date) {
        seq![fresh_day(day, amount, kwh)] + ds
    } else if day == ds[0].date {
        seq![bump_day(ds[0], amount, kwh)] + ds.skip(1)
    } else {
        seq![ds[0]] + add_day(ds.skip(1), day, amount, kwh)
    }
}

pub open spec fn fresh_station(e: SummaryEntry, ps: Seq<char>, pe: Seq<char>)
    -> VendingStationSummaryView {
    VendingStationSummaryView {
        vending_station: e.station,
        total_transactions: 1,
        total_amount: e.amount,
        total_kwh: e.kwh,
        period_start: ps,
        period_end: pe,
        daily_summaries: seq![fresh_day(e.day, e.amount, e.kwh)],
    }
}

pub open spec fn bump_station(s: VendingStationSummaryView, e: SummaryEntry)
    -> VendingStationSummaryView {
    VendingStationSummaryView {
        vending_station: s.vending_station,
        total_transactions: s.total_transactions + 1,
        total_amount: s.total_amount + e.amount,
        total_kwh: s.total_kwh + e.kwh,
        period_start: s.period_start,
        period_end: s.period_end,
        daily_summaries: add_day(s.daily_summaries, e.day, e.amount, e.kwh),
    }
}

/// Fold one entry into a station list kept sorted by station identifier.
pub open spec fn add_entry(
    ss: Seq<VendingStationSummaryView>,
    e: SummaryEntry,
    ps: Seq<char>,
    pe: Seq<char>,
) -> Seq<VendingStationSummaryView>
    decreases ss.len(),
{
    if ss.len() == 0 {
        seq![fresh_station(e, ps, pe)]
    } else if lex_lt(e.station, ss[0].vending_station) {
        seq![fresh_station(e, ps, pe)] + ss
    } else if e.station == ss[0].vending_station {
        seq![bump_station(ss[0], e)] + ss.skip(1)
    } else {
        seq![ss[0]] + add_entry(ss.skip(1), e, ps, pe)
    }
}

/// The station rollup of a sequence of entries.
pub open spec fn station_rollup(es: Seq<SummaryEntry>, ps: Seq<char>, pe: Seq<char>)
    -> Seq<VendingStationSummaryView>
    decreases es.len(),
{
    if es.len() == 0 {
        Seq::empty()
    } else {
        add_entry(station_rollup(es.drop_last(), ps, pe), es.last(), ps, pe)
    }
}

/// The full summary of the in-range records of `rs` over the inclusive
/// millisecond range `[lo, hi]`.
pub open spec fn summary_of(rs: Seq<VendingRecordView>, lo: int, hi: int) -> VendingSummaryView {
    let es = entries_of(rs, lo, hi);
    let ps = day_chars_of_millis(lo);
    let pe = day_chars_of_millis(hi);
    VendingSummaryView {
        total_transactions: es.len() as int,
        total_amount: total_amount_of(es),
        total_kwh: total_kwh_of(es),
        period_start: ps,
        period_end: pe,
        vending_station_summaries: station_rollup(es, ps, pe),
    }
}

// ------------------------------------------------------------------
// Well-formedness of the fold's state
// ------------------------------------------------------------------

/// Entry values drawn from 64-bit records.
pub open spec fn entry_bounded(e: SummaryEntry) -> bool {
    &&& -0x8000_0000_0000_0000 <= e.amount <= 0x7FFF_FFFF_FFFF_FFFF
    &&& -0x8000_0000_0000_0000 <= e.kwh <= 0x7FFF_FFFF_FFFF_FFFF
}

pub open spec fn day_wf(d: DailySummaryView) -> bool {
    &&& d.total_transactions >= 1
    &&& -(d.total_transactions * 0x8000_0000_0000_0000) <= d.total_amount <= d.total_transactions
        * 0x8000_0000_0000_0000
    &&& -(d.total_transactions * 0x8000_0000_0000_0000) <= d.total_kwh <= d.total_transactions
        * 0x8000_0000_0000_0000
}

/// Strictly ascending day keys: sorted, with no duplicate days.
pub open spec fn days_sorted(ds: Seq<DailySummaryView>) -> bool {
    forall|i: int, j: int|
        0 <= i < j < ds.len() ==> #[trigger] lex_lt(ds[i].date, ds[j].date)
}

pub open spec fn days_wf(ds: Seq<DailySummaryView>) -> bool {
    &&& days_sorted(ds)
    &&& forall|k: int| 0 <= k < ds.len() ==> #[trigger] day_wf(ds[k])
}

/// A station summary is consistent: its totals are the sums of its day
/// buckets, its day buckets are strictly sorted, and it carries the
/// queried period.
pub open spec fn station_wf(s: VendingStationSummaryView, ps: Seq<char>, pe: Seq<char>) -> bool {
    &&& s.total_transactions == sum_day_counts(s.daily_summaries)
    &&& s.total_amount == sum_day_amounts(s.daily_summaries)
    &&& s.total_kwh == sum_day_kwh(s.daily_summaries)
    &&& days_wf(s.daily_summaries)
    &&& s.daily_summaries.len() >= 1
    &&& s.total_transactions >= 1
    &&& -(s.total_transactions * 0x8000_0000_0000_0000) <= s.total_amount
        <= s.total_transactions * 0x8000_0000_0000_0000
    &&& -(s.total_transactions * 0x8000_0000_0000_0000) <= s.total_kwh <= s.total_transactions
        * 0x8000_0000_0000_0000
    &&& s.period_start == ps
    &&& s.period_end == pe
}

/// Strictly ascending station identifiers: sorted, with no duplicates.
pub open spec fn stations_sorted(ss: Seq<VendingStationSummaryView>) -> bool {
    forall|i: int, j: int|
        0 <= i < j < ss.len() ==> #[trigger] lex_lt(ss[i].vending_station, ss[j].vending_station)
}

pub open spec fn rollup_wf(
    ss: Seq<VendingStationSummaryView>,
    ps: Seq<char>,
    pe: Seq<char>,
) -> bool {
    &&& stations_sorted(ss)
    &&& forall|k: int| 0 <= k < ss.len() ==> #[trigger] station_wf(ss[k], ps, pe)
}

pub open spec fn sum_day_counts(ds: Seq<DailySummaryView>) -> int
    decreases ds.len(),
{
    if ds.len() == 0 {
        0
    } else {
        ds[0].total_transactions + sum_day_counts(ds.skip(1))
    }
}

pub open spec fn sum_day_amounts(ds: Seq<DailySummaryView>) -> int
    decreases ds.len(),
{
    if ds.len() == 0 {
        0
    } else {
        ds[0].total_amount + sum_day_amounts(ds.skip(1))
    }
}

pub open spec fn sum_day_kwh(ds: Seq<DailySummaryView>) -> int
    decreases ds.len(),
{
    if ds.len() == 0 {
        0
    } else {
        ds[0].total_kwh + sum_day_kwh(ds.skip(1))
    }
}

pub open spec fn sum_station_counts(ss: Seq<VendingStationSummaryView>) -> int
    decreases ss.len(),
{
    if ss.len() == 0 {
        0
    } else {
        ss[0].total_transactions + sum_station_counts(ss.skip(1))
    }
}

pub open spec fn sum_station_amounts(ss: Seq<VendingStationSummaryView>) -> int
    decreases ss.len(),
{
    if ss.len() == 0 {
        0
    } else {
        ss[0].total_amount + sum_station_amounts(ss.skip(1))
    }
}

pub open spec fn sum_station_kwh(ss: Seq<VendingStationSummaryView>) -> int
    decreases ss.len(),
{
    if ss.len() == 0 {
        0
    } else {
        ss[0].total_kwh + sum_station_kwh(ss.skip(1))
    }
}

// ------------------------------------------------------------------
// The fold preserves well-formedness and accounts for every entry
// ------------------------------------------------------------------

/// A strict lower bound of a day list and of the folded-in day is a
/// strict lower bound of the folded list.
proof fn lemma_add_day_lower(
    ds: Seq<DailySummaryView>,
    day: Seq<char>,
    amount: int,
    kwh: int,
    x: Seq<char>,
)
    requires
        lex_lt(x, day),
        forall|i: int| 0 <= i < ds.len() ==> #[trigger] lex_lt(x, ds[i].date),
    ensures
        forall|i: int|
            0 <= i < add_day(ds, day, amount, kwh).len() ==> #[trigger] lex_lt(
                x,
                add_day(ds, day, amount, kwh)[i].date,
            ),
    decreases ds.len(),
{
    let r = add_day(ds, day, amount, kwh);
    if ds.len() == 0 {
        assert(r[0] == fresh_day(day, amount, kwh));
        assert forall|i: int| 0 <= i < r.len() implies #[trigger] lex_lt(x, r[i].date) by {
            assert(r[i].date == day);
        }
    } else if lex_lt(day, ds[0].date) {
        assert(r[0] == fresh_day(day, amount, kwh));
        assert forall|i: int| 0 <= i < r.len() implies #[trigger] lex_lt(x, r[i].date) by {
            if i >= 1 {
                assert(r[i] == ds[i - 1]);
                assert(lex_lt(x, ds[i - 1].date));
            } else {
                assert(r[i].date == day);
            }
        }
    } else if day == ds[0].date {
        assert(r[0] == bump_day(ds[0], amount, kwh));
        assert forall|i: int| 0 <= i < r.len() implies #[trigger] lex_lt(x, r[i].date) by {
            if i >= 1 {
                assert(r[i] == ds[i]);
                assert(lex_lt(x, ds[i].date));
            } else {
                assert(r[i].date == ds[0].date);
                assert(lex_lt(x, ds[0].date));
            }
        }
    } else {
        assert forall|i: int| 0 <= i < ds.skip(1).len() implies #[trigger] lex_lt(
            x,
            ds.skip(1)[i].date,
        ) by {
            assert(ds.skip(1)[i] == ds[i + 1]);
            assert(lex_lt(x, ds[i + 1].date));
        }
        lemma_add_day_lower(ds.skip(1), day, amount, kwh, x);
        assert(r[0] == ds[0]);
        assert forall|i: int| 0 <= i < r.len() implies #[trigger] lex_lt(x, r[i].date) by {
            if i >= 1 {
                assert(r[i] == add_day(ds.skip(1), day, amount, kwh)[i - 1]);
                assert(lex_lt(x, add_day(ds.skip(1), day, amount, kwh)[i - 1].date));
            } else {
                assert(lex_lt(x, ds[0].date));
            }
        }
    }
}

/// Folding one entry into a well-formed day list keeps it well formed and
/// adds exactly that entry to its sums.
proof fn lemma_add_day(ds: Seq<DailySummaryView>, day: Seq<char>, amount: int, kwh: int)
    requires
        days_wf(ds),
        -0x8000_0000_0000_0000 <= amount <= 0x7FFF_FFFF_FFFF_FFFF,
        -0x8000_0000_0000_0000 <= kwh <= 0x7FFF_FFFF_FFFF_FFFF,
    ensures
        days_wf(add_day(ds, day, amount, kwh)),
        add_day(ds, day, amount, kwh).len() >= 1,
        sum_day_counts(add_day(ds, day, amount, kwh)) == sum_day_counts(ds) + 1,
        sum_day_amounts(add_day(ds, day, amount, kwh)) == sum_day_amounts(ds) + amount,
        sum_day_kwh(add_day(ds, day, amount, kwh)) == sum_day_kwh(ds) + kwh,
    decreases ds.len(),
{
    let r = add_day(ds, day, amount, kwh);
    if ds.len() == 0 {
        assert(r.skip(1) =~= Seq::<DailySummaryView>::empty());
        assert(sum_day_counts(Seq::<DailySummaryView>::empty()) == 0);
        assert(sum_day_amounts(Seq::<DailySummaryView>::empty()) == 0);
        assert(sum_day_kwh(Seq::<DailySummaryView>::empty()) == 0);
        assert(r[0] == fresh_day(day, amount, kwh));
        assert(sum_day_counts(r) == 1 + sum_day_counts(r.skip(1)));
        assert(sum_day_amounts(r) == amount + sum_day_amounts(r.skip(1)));
        assert(sum_day_kwh(r) == kwh + sum_day_kwh(r.skip(1)));
    } else if lex_lt(day, ds[0].date) {
        assert(r.skip(1) =~= ds);
        assert(r[0] == fresh_day(day, amount, kwh));
        assert(sum_day_counts(r) == 1 + sum_day_counts(ds));
        assert(sum_day_amounts(r) == amount + sum_day_amounts(ds));
        assert(sum_day_kwh(r) == kwh + sum_day_kwh(ds));
        assert forall|i: int, j: int| 0 <= i < j < r.len() implies #[trigger] lex_lt(
            r[i].date,
            r[j].date,
        ) by {
            if i == 0 {
                assert(r[j] == ds[j - 1]);
                if j >= 2 {
                    assert(lex_lt(ds[0].date, ds[j - 1].date));
                    lemma_lex_lt_transitive(day, ds[0].date, ds[j - 1].date);
                }
            } else {
                assert(r[i] == ds[i - 1]);
                assert(r[j] == ds[j - 1]);
                assert(lex_lt(ds[i - 1].date, ds[j - 1].date));
            }
        }
        assert forall|k: int| 0 <= k < r.len() implies #[trigger] day_wf(r[k]) by {
            if k >= 1 {
                assert(r[k] == ds[k - 1]);
                assert(day_wf(ds[k - 1]));
            }
        }
    } else if day == ds[0].date {
        assert(r.skip(1) =~= ds.skip(1));
        assert(r[0] == bump_day(ds[0], amount, kwh));
        assert(sum_day_counts(r) == ds[0].total_transactions + 1 + sum_day_counts(ds.skip(1)));
        assert(sum_day_counts(ds) == ds[0].total_transactions + sum_day_counts(ds.skip(1)));
        assert(sum_day_amounts(r) == ds[0].total_amount + amount + sum_day_amounts(ds.skip(1)));
        assert(sum_day_amounts(ds) == ds[0].total_amount + sum_day_amounts(ds.skip(1)));
        assert(sum_day_kwh(r) == ds[0].total_kwh + kwh + sum_day_kwh(ds.skip(1)));
        assert(sum_day_kwh(ds) == ds[0].total_kwh + sum_day_kwh(ds.skip(1)));
        assert forall|i: int, j: int| 0 <= i < j < r.len() implies #[trigger] lex_lt(
            r[i].date,
            r[j].date,
        ) by {
            assert(r[j] == ds[j]);
            if i >= 1 {
                assert(r[i] == ds[i]);
                assert(lex_lt(ds[i].date, ds[j].date));
            } else {
                assert(r[i].date == ds[0].date);
                assert(lex_lt(ds[0].date, ds[j].date));
            }
        }
        assert forall|k: int| 0 <= k < r.len() implies #[trigger] day_wf(r[k]) by {
            if k >= 1 {
                assert(r[k] == ds[k]);
                assert(day_wf(ds[k]));
            } else {
                assert(day_wf(ds[0]));
            }
        }
    } else {
        lemma_lex_lt_connected(day, ds[0].date);
        let tail = ds.skip(1);
        assert forall|i: int, j: int| 0 <= i < j < tail.len() implies #[trigger] lex_lt(
            tail[i].date,
            tail[j].date,
        ) by {
            assert(tail[i] == ds[i + 1]);
            assert(tail[j] == ds[j + 1]);
            assert(lex_lt(ds[i + 1].date, ds[j + 1].date));
        }
        assert forall|k: int| 0 <= k < tail.len() implies #[trigger] day_wf(tail[k]) by {
            assert(tail[k] == ds[k + 1]);
            assert(day_wf(ds[k + 1]));
        }
        lemma_add_day(tail, day, amount, kwh);
        lemma_add_day_lower(tail, day, amount, kwh, ds[0].date);
        let rt = add_day(tail, day, amount, kwh);
        assert(r.skip(1) =~= rt);
        assert forall|i: int, j: int| 0 <= i < j < r.len() implies #[trigger] lex_lt(
            r[i].date,
            r[j].date,
        ) by {
            if i == 0 {
                assert(r[0] == ds[0]);
                assert(r[j] == rt[j - 1]);
                assert(lex_lt(ds[0].date, rt[j - 1].date));
            } else {
                assert(r[i] == rt[i - 1]);
                assert(r[j] == rt[j - 1]);
                assert(lex_lt(rt[i - 1].date, rt[j - 1].date));
            }
        }
        assert forall|k: int| 0 <= k < r.len() implies #[trigger] day_wf(r[k]) by {
            if k >= 1 {
                assert(r[k] == rt[k - 1]);
                assert(day_wf(rt[k - 1]));
            } else {
                assert(day_wf(ds[0]));
            }
        }
        assert(r[0] == ds[0]);
        assert(sum_day_counts(r) == ds[0].total_transactions + sum_day_counts(rt));
        assert(sum_day_counts(ds) == ds[0].total_transactions + sum_day_counts(tail));
        assert(sum_day_amounts(r) == ds[0].total_amount + sum_day_amounts(rt));
        assert(sum_day_amounts(ds) == ds[0].total_amount + sum_day_amounts(tail));
        assert(sum_day_kwh(r) == ds[0].total_kwh + sum_day_kwh(rt));
        assert(sum_day_kwh(ds) == ds[0].total_kwh + sum_day_kwh(tail));
    }
}

/// A strict lower bound of a station list and of the folded-in station is
/// a strict lower bound of the folded list.
proof fn lemma_add_entry_lower(
    ss: Seq<VendingStationSummaryView>,
    e: SummaryEntry,
    ps: Seq<char>,
    pe: Seq<char>,
    x: Seq<char>,
)
    requires
        lex_lt(x, e.station),
        forall|i: int| 0 <= i < ss.len() ==> #[trigger] lex_lt(x, ss[i].vending_station),
    ensures
        forall|i: int|
            0 <= i < add_entry(ss, e, ps, pe).len() ==> #[trigger] lex_lt(
                x,
                add_entry(ss, e, ps, pe)[i].vending_station,
            ),
    decreases ss.len(),
{
    let r = add_entry(ss, e, ps, pe);
    if ss.len() == 0 {
    } else if lex_lt(e.station, ss[0].vending_station) {
        assert forall|i: int| 0 <= i < r.len() implies #[trigger] lex_lt(
            x,
            r[i].vending_station,
        ) by {
            if i >= 1 {
                assert(r[i] == ss[i - 1]);
            }
        }
    } else if e.station == ss[0].vending_station {
        assert forall|i: int| 0 <= i < r.len() implies #[trigger] lex_lt(
            x,
            r[i].vending_station,
        ) by {
            if i >= 1 {
                assert(r[i] == ss[i]);
            }
        }
    } else {
        assert(forall|i: int|
            0 <= i < ss.skip(1).len() ==> #[trigger] lex_lt(x, ss.skip(1)[i].vending_station));
        lemma_add_entry_lower(ss.skip(1), e, ps, pe, x);
        assert forall|i: int| 0 <= i < r.len() implies #[trigger] lex_lt(
            x,
            r[i].vending_station,
        ) by {
            if i >= 1 {
                assert(r[i] == add_entry(ss.skip(1), e, ps, pe)[i - 1]);
            }
        }
    }
}

/// Folding one entry into a well-formed rollup keeps it well formed and
/// adds exactly that entry to its sums.
proof fn lemma_add_entry(
    ss: Seq<VendingStationSummaryView>,
    e: SummaryEntry,
    ps: Seq<char>,
    pe: Seq<char>,
)
    requires
        rollup_wf(ss, ps, pe),
        entry_bounded(e),
    ensures
        rollup_wf(add_entry(ss, e, ps, pe), ps, pe),
        add_entry(ss, e, ps, pe).len() >= 1,
        sum_station_counts(add_entry(ss, e, ps, pe)) == sum_station_counts(ss) + 1,
        sum_station_amounts(add_entry(ss, e, ps, pe)) == sum_station_amounts(ss) + e.amount,
        sum_station_kwh(add_entry(ss, e, ps, pe)) == sum_station_kwh(ss) + e.kwh,
    decreases ss.len(),
{
    let r = add_entry(ss, e, ps, pe);
    if ss.len() == 0 {
        assert(r.skip(1) =~= Seq::<VendingStationSummaryView>::empty());
        assert(sum_station_counts(Seq::<VendingStationSummaryView>::empty()) == 0);
        assert(sum_station_amounts(Seq::<VendingStationSummaryView>::empty()) == 0);
        assert(sum_station_kwh(Seq::<VendingStationSummaryView>::empty()) == 0);
        assert(r[0] == fresh_station(e, ps, pe));
        assert(sum_station_counts(r) == 1 + sum_station_counts(r.skip(1)));
        assert(sum_station_amounts(r) == e.amount + sum_station_amounts(r.skip(1)));
        assert(sum_station_kwh(r) == e.kwh + sum_station_kwh(r.skip(1)));
        assert(station_wf(r[0], ps, pe)) by {
            let daily = r[0].daily_summaries;
            assert(daily[0] == fresh_day(e.day, e.amount, e.kwh));
            assert(daily.skip(1) =~= Seq::<DailySummaryView>::empty());
            assert(sum_day_counts(daily) == 1 + sum_day_counts(daily.skip(1)));
            assert(sum_day_amounts(daily) == e.amount + sum_day_amounts(daily.skip(1)));
            assert(sum_day_kwh(daily) == e.kwh + sum_day_kwh(daily.skip(1)));
        }
    } else if lex_lt(e.station, ss[0].vending_station) {
        assert(r.skip(1) =~= ss);
        assert(r[0] == fresh_station(e, ps, pe));
        assert(sum_station_counts(r) == 1 + sum_station_counts(ss));
        assert(sum_station_amounts(r) == e.amount + sum_station_amounts(ss));
        assert(sum_station_kwh(r) == e.kwh + sum_station_kwh(ss));
        assert(station_wf(r[0], ps, pe)) by {
            let daily = r[0].daily_summaries;
            assert(daily[0] == fresh_day(e.day, e.amount, e.kwh));
            assert(daily.skip(1) =~= Seq::<DailySummaryView>::empty());
            assert(sum_day_counts(daily) == 1 + sum_day_counts(daily.skip(1)));
            assert(sum_day_amounts(daily) == e.amount + sum_day_amounts(daily.skip(1)));
            assert(sum_day_kwh(daily) == e.kwh + sum_day_kwh(daily.skip(1)));
        }
        assert forall|i: int, j: int| 0 <= i < j < r.len() implies #[trigger] lex_lt(
            r[i].vending_station,
            r[j].vending_station,
        ) by {
            if i == 0 {
                assert(r[j] == ss[j - 1]);
                if j >= 2 {
                    lemma_lex_lt_transitive(
                        e.station,
                        ss[0].vending_station,
                        ss[j - 1].vending_station,
                    );
                }
            } else {
                assert(r[i] == ss[i - 1]);
                assert(r[j] == ss[j - 1]);
            }
        }
        assert forall|k: int| 0 <= k < r.len() implies #[trigger] station_wf(r[k], ps, pe) by {
            if k >= 1 {
                assert(r[k] == ss[k - 1]);
                assert(station_wf(ss[k - 1], ps, pe));
            }
        }
    } else if e.station == ss[0].vending_station {
        assert(r.skip(1) =~= ss.skip(1));
        assert(r[0] == bump_station(ss[0], e));
        assert(station_wf(ss[0], ps, pe));
        lemma_add_day(ss[0].daily_summaries, e.day, e.amount, e.kwh);
        assert(station_wf(r[0], ps, pe));
        assert(sum_station_counts(r) == ss[0].total_transactions + 1 + sum_station_counts(
            ss.skip(1),
        ));
        assert(sum_station_counts(ss) == ss[0].total_transactions + sum_station_counts(
            ss.skip(1),
        ));
        assert(sum_station_amounts(r) == ss[0].total_amount + e.amount + sum_station_amounts(
            ss.skip(1),
        ));
        assert(sum_station_amounts(ss) == ss[0].total_amount + sum_station_amounts(ss.skip(1)));
        assert(sum_station_kwh(r) == ss[0].total_kwh + e.kwh + sum_station_kwh(ss.skip(1)));
        assert(sum_station_kwh(ss) == ss[0].total_kwh + sum_station_kwh(ss.skip(1)));
        assert forall|i: int, j: int| 0 <= i < j < r.len() implies #[trigger] lex_lt(
            r[i].vending_station,
            r[j].vending_station,
        ) by {
            assert(r[j] == ss[j]);
            if i >= 1 {
                assert(r[i] == ss[i]);
            }
        }
        assert forall|k: int| 0 <= k < r.len() implies #[trigger] station_wf(r[k], ps, pe) by {
            if k >= 1 {
                assert(r[k] == ss[k]);
                assert(station_wf(ss[k], ps, pe));
            }
        }
    } else {
        lemma_lex_lt_connected(e.station, ss[0].vending_station);
        let tail = ss.skip(1);
        assert(forall|i: int, j: int|
            0 <= i < j < tail.len() ==> #[trigger] lex_lt(
                tail[i].vending_station,
                tail[j].vending_station,
            ));
        assert(forall|k: int| 0 <= k < tail.len() ==> #[trigger] station_wf(tail[k], ps, pe));
        lemma_add_entry(tail, e, ps, pe);
        lemma_add_entry_lower(tail, e, ps, pe, ss[0].vending_station);
        let rt = add_entry(tail, e, ps, pe);
        assert(r.skip(1) =~= rt);
        assert forall|i: int, j: int| 0 <= i < j < r.len() implies #[trigger] lex_lt(
            r[i].vending_station,
            r[j].vending_station,
        ) by {
            if i == 0 {
                assert(r[j] == rt[j - 1]);
            } else {
                assert(r[i] == rt[i - 1]);
                assert(r[j] == rt[j - 1]);
            }
        }
        assert forall|k: int| 0 <= k < r.len() implies #[trigger] station_wf(r[k], ps, pe) by {
            if k >= 1 {
                assert(r[k] == rt[k - 1]);
            } else {
                assert(station_wf(ss[0], ps, pe));
            }
        }
        assert(r[0] == ss[0]);
        assert(sum_station_counts(r) == ss[0].total_transactions + sum_station_counts(rt));
        assert(sum_station_counts(ss) == ss[0].total_transactions + sum_station_counts(tail));
        assert(sum_station_amounts(r) == ss[0].total_amount + sum_station_amounts(rt));
        assert(sum_station_amounts(ss) == ss[0].total_amount + sum_station_amounts(tail));
        assert(sum_station_kwh(r) == ss[0].total_kwh + sum_station_kwh(rt));
        assert(sum_station_kwh(ss) == ss[0].total_kwh + sum_station_kwh(tail));
    }
}

/// In a list whose counts are all at least one, each count is at most the
/// sum of all of them.
proof fn lemma_station_count_le_sum(ss: Seq<VendingStationSummaryView>, i: int)
    requires
        forall|k: int| 0 <= k < ss.len() ==> #[trigger] ss[k].total_transactions >= 1,
        0 <= i < ss.len(),
    ensures
        ss[i].total_transactions <= sum_station_counts(ss),
        sum_station_counts(ss) >= ss.len(),
    decreases ss.len(),
{
    let tail = ss.skip(1);
    assert(forall|k: int| 0 <= k < tail.len() ==> #[trigger] tail[k].total_transactions >= 1);
    if ss.len() == 1 {
        assert(sum_station_counts(tail) == 0);
    } else if i == 0 {
        lemma_station_count_le_sum(tail, 0);
    } else {
        lemma_station_count_le_sum(tail, i - 1);
        assert(tail[i - 1] == ss[i]);
    }
}

/// Same, for the day buckets of one station.
proof fn lemma_day_count_le_sum(ds: Seq<DailySummaryView>, i: int)
    requires
        forall|k: int| 0 <= k < ds.len() ==> #[trigger] ds[k].total_transactions >= 1,
        0 <= i < ds.len(),
    ensures
        ds[i].total_transactions <= sum_day_counts(ds),
        sum_day_counts(ds) >= ds.len(),
    decreases ds.len(),
{
    let tail = ds.skip(1);
    assert(forall|k: int| 0 <= k < tail.len() ==> #[trigger] tail[k].total_transactions >= 1);
    if ds.len() == 1 {
        assert(sum_day_counts(tail) == 0);
    } else if i == 0 {
        lemma_day_count_le_sum(tail, 0);
    } else {
        lemma_day_count_le_sum(tail, i - 1);
        assert(tail[i - 1] == ds[i]);
    }
}

/// No more entries than records.
pub proof fn lemma_entries_len(rs: Seq<VendingRecordView>, lo: int, hi: int)
    ensures
        entries_of(rs, lo, hi).len() <= rs.len(),
    decreases rs.len(),
{
    if rs.len() > 0 {
        lemma_entries_len(rs.drop_last(), lo, hi);
    }
}

/// A record whose numeric attributes are 64-bit values (or absent)
/// normalizes to a bounded entry.
pub open spec fn record_bounded(r: VendingRecordView) -> bool {
    &&& (r.amount matches Some(v) ==> -0x8000_0000_0000_0000 <= v <= 0x7FFF_FFFF_FFFF_FFFF)
    &&& (r.kwh matches Some(v) ==> -0x8000_0000_0000_0000 <= v <= 0x7FFF_FFFF_FFFF_FFFF)
}

proof fn lemma_entries_bounded(rs: Seq<VendingRecordView>, lo: int, hi: int)
    requires
        forall|k: int| 0 <= k < rs.len() ==> #[trigger] record_bounded(rs[k]),
    ensures
        forall|k: int|
            0 <= k < entries_of(rs, lo, hi).len() ==> #[trigger] entry_bounded(
                entries_of(rs, lo, hi)[k],
            ),
    decreases rs.len(),
{
    if rs.len() > 0 {
        let head = rs.drop_last();
        assert(forall|k: int| 0 <= k < head.len() ==> #[trigger] record_bounded(head[k]));
        lemma_entries_bounded(head, lo, hi);
        assert(record_bounded(rs.last()));
        let es = entries_of(rs, lo, hi);
        let es0 = entries_of(head, lo, hi);
        assert forall|k: int| 0 <= k < es.len() implies #[trigger] entry_bounded(es[k]) by {
            if k < es0.len() {
                assert(es[k] == es0[k]);
            }
        }
    }
}

/// Grand totals of bounded entries stay within `len` 64-bit units.
proof fn lemma_totals_bounded(es: Seq<SummaryEntry>)
    requires
        forall|k: int| 0 <= k < es.len() ==> #[trigger] entry_bounded(es[k]),
    ensures
        -(es.len() * 0x8000_0000_0000_0000) <= total_amount_of(es) <= es.len()
            * 0x8000_0000_0000_0000,
        -(es.len() * 0x8000_0000_0000_0000) <= total_kwh_of(es) <= es.len()
            * 0x8000_0000_0000_0000,
    decreases es.len(),
{
    if es.len() > 0 {
        let head = es.drop_last();
        assert(forall|k: int| 0 <= k < head.len() ==> #[trigger] entry_bounded(head[k]));
        lemma_totals_bounded(head);
        assert(entry_bounded(es.last()));
    }
}

/// The rollup of any entry sequence is well formed, and its sums account
/// for every entry exactly once at each level.
pub proof fn lemma_station_rollup(es: Seq<SummaryEntry>, ps: Seq<char>, pe: Seq<char>)
    requires
        forall|k: int| 0 <= k < es.len() ==> #[trigger] entry_bounded(es[k]),
    ensures
        rollup_wf(station_rollup(es, ps, pe), ps, pe),
        sum_station_counts(station_rollup(es, ps, pe)) == es.len(),
        sum_station_amounts(station_rollup(es, ps, pe)) == total_amount_of(es),
        sum_station_kwh(station_rollup(es, ps, pe)) == total_kwh_of(es),
    decreases es.len(),
{
    if es.len() == 0 {
    } else {
        let head = es.drop_last();
        assert(forall|k: int| 0 <= k < head.len() ==> #[trigger] entry_bounded(head[k]));
        lemma_station_rollup(head, ps, pe);
        assert(entry_bounded(es.last()));
        lemma_add_entry(station_rollup(head, ps, pe), es.last(), ps, pe);
    }
}

// ------------------------------------------------------------------
// Executable aggregation
// ------------------------------------------------------------------

/// The entry with the given normalized parts.
pub open spec fn entry_lit(station: Seq<char>, day: Seq<char>, amount: int, kwh: int)
    -> SummaryEntry {
    SummaryEntry { station: station, day: day, amount: amount, kwh: kwh }
}

/// Fold one normalized value into the day-bucket list of one station,
/// scanning from `idx` for the day's sorted position.
fn apply_day(days: &mut Vec<DailySummary>, idx: usize, day: &str, amount: i64, kwh: i64)
    requires
        idx <= old(days).len(),
        forall|k: int|
            0 <= k < old(days).len() ==> (#[trigger] old(days)@[k]).total_transactions
                < 0xFFFF_FFFFu32,
        forall|k: int|
            0 <= k < old(days).len() ==> -0x8000_0000_0000_0000_0000_0000i128 <= (
            #[trigger] old(days)@[k]).total_amount <= 0x8000_0000_0000_0000_0000_0000i128,
        forall|k: int|
            0 <= k < old(days).len() ==> -0x8000_0000_0000_0000_0000_0000i128 <= (
            #[trigger] old(days)@[k]).total_kwh <= 0x8000_0000_0000_0000_0000_0000i128,
    ensures
        days_view(final(days)@) == days_view(old(days)@).take(idx as int) + add_day(
            days_view(old(days)@).skip(idx as int),
            day@,
            amount as int,
            kwh as int,
        ),
    decreases old(days).len() - idx,
{
    let ghost dv = days_view(old(days)@);
    let ghost target = dv.take(idx as int) + add_day(
        dv.skip(idx as int),
        day@,
        amount as int,
        kwh as int,
    );
    if idx == days.len() {
        let fresh = DailySummary {
            date: day.to_owned(),
            total_transactions: 1,
            total_amount: amount as i128,
            total_kwh: kwh as i128,
        };
        days.push(fresh);
        proof {
            assert(dv.skip(idx as int) =~= Seq::<DailySummaryView>::empty());
            assert(days_view(days@) =~= target);
        }
    } else {
        let c = crate::text::str_compare(day, days[idx].date.as_str());
        if c < 0 {
            let fresh = DailySummary {
                date: day.to_owned(),
                total_transactions: 1,
                total_amount: amount as i128,
                total_kwh: kwh as i128,
            };
            days.insert(idx, fresh);
            proof {
                assert(dv.skip(idx as int)[0] == dv[idx as int]);
                assert(add_day(dv.skip(idx as int), day@, amount as int, kwh as int)
                    =~= seq![fresh_day(day@, amount as int, kwh as int)] + dv.skip(idx as int));
                assert(days_view(days@) =~= target);
            }
        } else if c == 0 {
            let mut d = days.remove(idx);
            d.total_transactions = d.total_transactions + 1;
            d.total_amount = d.total_amount + amount as i128;
            d.total_kwh = d.total_kwh + kwh as i128;
            days.insert(idx, d);
            proof {
                assert(dv.skip(idx as int)[0] == dv[idx as int]);
                assert(add_day(dv.skip(idx as int), day@, amount as int, kwh as int)
                    =~= seq![bump_day(dv[idx as int], amount as int, kwh as int)] + dv.skip(
                    idx as int,
                ).skip(1));
                assert(d@ == bump_day(dv[idx as int], amount as int, kwh as int));
                assert(days_view(days@) =~= target);
            }
        } else {
            proof {
                assert(dv.skip(idx as int)[0] == dv[idx as int]);
                lemma_lex_lt_irreflexive(day@);
            }
            apply_day(days, idx + 1, day, amount, kwh);
            proof {
                assert(dv.skip(idx as int).skip(1) =~= dv.skip(idx as int + 1));
                assert(add_day(dv.skip(idx as int), day@, amount as int, kwh as int)
                    =~= seq![dv[idx as int]] + add_day(
                    dv.skip(idx as int + 1),
                    day@,
                    amount as int,
                    kwh as int,
                ));
                assert(days_view(days@) =~= target);
            }
        }
    }
}

/// Fold one entry into the station list, scanning from `idx` for the
/// station's sorted position.
fn apply_station(
    stations: &mut Vec<VendingStationSummary>,
    idx: usize,
    station: &str,
    day: &str,
    amount: i64,
    kwh: i64,
    period_start: &String,
    period_end: &String,
)
    requires
        idx <= old(stations).len(),
        forall|j: int|
            0 <= j < old(stations).len() ==> (#[trigger] old(stations)@[j]).total_transactions
                < 0xFFFF_FFFFu32,
        forall|j: int|
            0 <= j < old(stations).len() ==> -0x8000_0000_0000_0000_0000_0000i128 <= (
            #[trigger] old(stations)@[j]).total_amount <= 0x8000_0000_0000_0000_0000_0000i128,
        forall|j: int|
            0 <= j < old(stations).len() ==> -0x8000_0000_0000_0000_0000_0000i128 <= (
            #[trigger] old(stations)@[j]).total_kwh <= 0x8000_0000_0000_0000_0000_0000i128,
        forall|j: int, k: int|
            0 <= j < old(stations).len() && 0 <= k < old(stations)@[j].daily_summaries.len()
                ==> (#[trigger] old(stations)@[j].daily_summaries@[k]).total_transactions
                < 0xFFFF_FFFFu32,
        forall|j: int, k: int|
            0 <= j < old(stations).len() && 0 <= k < old(stations)@[j].daily_summaries.len()
                ==> -0x8000_0000_0000_0000_0000_0000i128 <= (
            #[trigger] old(stations)@[j].daily_summaries@[k]).total_amount
                <= 0x8000_0000_0000_0000_0000_0000i128,
        forall|j: int, k: int|
            0 <= j < old(stations).len() && 0 <= k < old(stations)@[j].daily_summaries.len()
                ==> -0x8000_0000_0000_0000_0000_0000i128 <= (
            #[trigger] old(stations)@[j].daily_summaries@[k]).total_kwh
                <= 0x8000_0000_0000_0000_0000_0000i128,
    ensures
        stations_view(final(stations)@) == stations_view(old(stations)@).take(idx as int)
            + add_entry(
            stations_view(old(stations)@).skip(idx as int),
            entry_lit(station@, day@, amount as int, kwh as int),
            period_start@,
            period_end@,
        ),
    decreases old(stations).len() - idx,
{
    let ghost sv = stations_view(old(stations)@);
    let ghost e = entry_lit(station@, day@, amount as int, kwh as int);
    let ghost target = sv.take(idx as int) + add_entry(
        sv.skip(idx as int),
        e,
        period_start@,
        period_end@,
    );
    if idx == stations.len() {
        let fresh = VendingStationSummary {
            vending_station: station.to_owned(),
            total_transactions: 1,
            total_amount: amount as i128,
            total_kwh: kwh as i128,
            period_start: period_start.clone(),
            period_end: period_end.clone(),
            daily_summaries: vec![
                DailySummary {
                    date: day.to_owned(),
                    total_transactions: 1,
                    total_amount: amount as i128,
                    total_kwh: kwh as i128,
                },
            ],
        };
        proof {
            assert(days_view(fresh.daily_summaries@) =~= seq![
                fresh_day(day@, amount as int, kwh as int),
            ]);
        }
        stations.push(fresh);
        proof {
            assert(sv.skip(idx as int) =~= Seq::<VendingStationSummaryView>::empty());
            assert(fresh@ == fresh_station(e, period_start@, period_end@));
            assert(stations_view(stations@) =~= target);
        }
    } else {
        let c = crate::text::str_compare(station, stations[idx].vending_station.as_str());
        if c < 0 {
            let fresh = VendingStationSummary {
                vending_station: station.to_owned(),
                total_transactions: 1,
                total_amount: amount as i128,
                total_kwh: kwh as i128,
                period_start: period_start.clone(),
                period_end: period_end.clone(),
                daily_summaries: vec![
                    DailySummary {
                        date: day.to_owned(),
                        total_transactions: 1,
                        total_amount: amount as i128,
                        total_kwh: kwh as i128,
                    },
                ],
            };
            proof {
                assert(days_view(fresh.daily_summaries@) =~= seq![
                    fresh_day(day@, amount as int, kwh as int),
                ]);
            }
            stations.insert(idx, fresh);
            proof {
                assert(sv.skip(idx as int)[0] == sv[idx as int]);
                assert(fresh@ == fresh_station(e, period_start@, period_end@));
                assert(add_entry(sv.skip(idx as int), e, period_start@, period_end@)
                    =~= seq![fresh_station(e, period_start@, period_end@)] + sv.skip(idx as int));
                assert(stations_view(stations@) =~= target);
            }
        } else if c == 0 {
            let mut st = stations.remove(idx);
            st.total_transactions = st.total_transactions + 1;
            st.total_amount = st.total_amount + amount as i128;
            st.total_kwh = st.total_kwh + kwh as i128;
            apply_day(&mut st.daily_summaries, 0, day, amount, kwh);
            stations.insert(idx, st);
            proof {
                assert(sv.skip(idx as int)[0] == sv[idx as int]);
                assert(days_view(old(stations)@[idx as int].daily_summaries@).take(0)
                    =~= Seq::<DailySummaryView>::empty());
                assert(days_view(old(stations)@[idx as int].daily_summaries@).skip(0)
                    =~= days_view(old(stations)@[idx as int].daily_summaries@));
                assert(st@ == bump_station(sv[idx as int], e));
                assert(add_entry(sv.skip(idx as int), e, period_start@, period_end@)
                    =~= seq![bump_station(sv[idx as int], e)] + sv.skip(idx as int).skip(1));
                assert(stations_view(stations@) =~= target);
            }
        } else {
            proof {
                assert(sv.skip(idx as int)[0] == sv[idx as int]);
                lemma_lex_lt_irreflexive(station@);
            }
            apply_station(stations, idx + 1, station, day, amount, kwh, period_start, period_end);
            proof {
                assert(sv.skip(idx as int).skip(1) =~= sv.skip(idx as int + 1));
                assert(add_entry(sv.skip(idx as int), e, period_start@, period_end@)
                    =~= seq![sv[idx as int]] + add_entry(
                    sv.skip(idx as int + 1),
                    e,
                    period_start@,
                    period_end@,
                ));
                assert(stations_view(stations@) =~= target);
            }
        }
    }
}

/// The station identifier a record is attributed to.
fn station_key_of(record: &VendingRecord) -> (s: String)
    ensures
        s@ == station_key(record@.vending_station),
{
    match &record.vending_station {
        Some(st) => {
            if st.as_str().unicode_len() == 0 {
                "Unknown".to_owned()
            } else {
                st.clone()
            }
        },
        None => "Unknown".to_owned(),
    }
}

/// Compute the two-level rollup of the records whose timestamps fall in
/// the inclusive range `[start_millis, end_millis]`.
///
/// Every in-range record is counted once at the grand, station, and day
/// level; an absent amount or energy value contributes zero; an absent or
/// empty station identifier is attributed to "Unknown"; station summaries
/// are sorted by station identifier and day buckets by day key, both
/// strictly ascending; and all summaries carry the resolved period.
pub fn compute_vending_summary(
    records: &Vec<VendingRecord>,
    start_millis: i64,
    end_millis: i64,
) -> (summary: VendingSummary)
    requires
        records@.len() <= 0xFFFF_FFFF,
    ensures
        summary@ == summary_of(
            records_view(records@),
            start_millis as int,
            end_millis as int,
        ),
{
    let ghost rv = records_view(records@);
    let ghost lo = start_millis as int;
    let ghost hi = end_millis as int;
    let period_start = crate::dates::day_string_of_millis(start_millis);
    let period_end = crate::dates::day_string_of_millis(end_millis);
    let mut stations: Vec<VendingStationSummary> = Vec::new();
    let mut total: u32 = 0;
    let mut amount_sum: i128 = 0;
    let mut kwh_sum: i128 = 0;
    let mut i: usize = 0;
    proof {
        assert(rv.take(0) =~= Seq::<VendingRecordView>::empty());
        assert(stations_view(stations@) =~= Seq::<VendingStationSummaryView>::empty());
    }
    while i < records.len()
        invariant
            i <= records@.len() <= 0xFFFF_FFFF,
            rv == records_view(records@),
            lo == start_millis as int,
            hi == end_millis as int,
            period_start@ == day_chars_of_millis(lo),
            period_end@ == day_chars_of_millis(hi),
            total == entries_of(rv.take(i as int), lo, hi).len(),
            amount_sum == total_amount_of(entries_of(rv.take(i as int), lo, hi)),
            kwh_sum == total_kwh_of(entries_of(rv.take(i as int), lo, hi)),
            stations_view(stations@) == station_rollup(
                entries_of(rv.take(i as int), lo, hi),
                period_start@,
                period_end@,
            ),
        decreases records@.len() - i,
    {
        let ghost es = entries_of(rv.take(i as int), lo, hi);
        proof {
            assert(rv.take(i + 1).drop_last() =~= rv.take(i as int));
            assert(rv.take(i + 1).last() == rv[i as int]);
            assert(rv[i as int] == records@[i as int]@);
            lemma_entries_len(rv.take(i as int), lo, hi);
            assert(rv.take(i as int).len() == i);
            assert forall|k: int| 0 <= k < rv.take(i as int).len() implies #[trigger]
                record_bounded(rv.take(i as int)[k]) by {
                assert(rv.take(i as int)[k] == records@[k]@);
            }
            lemma_entries_bounded(rv.take(i as int), lo, hi);
            lemma_station_rollup(es, period_start@, period_end@);
            lemma_totals_bounded(es);
        }
        let r = &records[i];
        if start_millis <= r.timestamp && r.timestamp <= end_millis {
            let day = crate::dates::day_string_of_millis(r.timestamp);
            let station = station_key_of(r);
            let am = match r.amount {
                Some(v) => v,
                None => 0,
            };
            let kw = match r.kwh {
                Some(v) => v,
                None => 0,
            };
            let ghost e = entry_lit(station@, day@, am as int, kw as int);
            proof {
                assert(e == entry_of(rv[i as int]));
                assert(entries_of(rv.take(i + 1), lo, hi) == es.push(e));
                let ssv = stations_view(stations@);
                assert forall|j: int| 0 <= j < stations@.len() implies (
                #[trigger] stations@[j]).total_transactions < 0xFFFF_FFFFu32 by {
                    assert(station_wf(ssv[j], period_start@, period_end@));
                    assert forall|k: int| 0 <= k < ssv.len() implies #[trigger]
                        ssv[k].total_transactions >= 1 by {
                        assert(station_wf(ssv[k], period_start@, period_end@));
                    }
                    lemma_station_count_le_sum(ssv, j);
                }
                assert forall|j: int| 0 <= j < stations@.len() implies
                    -0x8000_0000_0000_0000_0000_0000i128 <= (
                #[trigger] stations@[j]).total_amount <= 0x8000_0000_0000_0000_0000_0000i128
                    && -0x8000_0000_0000_0000_0000_0000i128 <= stations@[j].total_kwh
                    <= 0x8000_0000_0000_0000_0000_0000i128 by {
                    assert(station_wf(ssv[j], period_start@, period_end@));
                }
                assert forall|j: int, k: int|
                    0 <= j < stations@.len() && 0 <= k < stations@[j].daily_summaries.len()
                    implies {
                    let db = (#[trigger] stations@[j].daily_summaries@[k])@;
                    db.total_transactions < 0xFFFF_FFFF
                        && -0x8000_0000_0000_0000_0000_0000 <= db.total_amount
                        <= 0x8000_0000_0000_0000_0000_0000
                        && -0x8000_0000_0000_0000_0000_0000 <= db.total_kwh
                        <= 0x8000_0000_0000_0000_0000_0000
                } by {
                    assert(station_wf(ssv[j], period_start@, period_end@));
                    let ds = ssv[j].daily_summaries;
                    assert(ds[k] == stations@[j].daily_summaries@[k]@);
                    assert(day_wf(ds[k]));
                    assert forall|k2: int| 0 <= k2 < ds.len() implies #[trigger]
                        ds[k2].total_transactions >= 1 by {
                        assert(day_wf(ds[k2]));
                    }
                    lemma_day_count_le_sum(ds, k);
                    assert forall|k2: int| 0 <= k2 < ssv.len() implies #[trigger]
                        ssv[k2].total_transactions >= 1 by {
                        assert(station_wf(ssv[k2], period_start@, period_end@));
                    }
                    lemma_station_count_le_sum(ssv, j);
                }
            }
            apply_station(
                &mut stations,
                0,
                station.as_str(),
                day.as_str(),
                am,
                kw,
                &period_start,
                &period_end,
            );
            total = total + 1;
            amount_sum = amount_sum + am as i128;
            kwh_sum = kwh_sum + kw as i128;
            proof {
                let sv0 = station_rollup(es, period_start@, period_end@);
                assert(stations_view(stations@) == sv0.take(0) + add_entry(
                    sv0.skip(0),
                    e,
                    period_start@,
                    period_end@,
                ));
                assert(sv0.take(0) =~= Seq::<VendingStationSummaryView>::empty());
                assert(sv0.skip(0) =~= sv0);
                assert(sv0.take(0) + add_entry(sv0, e, period_start@, period_end@) =~= add_entry(
                    sv0,
                    e,
                    period_start@,
                    period_end@,
                ));
                assert(es.push(e).drop_last() =~= es);
                assert(station_rollup(es.push(e), period_start@, period_end@) == add_entry(
                    sv0,
                    e,
                    period_start@,
                    period_end@,
                ));
                assert(es.push(e).last() == e);
                assert(total_amount_of(es.push(e)) == total_amount_of(es) + e.amount);
                assert(total_kwh_of(es.push(e)) == total_kwh_of(es) + e.kwh);
            }
        } else {
            proof {
                assert(entries_of(rv.take(i + 1), lo, hi) == es);
            }
        }
        i = i + 1;
    }
    proof {
        assert(rv.take(records@.len() as int) =~= rv);
    }
    VendingSummary {
        total_transactions: total,
        total_amount: amount_sum,
        total_kwh: kwh_sum,
        period_start: period_start,
        period_end: period_end,
        vending_station_summaries: stations,
    }
}

/// The in-range records of `rs`, in order.
pub open spec fn filter_in_range(rs: Seq<VendingRecordView>, lo: int, hi: int)
    -> Seq<VendingRecordView>
    decreases rs.len(),
{
    if rs.len() == 0 {
        Seq::empty()
    } else {
        let rest = filter_in_range(rs.drop_last(), lo, hi);
        if in_range(rs.last(), lo, hi) {
            rest.push(rs.last())
        } else {
            rest
        }
    }
}

/// The records whose timestamps fall in the inclusive range
/// `[start_millis, end_millis]`, in stored order.
pub fn records_in_range(
    records: &Vec<VendingRecord>,
    start_millis: i64,
    end_millis: i64,
) -> (out: Vec<VendingRecord>)
    ensures
        records_view(out@) == filter_in_range(
            records_view(records@),
            start_millis as int,
            end_millis as int,
        ),
{
    let ghost rv = records_view(records@);
    let ghost lo = start_millis as int;
    let ghost hi = end_millis as int;
    let mut out: Vec<VendingRecord> = Vec::new();
    let mut i: usize = 0;
    proof {
        assert(rv.take(0) =~= Seq::<VendingRecordView>::empty());
        assert(records_view(out@) =~= Seq::<VendingRecordView>::empty());
    }
    while i < records.len()
        invariant
            i <= records@.len(),
            rv == records_view(records@),
            lo == start_millis as int,
            hi == end_millis as int,
            records_view(out@) == filter_in_range(rv.take(i as int), lo, hi),
        decreases records@.len() - i,
    {
        proof {
            assert(rv.take(i + 1).drop_last() =~= rv.take(i as int));
            assert(rv.take(i + 1).last() == rv[i as int]);
            assert(rv[i as int] == records@[i as int]@);
        }
        let r = &records[i];
        if start_millis <= r.timestamp && r.timestamp <= end_millis {
            out.push(r.duplicate());
            proof {
                assert(records_view(out@) =~= filter_in_range(rv.take(i as int), lo, hi).push(
                    rv[i as int],
                ));
            }
        }
        i = i + 1;
    }
    proof {
        assert(rv.take(records@.len() as int) =~= rv);
    }
    out
}

// ------------------------------------------------------------------
// Laws of the aggregation
// ------------------------------------------------------------------

/// Totals agree at every level: the grand transaction count, amount and
/// energy equal the sums over the station summaries, and each station's
/// totals equal the sums over its day buckets.
pub proof fn lemma_summary_totals_consistent(rs: Seq<VendingRecordView>, lo: int, hi: int)
    requires
        forall|k: int| 0 <= k < rs.len() ==> #[trigger] record_bounded(rs[k]),
    ensures
        summary_of(rs, lo, hi).total_transactions == sum_station_counts(
            summary_of(rs, lo, hi).vending_station_summaries,
        ),
        summary_of(rs, lo, hi).total_amount == sum_station_amounts(
            summary_of(rs, lo, hi).vending_station_summaries,
        ),
        summary_of(rs, lo, hi).total_kwh == sum_station_kwh(
            summary_of(rs, lo, hi).vending_station_summaries,
        ),
        forall|j: int|
            0 <= j < summary_of(rs, lo, hi).vending_station_summaries.len() ==> {
                let s = #[trigger] summary_of(rs, lo, hi).vending_station_summaries[j];
                s.total_transactions == sum_day_counts(s.daily_summaries) && s.total_amount
                    == sum_day_amounts(s.daily_summaries) && s.total_kwh == sum_day_kwh(
                    s.daily_summaries,
                )
            },
{
    lemma_entries_bounded(rs, lo, hi);
    let es = entries_of(rs, lo, hi);
    let ps = day_chars_of_millis(lo);
    let pe = day_chars_of_millis(hi);
    lemma_station_rollup(es, ps, pe);
    assert forall|j: int|
        0 <= j < summary_of(rs, lo, hi).vending_station_summaries.len() implies {
        let s = #[trigger] summary_of(rs, lo, hi).vending_station_summaries[j];
        s.total_transactions == sum_day_counts(s.daily_summaries) && s.total_amount
            == sum_day_amounts(s.daily_summaries) && s.total_kwh == sum_day_kwh(s.daily_summaries)
    } by {
        assert(station_wf(station_rollup(es, ps, pe)[j], ps, pe));
    }
}

/// Each station's day buckets are sorted strictly ascending by day key:
/// no duplicate days.
pub proof fn lemma_daily_summaries_sorted(rs: Seq<VendingRecordView>, lo: int, hi: int)
    requires
        forall|k: int| 0 <= k < rs.len() ==> #[trigger] record_bounded(rs[k]),
    ensures
        forall|j: int|
            0 <= j < summary_of(rs, lo, hi).vending_station_summaries.len() ==> days_sorted(
                (#[trigger] summary_of(rs, lo, hi).vending_station_summaries[j]).daily_summaries,
            ),
{
    lemma_entries_bounded(rs, lo, hi);
    let es = entries_of(rs, lo, hi);
    let ps = day_chars_of_millis(lo);
    let pe = day_chars_of_millis(hi);
    lemma_station_rollup(es, ps, pe);
    assert forall|j: int|
        0 <= j < summary_of(rs, lo, hi).vending_station_summaries.len() implies days_sorted(
        (#[trigger] summary_of(rs, lo, hi).vending_station_summaries[j]).daily_summaries,
    ) by {
        assert(station_wf(station_rollup(es, ps, pe)[j], ps, pe));
    }
}

/// The station summaries are sorted strictly ascending by station
/// identifier: no two stations share an identifier.
pub proof fn lemma_station_summaries_sorted(rs: Seq<VendingRecordView>, lo: int, hi: int)
    requires
        forall|k: int| 0 <= k < rs.len() ==> #[trigger] record_bounded(rs[k]),
    ensures
        stations_sorted(summary_of(rs, lo, hi).vending_station_summaries),
{
    lemma_entries_bounded(rs, lo, hi);
    lemma_station_rollup(entries_of(rs, lo, hi), day_chars_of_millis(lo), day_chars_of_millis(hi));
}

/// Aggregation is a function of the record set and the range alone:
/// repeating it over an unchanged record set and an identical range
/// yields an identical summary.
pub proof fn lemma_summary_deterministic(
    rs1: Seq<VendingRecordView>,
    rs2: Seq<VendingRecordView>,
    lo: int,
    hi: int,
)
    requires
        rs1 == rs2,
    ensures
        summary_of(rs1, lo, hi) == summary_of(rs2, lo, hi),
{
}

/// A range that matches no record yields zeroed totals and an empty
/// station list — never an error — with the period still populated.
pub proof fn lemma_empty_range_summary(rs: Seq<VendingRecordView>, lo: int, hi: int)
    requires
        forall|k: int| 0 <= k < rs.len() ==> !in_range(#[trigger] rs[k], lo, hi),
    ensures
        summary_of(rs, lo, hi).total_transactions == 0,
        summary_of(rs, lo, hi).total_amount == 0,
        summary_of(rs, lo, hi).total_kwh == 0,
        summary_of(rs, lo, hi).vending_station_summaries =~= Seq::<
            VendingStationSummaryView,
        >::empty(),
        summary_of(rs, lo, hi).period_start == day_chars_of_millis(lo),
        summary_of(rs, lo, hi).period_end == day_chars_of_millis(hi),
{
    lemma_no_match_no_entries(rs, lo, hi);
}

proof fn lemma_no_match_no_entries(rs: Seq<VendingRecordView>, lo: int, hi: int)
    requires
        forall|k: int| 0 <= k < rs.len() ==> !in_range(#[trigger] rs[k], lo, hi),
    ensures
        entries_of(rs, lo, hi) =~= Seq::<SummaryEntry>::empty(),
    decreases rs.len(),
{
    if rs.len() > 0 {
        let head = rs.drop_last();
        assert(forall|k: int| 0 <= k < head.len() ==> !in_range(#[trigger] head[k], lo, hi));
        lemma_no_match_no_entries(head, lo, hi);
        assert(!in_range(rs.last(), lo, hi));
    }
}

/// Some station of `ss` has a day bucket keyed `d`.
spec fn some_station_has_day(ss: Seq<VendingStationSummaryView>, d: Seq<char>) -> bool {
    exists|j: int, k: int|
        0 <= j < ss.len() && 0 <= k < ss[j].daily_summaries.len() && ss[j].daily_summaries[k].date
            == d
}

proof fn lemma_add_day_keys(ds: Seq<DailySummaryView>, day: Seq<char>, amount: int, kwh: int)
    ensures
        forall|i: int|
            0 <= i < add_day(ds, day, amount, kwh).len() ==> (#[trigger] add_day(
                ds,
                day,
                amount,
                kwh,
            )[i]).date == day || (exists|k: int|
                0 <= k < ds.len() && ds[k].date == add_day(ds, day, amount, kwh)[i].date),
    decreases ds.len(),
{
    let r = add_day(ds, day, amount, kwh);
    if ds.len() == 0 {
    } else if lex_lt(day, ds[0].date) {
        assert forall|i: int| 0 <= i < r.len() implies (#[trigger] r[i]).date == day || (exists|
            k: int,
        |
            0 <= k < ds.len() && ds[k].date == r[i].date) by {
            if i >= 1 {
                assert(r[i] == ds[i - 1]);
                assert(ds[i - 1].date == r[i].date);
            }
        }
    } else if day == ds[0].date {
        assert forall|i: int| 0 <= i < r.len() implies (#[trigger] r[i]).date == day || (exists|
            k: int,
        |
            0 <= k < ds.len() && ds[k].date == r[i].date) by {
            if i >= 1 {
                assert(r[i] == ds[i]);
                assert(ds[i].date == r[i].date);
            }
        }
    } else {
        lemma_add_day_keys(ds.skip(1), day, amount, kwh);
        let rt = add_day(ds.skip(1), day, amount, kwh);
        assert(r.skip(1) =~= rt);
        assert forall|i: int| 0 <= i < r.len() implies (#[trigger] r[i]).date == day || (exists|
            k: int,
        |
            0 <= k < ds.len() && ds[k].date == r[i].date) by {
            if i == 0 {
                assert(ds[0].date == r[0].date);
            } else {
                assert(r[i] == rt[i - 1]);
                if rt[i - 1].date != day {
                    let k0 = choose|k: int|
                        0 <= k < ds.skip(1).len() && ds.skip(1)[k].date == rt[i - 1].date;
                    assert(ds[k0 + 1].date == r[i].date);
                }
            }
        }
    }
}

proof fn lemma_add_entry_days(
    ss: Seq<VendingStationSummaryView>,
    e: SummaryEntry,
    ps: Seq<char>,
    pe: Seq<char>,
)
    ensures
        forall|j: int, k: int|
            0 <= j < add_entry(ss, e, ps, pe).len() && 0 <= k < add_entry(
                ss,
                e,
                ps,
                pe,
            )[j].daily_summaries.len() ==> (#[trigger] add_entry(
                ss,
                e,
                ps,
                pe,
            )[j].daily_summaries[k]).date == e.day || some_station_has_day(
                ss,
                add_entry(ss, e, ps, pe)[j].daily_summaries[k].date,
            ),
    decreases ss.len(),
{
    let r = add_entry(ss, e, ps, pe);
    if ss.len() == 0 {
        assert(r[0] == fresh_station(e, ps, pe));
        assert forall|j: int, k: int|
            0 <= j < r.len() && 0 <= k < r[j].daily_summaries.len() implies (
            #[trigger] r[j].daily_summaries[k]).date == e.day || some_station_has_day(
            ss,
            r[j].daily_summaries[k].date,
        ) by {
            assert(r[j].daily_summaries[k] == fresh_day(e.day, e.amount, e.kwh));
        }
    } else if lex_lt(e.station, ss[0].vending_station) {
        assert(r[0] == fresh_station(e, ps, pe));
        assert forall|j: int, k: int|
            0 <= j < r.len() && 0 <= k < r[j].daily_summaries.len() implies (
            #[trigger] r[j].daily_summaries[k]).date == e.day || some_station_has_day(
            ss,
            r[j].daily_summaries[k].date,
        ) by {
            if j == 0 {
                assert(r[j].daily_summaries[k] == fresh_day(e.day, e.amount, e.kwh));
            } else {
                assert(r[j] == ss[j - 1]);
                assert(ss[j - 1].daily_summaries[k].date == r[j].daily_summaries[k].date);
            }
        }
    } else if e.station == ss[0].vending_station {
        lemma_add_day_keys(ss[0].daily_summaries, e.day, e.amount, e.kwh);
        assert(r[0] == bump_station(ss[0], e));
        assert forall|j: int, k: int|
            0 <= j < r.len() && 0 <= k < r[j].daily_summaries.len() implies (
            #[trigger] r[j].daily_summaries[k]).date == e.day || some_station_has_day(
            ss,
            r[j].daily_summaries[k].date,
        ) by {
            if j == 0 {
                let d = r[0].daily_summaries[k].date;
                if d != e.day {
                    let k0 = choose|k0: int|
                        0 <= k0 < ss[0].daily_summaries.len() && ss[0].daily_summaries[k0].date
                            == d;
                    assert(ss[0].daily_summaries[k0].date == d);
                }
            } else {
                assert(r[j] == ss[j]);
                assert(ss[j].daily_summaries[k].date == r[j].daily_summaries[k].date);
            }
        }
    } else {
        lemma_add_entry_days(ss.skip(1), e, ps, pe);
        let rt = add_entry(ss.skip(1), e, ps, pe);
        assert(r.skip(1) =~= rt);
        assert forall|j: int, k: int|
            0 <= j < r.len() && 0 <= k < r[j].daily_summaries.len() implies (
            #[trigger] r[j].daily_summaries[k]).date == e.day || some_station_has_day(
            ss,
            r[j].daily_summaries[k].date,
        ) by {
            if j == 0 {
                assert(r[0] == ss[0]);
                assert(ss[0].daily_summaries[k].date == r[j].daily_summaries[k].date);
            } else {
                assert(r[j] == rt[j - 1]);
                let d = r[j].daily_summaries[k].date;
                if d != e.day {
                    assert(some_station_has_day(ss.skip(1), d));
                    let (j0, k0) = choose|j0: int, k0: int|
                        0 <= j0 < ss.skip(1).len() && 0 <= k0 < ss.skip(
                            1,
                        )[j0].daily_summaries.len() && ss.skip(1)[j0].daily_summaries[k0].date
                            == d;
                    assert(ss[j0 + 1].daily_summaries[k0].date == d);
                }
            }
        }
    }
}

proof fn lemma_rollup_days(es: Seq<SummaryEntry>, ps: Seq<char>, pe: Seq<char>)
    ensures
        forall|j: int, k: int|
            0 <= j < station_rollup(es, ps, pe).len() && 0 <= k < station_rollup(
                es,
                ps,
                pe,
            )[j].daily_summaries.len() ==> exists|n: int|
                0 <= n < es.len() && (#[trigger] station_rollup(
                    es,
                    ps,
                    pe,
                )[j].daily_summaries[k]).date == (#[trigger] es[n]).day,
    decreases es.len(),
{
    if es.len() > 0 {
        let head = es.drop_last();
        let e = es.last();
        lemma_rollup_days(head, ps, pe);
        let base = station_rollup(head, ps, pe);
        lemma_add_entry_days(base, e, ps, pe);
        let r = station_rollup(es, ps, pe);
        assert forall|j: int, k: int|
            0 <= j < r.len() && 0 <= k < r[j].daily_summaries.len() implies exists|n: int|
            0 <= n < es.len() && (#[trigger] r[j].daily_summaries[k]).date == (
            #[trigger] es[n]).day by {
            let d = r[j].daily_summaries[k].date;
            if d == e.day {
                assert(0 <= es.len() - 1 < es.len() && r[j].daily_summaries[k].date == es[es.len()
                    - 1].day);
            } else {
                assert(some_station_has_day(base, d));
                let (j0, k0) = choose|j0: int, k0: int|
                    0 <= j0 < base.len() && 0 <= k0 < base[j0].daily_summaries.len()
                        && base[j0].daily_summaries[k0].date == d;
                let n0 = choose|n: int|
                    0 <= n < head.len() && base[j0].daily_summaries[k0].date == (
                    #[trigger] head[n]).day;
                assert(es[n0].day == head[n0].day);
                assert(0 <= n0 < es.len() && r[j].daily_summaries[k].date == es[n0].day);
            }
        }
    }
}

proof fn lemma_entry_provenance(rs: Seq<VendingRecordView>, lo: int, hi: int, n: int)
    requires
        0 <= n < entries_of(rs, lo, hi).len(),
    ensures
        exists|m: int|
            0 <= m < rs.len() && in_range(#[trigger] rs[m], lo, hi) && entries_of(rs, lo, hi)[n]
                == entry_of(rs[m]),
    decreases rs.len(),
{
    let head = rs.drop_last();
    let es = entries_of(rs, lo, hi);
    let es0 = entries_of(head, lo, hi);
    if n < es0.len() {
        assert(es[n] == es0[n]);
        lemma_entry_provenance(head, lo, hi, n);
        let m0 = choose|m: int|
            0 <= m < head.len() && in_range(#[trigger] head[m], lo, hi) && es0[n] == entry_of(
                head[m],
            );
        assert(rs[m0] == head[m0]);
        assert(0 <= m0 < rs.len() && in_range(rs[m0], lo, hi) && entries_of(rs, lo, hi)[n]
            == entry_of(rs[m0]));
    } else {
        assert(in_range(rs.last(), lo, hi) && entries_of(rs, lo, hi)[n] == entry_of(
            rs[rs.len() - 1],
        ));
    }
}

/// Every day bucket in the summary is the UTC calendar day of some
/// record that lies in the queried range — so, the day key of an instant
/// between `lo` and `hi`, whose day count lies between the day counts of
/// `lo` and `hi` (`millis_day` is monotone: see
/// `crate::dates::lemma_millis_day_monotone`).
pub proof fn lemma_days_within_period(
    rs: Seq<VendingRecordView>,
    lo: int,
    hi: int,
    j: int,
    k: int,
)
    requires
        0 <= j < summary_of(rs, lo, hi).vending_station_summaries.len(),
        0 <= k < summary_of(rs, lo, hi).vending_station_summaries[j].daily_summaries.len(),
    ensures
        exists|m: int|
            0 <= m < rs.len() && in_range(#[trigger] rs[m], lo, hi) && summary_of(
                rs,
                lo,
                hi,
            ).vending_station_summaries[j].daily_summaries[k].date == day_chars_of_millis(
                rs[m].timestamp,
            ),
{
    let es = entries_of(rs, lo, hi);
    let ps = day_chars_of_millis(lo);
    let pe = day_chars_of_millis(hi);
    lemma_rollup_days(es, ps, pe);
    let r = station_rollup(es, ps, pe);
    let d = r[j].daily_summaries[k].date;
    let n0 = choose|n: int| 0 <= n < es.len() && d == (#[trigger] es[n]).day;
    lemma_entry_provenance(rs, lo, hi, n0);
    let m0 = choose|m: int|
        0 <= m < rs.len() && in_range(#[trigger] rs[m], lo, hi) && es[n0] == entry_of(rs[m]);
    assert(d == day_chars_of_millis(rs[m0].timestamp));
    assert(0 <= m0 < rs.len() && in_range(rs[m0], lo, hi) && summary_of(
        rs,
        lo,
        hi,
    ).vending_station_summaries[j].daily_summaries[k].date == day_chars_of_millis(
        rs[m0].timestamp,
    ));
}

/// A record with absent amount and energy and an absent (or empty)
/// station identifier is attributed to station "Unknown", counts as one
/// transaction, and contributes zero to the amount and energy sums.
pub proof fn lemma_missing_fields_attribution(
    rs: Seq<VendingRecordView>,
    r: VendingRecordView,
    lo: int,
    hi: int,
)
    requires
        r.amount is None,
        r.kwh is None,
        r.vending_station is None || (r.vending_station matches Some(s) && s.len() == 0),
        in_range(r, lo, hi),
    ensures
        entry_of(r) == entry_lit("Unknown"@, day_chars_of_millis(r.timestamp), 0, 0),
        summary_of(rs.push(r), lo, hi).total_transactions == summary_of(
            rs,
            lo,
            hi,
        ).total_transactions + 1,
        summary_of(rs.push(r), lo, hi).total_amount == summary_of(rs, lo, hi).total_amount,
        summary_of(rs.push(r), lo, hi).total_kwh == summary_of(rs, lo, hi).total_kwh,
{
    assert(rs.push(r).drop_last() =~= rs);
    assert(rs.push(r).last() == r);
    let es = entries_of(rs, lo, hi);
    assert(entries_of(rs.push(r), lo, hi) == es.push(entry_of(r)));
    assert(es.push(entry_of(r)).drop_last() =~= es);
    assert(es.push(entry_of(r)).last() == entry_of(r));
    assert(entry_of(r).amount == 0);
    assert(entry_of(r).kwh == 0);
}

} // verus!
