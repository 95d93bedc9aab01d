//! General laws of the run analysis, proved once and for all series.
//!
//! Each law quantifies over every admissible series, not over chosen
//! examples: repeating the analysis cannot change its tables, the per-length
//! counts of a type partition its records, dropping the trailing open run is
//! the only effect of `write_last_run == false`, and a series whose every
//! pair is excluded yields no record at all.

use vstd::prelude::*;

use crate::runs::count_of;
use crate::runs::count_type;
use crate::runs::ends_increasing;
use crate::runs::final_record;
use crate::runs::lemma_count_of_push;
use crate::runs::lemma_run_records_valid;
use crate::runs::lemma_scan_wf;
use crate::runs::pair_excluded;
use crate::runs::record_valid;
use crate::runs::run_records;
use crate::runs::run_span;
use crate::runs::scan_records_at;
use crate::runs::scan_state_at;
use crate::runs::sum_count_below;
use crate::runs::RunRecord;
use crate::runs::RunType;
use crate::runs::RunsAccumulator;
use crate::runs::ScanState;

verus! {

/// Idempotence of the analysis: any two accumulators that both hold the run
/// records of one series under one policy agree on every table, so asking
/// the engine again can only reproduce what the first analysis produced.
pub proof fn lemma_analysis_idempotent(
    a: RunsAccumulator,
    b: RunsAccumulator,
    trends: Seq<RunType>,
    annot: Seq<i32>,
    write_last: bool,
)
    requires
        a.sized_for(annot.len() as int),
        b.sized_for(annot.len() as int),
        a.holds_records(run_records(trends, annot, write_last)),
        b.holds_records(run_records(trends, annot, write_last)),
    ensures
        a.runs_addresses@ == b.runs_addresses@,
        a.dec@ == b.dec@,
        a.acc@ == b.acc@,
        a.neu@ == b.neu@,
{
    let records = run_records(trends, annot, write_last);
    let n = annot.len() as int;
    assert forall|l: int| 0 <= l < n implies a.dec@[l] == b.dec@[l] && a.acc@[l] == b.acc@[l]
        && a.neu@[l] == b.neu@[l] by {
        assert(a.dec@[l] == count_of(records, RunType::Dec, l));
        assert(b.dec@[l] == count_of(records, RunType::Dec, l));
        assert(a.acc@[l] == count_of(records, RunType::Acc, l));
        assert(b.acc@[l] == count_of(records, RunType::Acc, l));
        assert(a.neu@[l] == count_of(records, RunType::Neu, l));
        assert(b.neu@[l] == count_of(records, RunType::Neu, l));
    }
    assert(a.dec@ =~= b.dec@);
    assert(a.acc@ =~= b.acc@);
    assert(a.neu@ =~= b.neu@);
}

/// Summing `sum_count_below` over an empty record list gives zero.
proof fn lemma_sum_count_zero(records: Seq<RunRecord>, t: RunType, len_bound: int)
    requires
        records.len() == 0,
    ensures
        sum_count_below(records, t, len_bound) == 0,
    decreases len_bound,
{
    if len_bound > 0 {
        lemma_sum_count_zero(records, t, len_bound - 1);
    }
}

/// Appending a record whose length lies below the bound raises the summed
/// counts of its type by one and leaves the other type sums unchanged.
proof fn lemma_sum_count_push(records: Seq<RunRecord>, r: RunRecord, t: RunType, len_bound: int)
    requires
        r.length < len_bound,
    ensures
        sum_count_below(records.push(r), t, len_bound) == sum_count_below(records, t, len_bound)
            + (if r.run_type == t {
            1nat
        } else {
            0nat
        }),
    decreases len_bound,
{
    lemma_count_of_push(records, r);
    if len_bound > 0 {
        if r.length < len_bound - 1 {
            lemma_sum_count_push(records, r, t, len_bound - 1);
        } else {
            lemma_sum_count_same(records, r, t, len_bound - 1);
        }
    }
}

/// Below the appended record's length the summed counts do not move.
proof fn lemma_sum_count_same(records: Seq<RunRecord>, r: RunRecord, t: RunType, len_bound: int)
    requires
        r.length >= len_bound,
    ensures
        sum_count_below(records.push(r), t, len_bound) == sum_count_below(records, t, len_bound),
    decreases len_bound,
{
    lemma_count_of_push(records, r);
    if len_bound > 0 {
        lemma_sum_count_same(records, r, t, len_bound - 1);
    }
}

/// Count/record consistency over any record list: when every length lies
/// below the bound, the per-length counts of a type sum to the number of its
/// records.
pub proof fn lemma_counts_partition(records: Seq<RunRecord>, t: RunType, len_bound: int)
    requires
        forall|i: int| 0 <= i < records.len() ==> (#[trigger] records[i]).length < len_bound,
    ensures
        sum_count_below(records, t, len_bound) == count_type(records, t),
    decreases records.len(),
{
    if records.len() == 0 {
        lemma_sum_count_zero(records, t, len_bound);
    } else {
        let prev = records.drop_last();
        let r = records.last();
        assert(prev.push(r) =~= records);
        assert forall|i: int| 0 <= i < prev.len() implies (#[trigger] prev[i]).length
            < len_bound by {
            assert(prev[i] == records[i]);
        }
        lemma_counts_partition(prev, t, len_bound);
        lemma_sum_count_push(prev, r, t, len_bound);
        lemma_count_of_push(prev, r);
    }
}

/// Count/record consistency for the analysis itself: for every run type,
/// the counts over all lengths the series can hold sum to the number of run
/// records of that type.
pub proof fn lemma_count_record_consistency(
    trends: Seq<RunType>,
    annot: Seq<i32>,
    write_last: bool,
    t: RunType,
)
    requires
        trends.len() + 1 == annot.len(),
        2 <= annot.len() <= usize::MAX,
    ensures
        sum_count_below(run_records(trends, annot, write_last), t, annot.len() as int)
            == count_type(run_records(trends, annot, write_last), t),
{
    lemma_run_records_valid(trends, annot, write_last);
    lemma_counts_partition(run_records(trends, annot, write_last), t, annot.len() as int);
}

/// Turning `write_last_run` off only discards the trailing open run: the
/// record lists agree up to the one record that closes at the final scanned
/// index, present exactly when the scan ends inside a run.
pub proof fn lemma_write_last_run_suffix(trends: Seq<RunType>, annot: Seq<i32>)
    ensures
        run_records(trends, annot, false).is_prefix_of(run_records(trends, annot, true)),
        run_records(trends, annot, true).len() - run_records(trends, annot, false).len() <= 1,
        (scan_state_at(trends, annot, annot.len() - 1) is Seeking) ==> run_records(
            trends,
            annot,
            true,
        ) == run_records(trends, annot, false),
        (scan_state_at(trends, annot, annot.len() - 1) matches ScanState::Active {
            run_type,
            length,
        } ==> run_records(trends, annot, true) == run_records(trends, annot, false).push(
            RunRecord { end_index: (annot.len() - 1) as usize, length, run_type },
        )),
{
    let base = run_records(trends, annot, false);
    match final_record(trends, annot) {
        Some(r) => {
            assert(base.push(r).subrange(0, base.len() as int) =~= base);
        },
        None => {
            assert(base.subrange(0, base.len() as int) =~= base);
        },
    }
}

/// Run records are chronological: for every coherent series and either
/// policy, the address list closes later runs at strictly larger series
/// indices.
pub proof fn lemma_records_chronological(trends: Seq<RunType>, annot: Seq<i32>, write_last: bool)
    requires
        trends.len() + 1 == annot.len(),
        2 <= annot.len() <= usize::MAX,
    ensures
        ends_increasing(run_records(trends, annot, write_last)),
{
    let n = annot.len() as int;
    let records = run_records(trends, annot, write_last);
    lemma_scan_wf(trends, annot, n - 1);
    let base = scan_records_at(trends, annot, n - 1);
    assert forall|i: int, j: int| 0 <= i < j < records.len() implies (
    #[trigger] records[i]).end_index < (#[trigger] records[j]).end_index by {
        if j < base.len() {
            assert(base[i].end_index < base[j].end_index);
        } else {
            assert(base[i].end_index < n - 1);
        }
    }
}

/// The variance contribution of a record is summed over the beats
/// `end_index - length + 1 ..= end_index`: for every record of the
/// analysis that stretch lies inside the series and holds only normal
/// beats, so the aggregation indexes safely and never reads an excluded
/// beat.
pub proof fn lemma_variance_spans_clean(trends: Seq<RunType>, annot: Seq<i32>, write_last: bool)
    requires
        trends.len() + 1 == annot.len(),
        2 <= annot.len() <= usize::MAX,
    ensures
        forall|i: int|
            0 <= i < run_records(trends, annot, write_last).len()
                ==> (#[trigger] run_records(trends, annot, write_last)[i]).length <= run_records(
                trends,
                annot,
                write_last,
            )[i].end_index + 1,
        forall|i: int|
            0 <= i < run_records(trends, annot, write_last).len()
                ==> (#[trigger] run_records(trends, annot, write_last)[i]).end_index
                < annot.len(),
        forall|i: int, k: int|
            #![trigger run_records(trends, annot, write_last)[i], annot[k]]
            0 <= i < run_records(trends, annot, write_last).len() && run_records(
                trends,
                annot,
                write_last,
            )[i].end_index + 1 - run_records(trends, annot, write_last)[i].length <= k
                <= run_records(trends, annot, write_last)[i].end_index ==> annot[k] == 0,
{
    let records = run_records(trends, annot, write_last);
    lemma_run_records_valid(trends, annot, write_last);
    assert forall|i: int, k: int|
        #![trigger records[i], annot[k]]
        0 <= i < records.len() && records[i].end_index + 1 - records[i].length <= k
            <= records[i].end_index implies annot[k] == 0 by {
        let r = records[i];
        assert(record_valid(trends, annot, r));
        let s = choose|s: int|
            #[trigger] run_span(trends, annot, s, r.length as int, r.run_type) && (r.end_index == s
                + r.length || r.end_index == s + r.length - 1);
        assert(s <= k <= s + r.length);
    }
    assert forall|i: int| 0 <= i < records.len() implies (#[trigger] records[i]).length
        <= records[i].end_index + 1 by {
        let r = records[i];
        assert(record_valid(trends, annot, r));
        let s = choose|s: int|
            #[trigger] run_span(trends, annot, s, r.length as int, r.run_type) && (r.end_index == s
                + r.length || r.end_index == s + r.length - 1);
    }
}

/// While every scanned pair is excluded the machine keeps seeking and
/// closes nothing.
proof fn lemma_all_excluded_scan(trends: Seq<RunType>, annot: Seq<i32>, p: int)
    requires
        forall|q: int| 0 <= q < p ==> pair_excluded(annot, q),
    ensures
        scan_state_at(trends, annot, p) == ScanState::Seeking,
        scan_records_at(trends, annot, p) == Seq::<RunRecord>::empty(),
    decreases p,
{
    if p > 0 {
        lemma_all_excluded_scan(trends, annot, p - 1);
    }
}

/// A series whose every pair is excluded yields no record at all, whatever
/// the trends and the `write_last_run` policy; its summary is therefore the
/// single row `[0, 0, 0]`.
pub proof fn lemma_all_excluded_empty(trends: Seq<RunType>, annot: Seq<i32>, write_last: bool)
    requires
        forall|q: int| 0 <= q < annot.len() - 1 ==> pair_excluded(annot, q),
    ensures
        run_records(trends, annot, write_last) == Seq::<RunRecord>::empty(),
        forall|t: RunType, l: int| count_of(run_records(trends, annot, write_last), t, l) == 0,
{
    lemma_all_excluded_scan(trends, annot, annot.len() - 1);
}

} // verus!
