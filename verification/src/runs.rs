//! Run classification over an annotated RR-interval series.
//!
//! A *run* is a maximal stretch of consecutive beat-to-beat transitions that
//! share one trend.  The trend of the pair `(rr[p], rr[p+1])` is
//! [`RunType::Dec`] when the interval lengthens (`rr[p] < rr[p+1]`, the heart
//! decelerates), [`RunType::Acc`] when it shortens, and [`RunType::Neu`] when
//! the two intervals are exactly equal.  The engine receives that per-pair
//! trend together with the annotation codes; code `0` marks a normal beat,
//! any other code excludes the beat from comparisons.
//!
//! The scan is specified as a two-state machine, folded over the pair
//! positions: `Seeking` while no usable pair has been found, and
//! `Active(type, length)` while a run is growing.  A run closes when the next
//! beat is excluded (the record then ends at the series index just before the
//! excluded beat) or when the trend changes (the record then ends at the pair
//! boundary just before the new trend started).  After the last pair, a still
//! open run is recorded, ending at the final scanned series index, only when
//! the engine was built with `write_last_run`.

use vstd::prelude::*;

verus! {

/// Trend of one beat-to-beat transition, and the type of a whole run.
#[derive(Clone, Copy, Debug, PartialEq, Eq, Hash, Structural)]
pub enum RunType {
    /// Deceleration: the RR interval lengthens.
    Dec,
    /// Neutral: two exactly equal consecutive RR intervals.
    Neu,
    /// Acceleration: the RR interval shortens.
    Acc,
}

/// One closed run: the series index at which it closed, its length in
/// transitions, and its trend.
#[derive(Clone, Copy, Debug, PartialEq, Eq, Structural)]
pub struct RunRecord {
    /// Series index at which the run closed.
    pub end_index: usize,
    /// Number of consecutive transitions sharing the run's trend.
    pub length: usize,
    /// Trend shared by every transition of the run.
    pub run_type: RunType,
}

/// State of the scanning machine: either still looking for a usable pair of
/// normal beats, or growing a run of a known trend and length.
#[derive(Clone, Copy, Debug, PartialEq, Eq, Structural)]
pub enum ScanState {
    /// No usable pair found yet (start of series, or inside an excluded block).
    Seeking,
    /// A run of `run_type` is open and spans `length` transitions.
    Active { run_type: RunType, length: usize },
}

/// Per-length run counts for the three run types, plus the chronological
/// list of run records.  `dec[l]`, `acc[l]` and `neu[l]` count the closed
/// runs of length `l`; index `0` is never used by a record.
#[derive(Clone, Debug)]
pub struct RunsAccumulator {
    /// Counts of deceleration runs, indexed by run length.
    pub dec: Vec<usize>,
    /// Counts of acceleration runs, indexed by run length.
    pub acc: Vec<usize>,
    /// Counts of neutral runs, indexed by run length.
    pub neu: Vec<usize>,
    /// Every closed run, in the order the scan closed them.
    pub runs_addresses: Vec<RunRecord>,
}

/// Why an engine could not be built from the given series.
#[derive(Clone, Copy, Debug, PartialEq, Eq, Structural)]
pub enum SeriesError {
    /// The trend sequence does not have exactly one entry per adjacent pair.
    LengthMismatch,
    /// The series holds fewer than two beats, so no pair exists.
    TooShort,
}

/// Pair `p` is unusable when either of its beats carries a nonzero
/// annotation code.
pub open spec fn pair_excluded(annot: Seq<i32>, p: int) -> bool {
    annot[p] != 0 || annot[p + 1] != 0
}

/// One step of the scanning machine at pair position `p`: the next state,
/// and the run record this step closes, if any.
pub open spec fn spec_step(
    state: ScanState,
    trend: RunType,
    excluded: bool,
    p: int,
) -> (ScanState, Option<RunRecord>) {
    match state {
        ScanState::Seeking => {
            if excluded {
                (ScanState::Seeking, None)
            } else {
                (ScanState::Active { run_type: trend, length: 1 }, None)
            }
        },
        ScanState::Active { run_type, length } => {
            if excluded {
                (
                    ScanState::Seeking,
                    Some(RunRecord { end_index: p as usize, length, run_type }),
                )
            } else if trend == run_type {
                (
                    ScanState::Active { run_type, length: (length + 1) as usize },
                    None,
                )
            } else {
                (
                    ScanState::Active { run_type: trend, length: 1 },
                    Some(RunRecord { end_index: (p - 1) as usize, length, run_type }),
                )
            }
        },
    }
}

/// Machine state after the first `p` pair positions have been scanned.
pub open spec fn scan_state_at(trends: Seq<RunType>, annot: Seq<i32>, p: int) -> ScanState
    decreases p,
{
    if p <= 0 {
        ScanState::Seeking
    } else {
        spec_step(
            scan_state_at(trends, annot, p - 1),
            trends[p - 1],
            pair_excluded(annot, p - 1),
            p - 1,
        ).0
    }
}

/// Run records closed while scanning the first `p` pair positions, in order.
pub open spec fn scan_records_at(trends: Seq<RunType>, annot: Seq<i32>, p: int) -> Seq<RunRecord>
    decreases p,
{
    if p <= 0 {
        Seq::empty()
    } else {
        let prev = scan_records_at(trends, annot, p - 1);
        match spec_step(
            scan_state_at(trends, annot, p - 1),
            trends[p - 1],
            pair_excluded(annot, p - 1),
            p - 1,
        ).1 {
            Some(r) => prev.push(r),
            None => prev,
        }
    }
}

/// The run still open after every pair has been scanned, closed at the final
/// series index; `None` when the scan ends while seeking.
pub open spec fn final_record(trends: Seq<RunType>, annot: Seq<i32>) -> Option<RunRecord> {
    match scan_state_at(trends, annot, annot.len() - 1) {
        ScanState::Active { run_type, length } => Some(
            RunRecord { end_index: (annot.len() - 1) as usize, length, run_type },
        ),
        ScanState::Seeking => None,
    }
}

/// Every run record the analysis yields, in chronological order: the records
/// closed during the scan, plus the trailing open run when `write_last` asks
/// for it.
pub open spec fn run_records(trends: Seq<RunType>, annot: Seq<i32>, write_last: bool) -> Seq<
    RunRecord,
> {
    let base = scan_records_at(trends, annot, annot.len() - 1);
    if write_last {
        match final_record(trends, annot) {
            Some(r) => base.push(r),
            None => base,
        }
    } else {
        base
    }
}

/// How many records of type `t` and length `len` the sequence holds.
pub open spec fn count_of(records: Seq<RunRecord>, t: RunType, len: int) -> nat
    decreases records.len(),
{
    if records.len() == 0 {
        0
    } else {
        count_of(records.drop_last(), t, len) + if records.last().run_type == t
            && records.last().length == len {
            1nat
        } else {
            0nat
        }
    }
}

/// How many records of type `t` the sequence holds, of any length.
pub open spec fn count_type(records: Seq<RunRecord>, t: RunType) -> nat
    decreases records.len(),
{
    if records.len() == 0 {
        0
    } else {
        count_type(records.drop_last(), t) + if records.last().run_type == t {
            1nat
        } else {
            0nat
        }
    }
}

/// Sum of `count_of` over all lengths below `len_bound`.
pub open spec fn sum_count_below(records: Seq<RunRecord>, t: RunType, len_bound: int) -> nat
    decreases len_bound,
{
    if len_bound <= 0 {
        0
    } else {
        sum_count_below(records, t, len_bound - 1) + count_of(records, t, len_bound - 1)
    }
}

/// Largest run length among the records, `0` when there are none.
pub open spec fn max_length_of(records: Seq<RunRecord>) -> int
    decreases records.len(),
{
    if records.len() == 0 {
        0
    } else {
        let m = max_length_of(records.drop_last());
        if records.last().length > m {
            records.last().length as int
        } else {
            m
        }
    }
}

/// While a run is open just before pair position `p`, its `len` transitions
/// are the pairs `p - len .. p`: every beat they touch is normal and every
/// one of those pairs has the run's trend.
pub open spec fn active_span(
    trends: Seq<RunType>,
    annot: Seq<i32>,
    p: int,
    t: RunType,
    len: int,
) -> bool {
    &&& len <= p
    &&& run_span(trends, annot, p - len, len, t)
}

/// The `len` pairs starting at beat `s` form a clean stretch of trend `t`:
/// the stretch stays inside the series, every beat it touches is normal, and
/// every one of its pairs has trend `t`.
pub open spec fn run_span(trends: Seq<RunType>, annot: Seq<i32>, s: int, len: int, t: RunType) -> bool {
    &&& 0 <= s
    &&& 1 <= len
    &&& s + len < annot.len()
    &&& forall|k: int| s <= k <= s + len ==> annot[k] == 0
    &&& forall|q: int| s <= q < s + len ==> trends[q] == t
}

/// Records close in series order: later records end at strictly larger
/// indices.
pub open spec fn ends_increasing(records: Seq<RunRecord>) -> bool {
    forall|i: int, j: int|
        0 <= i < j < records.len() ==> (#[trigger] records[i]).end_index < (
        #[trigger] records[j]).end_index
}

/// A record is sound for the series: its transitions sit on some clean
/// stretch of `length` consecutive pairs of its trend, and `end_index` is
/// the stretch's last beat or, for a run closed by a trend change, the beat
/// before it.
pub open spec fn record_valid(trends: Seq<RunType>, annot: Seq<i32>, r: RunRecord) -> bool {
    exists|s: int|
        #[trigger] run_span(trends, annot, s, r.length as int, r.run_type)
            && (r.end_index == s + r.length || r.end_index == s + r.length - 1)
}

/// Appending one record raises exactly the matching count cell, the
/// matching per-type total, and the running maximum length.
pub proof fn lemma_count_of_push(records: Seq<RunRecord>, r: RunRecord)
    ensures
        forall|t: RunType, l: int|
            count_of(records.push(r), t, l) == count_of(records, t, l) + (
            if r.run_type == t && r.length == l {
                1nat
            } else {
                0nat
            }),
        forall|t: RunType|
            count_type(records.push(r), t) == count_type(records, t) + (
            if r.run_type == t {
                1nat
            } else {
                0nat
            }),
        max_length_of(records.push(r)) == (if r.length > max_length_of(records) {
            r.length as int
        } else {
            max_length_of(records)
        }),
{
    assert(records.push(r).drop_last() =~= records);
    assert(records.push(r).last() == r);
}

/// No count cell can exceed the number of records.
pub proof fn lemma_count_of_le_len(records: Seq<RunRecord>, t: RunType, len: int)
    ensures
        count_of(records, t, len) <= records.len(),
    decreases records.len(),
{
    if records.len() > 0 {
        lemma_count_of_le_len(records.drop_last(), t, len);
    }
}

/// Beyond the largest observed length every count cell is zero.
pub proof fn lemma_count_zero_above_max(records: Seq<RunRecord>, t: RunType, l: int)
    requires
        l > max_length_of(records),
    ensures
        count_of(records, t, l) == 0,
    decreases records.len(),
{
    if records.len() > 0 {
        lemma_count_zero_above_max(records.drop_last(), t, l);
    }
}

/// Some type's count cell at the largest observed length is occupied.
pub proof fn lemma_count_at_max_positive(records: Seq<RunRecord>)
    requires
        records.len() > 0,
    ensures
        count_of(records, RunType::Acc, max_length_of(records)) + count_of(
            records,
            RunType::Dec,
            max_length_of(records),
        ) + count_of(records, RunType::Neu, max_length_of(records)) > 0,
    decreases records.len(),
{
    let prev = records.drop_last();
    let r = records.last();
    let m = max_length_of(records);
    if r.length == m {
    } else {
        assert(prev.len() > 0) by {
            if prev.len() == 0 {
                assert(max_length_of(prev) == 0);
            }
        }
        lemma_count_at_max_positive(prev);
    }
}

/// The largest observed length is bounded by any bound on the records'
/// lengths.
pub proof fn lemma_max_length_le(records: Seq<RunRecord>, bound: int)
    requires
        0 <= bound,
        forall|i: int| 0 <= i < records.len() ==> (#[trigger] records[i]).length <= bound,
    ensures
        max_length_of(records) <= bound,
    decreases records.len(),
{
    if records.len() > 0 {
        assert forall|i: int| 0 <= i < records.drop_last().len() implies (#[trigger] records.drop_last()[i]).length
            <= bound by {
            assert(records.drop_last()[i] == records[i]);
        }
        lemma_max_length_le(records.drop_last(), bound);
    }
}

/// The scan invariant: an open run always sits on a clean stretch of its
/// trend ending just before the scan position, at most one record closes
/// per pair, and every record closed so far is sound for the series.
pub proof fn lemma_scan_wf(trends: Seq<RunType>, annot: Seq<i32>, p: int)
    requires
        trends.len() + 1 == annot.len(),
        2 <= annot.len() <= usize::MAX,
        0 <= p <= annot.len() - 1,
    ensures
        (scan_state_at(trends, annot, p) matches ScanState::Active { run_type, length }
            ==> active_span(trends, annot, p, run_type, length as int)),
        (scan_state_at(trends, annot, p) matches ScanState::Active { run_type, length }
            ==> forall|i: int|
                0 <= i < scan_records_at(trends, annot, p).len()
                    ==> (#[trigger] scan_records_at(trends, annot, p)[i]).end_index < p
                    - length),
        scan_records_at(trends, annot, p).len() <= p,
        forall|i: int|
            0 <= i < scan_records_at(trends, annot, p).len() ==> record_valid(
                trends,
                annot,
                #[trigger] scan_records_at(trends, annot, p)[i],
            ),
        forall|i: int|
            0 <= i < scan_records_at(trends, annot, p).len()
                ==> (#[trigger] scan_records_at(trends, annot, p)[i]).end_index < p,
        ends_increasing(scan_records_at(trends, annot, p)),
    decreases p,
{
    if p > 0 {
        lemma_scan_wf(trends, annot, p - 1);
        let st = scan_state_at(trends, annot, p - 1);
        let tr = trends[p - 1];
        let ex = pair_excluded(annot, p - 1);
        let prev_records = scan_records_at(trends, annot, p - 1);
        match st {
            ScanState::Seeking => {
                if !ex {
                    assert(run_span(trends, annot, p - 1, 1, tr));
                }
            },
            ScanState::Active { run_type, length } => {
                let len = length as int;
                let s = (p - 1) - len;
                assert(run_span(trends, annot, s, len, run_type));
                if ex {
                    let r = RunRecord { end_index: (p - 1) as usize, length, run_type };
                    assert(run_span(trends, annot, s, r.length as int, r.run_type));
                    assert(r.end_index == s + r.length);
                    assert(record_valid(trends, annot, r));
                } else if tr == run_type {
                    assert(run_span(trends, annot, s, len + 1, run_type));
                } else {
                    let r = RunRecord { end_index: (p - 2) as usize, length, run_type };
                    assert(run_span(trends, annot, s, r.length as int, r.run_type));
                    assert(r.end_index == s + r.length - 1);
                    assert(record_valid(trends, annot, r));
                    assert(run_span(trends, annot, p - 1, 1, tr));
                }
            },
        }
        assert forall|i: int| 0 <= i < scan_records_at(trends, annot, p).len() implies record_valid(
            trends,
            annot,
            scan_records_at(trends, annot, p)[i],
        ) by {
            if i < prev_records.len() {
                assert(record_valid(trends, annot, prev_records[i]));
            }
        }
    }
}

/// Every record of the full analysis is sound for the series, and its
/// length and end index stay inside the series.
pub proof fn lemma_run_records_valid(trends: Seq<RunType>, annot: Seq<i32>, write_last: bool)
    requires
        trends.len() + 1 == annot.len(),
        2 <= annot.len() <= usize::MAX,
    ensures
        forall|i: int|
            0 <= i < run_records(trends, annot, write_last).len() ==> record_valid(
                trends,
                annot,
                #[trigger] run_records(trends, annot, write_last)[i],
            ),
        forall|i: int|
            0 <= i < run_records(trends, annot, write_last).len() ==> {
                &&& 1 <= (#[trigger] run_records(trends, annot, write_last)[i]).length
                    < annot.len()
                &&& run_records(trends, annot, write_last)[i].end_index < annot.len()
            },
        run_records(trends, annot, write_last).len() <= annot.len(),
{
    let records = run_records(trends, annot, write_last);
    let n = annot.len() as int;
    lemma_scan_wf(trends, annot, n - 1);
    let base = scan_records_at(trends, annot, n - 1);
    match scan_state_at(trends, annot, n - 1) {
        ScanState::Active { run_type, length } => {
            let len = length as int;
            let s = (n - 1) - len;
            assert(run_span(trends, annot, s, len, run_type));
            let r = RunRecord { end_index: (n - 1) as usize, length, run_type };
            assert(run_span(trends, annot, s, r.length as int, r.run_type));
            assert(r.end_index == s + r.length);
            assert(record_valid(trends, annot, r));
        },
        ScanState::Seeking => {},
    }
    assert forall|i: int| 0 <= i < records.len() implies record_valid(trends, annot, records[i])
        && 1 <= records[i].length < annot.len() && records[i].end_index < annot.len() by {
        if i < base.len() {
            assert(record_valid(trends, annot, base[i]));
        }
        let r = records[i];
        let s = choose|s: int|
            #[trigger] run_span(trends, annot, s, r.length as int, r.run_type) && (r.end_index == s
                + r.length || r.end_index == s + r.length - 1);
        assert(run_span(trends, annot, s, r.length as int, r.run_type));
    }
}

impl RunsAccumulator {
    /// The three count tables each have one slot per series beat.
    pub open spec fn sized_for(&self, n: int) -> bool {
        &&& self.dec@.len() == n
        &&& self.acc@.len() == n
        &&& self.neu@.len() == n
    }

    /// Nothing recorded yet: no records, every count zero.
    pub open spec fn is_reset(&self) -> bool {
        &&& self.runs_addresses@.len() == 0
        &&& forall|l: int| 0 <= l < self.dec@.len() ==> self.dec@[l] == 0
        &&& forall|l: int| 0 <= l < self.acc@.len() ==> self.acc@[l] == 0
        &&& forall|l: int| 0 <= l < self.neu@.len() ==> self.neu@[l] == 0
    }

    /// The accumulator holds exactly `records`: the address list is that
    /// sequence and every count slot equals the number of matching records.
    pub open spec fn holds_records(&self, records: Seq<RunRecord>) -> bool {
        &&& self.runs_addresses@ == records
        &&& forall|l: int|
            0 <= l < self.dec@.len() ==> self.dec@[l] == count_of(records, RunType::Dec, l)
        &&& forall|l: int|
            0 <= l < self.acc@.len() ==> self.acc@[l] == count_of(records, RunType::Acc, l)
        &&& forall|l: int|
            0 <= l < self.neu@.len() ==> self.neu@[l] == count_of(records, RunType::Neu, l)
    }
}

/// The run-classification engine: the series model, the `write_last_run`
/// policy, and the memoized accumulator.
pub struct RRRuns {
    /// Trend of each adjacent pair; one entry fewer than `annotations`.
    pub trends: Vec<RunType>,
    /// Annotation code of each beat; `0` marks a normal beat.
    pub annotations: Vec<i32>,
    /// Whether a trailing, still open run is recorded after the scan.
    pub write_last_run: bool,
    /// The analysis result once `analyzed` is set; zeroed before that.
    pub accumulator: RunsAccumulator,
    /// Set once the scan has run; later queries reuse the accumulator.
    pub analyzed: bool,
}

impl RRRuns {
    /// The run records this engine's series and policy determine.
    pub open spec fn spec_records(&self) -> Seq<RunRecord> {
        run_records(self.trends@, self.annotations@, self.write_last_run)
    }

    /// Engine invariant: the series model is coherent and the accumulator is
    /// either untouched or exactly the analysis result.
    pub open spec fn wf(&self) -> bool {
        &&& 2 <= self.annotations@.len()
        &&& self.trends@.len() + 1 == self.annotations@.len()
        &&& self.accumulator.sized_for(self.annotations@.len() as int)
        &&& if self.analyzed {
            self.accumulator.holds_records(self.spec_records())
        } else {
            self.accumulator.is_reset()
        }
    }

    /// Both engines analyze the same series under the same policy.
    pub open spec fn same_series(&self, other: &RRRuns) -> bool {
        &&& self.trends@ == other.trends@
        &&& self.annotations@ == other.annotations@
        &&& self.write_last_run == other.write_last_run
    }

    /// Builds an engine for a series given as per-pair trends and per-beat
    /// annotation codes.  The series must hold at least two beats and one
    /// trend per adjacent pair; anything else is rejected outright.
    pub fn new(trends: Vec<RunType>, annot: Vec<i32>, write_last_run: bool) -> (result: Result<
        RRRuns,
        SeriesError,
    >)
        ensures
            trends@.len() + 1 != annot@.len() ==> result === Err(SeriesError::LengthMismatch),
            trends@.len() + 1 == annot@.len() && annot@.len() < 2 ==> result === Err(
                SeriesError::TooShort,
            ),
            trends@.len() + 1 == annot@.len() && 2 <= annot@.len() ==> {
                &&& result matches Ok(engine)
                &&& engine.wf()
                &&& !engine.analyzed
                &&& engine.trends@ == trends@
                &&& engine.annotations@ == annot@
                &&& engine.write_last_run == write_last_run
            },
    {
        if annot.len() == 0 || trends.len() != annot.len() - 1 {
            return Err(SeriesError::LengthMismatch);
        }
        if annot.len() < 2 {
            return Err(SeriesError::TooShort);
        }
        let size = annot.len();
        let accumulator = RunsAccumulator {
            dec: zero_counts(size),
            acc: zero_counts(size),
            neu: zero_counts(size),
            runs_addresses: Vec::new(),
        };
        Ok(
            RRRuns {
                trends,
                annotations: annot,
                write_last_run,
                accumulator,
                analyzed: false,
            },
        )
    }
}

/// One executable step of the scanning machine, the exact mirror of
/// [`spec_step`]: feed it the current state, the trend of pair `p` and
/// whether that pair is excluded; back come the next state and the record
/// this step closes, if any.
pub fn scan_step(state: ScanState, trend: RunType, excluded: bool, p: usize) -> (step: (
    ScanState,
    Option<RunRecord>,
))
    requires
        (state matches ScanState::Active { run_type, length } ==> 1 <= length <= p),
        p < usize::MAX,
    ensures
        step == spec_step(state, trend, excluded, p as int),
{
    match state {
        ScanState::Seeking => {
            if excluded {
                (ScanState::Seeking, None)
            } else {
                (ScanState::Active { run_type: trend, length: 1 }, None)
            }
        },
        ScanState::Active { run_type, length } => {
            if excluded {
                (ScanState::Seeking, Some(RunRecord { end_index: p, length, run_type }))
            } else if trend == run_type {
                (ScanState::Active { run_type, length: length + 1 }, None)
            } else {
                (
                    ScanState::Active { run_type: trend, length: 1 },
                    Some(RunRecord { end_index: p - 1, length, run_type }),
                )
            }
        },
    }
}

impl RRRuns {
    /// Appends one closed run to the chronological address list.
    fn update_runs_addresses(&mut self, new_entry: RunRecord)
        ensures
            final(self).accumulator.runs_addresses@ == old(
                self,
            ).accumulator.runs_addresses@.push(new_entry),
            final(self).accumulator.dec == old(self).accumulator.dec,
            final(self).accumulator.acc == old(self).accumulator.acc,
            final(self).accumulator.neu == old(self).accumulator.neu,
            final(self).trends == old(self).trends,
            final(self).annotations == old(self).annotations,
            final(self).write_last_run == old(self).write_last_run,
            final(self).analyzed == old(self).analyzed,
    {
        self.accumulator.runs_addresses.push(new_entry);
    }

    /// Books one closed run: bumps the count cell of its type and length and
    /// appends its record.
    fn close_run(&mut self, rec: RunRecord)
        requires
            old(self).accumulator.sized_for(old(self).annotations@.len() as int),
            old(self).accumulator.holds_records(old(self).accumulator.runs_addresses@),
            rec.length < old(self).annotations@.len(),
            old(self).accumulator.runs_addresses@.len() < usize::MAX,
        ensures
            final(self).accumulator.sized_for(old(self).annotations@.len() as int),
            final(self).accumulator.holds_records(
                old(self).accumulator.runs_addresses@.push(rec),
            ),
            final(self).trends == old(self).trends,
            final(self).annotations == old(self).annotations,
            final(self).write_last_run == old(self).write_last_run,
            final(self).analyzed == old(self).analyzed,
    {
        proof {
            lemma_count_of_push(self.accumulator.runs_addresses@, rec);
            lemma_count_of_le_len(
                self.accumulator.runs_addresses@,
                rec.run_type,
                rec.length as int,
            );
        }
        let l = rec.length;
        match rec.run_type {
            RunType::Dec => {
                let c = self.accumulator.dec[l];
                self.accumulator.dec.set(l, c + 1);
            },
            RunType::Acc => {
                let c = self.accumulator.acc[l];
                self.accumulator.acc.set(l, c + 1);
            },
            RunType::Neu => {
                let c = self.accumulator.neu[l];
                self.accumulator.neu.set(l, c + 1);
            },
        }
        self.update_runs_addresses(rec);
    }

    /// Runs the scan once: folds the stepping machine over every pair
    /// position, books each closed run, finally books the still open run
    /// when `write_last_run` asks for it, and marks the engine analyzed.
    fn analyze_runs(&mut self)
        requires
            old(self).wf(),
            !old(self).analyzed,
        ensures
            final(self).wf(),
            final(self).analyzed,
            final(self).same_series(old(self)),
    {
        let ghost trends_v = self.trends@;
        let ghost annot_v = self.annotations@;
        let ghost wlr = self.write_last_run;
        let n = self.annotations.len();
        let mut state = ScanState::Seeking;
        let mut p: usize = 0;
        proof {
            assert(self.accumulator.runs_addresses@ =~= scan_records_at(trends_v, annot_v, 0));
            assert(forall|t: RunType, l: int|
                count_of(scan_records_at(trends_v, annot_v, 0), t, l) == 0);
        }
        while p < n - 1
            invariant
                self.trends@ == trends_v,
                self.annotations@ == annot_v,
                self.write_last_run == wlr,
                self.analyzed == false,
                n == annot_v.len(),
                2 <= n,
                trends_v.len() + 1 == n,
                p <= n - 1,
                state == scan_state_at(trends_v, annot_v, p as int),
                (state matches ScanState::Active { run_type, length } ==> 1 <= length <= p),
                self.accumulator.sized_for(n as int),
                self.accumulator.holds_records(scan_records_at(trends_v, annot_v, p as int)),
                self.accumulator.runs_addresses@.len() <= p,
            decreases n - 1 - p,
        {
            let excluded = self.annotations[p] != 0 || self.annotations[p + 1] != 0;
            let trend = self.trends[p];
            assert(excluded == pair_excluded(annot_v, p as int));
            let (next_state, emitted) = scan_step(state, trend, excluded, p);
            match emitted {
                Some(rec) => {
                    self.close_run(rec);
                },
                None => {},
            }
            state = next_state;
            p = p + 1;
        }
        if self.write_last_run {
            match state {
                ScanState::Active { run_type, length } => {
                    let rec = RunRecord { end_index: n - 1, length, run_type };
                    self.close_run(rec);
                },
                ScanState::Seeking => {},
            }
        }
        self.analyzed = true;
    }

    /// Index just past the last occupied slot of a count table: `0` when the
    /// table is empty of counts, otherwise one more than the largest length
    /// with a nonzero count.
    fn get_nonzero_length(&self, v: &Vec<usize>) -> (e: usize)
        ensures
            e <= v@.len(),
            forall|l: int| e <= l < v@.len() ==> v@[l] == 0,
            e > 0 ==> v@[e - 1] != 0,
    {
        let mut i: usize = v.len();
        while i > 0
            invariant
                i <= v@.len(),
                forall|l: int| i <= l < v@.len() ==> v@[l] == 0,
            decreases i,
        {
            if v[i - 1] != 0 {
                return i;
            }
            i = i - 1;
        }
        0
    }

    /// Hands out the full accumulator, scanning first if this engine has not
    /// analyzed its series yet.  Asking again changes nothing: the cached
    /// accumulator is returned as it stands.
    pub fn get_full_runs(&mut self) -> (result: &RunsAccumulator)
        requires
            old(self).wf(),
        ensures
            final(self).wf(),
            final(self).analyzed,
            final(self).same_series(old(self)),
            old(self).analyzed ==> *final(self) == *old(self),
            *result == final(self).accumulator,
            final(self).accumulator.holds_records(
                run_records(old(self).trends@, old(self).annotations@, old(self).write_last_run),
            ),
    {
        if !self.analyzed {
            self.analyze_runs();
        }
        &self.accumulator
    }

    /// The summary table: one row `[accelerations, decelerations, neutral]`
    /// per run length from `1` up to the largest length observed across the
    /// three types, and the single row `[0, 0, 0]` when no run was recorded.
    /// Scans first if needed; asking again returns the same table.
    pub fn get_runs_summary(&mut self) -> (summary: Vec<Vec<usize>>)
        requires
            old(self).wf(),
        ensures
            final(self).wf(),
            final(self).analyzed,
            final(self).same_series(old(self)),
            old(self).analyzed ==> *final(self) == *old(self),
            summary@.len() == (if max_length_of(old(self).spec_records()) == 0 {
                1int
            } else {
                max_length_of(old(self).spec_records())
            }),
            forall|j: int| 0 <= j < summary@.len() ==> (#[trigger] summary@[j])@.len() == 3,
            forall|j: int|
                0 <= j < summary@.len() ==> (#[trigger] summary@[j])@[0] == count_of(
                    old(self).spec_records(),
                    RunType::Acc,
                    j + 1,
                ),
            forall|j: int|
                0 <= j < summary@.len() ==> (#[trigger] summary@[j])@[1] == count_of(
                    old(self).spec_records(),
                    RunType::Dec,
                    j + 1,
                ),
            forall|j: int|
                0 <= j < summary@.len() ==> (#[trigger] summary@[j])@[2] == count_of(
                    old(self).spec_records(),
                    RunType::Neu,
                    j + 1,
                ),
    {
        if !self.analyzed {
            self.analyze_runs();
        }
        let ghost records = self.spec_records();
        let n = self.annotations.len();
        proof {
            lemma_run_records_valid(self.trends@, self.annotations@, self.write_last_run);
        }
        let acc_size = self.get_nonzero_length(&self.accumulator.acc);
        let dec_size = self.get_nonzero_length(&self.accumulator.dec);
        let neu_size = self.get_nonzero_length(&self.accumulator.neu);
        let mut max_length = acc_size;
        if dec_size > max_length {
            max_length = dec_size;
        }
        if neu_size > max_length {
            max_length = neu_size;
        }
        proof {
            let m = max_length_of(records);
            if records.len() == 0 {
                assert(forall|t: RunType, l: int| count_of(records, t, l) == 0);
                if acc_size > 0 {
                    assert(self.accumulator.acc@[acc_size - 1] == count_of(
                        records,
                        RunType::Acc,
                        acc_size - 1,
                    ));
                    assert(false);
                }
                if dec_size > 0 {
                    assert(self.accumulator.dec@[dec_size - 1] == count_of(
                        records,
                        RunType::Dec,
                        dec_size - 1,
                    ));
                    assert(false);
                }
                if neu_size > 0 {
                    assert(self.accumulator.neu@[neu_size - 1] == count_of(
                        records,
                        RunType::Neu,
                        neu_size - 1,
                    ));
                    assert(false);
                }
                assert(max_length == 0);
            } else {
                lemma_count_at_max_positive(records);
                assert(1 <= records[records.len() - 1].length);
                assert(records.last() == records[records.len() - 1]);
                assert(m >= 1);
                lemma_max_length_le(records, n - 1);
                if acc_size > m + 1 {
                    lemma_count_zero_above_max(records, RunType::Acc, acc_size - 1);
                    assert(false);
                }
                if dec_size > m + 1 {
                    lemma_count_zero_above_max(records, RunType::Dec, dec_size - 1);
                    assert(false);
                }
                if neu_size > m + 1 {
                    lemma_count_zero_above_max(records, RunType::Neu, neu_size - 1);
                    assert(false);
                }
                if acc_size <= m && dec_size <= m && neu_size <= m {
                    assert(count_of(records, RunType::Acc, m) == self.accumulator.acc@[m]);
                    assert(count_of(records, RunType::Dec, m) == self.accumulator.dec@[m]);
                    assert(count_of(records, RunType::Neu, m) == self.accumulator.neu@[m]);
                    assert(false);
                }
                assert(max_length == m + 1);
            }
        }
        let mut summary: Vec<Vec<usize>> = Vec::new();
        let mut i: usize = 1;
        while i < max_length
            invariant
                1 <= i,
                max_length == 0 ==> i == 1,
                max_length > 0 ==> i <= max_length,
                max_length <= n,
                n == self.annotations@.len(),
                records == self.spec_records(),
                self.accumulator.sized_for(n as int),
                self.accumulator.holds_records(records),
                forall|l: int| acc_size <= l < n ==> self.accumulator.acc@[l] == 0,
                forall|l: int| dec_size <= l < n ==> self.accumulator.dec@[l] == 0,
                forall|l: int| neu_size <= l < n ==> self.accumulator.neu@[l] == 0,
                acc_size <= n && dec_size <= n && neu_size <= n,
                summary@.len() == i - 1,
                forall|j: int| 0 <= j < i - 1 ==> (#[trigger] summary@[j])@.len() == 3,
                forall|j: int|
                    0 <= j < i - 1 ==> (#[trigger] summary@[j])@[0] == count_of(
                        records,
                        RunType::Acc,
                        j + 1,
                    ),
                forall|j: int|
                    0 <= j < i - 1 ==> (#[trigger] summary@[j])@[1] == count_of(
                        records,
                        RunType::Dec,
                        j + 1,
                    ),
                forall|j: int|
                    0 <= j < i - 1 ==> (#[trigger] summary@[j])@[2] == count_of(
                        records,
                        RunType::Neu,
                        j + 1,
                    ),
            decreases max_length - i,
        {
            let a = if i < acc_size {
                self.accumulator.acc[i]
            } else {
                0
            };
            let d = if i < dec_size {
                self.accumulator.dec[i]
            } else {
                0
            };
            let u = if i < neu_size {
                self.accumulator.neu[i]
            } else {
                0
            };
            let mut row: Vec<usize> = Vec::new();
            row.push(a);
            row.push(d);
            row.push(u);
            summary.push(row);
            i = i + 1;
        }
        if summary.len() == 0 {
            proof {
                if records.len() > 0 {
                    assert(max_length >= 2);
                }
                assert(forall|t: RunType, l: int| count_of(records, t, l) == 0);
            }
            let mut row: Vec<usize> = Vec::new();
            row.push(0);
            row.push(0);
            row.push(0);
            summary.push(row);
        }
        summary
    }
}

/// A fresh count table of `n` zero slots.
fn zero_counts(n: usize) -> (v: Vec<usize>)
    ensures
        v@.len() == n,
        forall|l: int| 0 <= l < n ==> v@[l] == 0,
{
    let mut v: Vec<usize> = Vec::new();
    let mut i: usize = 0;
    while i < n
        invariant
            i <= n,
            v@.len() == i,
            forall|l: int| 0 <= l < i ==> v@[l] == 0,
        decreases n - i,
    {
        v.push(0);
        i = i + 1;
    }
    v
}

} // verus!
