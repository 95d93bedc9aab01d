use hrvhra_rust::runs::RRRuns;
use hrvhra_rust::runs::RunRecord;
use hrvhra_rust::runs::RunType;
use hrvhra_rust::runs::ScanState;
use hrvhra_rust::runs::SeriesError;
use hrvhra_rust::runs::scan_step;

/// Trend of one interval pair: lengthening decelerates the heart rate,
/// shortening accelerates it, exact equality is neutral.
fn trend_of(a: f64, b: f64) -> RunType {
    if a < b {
        RunType::Dec
    } else if a > b {
        RunType::Acc
    } else {
        RunType::Neu
    }
}

fn trends_of(rr: &[f64]) -> Vec<RunType> {
    let mut trends = Vec::new();
    let mut i: usize = 0;
    while i + 1 < rr.len() {
        trends.push(trend_of(rr[i], rr[i + 1]));
        i += 1;
    }
    trends
}

fn engine(rr: &[f64], annot: &[i32], write_last_run: bool) -> RRRuns {
    RRRuns::new(trends_of(rr), annot.to_vec(), write_last_run).unwrap()
}

#[test]
fn test_monotone_run() {
    // A strictly falling series is one acceleration run spanning everything.
    let rr = [4.0, 3.0, 2.0, 1.0];
    let mut runs = engine(&rr, &[0, 0, 0, 0], true);
    let summary = runs.get_runs_summary();
    assert_eq!(summary, vec![vec![0, 0, 0], vec![0, 0, 0], vec![1, 0, 0]]);
    let full = runs.get_full_runs();
    assert_eq!(
        full.runs_addresses,
        vec![RunRecord { end_index: 3, length: 3, run_type: RunType::Acc }]
    );
    assert_eq!(full.acc[3], 1);
}

#[test]
fn test_ectopic_split() {
    // Two rising segments split by one excluded beat: the first run closes
    // at the beat before the exclusion, the second re-seeds after it, and
    // no record touches the excluded beat.
    let rr = [1.0, 2.0, 3.0, 4.0, 9.0, 1.0, 2.0, 3.0, 4.0];
    let annot = [0, 0, 0, 0, 1, 0, 0, 0, 0];
    let mut runs = engine(&rr, &annot, true);
    let full = runs.get_full_runs();
    assert_eq!(
        full.runs_addresses,
        vec![
            RunRecord { end_index: 3, length: 3, run_type: RunType::Dec },
            RunRecord { end_index: 8, length: 3, run_type: RunType::Dec },
        ]
    );
    for rec in &full.runs_addresses {
        let start = rec.end_index - rec.length;
        for k in start..=rec.end_index {
            assert_eq!(annot[k], 0);
        }
    }
    let summary = runs.get_runs_summary();
    assert_eq!(summary, vec![vec![0, 0, 0], vec![0, 0, 0], vec![0, 2, 0]]);
}

#[test]
fn test_write_last_run_discarded() {
    // With the flag off the trailing, still open run disappears and nothing
    // else changes.
    let rr = [1.0, 2.0, 3.0, 4.0, 9.0, 1.0, 2.0, 3.0, 4.0];
    let annot = [0, 0, 0, 0, 1, 0, 0, 0, 0];
    let mut with_last = engine(&rr, &annot, true);
    let mut without_last = engine(&rr, &annot, false);
    let recs_with = with_last.get_full_runs().runs_addresses.clone();
    let recs_without = without_last.get_full_runs().runs_addresses.clone();
    assert_eq!(recs_without.len() + 1, recs_with.len());
    assert_eq!(recs_with[..recs_with.len() - 1], recs_without[..]);
    assert_eq!(
        *recs_with.last().unwrap(),
        RunRecord { end_index: 8, length: 3, run_type: RunType::Dec }
    );
}

#[test]
fn test_write_last_run_same_when_closed() {
    // When the final run was already closed by an exclusion, the flag makes
    // no difference.
    let rr = [1.0, 2.0, 3.0, 2.0];
    let annot = [0, 0, 0, 1];
    let mut with_last = engine(&rr, &annot, true);
    let mut without_last = engine(&rr, &annot, false);
    assert_eq!(
        with_last.get_full_runs().runs_addresses,
        without_last.get_full_runs().runs_addresses
    );
}

#[test]
fn test_all_excluded_summary() {
    // Every pair excluded: the summary is the single zero row.
    let rr = [1.0, 2.0, 3.0];
    let mut runs = engine(&rr, &[1, 1, 1], true);
    assert_eq!(runs.get_runs_summary(), vec![vec![0, 0, 0]]);
    assert!(runs.get_full_runs().runs_addresses.is_empty());
}

#[test]
fn test_all_pairs_excluded_alternating() {
    // A normal beat surrounded by excluded ones still leaves no usable pair.
    let rr = [1.0, 2.0, 3.0];
    let mut runs = engine(&rr, &[1, 0, 1], true);
    assert_eq!(runs.get_runs_summary(), vec![vec![0, 0, 0]]);
    assert!(runs.get_full_runs().runs_addresses.is_empty());
}

#[test]
fn test_summary_idempotent() {
    // Asking twice returns bit-identical tables from the cached result.
    let rr = [1.0, 2.0, 1.0, 1.0, 2.0, 3.0, 2.0];
    let annot = [0, 0, 0, 0, 0, 0, 0];
    let mut runs = engine(&rr, &annot, true);
    let first = runs.get_runs_summary();
    let second = runs.get_runs_summary();
    assert_eq!(first, second);
    let records_first = runs.get_full_runs().runs_addresses.clone();
    let records_second = runs.get_full_runs().runs_addresses.clone();
    assert_eq!(records_first, records_second);
}

#[test]
fn test_count_record_consistency() {
    // Per type, the counts over all lengths sum to that type's records.
    let rr = [1.0, 2.0, 1.0, 1.0, 2.0, 3.0, 2.0];
    let annot = [0, 0, 0, 0, 0, 0, 0];
    let mut runs = engine(&rr, &annot, true);
    let full = runs.get_full_runs();
    let records = full.runs_addresses.clone();
    let tables = [
        (full.acc.clone(), RunType::Acc),
        (full.dec.clone(), RunType::Dec),
        (full.neu.clone(), RunType::Neu),
    ];
    for (table, t) in tables {
        let summed: usize = table.iter().sum();
        let of_type = records.iter().filter(|r| r.run_type == t).count();
        assert_eq!(summed, of_type);
    }
}

#[test]
fn test_mixed_trends_summary() {
    let rr = [1.0, 2.0, 1.0, 1.0, 2.0, 3.0, 2.0];
    let annot = [0, 0, 0, 0, 0, 0, 0];
    let mut runs = engine(&rr, &annot, true);
    // Runs: Dec of 1 (closed at beat 0), Acc of 1 (at 1), Neu of 1 (at 2),
    // Dec of 2 (at 4), trailing Acc of 1 (at 6).
    assert_eq!(
        runs.get_full_runs().runs_addresses,
        vec![
            RunRecord { end_index: 0, length: 1, run_type: RunType::Dec },
            RunRecord { end_index: 1, length: 1, run_type: RunType::Acc },
            RunRecord { end_index: 2, length: 1, run_type: RunType::Neu },
            RunRecord { end_index: 4, length: 2, run_type: RunType::Dec },
            RunRecord { end_index: 6, length: 1, run_type: RunType::Acc },
        ]
    );
    assert_eq!(runs.get_runs_summary(), vec![vec![2, 1, 1], vec![0, 1, 0]]);
}

#[test]
fn test_leading_exclusions_are_skipped() {
    // The scan seeks past an excluded prefix before seeding its first run.
    let rr = [5.0, 5.0, 1.0, 2.0, 3.0];
    let annot = [1, 1, 0, 0, 0];
    let mut runs = engine(&rr, &annot, true);
    assert_eq!(
        runs.get_full_runs().runs_addresses,
        vec![RunRecord { end_index: 4, length: 2, run_type: RunType::Dec }]
    );
}

#[test]
fn test_trailing_exclusions_end_scan() {
    // The skip over a trailing excluded block exhausts the series: the run
    // closed before it stays, and nothing is seeded afterwards.
    let rr = [1.0, 2.0, 3.0, 4.0];
    let annot = [0, 0, 1, 1];
    let mut runs = engine(&rr, &annot, true);
    assert_eq!(
        runs.get_full_runs().runs_addresses,
        vec![RunRecord { end_index: 1, length: 1, run_type: RunType::Dec }]
    );
}

#[test]
fn test_new_rejects_bad_input() {
    // Mismatched trend/annotation lengths and too-short series fail fast.
    assert_eq!(
        RRRuns::new(vec![RunType::Dec], vec![0, 0, 0], true).err(),
        Some(SeriesError::LengthMismatch)
    );
    assert_eq!(
        RRRuns::new(vec![], vec![], true).err(),
        Some(SeriesError::LengthMismatch)
    );
    assert_eq!(
        RRRuns::new(vec![], vec![0], true).err(),
        Some(SeriesError::TooShort)
    );
    assert!(RRRuns::new(vec![RunType::Neu], vec![0, 0], true).is_ok());
}

#[test]
fn test_scan_step_transitions() {
    // The pure transition function, probed in isolation.
    let (state, emitted) = scan_step(ScanState::Seeking, RunType::Dec, true, 4);
    assert_eq!(state, ScanState::Seeking);
    assert_eq!(emitted, None);

    let (state, emitted) = scan_step(ScanState::Seeking, RunType::Dec, false, 4);
    assert_eq!(state, ScanState::Active { run_type: RunType::Dec, length: 1 });
    assert_eq!(emitted, None);

    let active = ScanState::Active { run_type: RunType::Dec, length: 2 };
    let (state, emitted) = scan_step(active, RunType::Dec, false, 4);
    assert_eq!(state, ScanState::Active { run_type: RunType::Dec, length: 3 });
    assert_eq!(emitted, None);

    let (state, emitted) = scan_step(active, RunType::Acc, false, 4);
    assert_eq!(state, ScanState::Active { run_type: RunType::Acc, length: 1 });
    assert_eq!(
        emitted,
        Some(RunRecord { end_index: 3, length: 2, run_type: RunType::Dec })
    );

    let (state, emitted) = scan_step(active, RunType::Acc, true, 4);
    assert_eq!(state, ScanState::Seeking);
    assert_eq!(
        emitted,
        Some(RunRecord { end_index: 4, length: 2, run_type: RunType::Dec })
    );
}
