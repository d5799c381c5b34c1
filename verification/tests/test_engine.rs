use athira::layout::{compute_regions, ExecutionRegion};
use athira::scheduler::{CommandState, Scheduler};

#[test]
fn test_layout_even_split() {
    let regions = compute_regions(80, 24, 3);
    assert_eq!(regions.len(), 3);
    for (i, r) in regions.iter().enumerate() {
        assert_eq!(r.index, i);
        assert_eq!(r.top, (i as u16) * 8);
        assert_eq!(r.height, 8);
        assert_eq!(r.width, 80);
    }
}

#[test]
fn test_layout_deterministic() {
    let a = compute_regions(120, 37, 5);
    let b = compute_regions(120, 37, 5);
    assert_eq!(a, b);
}

#[test]
fn test_layout_degenerate_small_terminal() {
    // Fewer rows than commands: every region still exists, one row high.
    let regions = compute_regions(80, 2, 5);
    assert_eq!(regions.len(), 5);
    for r in regions.iter() {
        assert_eq!(r.height, 1);
        assert_eq!(r.top, 0);
    }
}

#[test]
fn test_layout_no_commands() {
    let regions = compute_regions(80, 24, 0);
    assert!(regions.is_empty());
}

#[test]
fn test_layout_rows_disjoint() {
    let regions = compute_regions(100, 33, 4);
    for a in regions.iter() {
        assert!(a.top + a.height <= 33);
        for b in regions.iter() {
            if a.index != b.index {
                assert!(a.top + a.height <= b.top || b.top + b.height <= a.top);
            }
        }
    }
}

#[test]
fn test_region_next_row_clamps() {
    let region = ExecutionRegion {
        index: 0,
        top: 4,
        height: 3,
        width: 80,
    };
    assert_eq!(region.next_row(4), 5);
    assert_eq!(region.next_row(5), 6);
    // The region is full: further lines overwrite the last row.
    assert_eq!(region.next_row(6), 6);
}

#[test]
fn scenario_sequential_failure() {
    // Two sequential commands: the first succeeds, the second fails.
    let mut s = Scheduler::new(2, false, 4);

    assert!(s.can_admit());
    let first = s.admit_next();
    assert_eq!(first, 0);
    s.start(0);
    assert!(!s.can_admit()); // the next command waits for a terminal state
    s.complete(0, true, 12, None);

    assert!(s.can_admit());
    let second = s.admit_next();
    assert_eq!(second, 1);
    s.start(1);
    s.complete(1, false, 7, Some("Command 'exit 1' failed".to_string()));

    assert!(!s.can_admit());
    assert!(s.finished());

    let report = s.report(20);
    assert!(!report.overall_success);
    assert_eq!(report.results.len(), 2); // no third result
    assert!(report.results[0].success);
    assert!(!report.results[1].success);
    assert!(!report.parallel);
}

#[test]
fn scenario_parallel_two_batches() {
    // Three parallel commands under a cap of two: admission happens in two
    // batches, so the third command starts only after one of the first two
    // finishes.
    let mut s = Scheduler::new(3, true, 2);

    assert!(s.can_admit());
    s.admit_next();
    s.start(0);
    assert!(s.can_admit());
    s.admit_next();
    s.start(1);

    // The cap is reached: the third command cannot be admitted yet.
    assert!(!s.can_admit());

    s.complete(0, true, 1000, None);
    assert!(s.can_admit());
    let third = s.admit_next();
    assert_eq!(third, 2);
    s.start(2);

    s.complete(1, true, 1000, None);
    s.complete(2, true, 1000, None);
    assert!(s.finished());

    let report = s.report(2000);
    assert!(report.overall_success);
    assert_eq!(report.results.len(), 3);
    assert!(report.parallel);
    assert_eq!(report.max_concurrency, 2);
}

#[test]
fn scenario_empty_command_list() {
    let s = Scheduler::new(0, false, 4);
    assert!(s.finished());
    let report = s.report(0);
    assert_eq!(report.results.len(), 0);
    assert!(report.overall_success);
}

#[test]
fn scenario_spawn_failure_sequential() {
    // The first command's working directory does not exist: its spawn fails,
    // and no later command runs.
    let mut s = Scheduler::new(2, false, 4);

    s.admit_next();
    s.spawn_failed(0, 0, "No such file or directory".to_string());

    assert!(!s.can_admit());
    s.skip_remaining();
    assert_eq!(s.state(1), CommandState::Skipped);
    assert!(s.finished());

    let report = s.report(1);
    assert!(!report.overall_success);
    assert_eq!(report.results.len(), 1); // the skipped command has no result
    assert!(!report.results[0].success);
    assert_eq!(
        report.results[0].error.as_deref(),
        Some("No such file or directory")
    );
}

#[test]
fn scenario_parallel_failure_no_cancellation() {
    // A failing command aborts nothing in parallel mode: the others still
    // run to completion and admission goes on.
    let mut s = Scheduler::new(3, true, 2);
    s.admit_next();
    s.start(0);
    s.admit_next();
    s.start(1);
    s.complete(0, false, 5, Some("boom".to_string()));

    assert!(s.can_admit());
    s.admit_next();
    s.start(2);
    s.complete(1, true, 5, None);
    s.complete(2, true, 5, None);
    assert!(s.finished());

    let report = s.report(15);
    assert!(!report.overall_success);
    assert_eq!(report.results.len(), 3);
}

#[test]
fn test_scheduler_states() {
    let mut s = Scheduler::new(2, true, 1);
    assert_eq!(s.len(), 2);
    assert_eq!(s.state(0), CommandState::Pending);
    s.admit_next();
    assert_eq!(s.state(0), CommandState::Spawning);
    s.start(0);
    assert_eq!(s.state(0), CommandState::Running);
    s.complete(0, true, 1, None);
    assert_eq!(s.state(0), CommandState::Completed { success: true });
}
