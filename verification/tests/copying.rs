use dasd_install::{
    apply_ranges, CopyCursor, CopyPhase, CopyStep, DasdError, Range, STREAM_START,
};

const START: u64 = 1048576;

#[test]
fn stream_start_is_one_mib() {
    assert_eq!(STREAM_START, 1024 * 1024);
}

fn two_ranges() -> Vec<Range> {
    vec![
        Range { in_offset: START + 2, out_offset: 1, length: 3 },
        Range { in_offset: START + 8, out_offset: 6, length: 2 },
    ]
}

#[test]
fn copy_places_each_range_and_leaves_the_rest() {
    let ranges = two_ranges();
    let source: Vec<u8> = (0u8..12).collect();
    let mut dest = vec![100u8; 10];
    assert_eq!(apply_ranges(&ranges, &source, &mut dest), Ok(()));
    assert_eq!(dest, vec![100, 2, 3, 4, 100, 100, 8, 9, 100, 100]);
}

#[test]
fn range_before_cursor_aborts_without_touching_destination() {
    let ranges = vec![Range { in_offset: START - 1, out_offset: 0, length: 4 }];
    let source: Vec<u8> = (0u8..12).collect();
    let mut dest = vec![7u8; 10];
    assert_eq!(
        apply_ranges(&ranges, &source, &mut dest),
        Err(DasdError::PlanConsistency { in_offset: START - 1, cursor: START })
    );
    assert_eq!(dest, vec![7u8; 10]);
}

#[test]
fn overlapping_plan_aborts_after_first_range() {
    let ranges = vec![
        Range { in_offset: START + 2, out_offset: 1, length: 3 },
        Range { in_offset: START + 3, out_offset: 6, length: 2 },
    ];
    let source: Vec<u8> = (0u8..12).collect();
    let mut dest = vec![100u8; 10];
    assert_eq!(
        apply_ranges(&ranges, &source, &mut dest),
        Err(DasdError::PlanConsistency { in_offset: START + 3, cursor: START + 5 })
    );
    // the first range was written, nothing else was touched
    assert_eq!(dest, vec![100, 2, 3, 4, 100, 100, 100, 100, 100, 100]);
}

#[test]
fn short_stream_is_a_truncation_error() {
    let ranges = vec![Range { in_offset: START + 2, out_offset: 1, length: 3 }];
    let source: Vec<u8> = vec![0, 1, 2, 3];  // ends mid-range
    let mut dest = vec![9u8; 10];
    assert_eq!(apply_ranges(&ranges, &source, &mut dest), Err(DasdError::TruncatedStream));
    assert_eq!(dest, vec![9u8; 10]);
}

#[test]
fn stream_too_short_to_reach_a_range_is_a_truncation_error() {
    let ranges = vec![Range { in_offset: START + 50, out_offset: 0, length: 1 }];
    let source: Vec<u8> = vec![0; 10];
    let mut dest = vec![9u8; 4];
    assert_eq!(apply_ranges(&ranges, &source, &mut dest), Err(DasdError::TruncatedStream));
}

#[test]
fn cursor_walks_skip_write_drain_flush_done() {
    let mut cur = CopyCursor::new(two_ranges());
    assert_eq!(cur.next_step(), CopyStep::Skip { amount: 2 });
    assert_eq!(cur.next_step(), CopyStep::Write { out_offset: 1, length: 3 });
    assert_eq!(cur.next_step(), CopyStep::Skip { amount: 3 });
    assert_eq!(cur.next_step(), CopyStep::Write { out_offset: 6, length: 2 });
    assert_eq!(cur.next_step(), CopyStep::Drain);
    assert_eq!(cur.next_step(), CopyStep::Flush);
    assert_eq!(cur.next_step(), CopyStep::Done);
    assert_eq!(cur.next_step(), CopyStep::Done);
    assert_eq!(cur.phase, CopyPhase::Finished);
}

#[test]
fn cursor_aborts_on_inconsistent_plan_before_any_write() {
    let ranges = vec![
        Range { in_offset: START + 2, out_offset: 1, length: 3 },
        Range { in_offset: START + 3, out_offset: 6, length: 2 },
    ];
    let mut cur = CopyCursor::new(ranges);
    assert_eq!(cur.next_step(), CopyStep::Skip { amount: 2 });
    assert_eq!(cur.next_step(), CopyStep::Write { out_offset: 1, length: 3 });
    assert_eq!(
        cur.next_step(),
        CopyStep::Abort(DasdError::PlanConsistency { in_offset: START + 3, cursor: START + 5 })
    );
    // after an abort nothing further is asked for
    assert_eq!(cur.next_step(), CopyStep::Done);
}

#[test]
fn range_at_cursor_needs_no_skip() {
    let ranges = vec![Range { in_offset: START, out_offset: 0, length: 2 }];
    let mut cur = CopyCursor::new(ranges);
    assert_eq!(cur.next_step(), CopyStep::Write { out_offset: 0, length: 2 });
    assert_eq!(cur.next_step(), CopyStep::Drain);
}

#[test]
fn error_variants_are_distinct() {
    assert_ne!(DasdError::Flush, DasdError::Io);
    assert_ne!(DasdError::ToolInvocation, DasdError::Io);
    assert_ne!(
        DasdError::PlanConsistency { in_offset: 1, cursor: 2 },
        DasdError::PlanConsistency { in_offset: 1, cursor: 3 }
    );
}
