use rget::download::{plan_range, RangePlan};
use rget::error::RgetError;

#[test]
fn partition_example_1001_4() {
    // 1001 bytes over 4 segments: section = 250, last segment absorbs the rest.
    assert_eq!(
        plan_range(0, 4, Some(1001), 0),
        Ok(RangePlan::Range { from: 0, to: 249 })
    );
    assert_eq!(
        plan_range(1, 4, Some(1001), 0),
        Ok(RangePlan::Range { from: 250, to: 499 })
    );
    assert_eq!(
        plan_range(2, 4, Some(1001), 0),
        Ok(RangePlan::Range { from: 500, to: 749 })
    );
    assert_eq!(
        plan_range(3, 4, Some(1001), 0),
        Ok(RangePlan::Range { from: 750, to: 1000 })
    );
}

#[test]
fn last_segment_absorbs_remainder() {
    match plan_range(3, 4, Some(1001), 0) {
        Ok(RangePlan::Range { from, to }) => assert_eq!(to - from + 1, 251),
        other => panic!("expected a range, got {:?}", other),
    }
}

#[test]
fn single_segment_covers_everything() {
    assert_eq!(
        plan_range(0, 1, Some(10), 0),
        Ok(RangePlan::Range { from: 0, to: 9 })
    );
}

#[test]
fn resume_complete_every_segment() {
    // Every part file already holds its planned span: nothing is requested.
    let spans = [250u64, 250, 250, 251];
    for (i, span) in spans.iter().enumerate() {
        assert_eq!(
            plan_range(i as u64, 4, Some(1001), *span),
            Ok(RangePlan::AlreadyComplete)
        );
    }
}

#[test]
fn resume_shifts_range_start() {
    assert_eq!(
        plan_range(1, 4, Some(1001), 100),
        Ok(RangePlan::Range { from: 350, to: 499 })
    );
}

#[test]
fn total_equals_existing_on_resume() {
    assert_eq!(plan_range(0, 1, Some(42), 42), Ok(RangePlan::AlreadyComplete));
}

#[test]
fn tiny_file_leaves_early_segments_empty() {
    // 1 byte over 4 segments: the first three spans are empty, the last has it.
    assert_eq!(plan_range(0, 4, Some(1), 0), Ok(RangePlan::AlreadyComplete));
    assert_eq!(plan_range(1, 4, Some(1), 0), Ok(RangePlan::AlreadyComplete));
    assert_eq!(plan_range(2, 4, Some(1), 0), Ok(RangePlan::AlreadyComplete));
    assert_eq!(plan_range(3, 4, Some(1), 0), Ok(RangePlan::Range { from: 0, to: 0 }));
}

#[test]
fn oversized_part_is_inconsistent() {
    assert_eq!(
        plan_range(1, 4, Some(1001), 300),
        Err(RgetError::InconsistentResumeState {
            part: 1,
            existing: 300,
            planned: 250,
        })
    );
}

#[test]
fn unknown_length_plans_unranged() {
    assert_eq!(plan_range(0, 1, None, 0), Ok(RangePlan::Unranged));
}
