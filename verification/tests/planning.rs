use audio_splitter::plan::calculate_chunk_plan;
use audio_splitter::plan::calculate_equal_split_plan;
use audio_splitter::plan::PlanError;

fn seconds(micros: u64) -> f64 {
    micros as f64 / 1_000_000.0
}

#[test]
fn splits_into_expected_chunk_lengths() {
    let plan = calculate_chunk_plan(3_600_000_000, 228_000, 25 * 1024 * 1024).unwrap();
    assert_eq!(plan.len(), 5);
    assert!((seconds(plan[0].start_micros) - 0.0).abs() < 1e-6);
    assert!((seconds(plan[0].duration_micros) - 864.0).abs() < 1e-6);
    assert!((seconds(plan[3].start_micros) - 2592.0).abs() < 1e-6);
    assert!((seconds(plan[3].duration_micros) - 864.0).abs() < 1e-6);
    assert!((seconds(plan[4].start_micros) - 3456.0).abs() < 1e-6);
    assert!((seconds(plan[4].duration_micros) - 144.0).abs() < 1e-6);
}

#[test]
fn rejects_invalid_inputs() {
    assert!(calculate_chunk_plan(0, 228_000, 25 * 1024 * 1024).is_err());
    assert!(calculate_chunk_plan(10_000_000, 0, 25 * 1024 * 1024).is_err());
    assert!(calculate_chunk_plan(10_000_000, 228_000, 0).is_err());
}

#[test]
fn caps_chunk_duration_at_transcription_limit() {
    let plan = calculate_chunk_plan(4_000_000_000, 128_000, 25 * 1024 * 1024).unwrap();
    assert_eq!(plan.len(), 4);
    assert!((seconds(plan[0].duration_micros) - 1300.0).abs() < 1e-6);
    assert!((seconds(plan[1].duration_micros) - 1300.0).abs() < 1e-6);
    assert!((seconds(plan[2].duration_micros) - 1300.0).abs() < 1e-6);
    assert!((seconds(plan[3].duration_micros) - 100.0).abs() < 1e-6);
}

#[test]
fn split_plan_divides_duration_evenly_with_remainder() {
    let plan = calculate_equal_split_plan(100_000_000, 3).unwrap();
    assert_eq!(plan.len(), 3);
    assert!((seconds(plan[0].start_micros) - 0.0).abs() < 1e-6);
    assert!((seconds(plan[0].duration_micros) - (100.0 / 3.0)).abs() < 1e-6);
    assert!((seconds(plan[1].start_micros) - (100.0 / 3.0)).abs() < 1e-6);
    assert!((seconds(plan[1].duration_micros) - (100.0 / 3.0)).abs() < 1e-6);
    assert!((seconds(plan[2].start_micros) - (200.0 / 3.0)).abs() < 1e-6);
    assert!((seconds(plan[2].duration_micros) - (100.0 - (200.0 / 3.0))).abs() < 1e-6);
}

#[test]
fn split_plan_rejects_invalid_requests() {
    assert!(calculate_equal_split_plan(0, 3).is_err());
    assert!(calculate_equal_split_plan(10_000_000, 1).is_err());
}

#[test]
fn invalid_chunk_inputs_report_invalid_input() {
    assert_eq!(
        calculate_chunk_plan(0, 228_000, 25 * 1024 * 1024),
        Err(PlanError::InvalidInput)
    );
    assert_eq!(
        calculate_chunk_plan(10_000_000, 0, 25 * 1024 * 1024),
        Err(PlanError::InvalidInput)
    );
    assert_eq!(
        calculate_chunk_plan(10_000_000, 228_000, 0),
        Err(PlanError::InvalidInput)
    );
}

#[test]
fn infeasible_budget_reports_duration_too_small() {
    // One byte of budget at 228 kbps allows well under a second per chunk.
    assert_eq!(
        calculate_chunk_plan(10_000_000, 228_000, 1),
        Err(PlanError::DurationTooSmall)
    );
}

#[test]
fn invalid_split_inputs_report_invalid_input() {
    assert_eq!(calculate_equal_split_plan(0, 3), Err(PlanError::InvalidInput));
    assert_eq!(
        calculate_equal_split_plan(10_000_000, 1),
        Err(PlanError::InvalidInput)
    );
}

#[test]
fn chunk_plan_is_contiguous_and_exact() {
    let total: u64 = 3_600_000_000;
    let plan = calculate_chunk_plan(total, 228_000, 25 * 1024 * 1024).unwrap();
    assert_eq!(plan[0].start_micros, 0);
    for i in 0..plan.len() - 1 {
        assert_eq!(
            plan[i + 1].start_micros,
            plan[i].start_micros + plan[i].duration_micros
        );
    }
    let last = plan[plan.len() - 1];
    assert_eq!(last.start_micros + last.duration_micros, total);
}

#[test]
fn equal_split_is_contiguous_exact_and_fair() {
    let total: u64 = 100_000_001;
    let parts: usize = 7;
    let plan = calculate_equal_split_plan(total, parts).unwrap();
    assert_eq!(plan.len(), parts);
    assert_eq!(plan[0].start_micros, 0);
    for i in 0..parts - 1 {
        assert_eq!(
            plan[i + 1].start_micros,
            plan[i].start_micros + plan[i].duration_micros
        );
    }
    let last = plan[parts - 1];
    assert_eq!(last.start_micros + last.duration_micros, total);
    let fair = total / parts as u64;
    for w in &plan {
        assert!(w.duration_micros == fair || w.duration_micros == fair + 1);
    }
}

#[test]
fn tiny_trailing_window_is_kept() {
    // 864 seconds per chunk; one extra microsecond becomes its own window.
    let plan = calculate_chunk_plan(864_000_001, 228_000, 25 * 1024 * 1024).unwrap();
    assert_eq!(plan.len(), 2);
    assert_eq!(plan[1].start_micros, 864_000_000);
    assert_eq!(plan[1].duration_micros, 1);
}

#[test]
fn replanning_identical_inputs_is_identical() {
    let first = calculate_chunk_plan(3_600_000_000, 228_000, 25 * 1024 * 1024).unwrap();
    let second = calculate_chunk_plan(3_600_000_000, 228_000, 25 * 1024 * 1024).unwrap();
    assert_eq!(first, second);
    let first_split = calculate_equal_split_plan(100_000_000, 3).unwrap();
    let second_split = calculate_equal_split_plan(100_000_000, 3).unwrap();
    assert_eq!(first_split, second_split);
}
