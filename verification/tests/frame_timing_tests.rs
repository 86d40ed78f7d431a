use er_planet::frame_timing::{main_schedule_stage_names, MainWorldFrameTimings, STAGE_COUNT};

fn fresh_timings() -> MainWorldFrameTimings {
    MainWorldFrameTimings::default()
}

fn record_full_frame(timings: &mut MainWorldFrameTimings, stage_count: usize) {
    for index in 0..=stage_count {
        timings.record_boundary(index);
    }
}

#[test]
fn first_frame_is_a_capture_frame() {
    let mut timings = fresh_timings();
    timings.record_boundary(0);
    assert!(timings.is_capturing());
    assert_eq!(timings.frames_until_capture(), timings.capture_period_frames());
}

#[test]
fn non_capture_frames_skip_stage_recording() {
    let mut timings = fresh_timings();
    record_full_frame(&mut timings, 7);
    assert!(timings.stages.len() == 7);

    for _ in 0..timings.capture_period_frames() {
        timings.record_boundary(0);
        assert!(!timings.is_capturing());
        timings.record_boundary(1);
    }
    assert_eq!(timings.stages.len(), 7);
}

#[test]
fn capture_cadence_repeats_every_period_plus_one_frames() {
    let mut timings = fresh_timings();
    let stage_count = 7;
    record_full_frame(&mut timings, stage_count);
    let first_capture_stages = timings.stages.len();

    for _ in 0..timings.capture_period_frames() {
        timings.record_boundary(0);
        for index in 1..=stage_count {
            timings.record_boundary(index);
        }
    }

    timings.record_boundary(0);
    assert!(timings.is_capturing());
    record_full_frame(&mut timings, stage_count);
    assert_eq!(timings.stages.len(), first_capture_stages);
}

#[test]
fn frame_duration_is_none_before_first_boundary() {
    let timings = fresh_timings();
    assert!(timings.frame_duration.is_none());
}

#[test]
fn frame_duration_becomes_some_after_second_frame_starts() {
    let mut timings = fresh_timings();
    timings.record_boundary(0);
    assert!(timings.frame_duration.is_none());
    timings.record_boundary(0);
    assert!(timings.frame_duration.is_some());
}

#[test]
fn stage_names_match_expected_schedule_order() {
    let plugin_names = ["First", "PreUpdate", "RunFixedMainLoop", "Update", "SpawnScene", "PostUpdate", "Last"];
    let timings = MainWorldFrameTimings::with_stage_names(plugin_names);
    assert_eq!(timings.stage_names(), plugin_names);
    assert_eq!(timings.stage_names().len(), 7);
    assert_eq!(main_schedule_stage_names(), plugin_names);
}

#[test]
fn captured_stages_carry_the_schedule_names_in_order() {
    let mut timings = MainWorldFrameTimings::for_main_schedule();
    record_full_frame(&mut timings, STAGE_COUNT);
    let names: Vec<&str> = timings.stages.iter().map(|(name, _)| *name).collect();
    assert_eq!(names, main_schedule_stage_names().to_vec());
}

#[test]
fn a_capture_missing_a_boundary_records_nothing() {
    let mut timings = MainWorldFrameTimings::for_main_schedule();
    timings.record_boundary(0);
    for index in 2..=STAGE_COUNT {
        timings.record_boundary(index);
    }
    assert!(timings.stages.is_empty());
}
