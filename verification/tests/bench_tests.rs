use er_planet::bench::{
    advance, bench_options_from_args, bench_start, BenchOptions, BenchPhase, BenchStep, DEFAULT_MEASURE,
    DEFAULT_WARMUP,
};

fn args(items: &[&str]) -> Vec<String> {
    items.iter().map(|s| s.to_string()).collect()
}

#[test]
fn bench_options_need_the_bench_flag() {
    assert_eq!(bench_options_from_args(&args(&["game", "--bench-warmup", "5"])), None);
    assert_eq!(
        bench_options_from_args(&args(&["game", "--bench"])),
        Some(BenchOptions { output_path: None, warmup_frames: DEFAULT_WARMUP, measure_frames: DEFAULT_MEASURE })
    );
    assert_eq!(
        bench_options_from_args(&args(&[
            "game", "--bench-output", "out/report.txt", "--bench", "--bench-warmup", "5", "--bench-measure", "9"
        ])),
        Some(BenchOptions { output_path: Some("out/report.txt".to_string()), warmup_frames: 5, measure_frames: 9 })
    );
}

#[test]
fn bench_option_values_are_consumed_and_bad_counts_fall_back() {
    // The value after a value-taking flag is never read as a flag itself.
    assert_eq!(bench_options_from_args(&args(&["game", "--bench-output", "--bench"])), None);
    assert_eq!(
        bench_options_from_args(&args(&["game", "--bench", "--bench-warmup", "lots", "--bench-measure"])),
        Some(BenchOptions { output_path: None, warmup_frames: DEFAULT_WARMUP, measure_frames: DEFAULT_MEASURE })
    );
    // The program name is not an option.
    assert_eq!(bench_options_from_args(&args(&["--bench"])), None);
}

#[test]
fn each_scenario_runs_its_warmup_then_its_measured_frames() {
    let mut p = bench_start();
    let mut steps = Vec::new();
    loop {
        let step = advance(&mut p, 2, 2, 3);
        steps.push(step);
        if step == BenchStep::Finish {
            break;
        }
    }
    assert_eq!(steps.len(), 2 * (2 + 3) + 1);
    assert_eq!(
        steps[0],
        BenchStep::Frame { scenario: 0, place_camera: true, start_measuring: false, record_duration: false, scenario_done: false }
    );
    assert_eq!(
        steps[1],
        BenchStep::Frame { scenario: 0, place_camera: false, start_measuring: true, record_duration: false, scenario_done: false }
    );
    assert_eq!(
        steps[4],
        BenchStep::Frame { scenario: 0, place_camera: false, start_measuring: false, record_duration: true, scenario_done: true }
    );
    assert_eq!(
        steps[5],
        BenchStep::Frame { scenario: 1, place_camera: true, start_measuring: false, record_duration: false, scenario_done: false }
    );
    let recorded = steps.iter().filter(|s| matches!(s, BenchStep::Frame { record_duration: true, .. })).count();
    assert_eq!(recorded, 6);
    assert!(p.completed);
    assert_eq!(advance(&mut p, 2, 2, 3), BenchStep::Idle);
}

#[test]
fn zero_length_phases_still_take_one_frame() {
    let mut p = bench_start();
    assert!(matches!(advance(&mut p, 1, 0, 0), BenchStep::Frame { start_measuring: true, .. }));
    assert_eq!(p.phase, BenchPhase::Measure);
    assert!(matches!(advance(&mut p, 1, 0, 0), BenchStep::Frame { scenario_done: true, .. }));
    assert_eq!(advance(&mut p, 1, 0, 0), BenchStep::Finish);
}
