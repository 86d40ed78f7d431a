use er_planet::surface_test::{m5_test_options_from_args, M5TestOptions};

fn args(list: &[&str]) -> Vec<String> {
    list.iter().map(|s| s.to_string()).collect()
}

#[test]
fn m5_options_need_a_valid_time_limit() {
    assert_eq!(m5_test_options_from_args(&args(&["game"])), None);
    assert_eq!(m5_test_options_from_args(&args(&["game", "--m5-test"])), None);
    assert_eq!(m5_test_options_from_args(&args(&["game", "--m5-test", "soon"])), None);
    assert_eq!(
        m5_test_options_from_args(&args(&["game", "--m5-test", "120"])),
        Some(M5TestOptions { max_seconds: 120, output_path: None })
    );
}

#[test]
fn m5_options_read_the_report_path_and_the_last_value() {
    assert_eq!(
        m5_test_options_from_args(&args(&["game", "--m5-test-output", "r.json", "--m5-test", "30"])),
        Some(M5TestOptions { max_seconds: 30, output_path: Some("r.json".to_string()) })
    );
    assert_eq!(m5_test_options_from_args(&args(&["game", "--m5-test", "30", "--m5-test", "x"])), None);
    assert_eq!(
        m5_test_options_from_args(&args(&["game", "--m5-test", "x", "--m5-test", "+45"])),
        Some(M5TestOptions { max_seconds: 45, output_path: None })
    );
    // A flag's value is taken even when it looks like another flag.
    assert_eq!(m5_test_options_from_args(&args(&["game", "--m5-test-output", "--m5-test", "9"])), None);
}

#[test]
fn phase_a_settles_after_ten_fine_quiet_frames() {
    let mut count = 0;
    for frame in 1..=10 {
        let (next, done) = er_planet::surface_test::phase_a_settle_step(count, 16, 40, 17, false);
        count = next;
        assert_eq!(count, frame);
        assert_eq!(done, frame == 10);
    }
    // More pending work than a quarter of the active chunks restarts the count.
    assert_eq!(er_planet::surface_test::phase_a_settle_step(5, 101, 400, 17, false), (0, false));
    assert_eq!(er_planet::surface_test::phase_a_settle_step(5, 100, 400, 17, false), (6, false));
    // Coarse detail restarts it too, unless the spacing is already fine.
    assert_eq!(er_planet::surface_test::phase_a_settle_step(9, 0, 0, 16, false), (0, false));
    assert_eq!(er_planet::surface_test::phase_a_settle_step(9, 0, 0, 16, true), (10, true));
}

#[test]
fn saturated_count_is_fine_on_an_unsettled_frame() {
    assert_eq!(er_planet::surface_test::phase_a_settle_step(u32::MAX, 1000, 0, 3, false), (0, false));
}
