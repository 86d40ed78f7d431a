use er_planet::settings::{parse_settings, settings_text, GraphicsSettings};

#[test]
fn defaults_when_the_file_is_empty() {
    let s = parse_settings("");
    assert_eq!(s, GraphicsSettings { vsync: false, msaa: 4, fullscreen: false });
    assert_eq!(GraphicsSettings::default(), s);
}

#[test]
fn reads_keys_values_and_ignores_the_rest() {
    let s = parse_settings("vsync=1\nmsaa=8\r\nfullscreen = 1 \nunknown=3\nnot a setting\n");
    assert_eq!(s, GraphicsSettings { vsync: true, msaa: 8, fullscreen: true });

    let s = parse_settings("msaa=lots\nvsync=yes\nfullscreen=1\nfullscreen=0");
    assert_eq!(s, GraphicsSettings { vsync: false, msaa: 4, fullscreen: false });

    let s = parse_settings("  msaa =\t+2  \nmsaa=4294967296\n");
    assert_eq!(s.msaa, 2);
}

#[test]
fn written_settings_text_has_the_expected_lines() {
    let s = GraphicsSettings { vsync: true, msaa: 16, fullscreen: false };
    assert_eq!(settings_text(&s), "vsync=1\nmsaa=16\nfullscreen=0\n");
    let s = GraphicsSettings { vsync: false, msaa: 0, fullscreen: true };
    assert_eq!(settings_text(&s), "vsync=0\nmsaa=0\nfullscreen=1\n");
}

#[test]
fn saved_settings_load_back_unchanged() {
    for s in [
        GraphicsSettings { vsync: true, msaa: 4, fullscreen: true },
        GraphicsSettings { vsync: false, msaa: u32::MAX, fullscreen: false },
        GraphicsSettings { vsync: true, msaa: 1, fullscreen: false },
    ] {
        assert_eq!(parse_settings(&settings_text(&s)), s);
    }
}
