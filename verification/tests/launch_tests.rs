use er_planet::config::PlanetPreset;
use er_planet::launch::{
    diffusion_launch_from_args, DiffusionLaunch, has_flag, hardware_profile_for, planet_preset_from_args, planet_seed_from_args,
    DEFAULT_PLANET_SEED,
};

fn args(items: &[&str]) -> Vec<String> {
    items.iter().map(|s| s.to_string()).collect()
}

#[test]
fn seed_flag_value_is_read_as_hex_first() {
    let seed = planet_seed_from_args(&args(&["game", "--seed", "12345"]));
    assert_eq!(seed.0, 0x12345);
}

#[test]
fn seed_flag_value_with_hex_prefix() {
    let seed = planet_seed_from_args(&args(&["game", "--seed", "0x1F"]));
    assert_eq!(seed.0, 31);
    let seed = planet_seed_from_args(&args(&["game", "--seed", "0x0x10"]));
    assert_eq!(seed.0, 16);
}

#[test]
fn seed_flag_falls_back_to_default() {
    assert_eq!(planet_seed_from_args(&args(&["game"])).0, DEFAULT_PLANET_SEED);
    assert_eq!(planet_seed_from_args(&args(&["game", "--seed"])).0, DEFAULT_PLANET_SEED);
    assert_eq!(planet_seed_from_args(&args(&["game", "--seed", "zz"])).0, DEFAULT_PLANET_SEED);
    assert_eq!(planet_seed_from_args(&args(&["game", "--seed", "0x"])).0, DEFAULT_PLANET_SEED);
    assert_eq!(planet_seed_from_args(&[]).0, 0xC0FFEE);
}

#[test]
fn first_seed_flag_wins() {
    let seed = planet_seed_from_args(&args(&["game", "--seed", "7", "--seed", "9"]));
    assert_eq!(seed.0, 7);
    let seed = planet_seed_from_args(&args(&["--miniature", "--seed", "a"]));
    assert_eq!(seed.0, 10);
}

#[test]
fn earth_scale_flag_selects_earth_and_miniature_is_the_default() {
    assert_eq!(planet_preset_from_args(&args(&["game", "--miniature"])), PlanetPreset::MiniatureDebug);
    assert_eq!(planet_preset_from_args(&args(&["game"])), PlanetPreset::MiniatureDebug);
    assert_eq!(planet_preset_from_args(&args(&["game", "--earth-scale"])), PlanetPreset::EarthScale);
    assert_eq!(planet_preset_from_args(&args(&["game", "--seed", "7", "--earth-scale"])), PlanetPreset::EarthScale);
    assert_eq!(planet_preset_from_args(&args(&["game", "--earth-scales"])), PlanetPreset::MiniatureDebug);
    assert!(has_flag(&args(&["game", "--miniature"]), "--miniature"));
    assert!(!has_flag(&args(&["game", "--miniatures"]), "--miniature"));
}

#[test]
fn hardware_profile_comes_from_the_flag_or_the_adapter() {
    let named = args(&["game", "--hardware-profile", "laptop", "--hardware-profile", "other"]);
    assert_eq!(hardware_profile_for(&named, "NVIDIA GeForce RTX 3060"), Some("laptop".to_string()));
    let dangling = args(&["game", "--hardware-profile"]);
    assert_eq!(hardware_profile_for(&dangling, "NVIDIA GeForce RTX 3060"), None);
    assert_eq!(hardware_profile_for(&args(&["game"]), "NVIDIA GeForce RTX 3060"), Some("rtx3060_optimus".to_string()));
    assert_eq!(hardware_profile_for(&args(&["game"]), "nVidia"), Some("rtx3060_optimus".to_string()));
    assert_eq!(hardware_profile_for(&args(&["game"]), "AMD Radeon"), None);
    assert_eq!(hardware_profile_for(&args(&["game"]), ""), None);
}

#[test]
fn diffusion_streaming_needs_a_request_and_an_enabled_run() {
    assert_eq!(diffusion_launch_from_args(&args(&["game"]), false), None);
    assert_eq!(diffusion_launch_from_args(&args(&["game", "--terrain-diffusion"]), true), None);
    assert_eq!(
        diffusion_launch_from_args(&args(&["game", "--terrain-diffusion"]), false),
        Some(DiffusionLaunch { port: 8000, api_scale: 1 })
    );
    assert_eq!(
        diffusion_launch_from_args(
            &args(&["game", "--m5-test", "--terrain-diffusion-port", "9001", "--terrain-diffusion-scale", "4"]),
            false
        ),
        Some(DiffusionLaunch { port: 9001, api_scale: 4 })
    );
    assert_eq!(
        diffusion_launch_from_args(
            &args(&["game", "--learned-stress", "--terrain-diffusion-port", "70000", "--terrain-diffusion-scale", "0"]),
            false
        ),
        Some(DiffusionLaunch { port: 8000, api_scale: 1 })
    );
    assert_eq!(
        diffusion_launch_from_args(&args(&["game", "--terrain-diffusion", "--terrain-diffusion-scale", "256"]), false),
        Some(DiffusionLaunch { port: 8000, api_scale: 1 })
    );
}
