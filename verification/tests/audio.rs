use lox_linein_bridge::audio::{
    find_device, list_input_device_details, select_config, DeviceReport, RateRange, ResamplerMode,
    TARGET_CHANNELS,
};

fn range(channels: u16, min_rate: u32, max_rate: u32) -> RateRange {
    RateRange {
        channels,
        min_rate,
        max_rate,
    }
}

#[test]
fn modes_are_parsed_by_their_names() {
    for name in ["linear", "basic", " Linear\n", "BASIC"] {
        assert_eq!(ResamplerMode::parse(name), Some(ResamplerMode::Linear));
    }
    for name in ["sinc", "rubato", "quality", "hq", "\tSINC ", "Hq"] {
        assert_eq!(ResamplerMode::parse(name), Some(ResamplerMode::SincQuality));
    }
    for name in ["sinc-fast", "fast", "medium", "Sinc-Fast", "FAST"] {
        assert_eq!(ResamplerMode::parse(name), Some(ResamplerMode::SincFast));
    }
    for name in ["", " ", "sinc fast", "sincfast", "best", "linear!"] {
        assert_eq!(ResamplerMode::parse(name), None);
    }
    assert_eq!(ResamplerMode::parse("\u{a0}FAST\u{3000}"), Some(ResamplerMode::SincFast));
    assert_eq!(ResamplerMode::parse("ФАСТ"), None);
    assert_eq!(ResamplerMode::from_lower_name("LINEAR"), None);
    assert_eq!(ResamplerMode::from_lower_name("hq"), Some(ResamplerMode::SincQuality));
}

#[test]
fn labels_read_back() {
    let modes = [
        (ResamplerMode::Linear, "linear"),
        (ResamplerMode::SincFast, "sinc-fast"),
        (ResamplerMode::SincQuality, "sinc"),
    ];
    for (mode, label) in modes {
        assert_eq!(mode.label(), label);
        assert_eq!(ResamplerMode::parse(mode.label()), Some(mode));
    }
}

#[test]
fn devices_are_described() {
    let devices = vec![
        DeviceReport {
            name: Some("hw:0".to_string()),
            configs: Some(vec![
                range(1, 44_100, 48_000),
                range(6, 8_000, 48_000),
                range(2, 96_000, 96_000),
            ]),
        },
        DeviceReport {
            name: None,
            configs: None,
        },
    ];
    let details = list_input_device_details(devices);
    assert_eq!(details.len(), 2);
    assert_eq!(details[0].id, "hw:0");
    assert_eq!(details[0].name, "hw:0");
    assert_eq!(details[0].channels, 6);
    assert_eq!(details[0].sample_rates, [8_000, 44_100, 48_000, 96_000]);
    assert_eq!(details[1].id, "Unknown Device");
    assert_eq!(details[1].name, "Unknown Device");
    assert_eq!(details[1].channels, 0);
    assert!(details[1].sample_rates.is_empty());
    assert!(list_input_device_details(vec![]).is_empty());
}

#[test]
fn the_first_stereo_configuration_with_the_rate_is_selected() {
    assert_eq!(TARGET_CHANNELS, 2);
    let configs = vec![
        range(1, 8_000, 96_000),
        range(2, 8_000, 44_100),
        range(2, 48_000, 48_000),
        range(2, 8_000, 96_000),
    ];
    assert_eq!(select_config(&configs, 48_000), Some(2));
    assert_eq!(select_config(&configs, 44_100), Some(1));
    assert_eq!(select_config(&configs, 8_000), Some(1));
    assert_eq!(select_config(&configs, 96_000), Some(3));
    assert_eq!(select_config(&configs, 192_000), None);
    assert_eq!(select_config(&vec![], 48_000), None);
}

#[test]
fn the_first_device_with_the_name_is_found() {
    let names = vec![
        None,
        Some("a".to_string()),
        Some("b".to_string()),
        Some("b".to_string()),
    ];
    assert_eq!(find_device(&names, "b"), Some(2));
    assert_eq!(find_device(&names, "a"), Some(1));
    assert_eq!(find_device(&names, "B"), None);
    assert_eq!(find_device(&names, ""), None);
}
