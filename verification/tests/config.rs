use lox_linein_bridge::config::{
    backup_config_path, backup_step, config_with_id, fallback_config_path, load_step, new_config,
    preferred_config_path, write_step, BackupProgress, BackupStep, Config, ConfigError, ConfigSlot, LoadProgress, LoadStep,
    WriteProgress, WriteStep,
};
use std::path::{Path, PathBuf};

const PREFERRED: &str = "/etc/lox-linein-bridge/config.toml";

#[test]
fn configuration_paths() {
    assert_eq!(preferred_config_path(), PREFERRED);
    assert_eq!(
        fallback_config_path(Some("/home/pi")),
        Ok("/home/pi/.config/lox-linein-bridge/config.toml".to_string())
    );
    assert_eq!(fallback_config_path(None), Err(ConfigError::HomeNotSet));
}

#[test]
fn the_fallback_path_is_joined_as_paths_are() {
    for home in ["/home/pi", "/home/pi/", "/", "", "relative", "/a//", "/hömé"] {
        let expected = PathBuf::from(home)
            .join(".config/lox-linein-bridge")
            .join("config.toml");
        let path = fallback_config_path(Some(home)).expect("there is a home");
        assert_eq!(path, expected.display().to_string());
    }
}

#[test]
fn a_backup_has_another_extension() {
    for path in [PREFERRED, "/home/pi/.config/lox-linein-bridge/config.toml"] {
        for timestamp in [0u64, 9, 10, 1_768_000_000, u64::MAX] {
            let expected = Path::new(path).with_extension(format!("invalid.{}", timestamp));
            let backup = backup_config_path(path, timestamp);
            assert_eq!(backup, expected.display().to_string());
            assert_ne!(backup, path);
            assert_eq!(Path::new(&backup).parent(), Path::new(path).parent());
        }
    }
    assert_eq!(
        backup_config_path(PREFERRED, 17),
        "/etc/lox-linein-bridge/config.invalid.17"
    );
}

#[test]
fn errors_have_messages() {
    assert_eq!(ConfigError::HomeNotSet.message(), "HOME is not set");
    assert_eq!(ConfigError::WriteFallback.message(), "write fallback config");
}

fn is_v4(id: &str) -> bool {
    let chars: Vec<char> = id.chars().collect();
    chars.len() == 36
        && chars.iter().enumerate().all(|(i, c)| match i {
            8 | 13 | 18 | 23 => *c == '-',
            14 => *c == '4',
            19 => "89ab".contains(*c),
            _ => c.is_ascii_digit() || ('a'..='f').contains(c),
        })
}

#[test]
fn a_new_configuration_has_a_random_identifier() {
    let ids: Vec<String> = (0..100).map(|_| new_config().bridge_id).collect();
    for id in &ids {
        assert!(is_v4(id), "{}", id);
        assert_eq!(uuid::Uuid::parse_str(id).expect("it is one").to_string(), *id);
    }
    assert_ne!(ids[0], ids[1]);
    let config = config_with_id("me".to_string());
    assert_eq!(config.bridge_id, "me");
    assert_eq!(config.preferred_server_name, None);
    assert_eq!(config.preferred_server_mac, None);
    assert_eq!(config.on_command, None);
}

fn tried(slot: ConfigSlot, written: bool) -> WriteProgress {
    WriteProgress::Tried {
        slot,
        path: "p".to_string(),
        written,
    }
}

#[test]
fn writing_falls_back_once() {
    match write_step(WriteProgress::Start, None) {
        WriteStep::Try { slot, path } => {
            assert_eq!(slot, ConfigSlot::Preferred);
            assert_eq!(path, PREFERRED);
        }
        other => panic!("{:?}", other),
    }
    assert!(matches!(
        write_step(tried(ConfigSlot::Preferred, true), None),
        WriteStep::Done { path } if path == "p"
    ));
    match write_step(tried(ConfigSlot::Preferred, false), Some("/root")) {
        WriteStep::Try { slot, path } => {
            assert_eq!(slot, ConfigSlot::Fallback);
            assert_eq!(path, "/root/.config/lox-linein-bridge/config.toml");
        }
        other => panic!("{:?}", other),
    }
    assert!(matches!(
        write_step(tried(ConfigSlot::Preferred, false), None),
        WriteStep::Fail(ConfigError::HomeNotSet)
    ));
    assert!(matches!(
        write_step(tried(ConfigSlot::Fallback, true), Some("/root")),
        WriteStep::Done { path } if path == "p"
    ));
    assert!(matches!(
        write_step(tried(ConfigSlot::Fallback, false), Some("/root")),
        WriteStep::Fail(ConfigError::WriteFallback)
    ));
}

#[test]
fn loading_tries_both_places_before_it_creates() {
    match load_step(LoadProgress::Start, None) {
        LoadStep::Probe { slot, path } => {
            assert_eq!(slot, ConfigSlot::Preferred);
            assert_eq!(path, PREFERRED);
        }
        other => panic!("{:?}", other),
    }
    let slot = ConfigSlot::Preferred;
    for progress in [LoadProgress::Missing { slot }, LoadProgress::Invalid { slot }] {
        match load_step(progress, Some("/root")) {
            LoadStep::Probe { slot, path } => {
                assert_eq!(slot, ConfigSlot::Fallback);
                assert_eq!(path, "/root/.config/lox-linein-bridge/config.toml");
            }
            other => panic!("{:?}", other),
        }
    }
    for progress in [LoadProgress::Missing { slot }, LoadProgress::Invalid { slot }] {
        assert!(matches!(
            load_step(progress, None),
            LoadStep::Fail(ConfigError::HomeNotSet)
        ));
    }
    let slot = ConfigSlot::Fallback;
    for progress in [LoadProgress::Missing { slot }, LoadProgress::Invalid { slot }] {
        assert!(matches!(load_step(progress, Some("/root")), LoadStep::Create));
    }
}

#[test]
fn a_valid_file_is_used() {
    let loaded = LoadProgress::Loaded {
        path: "p".to_string(),
        config: config_with_id("me".to_string()),
    };
    match load_step(loaded, None) {
        LoadStep::Use { path, config } => {
            assert_eq!(path, "p");
            assert_eq!(config.bridge_id, "me");
        }
        other => panic!("{:?}", other),
    }
}

#[derive(Clone)]
enum File {
    Missing,
    Invalid,
    Valid(Config),
}

/// Runs the steps on two files in memory, of which some can be written to.
fn run(
    files: &mut [File; 2],
    writable: [bool; 2],
    home: Option<&str>,
) -> Result<(String, Config), ConfigError> {
    let index = |slot: ConfigSlot| match slot {
        ConfigSlot::Preferred => 0usize,
        ConfigSlot::Fallback => 1,
    };
    let mut progress = LoadProgress::Start;
    loop {
        match load_step(progress, home) {
            LoadStep::Probe { slot, path } => {
                progress = match files[index(slot)].clone() {
                    File::Missing => LoadProgress::Missing { slot },
                    File::Invalid => {
                        files[index(slot)] = File::Missing;
                        LoadProgress::Invalid { slot }
                    }
                    File::Valid(config) => LoadProgress::Loaded { path, config },
                };
            }
            LoadStep::Use { path, config } => return Ok((path, config)),
            LoadStep::Create => break,
            LoadStep::Fail(error) => return Err(error),
        }
    }
    let config = new_config();
    let mut progress = WriteProgress::Start;
    loop {
        match write_step(progress, home) {
            WriteStep::Try { slot, path } => {
                let written = writable[index(slot)];
                files[index(slot)] = if written {
                    File::Valid(config.clone())
                } else {
                    File::Invalid
                };
                progress = WriteProgress::Tried { slot, path, written };
            }
            WriteStep::Done { path } => return Ok((path, config)),
            WriteStep::Fail(error) => return Err(error),
        }
    }
}

#[test]
fn a_second_run_gives_the_same_configuration() {
    let states = || {
        [
            File::Missing,
            File::Invalid,
            File::Valid(config_with_id("mine".to_string())),
        ]
    };
    let mut successes = 0;
    for preferred in states() {
        for fallback in states() {
            for writable in [[true, true], [true, false], [false, true], [false, false]] {
                for home in [Some("/root"), None] {
                    let mut files = [preferred.clone(), fallback.clone()];
                    let Ok((path, config)) = run(&mut files, writable, home) else {
                        continue;
                    };
                    successes += 1;
                    let (again, same) = run(&mut files, writable, home).expect("it lies there");
                    assert_eq!(again, path);
                    assert_eq!(same.bridge_id, config.bridge_id);
                    assert_eq!(same.preferred_server_name, config.preferred_server_name);
                    assert_eq!(same.preferred_server_mac, config.preferred_server_mac);
                    assert_eq!(same.on_command, config.on_command);
                }
            }
        }
    }
    // A valid file in the preferred place serves all 24 cases there are of it. One in the
    // fallback place serves 8 with a home, and 12 new ones can be written.
    assert_eq!(successes, 24 + 8 + 12);
}

#[test]
fn nothing_is_made_without_a_place_for_it() {
    let mut files = [File::Missing, File::Invalid];
    assert_eq!(
        run(&mut files, [false, false], Some("/root")).expect_err("nothing can be written"),
        ConfigError::WriteFallback
    );
    let mut files = [File::Invalid, File::Missing];
    assert_eq!(
        run(&mut files, [true, true], None).expect_err("there is no home"),
        ConfigError::HomeNotSet
    );
}

#[test]
fn an_invalid_file_is_renamed_or_copied_and_removed() {
    assert_eq!(backup_step(BackupProgress::Start), BackupStep::Rename);
    assert_eq!(backup_step(BackupProgress::Renamed { done: true }), BackupStep::Done);
    assert_eq!(backup_step(BackupProgress::Renamed { done: false }), BackupStep::Copy);
    assert_eq!(backup_step(BackupProgress::Copied { done: true }), BackupStep::Remove);
    assert_eq!(backup_step(BackupProgress::Copied { done: false }), BackupStep::Fail);
    assert_eq!(backup_step(BackupProgress::Removed { done: true }), BackupStep::Done);
    assert_eq!(backup_step(BackupProgress::Removed { done: false }), BackupStep::Fail);
}

#[test]
fn a_backup_never_loses_the_file() {
    for outcomes in 0..8u32 {
        let (mut old_name, mut new_name) = (true, false);
        let mut attempts = (0..3).map(|i| outcomes >> i & 1 == 1);
        let mut progress = BackupProgress::Start;
        loop {
            let step = backup_step(progress);
            if matches!(step, BackupStep::Done | BackupStep::Fail) {
                assert!(old_name || new_name);
                assert_eq!(step == BackupStep::Done, new_name && !old_name);
                break;
            }
            let done = attempts.next().expect("three attempts at most");
            progress = match step {
                BackupStep::Rename => {
                    if done {
                        (old_name, new_name) = (false, true);
                    }
                    BackupProgress::Renamed { done }
                }
                BackupStep::Copy => {
                    new_name = done;
                    BackupProgress::Copied { done }
                }
                _ => {
                    old_name = !done;
                    BackupProgress::Removed { done }
                }
            };
        }
    }
}
