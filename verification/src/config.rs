//! Where the configuration lies, and the order in which places are tried.

use vstd::prelude::*;

use crate::text::append_decimal;

verus! {

/// The configuration of a bridge.
#[derive(Debug, Clone)]
pub struct Config {
    pub bridge_id: String,
    pub preferred_server_name: Option<String>,
    pub preferred_server_mac: Option<String>,
    /// Run for every command the server sends, with the command and its arguments
    /// as positional parameters: `start`, `stop`, `play`, `pause`, `next`,
    /// `previous`, and whatever the server adds later. `start` is what switches on
    /// gear that does not power up by itself.
    pub on_command: Option<String>,
}

/// Why there is no configuration.
#[derive(Debug, Clone, Copy, PartialEq, Eq)]
pub enum ConfigError {
    /// There is no home directory.
    HomeNotSet,
    /// Neither place can be written to.
    WriteFallback,
}

impl ConfigError {
    pub fn message(&self) -> (r: String)
        ensures
            r@ == (match *self {
                ConfigError::HomeNotSet => "HOME is not set"@,
                ConfigError::WriteFallback => "write fallback config"@,
            }),
    {
        match self {
            ConfigError::HomeNotSet => "HOME is not set".to_owned(),
            ConfigError::WriteFallback => "write fallback config".to_owned(),
        }
    }
}

/// A relative path below a directory.
pub open spec fn joined(base: Seq<char>, relative: Seq<char>) -> Seq<char> {
    if base.len() == 0 || base.last() == '/' {
        base + relative
    } else {
        base + seq!['/'] + relative
    }
}

fn join(base: &str, relative: &str) -> (r: String)
    ensures
        r@ == joined(base@, relative@),
{
    let len: usize = base.unicode_len();
    if len == 0 || base.get_char(len - 1) == '/' {
        base.to_owned().concat(relative)
    } else {
        proof {
            reveal_strlit("/");
            assert("/"@ =~= seq!['/']);
        }
        base.to_owned().concat("/").concat(relative)
    }
}

/// The configuration file in a home directory.
pub open spec fn fallback_path(home: Seq<char>) -> Seq<char> {
    joined(joined(home, ".config/lox-linein-bridge"@), "config.toml"@)
}

/// Whether a path is that of a configuration file.
pub open spec fn is_config_path(path: Seq<char>) -> bool {
    path.len() >= 12 && path.skip(path.len() - 12) == "/config.toml"@
}

/// The configuration file that is tried first.
pub fn preferred_config_path() -> (r: String)
    ensures
        r@ == "/etc/lox-linein-bridge/config.toml"@,
        is_config_path(r@),
{
    proof {
        reveal_strlit("/etc/lox-linein-bridge");
        reveal_strlit("config.toml");
        reveal_strlit("/config.toml");
        reveal_strlit("/etc/lox-linein-bridge/config.toml");
    }
    let path = join("/etc/lox-linein-bridge", "config.toml");
    assert(path@ =~= "/etc/lox-linein-bridge/config.toml"@);
    assert(path@.skip(path@.len() - 12) =~= "/config.toml"@);
    path
}

/// The configuration file that is tried next. `home` is the home directory.
pub fn fallback_config_path(home: Option<&str>) -> (r: Result<String, ConfigError>)
    ensures
        match home {
            Some(home) => r matches Ok(path) && path@ == fallback_path(home@) && is_config_path(
                path@,
            ),
            None => r == Err::<String, ConfigError>(ConfigError::HomeNotSet),
        },
{
    match home {
        Some(home) => {
            proof {
                reveal_strlit(".config/lox-linein-bridge");
                reveal_strlit("config.toml");
                reveal_strlit("/config.toml");
            }
            let directory = join(home, ".config/lox-linein-bridge");
            assert(directory@.last() == 'e');
            let path = join(directory.as_str(), "config.toml");
            assert(path@.skip(path@.len() - 12) =~= "/config.toml"@);
            Ok(path)
        },
        None => Err(ConfigError::HomeNotSet),
    }
}

/// The name under which an invalid configuration file is kept: the extension
/// becomes `invalid` and the time in seconds.
pub open spec fn backup_path(path: Seq<char>, timestamp: u64) -> Seq<char> {
    path.take(path.len() - 4) + "invalid."@ + crate::text::decimal(timestamp as nat)
}

/// The name under which an invalid configuration file is kept.
pub fn backup_config_path(path: &str, timestamp: u64) -> (r: String)
    requires
        is_config_path(path@),
    ensures
        r@ == backup_path(path@, timestamp),
{
    let len: usize = path.unicode_len();
    assert(path@.take(len - 4) =~= path@.subrange(0, len - 4));
    let mut backup = path.substring_char(0, len - 4).to_owned().concat("invalid.");
    append_decimal(&mut backup, timestamp);
    backup
}

/// The two places of the configuration.
#[derive(Debug, Clone, Copy, PartialEq, Eq, Structural)]
pub enum ConfigSlot {
    Preferred,
    Fallback,
}

/// What has come of writing the configuration so far.
#[derive(Debug)]
pub enum WriteProgress {
    Start,
    /// The file in a place was written, or could not be.
    Tried { slot: ConfigSlot, path: String, written: bool },
}

/// What to do next to write the configuration.
#[derive(Debug)]
pub enum WriteStep {
    /// Try to write this file.
    Try { slot: ConfigSlot, path: String },
    /// It lies in this file.
    Done { path: String },
    Fail(ConfigError),
}

/// Whether `step` is to try the fallback place, which takes a home directory.
pub open spec fn tries_fallback_write(step: WriteStep, home: Option<Seq<char>>) -> bool {
    match home {
        Some(home) => step matches WriteStep::Try { slot, path } && slot == ConfigSlot::Fallback
            && path@ == fallback_path(home),
        None => step == WriteStep::Fail(ConfigError::HomeNotSet),
    }
}

/// Whether `step` is the right one: the preferred place first, the fallback only if
/// that fails.
pub open spec fn is_write_step(
    step: WriteStep,
    progress: WriteProgress,
    home: Option<Seq<char>>,
) -> bool {
    match progress {
        WriteProgress::Start => step matches WriteStep::Try { slot, path } && slot
            == ConfigSlot::Preferred && path@ == "/etc/lox-linein-bridge/config.toml"@,
        WriteProgress::Tried { slot, path, written } => if written {
            step matches WriteStep::Done { path: at } && at == path
        } else if slot == ConfigSlot::Preferred {
            tries_fallback_write(step, home)
        } else {
            step == WriteStep::Fail(ConfigError::WriteFallback)
        },
    }
}

/// What to do next to write the configuration.
pub fn write_step(progress: WriteProgress, home: Option<&str>) -> (r: WriteStep)
    ensures
        is_write_step(r, progress, crate::text::str_of(home)),
{
    match progress {
        WriteProgress::Start => WriteStep::Try {
            slot: ConfigSlot::Preferred,
            path: preferred_config_path(),
        },
        WriteProgress::Tried { slot, path, written } => {
            if written {
                return WriteStep::Done { path };
            }
            match slot {
                ConfigSlot::Preferred => match fallback_config_path(home) {
                    Ok(path) => WriteStep::Try { slot: ConfigSlot::Fallback, path },
                    Err(error) => WriteStep::Fail(error),
                },
                ConfigSlot::Fallback => WriteStep::Fail(ConfigError::WriteFallback),
            }
        },
    }
}

/// What has come of loading the configuration so far.
#[derive(Debug)]
pub enum LoadProgress {
    Start,
    /// There is no file in a place.
    Missing { slot: ConfigSlot },
    /// The file in a place is invalid, and has been moved out of the way.
    Invalid { slot: ConfigSlot },
    /// The file in a place is valid.
    Loaded { path: String, config: Config },
}

/// What to do next to load the configuration.
#[derive(Debug)]
pub enum LoadStep {
    /// Look at this file.
    Probe { slot: ConfigSlot, path: String },
    /// Use what this file says.
    Use { path: String, config: Config },
    /// Make a new configuration and write it.
    Create,
    Fail(ConfigError),
}

/// Whether `step` is to look at the fallback place, which takes a home directory.
pub open spec fn probes_fallback(step: LoadStep, home: Option<Seq<char>>) -> bool {
    match home {
        Some(home) => step matches LoadStep::Probe { slot, path } && slot == ConfigSlot::Fallback
            && path@ == fallback_path(home),
        None => step == LoadStep::Fail(ConfigError::HomeNotSet),
    }
}

/// Whether `step` comes after a place that had nothing valid.
pub open spec fn comes_after(step: LoadStep, slot: ConfigSlot, home: Option<Seq<char>>) -> bool {
    match slot {
        ConfigSlot::Preferred => probes_fallback(step, home),
        ConfigSlot::Fallback => step is Create,
    }
}

/// Whether `step` is the right one: the preferred place, then the fallback, then a
/// new configuration.
pub open spec fn is_load_step(
    step: LoadStep,
    progress: LoadProgress,
    home: Option<Seq<char>>,
) -> bool {
    match progress {
        LoadProgress::Start => step matches LoadStep::Probe { slot, path } && slot
            == ConfigSlot::Preferred && path@ == "/etc/lox-linein-bridge/config.toml"@,
        LoadProgress::Missing { slot } => comes_after(step, slot, home),
        LoadProgress::Invalid { slot } => comes_after(step, slot, home),
        LoadProgress::Loaded { path, config } => step == (LoadStep::Use { path, config }),
    }
}

fn after_slot(slot: ConfigSlot, home: Option<&str>) -> (r: LoadStep)
    ensures
        comes_after(r, slot, crate::text::str_of(home)),
{
    match slot {
        ConfigSlot::Preferred => match fallback_config_path(home) {
            Ok(path) => LoadStep::Probe { slot: ConfigSlot::Fallback, path },
            Err(error) => LoadStep::Fail(error),
        },
        ConfigSlot::Fallback => LoadStep::Create,
    }
}

/// What to do next to load the configuration.
pub fn load_step(progress: LoadProgress, home: Option<&str>) -> (r: LoadStep)
    ensures
        is_load_step(r, progress, crate::text::str_of(home)),
{
    match progress {
        LoadProgress::Start => LoadStep::Probe {
            slot: ConfigSlot::Preferred,
            path: preferred_config_path(),
        },
        LoadProgress::Missing { slot } => after_slot(slot, home),
        LoadProgress::Invalid { slot } => after_slot(slot, home),
        LoadProgress::Loaded { path, config } => LoadStep::Use { path, config },
    }
}

/// What has come of moving an invalid file out of the way so far.
#[derive(Debug, Clone, Copy, PartialEq, Eq)]
pub enum BackupProgress {
    Start,
    /// The file was renamed, or could not be.
    Renamed { done: bool },
    /// The file was copied, or could not be.
    Copied { done: bool },
    /// The file was removed, or could not be.
    Removed { done: bool },
}

/// What to do next to move an invalid file out of the way.
#[derive(Debug, Clone, Copy, PartialEq, Eq)]
pub enum BackupStep {
    /// Rename the file.
    Rename,
    /// Copy it to the new name.
    Copy,
    /// Remove the file.
    Remove,
    /// It is out of the way.
    Done,
    /// The last attempt was one too many.
    Fail,
}

/// What follows: rename first; copy where that fails, and remove what was copied.
pub open spec fn backup_follows(progress: BackupProgress) -> BackupStep {
    match progress {
        BackupProgress::Start => BackupStep::Rename,
        BackupProgress::Renamed { done } => if done {
            BackupStep::Done
        } else {
            BackupStep::Copy
        },
        BackupProgress::Copied { done } => if done {
            BackupStep::Remove
        } else {
            BackupStep::Fail
        },
        BackupProgress::Removed { done } => if done {
            BackupStep::Done
        } else {
            BackupStep::Fail
        },
    }
}

/// What to do next to move an invalid file out of the way.
pub fn backup_step(progress: BackupProgress) -> (r: BackupStep)
    ensures
        r == backup_follows(progress),
{
    match progress {
        BackupProgress::Start => BackupStep::Rename,
        BackupProgress::Renamed { done: true } => BackupStep::Done,
        BackupProgress::Renamed { done: false } => BackupStep::Copy,
        BackupProgress::Copied { done: true } => BackupStep::Remove,
        BackupProgress::Copied { done: false } => BackupStep::Fail,
        BackupProgress::Removed { done: true } => BackupStep::Done,
        BackupProgress::Removed { done: false } => BackupStep::Fail,
    }
}

/// Under which names the whole file lies.
pub struct BackupFiles {
    pub old_name: bool,
    pub new_name: bool,
}

/// What comes of a step that succeeds or fails.
pub open spec fn backup_tried(step: BackupStep, done: bool) -> BackupProgress {
    match step {
        BackupStep::Rename => BackupProgress::Renamed { done },
        BackupStep::Copy => BackupProgress::Copied { done },
        _ => BackupProgress::Removed { done },
    }
}

/// The files after a step that succeeds or fails. A failed step leaves the file where it
/// is, and makes no whole file of another name.
pub open spec fn files_after(files: BackupFiles, step: BackupStep, done: bool) -> BackupFiles {
    if !done {
        files
    } else {
        match step {
            BackupStep::Rename => BackupFiles { old_name: false, new_name: files.old_name },
            BackupStep::Copy => BackupFiles { new_name: files.old_name, ..files },
            BackupStep::Remove => BackupFiles { old_name: false, ..files },
            _ => files,
        }
    }
}

/// What a backup ends with from `progress` on, if the attempts go as `outcomes` say:
/// the files, and whether it is done.
pub open spec fn backup_result(
    progress: BackupProgress,
    files: BackupFiles,
    outcomes: Seq<bool>,
) -> (BackupFiles, bool)
    decreases outcomes.len(),
{
    let step = backup_follows(progress);
    if step == BackupStep::Done || step == BackupStep::Fail || outcomes.len() == 0 {
        (files, step == BackupStep::Done)
    } else {
        backup_result(
            backup_tried(step, outcomes[0]),
            files_after(files, step, outcomes[0]),
            outcomes.drop_first(),
        )
    }
}

/// However the attempts go, the invalid file is never lost, and where the backup is done
/// it lies under the new name only.
pub proof fn law_backup_keeps_the_file(outcomes: Seq<bool>)
    ensures
        ({
            let start = BackupFiles { old_name: true, new_name: false };
            let (files, done) = backup_result(BackupProgress::Start, start, outcomes);
            &&& files.old_name || files.new_name
            &&& done ==> files.new_name && !files.old_name
        }),
{
    reveal_with_fuel(backup_result, 5);
}

/// Whether `c` is a hexadecimal digit, letters in lower case.
pub open spec fn is_hex_digit(c: char) -> bool {
    '0' <= c <= '9' || 'a' <= c <= 'f'
}

/// Whether a text is a random UUID: 36 characters, hyphens after the 8th, 12th,
/// 16th and 20th hexadecimal digit, version 4, and the variant of the standard.
pub open spec fn is_random_uuid(id: Seq<char>) -> bool {
    &&& id.len() == 36
    &&& forall|i: int|
        0 <= i < 36 ==> if i == 8 || i == 13 || i == 18 || i == 23 {
            #[trigger] id[i] == '-'
        } else {
            is_hex_digit(id[i])
        }
    &&& id[14] == '4'
    &&& id[19] == '8' || id[19] == '9' || id[19] == 'a' || id[19] == 'b'
}

/// [`uuid::Uuid::new_v4`] and its text. The identifier is random; what is claimed
/// is the form that every one of them has. Without random numbers from the
/// operating system `new_v4` stops the program.
#[verifier::external_body]
fn random_uuid() -> (r: String)
    ensures
        is_random_uuid(r@),
{
    uuid::Uuid::new_v4().to_string()
}

/// A configuration with the given identifier and nothing else.
pub fn config_with_id(bridge_id: String) -> (r: Config)
    ensures
        r.bridge_id == bridge_id,
        r.preferred_server_name is None,
        r.preferred_server_mac is None,
        r.on_command is None,
{
    Config {
        bridge_id,
        preferred_server_name: None,
        preferred_server_mac: None,
        on_command: None,
    }
}

/// A new configuration, with an identifier of its own.
pub fn new_config() -> (r: Config)
    ensures
        is_random_uuid(r.bridge_id@),
        r.preferred_server_name is None,
        r.preferred_server_mac is None,
        r.on_command is None,
{
    config_with_id(random_uuid())
}

/// A backup lies beside the configuration file and is another file, so that it is
/// not taken for a configuration.
pub proof fn law_backup_is_another_file(path: Seq<char>, timestamp: u64)
    requires
        is_config_path(path),
    ensures
        backup_path(path, timestamp).len() > path.len() - 4,
        backup_path(path, timestamp).take(path.len() - 4) == path.take(path.len() - 4),
        backup_path(path, timestamp) != path,
{
    reveal_strlit("/config.toml");
    reveal_strlit("invalid.");
    let at = path.len() - 4;
    assert(path[at] == path.skip(path.len() - 12)[8]);
    assert(backup_path(path, timestamp)[at] == 'i');
    assert(backup_path(path, timestamp).take(at) =~= path.take(at));
}

/// A valid file is used as it is, wherever it lies: nothing is created or written.
pub proof fn law_valid_file_is_used(
    step: LoadStep,
    path: String,
    config: Config,
    home: Option<Seq<char>>,
)
    requires
        is_load_step(step, LoadProgress::Loaded { path, config }, home),
    ensures
        step == (LoadStep::Use { path, config }),
{
}

/// A new configuration is made only after the fallback place had nothing valid.
pub proof fn law_creation_comes_last(
    step: LoadStep,
    progress: LoadProgress,
    home: Option<Seq<char>>,
)
    requires
        is_load_step(step, progress, home),
        step is Create,
    ensures
        progress == (LoadProgress::Missing { slot: ConfigSlot::Fallback }) || progress == (
        LoadProgress::Invalid { slot: ConfigSlot::Fallback }),
{
}

/// The fallback place is written to only after the preferred one could not be.
pub proof fn law_fallback_is_written_second(
    step: WriteStep,
    progress: WriteProgress,
    home: Option<Seq<char>>,
)
    requires
        is_write_step(step, progress, home),
        step matches WriteStep::Try { slot, .. } && slot == ConfigSlot::Fallback,
    ensures
        progress matches WriteProgress::Tried { slot, written, .. } && slot
            == ConfigSlot::Preferred && !written,
{
}

/// What lies in one place of the configuration.
pub enum PlaceState {
    Missing,
    Invalid,
    Valid(Config),
}

/// What lies in both places.
pub struct Places {
    pub preferred: PlaceState,
    pub fallback: PlaceState,
}

/// What lies in the place of a slot.
pub open spec fn place(places: Places, slot: ConfigSlot) -> PlaceState {
    match slot {
        ConfigSlot::Preferred => places.preferred,
        ConfigSlot::Fallback => places.fallback,
    }
}

/// The places with something else in that of a slot.
pub open spec fn with_place(places: Places, slot: ConfigSlot, state: PlaceState) -> Places {
    match slot {
        ConfigSlot::Preferred => Places { preferred: state, ..places },
        ConfigSlot::Fallback => Places { fallback: state, ..places },
    }
}

/// What looking at a place tells.
pub open spec fn seen(places: Places, slot: ConfigSlot, path: String) -> LoadProgress {
    match place(places, slot) {
        PlaceState::Missing => LoadProgress::Missing { slot },
        PlaceState::Invalid => LoadProgress::Invalid { slot },
        PlaceState::Valid(config) => LoadProgress::Loaded { path, config },
    }
}

/// The places after looking at one: an invalid file is moved out of the way.
pub open spec fn set_aside(places: Places, slot: ConfigSlot) -> Places {
    if place(places, slot) is Invalid {
        with_place(places, slot, PlaceState::Missing)
    } else {
        places
    }
}

/// Whether `steps` are the steps of loading from `progress` on, each as
/// [`load_step`] returns it for what the one before told.
pub open spec fn is_load_run(
    steps: Seq<LoadStep>,
    progress: LoadProgress,
    places: Places,
    home: Option<Seq<char>>,
) -> bool
    decreases steps.len(),
{
    &&& steps.len() > 0
    &&& is_load_step(steps[0], progress, home)
    &&& match steps[0] {
        LoadStep::Probe { slot, path } => is_load_run(
            steps.drop_first(),
            seen(places, slot, path),
            set_aside(places, slot),
            home,
        ),
        _ => steps.len() == 1,
    }
}

/// The places after the steps of loading.
pub open spec fn places_after_load(steps: Seq<LoadStep>, places: Places) -> Places
    decreases steps.len(),
{
    if steps.len() == 0 {
        places
    } else {
        match steps[0] {
            LoadStep::Probe { slot, .. } => places_after_load(
                steps.drop_first(),
                set_aside(places, slot),
            ),
            _ => places,
        }
    }
}

/// Whether trying to write `config` to the place of a slot can turn `before` into
/// `after`. A file that was written is valid and says what was written. A failed
/// attempt leaves no valid file.
pub open spec fn tried_to_write(
    before: Places,
    after: Places,
    slot: ConfigSlot,
    config: Config,
) -> bool {
    &&& after == with_place(before, slot, place(after, slot))
    &&& place(after, slot) matches PlaceState::Valid(written) ==> written == config
}

/// Whether `writes` are the steps of writing `config` from `progress` on, each as
/// [`write_step`] returns it for what came of the one before, with the places after
/// each step.
pub open spec fn is_write_run(
    writes: Seq<(WriteStep, Places)>,
    progress: WriteProgress,
    places: Places,
    home: Option<Seq<char>>,
    config: Config,
) -> bool
    decreases writes.len(),
{
    &&& writes.len() > 0
    &&& is_write_step(writes[0].0, progress, home)
    &&& match writes[0].0 {
        WriteStep::Try { slot, path } => {
            let after = writes[0].1;
            &&& tried_to_write(places, after, slot, config)
            &&& is_write_run(
                writes.drop_first(),
                WriteProgress::Tried { slot, path, written: place(after, slot) is Valid },
                after,
                home,
                config,
            )
        },
        _ => writes.len() == 1 && writes[0].1 == places,
    }
}

/// One run of loading the configuration, or making one: the steps of loading, those
/// of writing if it came to that, and the configuration that was made then.
pub struct ConfigRun {
    pub loads: Seq<LoadStep>,
    pub writes: Seq<(WriteStep, Places)>,
    pub made: Config,
}

/// Whether `run` is a run that begins with what lies in `places`.
pub open spec fn is_config_run(run: ConfigRun, places: Places, home: Option<Seq<char>>) -> bool {
    &&& is_load_run(run.loads, LoadProgress::Start, places, home)
    &&& run.loads.last() is Create ==> is_write_run(
        run.writes,
        WriteProgress::Start,
        places_after_load(run.loads, places),
        home,
        run.made,
    )
}

/// What lies in the places after a run.
pub open spec fn places_after_run(run: ConfigRun, places: Places) -> Places {
    if run.loads.last() is Create {
        run.writes.last().1
    } else {
        places_after_load(run.loads, places)
    }
}

/// What a run ends with: a path and the configuration in it, or nothing if it failed.
pub open spec fn run_result(run: ConfigRun) -> Option<(Seq<char>, Config)> {
    match run.loads.last() {
        LoadStep::Use { path, config } => Some((path@, config)),
        LoadStep::Create => match run.writes.last().0 {
            WriteStep::Done { path } => Some((path@, run.made)),
            _ => None,
        },
        _ => None,
    }
}

/// The slot and the configuration of the valid file that is used, if there is one.
pub open spec fn valid_place(places: Places) -> Option<(ConfigSlot, Config)> {
    match places.preferred {
        PlaceState::Valid(config) => Some((ConfigSlot::Preferred, config)),
        _ => match places.fallback {
            PlaceState::Valid(config) => Some((ConfigSlot::Fallback, config)),
            _ => None,
        },
    }
}

/// The path of a slot. Without a home directory there is no fallback.
pub open spec fn slot_path(slot: ConfigSlot, home: Option<Seq<char>>) -> Option<Seq<char>> {
    match slot {
        ConfigSlot::Preferred => Some("/etc/lox-linein-bridge/config.toml"@),
        ConfigSlot::Fallback => match home {
            Some(home) => Some(fallback_path(home)),
            None => None,
        },
    }
}

/// What loading ends with, place by place.
proof fn lemma_load_run(steps: Seq<LoadStep>, places: Places, home: Option<Seq<char>>)
    requires
        is_load_run(steps, LoadProgress::Start, places, home),
    ensures
        ({
            let after = places_after_load(steps, places);
            match steps.last() {
                LoadStep::Use { path, config } => valid_place(places) matches Some((slot, found))
                    && found == config && slot_path(slot, home) == Some(path@) && valid_place(after)
                    == valid_place(places),
                LoadStep::Create => !(after.fallback is Valid),
                LoadStep::Fail(_) => true,
                LoadStep::Probe { .. } => false,
            }
        }),
        places.preferred is Valid ==> steps.last() is Use,
        places.fallback is Valid && home is Some ==> steps.last() is Use,
{
    reveal_with_fuel(is_load_run, 4);
    reveal_with_fuel(places_after_load, 4);
    if let LoadStep::Probe { slot, path } = steps[0] {
        let rest = steps.drop_first();
        assert(rest.last() == steps.last());
        if let LoadStep::Probe { slot, path } = rest[0] {
            assert(rest.drop_first().last() == steps.last());
        }
    }
}

/// What writing ends with, place by place.
proof fn lemma_write_run(
    writes: Seq<(WriteStep, Places)>,
    places: Places,
    home: Option<Seq<char>>,
    config: Config,
)
    requires
        is_write_run(writes, WriteProgress::Start, places, home, config),
        !(places.fallback is Valid),
    ensures
        writes.last().0 matches WriteStep::Done { path } ==> {
            valid_place(writes.last().1) matches Some((slot, found)) && found == config
                && slot_path(slot, home) == Some(path@)
        },
{
    reveal_with_fuel(is_write_run, 4);
    if let WriteStep::Try { slot, path } = writes[0].0 {
        let rest = writes.drop_first();
        assert(rest.last() == writes.last());
        if let WriteStep::Try { slot, path } = rest[0].0 {
            assert(rest.drop_first().last() == writes.last());
        }
    }
}

/// A run that succeeds ends with a configuration that lies in the file it names, and
/// this is the file that the next run will use.
pub proof fn law_result_lies_in_its_place(
    run: ConfigRun,
    places: Places,
    home: Option<Seq<char>>,
)
    requires
        is_config_run(run, places, home),
        run_result(run) is Some,
    ensures
        ({
            let (path, config) = run_result(run)->0;
            valid_place(places_after_run(run, places)) matches Some((slot, found)) && found
                == config && slot_path(slot, home) == Some(path)
        }),
{
    lemma_load_run(run.loads, places, home);
    if run.loads.last() is Create {
        lemma_write_run(run.writes, places_after_load(run.loads, places), home, run.made);
    }
}

/// A second run gives the same configuration from the same path, if nobody touched the
/// files: the identifier of a bridge stays the same from run to run. It makes nothing
/// new.
pub proof fn law_second_run_gives_the_same(
    first: ConfigRun,
    second: ConfigRun,
    places: Places,
    home: Option<Seq<char>>,
)
    requires
        is_config_run(first, places, home),
        run_result(first) is Some,
        is_config_run(second, places_after_run(first, places), home),
    ensures
        run_result(second) == run_result(first),
        second.loads.last() is Use,
        valid_place(places_after_run(second, places_after_run(first, places))) == valid_place(
            places_after_run(first, places),
        ),
{
    law_result_lies_in_its_place(first, places, home);
    lemma_load_run(second.loads, places_after_run(first, places), home);
}

/// The two places are never the same file name.
pub proof fn law_places_are_apart(home: Seq<char>)
    ensures
        fallback_path(home) != "/etc/lox-linein-bridge/config.toml"@,
{
    reveal_strlit(".config/lox-linein-bridge");
    reveal_strlit("config.toml");
    reveal_strlit("/etc/lox-linein-bridge/config.toml");
    assert(joined(home, ".config/lox-linein-bridge"@).last() == 'e');
    assert(fallback_path(home).len() >= 37);
}

/// The file in a home directory: below it, with one slash between the two where there is
/// none yet.
pub proof fn law_fallback_lies_in_the_home_directory(home: Seq<char>)
    ensures
        home.len() > 0 && home.last() != '/' ==> fallback_path(home) == home
            + "/.config/lox-linein-bridge/config.toml"@,
        home.len() == 0 || home.last() == '/' ==> fallback_path(home) == home
            + ".config/lox-linein-bridge/config.toml"@,
{
    reveal_strlit(".config/lox-linein-bridge");
    reveal_strlit("config.toml");
    reveal_strlit(".config/lox-linein-bridge/config.toml");
    reveal_strlit("/.config/lox-linein-bridge/config.toml");
    assert(joined(home, ".config/lox-linein-bridge"@).last() == 'e');
    if home.len() > 0 && home.last() != '/' {
        assert(fallback_path(home) =~= home + "/.config/lox-linein-bridge/config.toml"@);
    } else {
        assert(fallback_path(home) =~= home + ".config/lox-linein-bridge/config.toml"@);
    }
}

/// A path below a directory: the directory, a slash unless it is there or there is no
/// directory, and the rest.
pub proof fn law_paths_are_joined_by_one_slash(base: Seq<char>, relative: Seq<char>)
    ensures
        base.len() > 0 && base.last() != '/' ==> {
            let path = joined(base, relative);
            &&& path.len() == base.len() + 1 + relative.len()
            &&& path.take(base.len() as int) == base
            &&& path[base.len() as int] == '/'
            &&& path.skip((base.len() + 1) as int) == relative
        },
        base.len() == 0 || base.last() == '/' ==> joined(base, relative) == base + relative,
{
    let path = joined(base, relative);
    if base.len() > 0 && base.last() != '/' {
        assert(path.take(base.len() as int) =~= base);
        assert(path.skip((base.len() + 1) as int) =~= relative);
    }
}

/// The name of a backup: that of the file up to its last dot, the word `invalid`, a dot,
/// and the time in digits.
pub proof fn law_backup_tells_the_time(path: Seq<char>, timestamp: u64)
    requires
        is_config_path(path),
    ensures
        ({
            let backup = backup_path(path, timestamp);
            let dot = path.len() - 5;
            &&& path[dot] == '.'
            &&& backup.take(dot + 1) == path.take(dot + 1)
            &&& backup.subrange(dot + 1, dot + 9) == "invalid."@
            &&& crate::text::number(backup.skip(dot + 9)) == timestamp
        }),
{
    reveal_strlit("/config.toml");
    reveal_strlit("invalid.");
    let backup = backup_path(path, timestamp);
    let dot = path.len() - 5;
    assert(path[dot] == path.skip(path.len() - 12)[7]);
    assert(backup.take(dot + 1) =~= path.take(dot + 1));
    assert(backup.subrange(dot + 1, dot + 9) =~= "invalid."@);
    assert(backup.skip(dot + 9) =~= crate::text::decimal(timestamp as nat));
    crate::text::law_decimal_reads_back(timestamp as nat);
}

/// The order in which places are looked at: first the preferred one, then the one in the
/// home directory, then a new configuration is made. A valid file ends the search. Without
/// a home directory it ends after the preferred place, with an error.
pub proof fn law_order_of_loading(step: LoadStep, progress: LoadProgress, home: Option<Seq<char>>)
    requires
        is_load_step(step, progress, home),
    ensures
        progress is Start ==> (step matches LoadStep::Probe { slot, path } && slot
            == ConfigSlot::Preferred && path@ == "/etc/lox-linein-bridge/config.toml"@),
        progress == (LoadProgress::Missing { slot: ConfigSlot::Preferred }) || progress == (
        LoadProgress::Invalid { slot: ConfigSlot::Preferred }) ==> {
            &&& home matches Some(home) ==> (step matches LoadStep::Probe { slot, path } && slot
                == ConfigSlot::Fallback && path@ == fallback_path(home))
            &&& home is None ==> step == LoadStep::Fail(ConfigError::HomeNotSet)
        },
        progress == (LoadProgress::Missing { slot: ConfigSlot::Fallback }) || progress == (
        LoadProgress::Invalid { slot: ConfigSlot::Fallback }) ==> step is Create,
        progress matches LoadProgress::Loaded { path, config } ==> step == (LoadStep::Use {
            path,
            config,
        }),
{
}

/// The order in which places are written to: first the preferred one, then the one in the
/// home directory if the first could not be written. The first that was written ends it.
pub proof fn law_order_of_writing(
    step: WriteStep,
    progress: WriteProgress,
    home: Option<Seq<char>>,
)
    requires
        is_write_step(step, progress, home),
    ensures
        progress is Start ==> (step matches WriteStep::Try { slot, path } && slot
            == ConfigSlot::Preferred && path@ == "/etc/lox-linein-bridge/config.toml"@),
        progress matches WriteProgress::Tried { slot, path, written } ==> {
            &&& written ==> (step matches WriteStep::Done { path: at } && at@ == path@)
            &&& !written && slot == ConfigSlot::Preferred && home is Some ==> (
            step matches WriteStep::Try { slot: next, path: at } && next == ConfigSlot::Fallback
                && at@ == fallback_path(home->0))
            &&& !written && slot == ConfigSlot::Preferred && home is None ==> step
                == WriteStep::Fail(ConfigError::HomeNotSet)
            &&& !written && slot == ConfigSlot::Fallback ==> step == WriteStep::Fail(
                ConfigError::WriteFallback,
            )
        },
{
}

/// What a run gives for what lies in the two places. A valid file in the preferred place
/// is used. Without one, a valid file in the home directory is. Without either a new
/// configuration is made and lies where it could be written first. There is none if there
/// is no home directory, or nothing could be written.
#[verifier::spinoff_prover]
#[verifier::rlimit(40)]
pub proof fn law_what_a_run_gives(run: ConfigRun, places: Places, home: Option<Seq<char>>)
    requires
        is_config_run(run, places, home),
    ensures
        places.preferred matches PlaceState::Valid(config) ==> run_result(run) == Some(
            ("/etc/lox-linein-bridge/config.toml"@, config),
        ),
        !(places.preferred is Valid) && home is None ==> run_result(run) is None,
        !(places.preferred is Valid) && home is Some && places.fallback is Valid ==> run_result(run)
            == Some((fallback_path(home->0), places.fallback->Valid_0)),
        !(places.preferred is Valid) && home is Some && !(places.fallback is Valid) ==> {
            let after = places_after_run(run, places);
            &&& after.preferred is Valid ==> run_result(run) == Some(
                ("/etc/lox-linein-bridge/config.toml"@, run.made),
            )
            &&& !(after.preferred is Valid) && after.fallback is Valid ==> run_result(run) == Some(
                (fallback_path(home->0), run.made),
            )
            &&& !(after.preferred is Valid) && !(after.fallback is Valid) ==> run_result(run)
                is None
        },
{
    reveal_with_fuel(is_load_run, 4);
    reveal_with_fuel(places_after_load, 4);
    let steps = run.loads;
    if let LoadStep::Probe { slot, path } = steps[0] {
        let rest = steps.drop_first();
        assert(rest.last() == steps.last());
        if let LoadStep::Probe { slot, path } = rest[0] {
            assert(rest.drop_first().last() == steps.last());
        }
    }
    if steps.last() is Create {
        reveal_with_fuel(is_write_run, 4);
        let writes = run.writes;
        if let WriteStep::Try { slot, path } = writes[0].0 {
            let rest = writes.drop_first();
            assert(rest.last() == writes.last());
            if let WriteStep::Try { slot, path } = rest[0].0 {
                assert(rest.drop_first().last() == writes.last());
            }
        }
    }
}

/// When an invalid file gets out of the way: if it can be renamed, or else if it can be
/// copied and then removed, and not otherwise.
pub proof fn law_backup_takes_a_rename_or_a_copy(renamed: bool, copied: bool, removed: bool)
    ensures
        ({
            let start = BackupFiles { old_name: true, new_name: false };
            let (files, done) = backup_result(
                BackupProgress::Start,
                start,
                seq![renamed, copied, removed],
            );
            &&& done <==> renamed || (copied && removed)
            &&& done <==> files.new_name && !files.old_name
            &&& !renamed && !copied ==> files.old_name && !files.new_name
        }),
{
    reveal_with_fuel(backup_result, 5);
    let all = seq![renamed, copied, removed];
    assert(all.drop_first() =~= seq![copied, removed]);
    assert(seq![copied, removed].drop_first() =~= seq![removed]);
}

/// A configuration file is named `config.toml` and lies in some directory.
pub proof fn law_configuration_file_has_its_name(path: Seq<char>)
    ensures
        is_config_path(path) <==> exists|directory: Seq<char>|
            path == #[trigger] (directory + "/config.toml"@),
{
    reveal_strlit("/config.toml");
    if is_config_path(path) {
        let directory = path.take(path.len() - 12);
        assert(path =~= directory + "/config.toml"@);
    }
    if exists|directory: Seq<char>| path == #[trigger] (directory + "/config.toml"@) {
        let directory = choose|directory: Seq<char>|
            path == #[trigger] (directory + "/config.toml"@);
        assert(path.skip(path.len() - 12) =~= "/config.toml"@);
    }
}

} // verus!
