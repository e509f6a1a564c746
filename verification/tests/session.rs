use minivna::config::{
    frequency_setting, points_setting, AppConfig, ConfigError, DeviceSettings, FrequencyInput,
    PointsInput, ScanSettings,
};
use minivna::edit::{EditError, Setting};
use minivna::model::{OutputFormat, ScanMode};
use minivna::session::{
    ConfigAction, ConfigEvent, ConfigFailure, ConfigPhase, ConfigSession, ConfigTask,
};

fn parse(text: &str) -> Option<AppConfig> {
    let root: toml::Table = toml::from_str(text).ok()?;
    let device = root.get("device")?.as_table()?;
    let scan = root.get("scan")?.as_table()?;
    let word = |table: &toml::Table, key: &str| Some(table.get(key)?.as_str()?.to_owned());
    Some(AppConfig {
        output: match word(&root, "output")?.as_str() {
            "csv" => OutputFormat::Csv,
            "json" => OutputFormat::Json,
            _ => return None,
        },
        directory_prefix: word(&root, "directory_prefix")?,
        device: DeviceSettings { port: word(device, "port")? },
        scan: ScanSettings {
            start_hz: frequency_setting(&FrequencyInput::Suffixed(word(scan, "start")?)).ok()?,
            stop_hz: frequency_setting(&FrequencyInput::Suffixed(word(scan, "stop")?)).ok()?,
            points: points_setting(&PointsInput::Name(word(scan, "points")?)).ok()?,
            mode: ScanMode::Reflection,
            calibration: word(scan, "calibration")?,
        },
    })
}

/// One file that can be made unwritable, and how often it was written.
struct Disk {
    file: Option<String>,
    writable: bool,
    writes: usize,
}

fn disk(file: Option<&str>) -> Disk {
    Disk { file: file.map(str::to_owned), writable: true, writes: 0 }
}

fn carry_out(task: ConfigTask, disk: &mut Disk) -> (ConfigSession, ConfigAction) {
    let (mut session, mut action) = ConfigSession::start(task, "/etc/minivna".to_owned());
    loop {
        let event = match action {
            ConfigAction::Look if disk.file.is_some() => ConfigEvent::Present,
            ConfigAction::Look => ConfigEvent::Absent,
            ConfigAction::Create | ConfigAction::Replace => {
                let creating = action == ConfigAction::Create;
                if disk.writable {
                    disk.file = Some(session.text.clone());
                    disk.writes += 1;
                }
                match (creating, disk.writable) {
                    (true, true) => ConfigEvent::Created,
                    (true, false) => ConfigEvent::CreateFailed,
                    (false, true) => ConfigEvent::Replaced,
                    (false, false) => ConfigEvent::ReplaceFailed,
                }
            }
            ConfigAction::Read => match &disk.file {
                Some(text) => ConfigEvent::Read(text.clone()),
                None => ConfigEvent::ReadFailed,
            },
            ConfigAction::Parse => match parse(&session.text) {
                Some(settings) => ConfigEvent::Parsed(settings),
                None => ConfigEvent::ParseFailed,
            },
            ConfigAction::Finish | ConfigAction::Fail(_) => {
                assert_eq!(session.phase, ConfigPhase::Ended);
                return (session, action);
            }
        };
        action = session.step(event);
    }
}

const RELATIVE: &str = "output = \"csv\"\ndirectory_prefix = \"VNA-D4_\"\n[device]\nport = \"auto\"\n[scan]\nstart = \"45M\"\nstop = \"60M\"\npoints = \"max\"\ncalibration = \"custom.json\" # mine\n";

#[test]
fn a_missing_configuration_is_created_and_then_left_alone() {
    let mut disk = disk(None);
    let (first, action) = carry_out(ConfigTask::Load, &mut disk);
    assert_eq!(action, ConfigAction::Finish);
    assert!(first.created);
    let settings = first.settings.unwrap();
    assert_eq!(settings.scan.calibration, "/etc/minivna/NATES-miniVNA_Tiny.json");
    assert_eq!(disk.file.as_deref(), Some(first.text.as_str()));
    assert_eq!(disk.writes, 1);

    let (second, action) = carry_out(ConfigTask::Load, &mut disk);
    assert_eq!(action, ConfigAction::Finish);
    assert!(!second.created);
    assert_eq!(second.text, first.text);
    assert_eq!(disk.writes, 1);
}

#[test]
fn a_relative_calibration_is_rewritten_once() {
    let mut disk = disk(Some(RELATIVE));
    let (first, action) = carry_out(ConfigTask::Load, &mut disk);
    assert_eq!(action, ConfigAction::Finish);
    assert!(!first.created);
    let expected =
        RELATIVE.replace("\"custom.json\" # mine", "\"/etc/minivna/custom.json\"");
    assert_eq!(first.text, expected);
    assert_eq!(disk.file.as_deref(), Some(expected.as_str()));
    assert_eq!(first.settings.unwrap().scan.calibration, "/etc/minivna/custom.json");

    let (second, _) = carry_out(ConfigTask::Load, &mut disk);
    assert_eq!(second.text, expected);
    assert_eq!(disk.writes, 1);
}

#[test]
fn loads_fail_where_they_must() {
    let rejected = |error| ConfigAction::Fail(ConfigFailure::Rejected(error));
    let selector = RELATIVE.replace("custom.json", "builtin:tiny");
    let mut store = disk(Some(&selector));
    assert_eq!(
        carry_out(ConfigTask::Load, &mut store).1,
        rejected(ConfigError::UnsupportedSelector)
    );
    let blank = RELATIVE.replace("custom.json", "/c.json").replace("auto", " ");
    store = disk(Some(&blank));
    assert_eq!(carry_out(ConfigTask::Load, &mut store).1, rejected(ConfigError::EmptyPort));
    store = disk(Some("output = "));
    assert_eq!(
        carry_out(ConfigTask::Load, &mut store).1,
        ConfigAction::Fail(ConfigFailure::Parse)
    );
    store = disk(None);
    store.writable = false;
    assert_eq!(
        carry_out(ConfigTask::Load, &mut store).1,
        ConfigAction::Fail(ConfigFailure::Create)
    );
    store = disk(Some(RELATIVE));
    store.writable = false;
    assert_eq!(
        carry_out(ConfigTask::Load, &mut store).1,
        ConfigAction::Fail(ConfigFailure::Replace)
    );
    assert_eq!(store.file.as_deref(), Some(RELATIVE));
}

#[test]
fn a_new_output_is_persisted_whole_or_not_at_all() {
    let absolute = RELATIVE.replace("custom.json", "/c.json");
    let mut store = disk(Some(&absolute));
    let task = || ConfigTask::SetOutput(OutputFormat::Json);
    assert_eq!(carry_out(task(), &mut store).1, ConfigAction::Finish);
    assert_eq!(store.file.unwrap(), absolute.replace("\"csv\"", "\"json\""));

    store = disk(Some(&absolute));
    store.writable = false;
    assert_eq!(carry_out(task(), &mut store).1, ConfigAction::Fail(ConfigFailure::Replace));
    assert_eq!(store.file.as_deref(), Some(absolute.as_str()));

    store = disk(Some("[scan]\n"));
    assert_eq!(
        carry_out(task(), &mut store).1,
        ConfigAction::Fail(ConfigFailure::Rejected(ConfigError::Edit(EditError::Missing(
            Setting::RootOutput
        ))))
    );
    store = disk(None);
    assert_eq!(carry_out(task(), &mut store).1, ConfigAction::Fail(ConfigFailure::Read));
    store = disk(Some("output = \"csv\"\n"));
    assert_eq!(carry_out(task(), &mut store).1, ConfigAction::Fail(ConfigFailure::Parse));
    store = disk(Some(RELATIVE));
    assert_eq!(
        carry_out(task(), &mut store).1,
        ConfigAction::Fail(ConfigFailure::Rejected(ConfigError::RelativeCalibration))
    );
    assert_eq!(store.writes, 0);
}

#[test]
fn a_calibration_is_activated_whole_or_not_at_all() {
    let task = |path: &str| ConfigTask::SetCalibration(path.to_owned());
    let mut store = disk(Some(RELATIVE));
    assert_eq!(carry_out(task("/new \"one\".json"), &mut store).1, ConfigAction::Finish);
    assert_eq!(
        store.file.unwrap(),
        RELATIVE.replace("\"custom.json\" # mine", "\"/new \\\"one\\\".json\"")
    );

    store = disk(None);
    assert_eq!(
        carry_out(task("new.json"), &mut store).1,
        ConfigAction::Fail(ConfigFailure::Rejected(ConfigError::NotAbsolute))
    );
    let twice = format!("{RELATIVE}calibration = \"again.json\"\n");
    store = disk(Some(&twice));
    assert!(matches!(
        carry_out(task("/new.json"), &mut store).1,
        ConfigAction::Fail(ConfigFailure::Rejected(ConfigError::Edit(_)))
    ));
    assert_eq!(store.file.as_deref(), Some(twice.as_str()));
}

#[test]
fn other_settings_stay_as_they_are_read() {
    let absolute = RELATIVE.replace("custom.json", "/c.json");
    let described = |settings: AppConfig| format!("{settings:?}");
    let mut store = disk(Some(&absolute));
    carry_out(ConfigTask::SetOutput(OutputFormat::Json), &mut store);
    let mut chosen = parse(&store.file.unwrap()).unwrap();
    assert_eq!(chosen.output, OutputFormat::Json);
    chosen.output = OutputFormat::Csv;
    assert_eq!(described(chosen), described(parse(&absolute).unwrap()));

    store = disk(Some(RELATIVE));
    let (loaded, _) = carry_out(ConfigTask::Load, &mut store);
    let mut resolved = loaded.settings.unwrap();
    assert_eq!(resolved.scan.calibration, "/etc/minivna/custom.json");
    resolved.scan.calibration = "custom.json".to_owned();
    assert_eq!(described(resolved), described(parse(RELATIVE).unwrap()));
}
