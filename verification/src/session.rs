//! The configuration file as it is loaded or changed: a machine that decides
//! what to do next, and whether the file may be replaced.
//!
//! The machine touches no file and reads no settings out of a text. It is handed
//! what came of its last action and answers with the next one.
use vstd::prelude::*;

use crate::config::{
    calibration_update, confirm_calibration, confirm_output, is_absolute, join,
    render_default_config, replace_root_output, review, AppConfig, ConfigError, Review,
    DEFAULT_CALIBRATION_FILENAME,
};
use crate::config;
use crate::edit::{EditError, Setting};
use crate::edit;
use crate::json;
use crate::model::OutputFormat;
use crate::text;

verus! {

/// What is to be done with the configuration file.
#[derive(Debug)]
pub enum ConfigTask {
    /// Read it, and create it first if there is none.
    Load,
    SetCalibration(String),
    SetOutput(OutputFormat),
}

/// Where a session stands.
#[derive(Clone, Copy, Debug, PartialEq, Eq, Structural)]
pub enum ConfigPhase {
    Looking,
    Creating,
    Reading,
    Parsing,
    Replacing,
    /// The file was brought up to date and its settings are read again.
    Settling,
    Ended,
}

/// What came of the last action.
#[derive(Debug)]
pub enum ConfigEvent {
    Present,
    Absent,
    Created,
    CreateFailed,
    Read(String),
    ReadFailed,
    Parsed(AppConfig),
    ParseFailed,
    Replaced,
    /// The file is what it was.
    ReplaceFailed,
}

#[derive(Clone, Copy, Debug, PartialEq, Eq, Structural)]
pub enum ConfigFailure {
    Create,
    Read,
    Parse,
    Replace,
    Rejected(ConfigError),
}

/// What to do next. The text to create, parse or replace the file with is the
/// session's.
#[derive(Clone, Copy, Debug, PartialEq, Eq, Structural)]
pub enum ConfigAction {
    /// Look whether there is a file.
    Look,
    Create,
    Read,
    Parse,
    Replace,
    Finish,
    Fail(ConfigFailure),
}

/// A session in progress.
#[derive(Debug)]
pub struct ConfigSession {
    pub task: ConfigTask,
    pub directory: String,
    pub phase: ConfigPhase,
    pub text: String,
    /// The settings that were read last.
    pub settings: Option<AppConfig>,
    pub created: bool,
}

/// What a session is.
#[verifier::ext_equal]
pub struct ConfigState {
    pub task: ConfigTask,
    pub directory: Seq<char>,
    pub phase: ConfigPhase,
    pub text: Seq<char>,
    pub settings: Option<AppConfig>,
    pub created: bool,
}

impl View for ConfigSession {
    type V = ConfigState;

    open spec fn view(&self) -> ConfigState {
        ConfigState {
            task: self.task,
            directory: self.directory@,
            phase: self.phase,
            text: self.text@,
            settings: self.settings,
            created: self.created,
        }
    }
}

/// The text that the task makes of the file.
pub open spec fn changed(task: ConfigTask, content: Seq<char>) -> Result<Seq<char>, ConfigError> {
    match task {
        ConfigTask::Load => Ok(content),
        ConfigTask::SetCalibration(path) => config::calibration_change(content, path@),
        ConfigTask::SetOutput(format) => match config::with_output(content, format) {
            Ok(updated) => Ok(updated),
            Err(error) => Err(ConfigError::Edit(error)),
        },
    }
}

/// What is wrong with the settings of a file that the task has changed.
pub open spec fn change_verdict(task: ConfigTask, settings: AppConfig) -> Result<(), ConfigError> {
    match task {
        ConfigTask::Load => settings.verdict(),
        ConfigTask::SetCalibration(path) => config::calibration_verdict(settings, path@),
        ConfigTask::SetOutput(format) => config::output_verdict(settings, format),
    }
}

/// The configuration that is created in `directory`.
pub open spec fn created_text(directory: Seq<char>) -> Seq<char> {
    config::default_config(config::joined(directory, DEFAULT_CALIBRATION_FILENAME@))
}

/// The session that starts with a task, and its first action. A calibration
/// that is no absolute path is refused before the file is read.
pub open spec fn initial(task: ConfigTask, directory: Seq<char>) -> (ConfigState, ConfigAction) {
    let state = ConfigState {
        task,
        directory,
        phase: ConfigPhase::Reading,
        text: Seq::empty(),
        settings: None,
        created: false,
    };
    match task {
        ConfigTask::Load => (
            ConfigState { phase: ConfigPhase::Looking, ..state },
            ConfigAction::Look,
        ),
        ConfigTask::SetCalibration(path) => if config::absolute(path@) {
            (state, ConfigAction::Read)
        } else {
            state.refusing(ConfigError::NotAbsolute)
        },
        ConfigTask::SetOutput(_) => (state, ConfigAction::Read),
    }
}

impl ConfigState {
    /// `event` can come of what the session asked for last.
    pub open spec fn accepts(self, event: ConfigEvent) -> bool {
        match self.phase {
            ConfigPhase::Looking => event is Present || event is Absent,
            ConfigPhase::Creating => event is Created || event is CreateFailed,
            ConfigPhase::Reading => event is Read || event is ReadFailed,
            ConfigPhase::Parsing | ConfigPhase::Settling => event is Parsed || event is ParseFailed,
            ConfigPhase::Replacing => event is Replaced || event is ReplaceFailed,
            ConfigPhase::Ended => false,
        }
    }

    pub open spec fn ending(self, action: ConfigAction) -> (ConfigState, ConfigAction) {
        (ConfigState { phase: ConfigPhase::Ended, ..self }, action)
    }

    pub open spec fn refusing(self, error: ConfigError) -> (ConfigState, ConfigAction) {
        self.ending(ConfigAction::Fail(ConfigFailure::Rejected(error)))
    }

    /// The file was read: what the task makes of it must still be a
    /// configuration.
    pub open spec fn reading(self, content: Seq<char>) -> (ConfigState, ConfigAction) {
        match changed(self.task, content) {
            Ok(text) => (
                ConfigState { text, phase: ConfigPhase::Parsing, ..self },
                ConfigAction::Parse,
            ),
            Err(error) => self.refusing(error),
        }
    }

    /// A file that is loaded is brought up to date if need be. One that is to
    /// be changed is replaced only if its new settings are accepted.
    pub open spec fn judging(self, settings: AppConfig) -> (ConfigState, ConfigAction) {
        let known = ConfigState { settings: Some(settings), ..self };
        match self.task {
            ConfigTask::Load => match config::migration(
                self.text,
                settings.scan.calibration@,
                self.directory,
            ) {
                Err(error) => known.refusing(error),
                Ok(Some(text)) => (
                    ConfigState { text, phase: ConfigPhase::Replacing, ..known },
                    ConfigAction::Replace,
                ),
                Ok(None) => known.settling(settings),
            },
            _ => match change_verdict(self.task, settings) {
                Ok(_) => (
                    ConfigState { phase: ConfigPhase::Replacing, ..known },
                    ConfigAction::Replace,
                ),
                Err(error) => known.refusing(error),
            },
        }
    }

    /// The settings are accepted or refused.
    pub open spec fn settling(self, settings: AppConfig) -> (ConfigState, ConfigAction) {
        let known = ConfigState { settings: Some(settings), ..self };
        match settings.verdict() {
            Ok(_) => known.ending(ConfigAction::Finish),
            Err(error) => known.refusing(error),
        }
    }

    /// The next state and action.
    pub open spec fn next(self, event: ConfigEvent) -> (ConfigState, ConfigAction) {
        match event {
            ConfigEvent::Absent => (
                ConfigState {
                    text: created_text(self.directory),
                    created: true,
                    phase: ConfigPhase::Creating,
                    ..self
                },
                ConfigAction::Create,
            ),
            ConfigEvent::Present | ConfigEvent::Created => (
                ConfigState { phase: ConfigPhase::Reading, ..self },
                ConfigAction::Read,
            ),
            ConfigEvent::CreateFailed => self.ending(ConfigAction::Fail(ConfigFailure::Create)),
            ConfigEvent::Read(content) => self.reading(content@),
            ConfigEvent::ReadFailed => self.ending(ConfigAction::Fail(ConfigFailure::Read)),
            ConfigEvent::Parsed(settings) => if self.phase is Settling {
                self.settling(settings)
            } else {
                self.judging(settings)
            },
            ConfigEvent::ParseFailed => self.ending(ConfigAction::Fail(ConfigFailure::Parse)),
            ConfigEvent::Replaced => if self.task is Load {
                (ConfigState { phase: ConfigPhase::Settling, ..self }, ConfigAction::Parse)
            } else {
                self.ending(ConfigAction::Finish)
            },
            ConfigEvent::ReplaceFailed => self.ending(ConfigAction::Fail(ConfigFailure::Replace)),
        }
    }
}

impl ConfigSession {
    /// Starts a session and says what to do first.
    pub fn start(task: ConfigTask, directory: String) -> (started: (ConfigSession, ConfigAction))
        ensures
            (started.0@, started.1) == initial(task, directory@),
    {
        let (phase, action): (ConfigPhase, ConfigAction) = match &task {
            ConfigTask::Load => (ConfigPhase::Looking, ConfigAction::Look),
            ConfigTask::SetCalibration(path) => {
                if is_absolute(path.as_str()) {
                    (ConfigPhase::Reading, ConfigAction::Read)
                } else {
                    (
                        ConfigPhase::Ended,
                        ConfigAction::Fail(ConfigFailure::Rejected(ConfigError::NotAbsolute)),
                    )
                }
            },
            ConfigTask::SetOutput(_) => (ConfigPhase::Reading, ConfigAction::Read),
        };
        let session: ConfigSession = ConfigSession {
            task,
            directory,
            phase,
            text: String::new(),
            settings: None,
            created: false,
        };
        assert(session@ =~= initial(task, directory@).0);
        (session, action)
    }

    fn end(&mut self, action: ConfigAction) -> (same: ConfigAction)
        ensures
            (final(self)@, same) == old(self)@.ending(action),
    {
        self.phase = ConfigPhase::Ended;
        action
    }

    fn refuse(&mut self, error: ConfigError) -> (action: ConfigAction)
        ensures
            (final(self)@, action) == old(self)@.refusing(error),
    {
        self.end(ConfigAction::Fail(ConfigFailure::Rejected(error)))
    }

    fn read(&mut self, content: String) -> (action: ConfigAction)
        ensures
            (final(self)@, action) == old(self)@.reading(content@),
    {
        let updated: Result<String, ConfigError> = match &self.task {
            ConfigTask::Load => Ok(content),
            ConfigTask::SetCalibration(path) => calibration_update(
                content.as_str(),
                path.as_str(),
            ),
            ConfigTask::SetOutput(format) => match replace_root_output(content.as_str(), *format) {
                Ok(updated) => Ok(updated),
                Err(error) => Err(ConfigError::Edit(error)),
            },
        };
        match updated {
            Ok(text) => {
                self.text = text;
                self.phase = ConfigPhase::Parsing;
                ConfigAction::Parse
            },
            Err(error) => self.refuse(error),
        }
    }

    fn judge(&mut self, settings: AppConfig) -> (action: ConfigAction)
        ensures
            (final(self)@, action) == old(self)@.judging(settings),
    {
        let verdict: Result<Review, ConfigError> = match &self.task {
            ConfigTask::Load => review(self.text.as_str(), &settings, self.directory.as_str()),
            ConfigTask::SetCalibration(path) => match confirm_calibration(
                &settings,
                path.as_str(),
            ) {
                Ok(()) => Ok(Review::Ready),
                Err(error) => Err(error),
            },
            ConfigTask::SetOutput(format) => match confirm_output(&settings, *format) {
                Ok(()) => Ok(Review::Ready),
                Err(error) => Err(error),
            },
        };
        let loading: bool = match &self.task {
            ConfigTask::Load => true,
            _ => false,
        };
        self.settings = Some(settings);
        match verdict {
            Err(error) => self.refuse(error),
            Ok(Review::Rewrite(text)) => {
                self.text = text;
                self.phase = ConfigPhase::Replacing;
                ConfigAction::Replace
            },
            Ok(Review::Ready) => {
                if loading {
                    return self.end(ConfigAction::Finish);
                }
                self.phase = ConfigPhase::Replacing;
                ConfigAction::Replace
            },
        }
    }

    /// Takes in what came of the last action and says what to do next.
    pub fn step(&mut self, event: ConfigEvent) -> (action: ConfigAction)
        requires
            old(self)@.accepts(event),
        ensures
            (final(self)@, action) == old(self)@.next(event),
    {
        match event {
            ConfigEvent::Absent => {
                let path: String = join(self.directory.as_str(), DEFAULT_CALIBRATION_FILENAME);
                self.text = render_default_config(path.as_str());
                self.created = true;
                self.phase = ConfigPhase::Creating;
                ConfigAction::Create
            },
            ConfigEvent::Present | ConfigEvent::Created => {
                self.phase = ConfigPhase::Reading;
                ConfigAction::Read
            },
            ConfigEvent::CreateFailed => self.end(ConfigAction::Fail(ConfigFailure::Create)),
            ConfigEvent::Read(content) => self.read(content),
            ConfigEvent::ReadFailed => self.end(ConfigAction::Fail(ConfigFailure::Read)),
            ConfigEvent::Parsed(settings) => {
                if self.phase == ConfigPhase::Settling {
                    let verdict: Result<(), ConfigError> = settings.validate();
                    self.settings = Some(settings);
                    return match verdict {
                        Ok(()) => self.end(ConfigAction::Finish),
                        Err(error) => self.refuse(error),
                    };
                }
                self.judge(settings)
            },
            ConfigEvent::ParseFailed => self.end(ConfigAction::Fail(ConfigFailure::Parse)),
            ConfigEvent::Replaced => {
                if let ConfigTask::Load = &self.task {
                    self.phase = ConfigPhase::Settling;
                    return ConfigAction::Parse;
                }
                self.end(ConfigAction::Finish)
            },
            ConfigEvent::ReplaceFailed => self.end(ConfigAction::Fail(ConfigFailure::Replace)),
        }
    }
}

// ---------------------------------------------------------------------------
// Laws
// ---------------------------------------------------------------------------
/// The state after `history`.
pub open spec fn run(state: ConfigState, history: Seq<ConfigEvent>) -> ConfigState
    decreases history.len(),
{
    if history.len() == 0 {
        state
    } else {
        run(state, history.drop_last()).next(history.last()).0
    }
}

/// The session that has gone through `history` has succeeded.
pub open spec fn succeeded(state: ConfigState, history: Seq<ConfigEvent>) -> bool {
    history.len() > 0 && run(state, history.drop_last()).next(history.last()).1
        == ConfigAction::Finish
}

/// What the file holds after `history` if nobody else touches it: it is written
/// whole or not at all.
pub open spec fn file_after(
    state: ConfigState,
    file: Option<Seq<char>>,
    history: Seq<ConfigEvent>,
) -> Option<Seq<char>>
    decreases history.len(),
{
    if history.len() == 0 {
        file
    } else {
        match history.last() {
            ConfigEvent::Created | ConfigEvent::Replaced => Some(
                run(state, history.drop_last()).text,
            ),
            _ => file_after(state, file, history.drop_last()),
        }
    }
}

/// The two settle the same things.
pub open spec fn same_settings(left: AppConfig, right: AppConfig) -> bool {
    &&& left.output == right.output
    &&& left.directory_prefix@ == right.directory_prefix@
    &&& left.device.port@ == right.device.port@
    &&& left.scan.start_hz == right.scan.start_hz
    &&& left.scan.stop_hz == right.scan.stop_hz
    &&& left.scan.points == right.scan.points
    &&& left.scan.mode == right.scan.mode
    &&& left.scan.calibration@ == right.scan.calibration@
}

/// `event` tells of the file, and of the settings that `parse` finds in a text,
/// what is so.
pub open spec fn tells(
    event: ConfigEvent,
    text: Seq<char>,
    file: Option<Seq<char>>,
    parse: spec_fn(Seq<char>) -> Option<AppConfig>,
) -> bool {
    match event {
        ConfigEvent::Present => file is Some,
        ConfigEvent::Absent => file is None,
        ConfigEvent::Read(content) => file == Some(content@),
        ConfigEvent::Parsed(settings) => parse(text) matches Some(found) && same_settings(
            found,
            settings,
        ),
        ConfigEvent::ParseFailed => parse(text) is None,
        _ => true,
    }
}

/// `history` is what a session goes through on a file that holds `file` at
/// first and that nobody else touches.
pub open spec fn truthful(
    state: ConfigState,
    file: Option<Seq<char>>,
    parse: spec_fn(Seq<char>) -> Option<AppConfig>,
    history: Seq<ConfigEvent>,
) -> bool
    decreases history.len(),
{
    history.len() == 0 || {
        let before = run(state, history.drop_last());
        &&& truthful(state, file, parse, history.drop_last())
        &&& before.accepts(history.last())
        &&& tells(
            history.last(),
            before.text,
            file_after(state, file, history.drop_last()),
            parse,
        )
    }
}

/// Nothing in `history` failed for want of a working file system.
pub open spec fn undisturbed(history: Seq<ConfigEvent>) -> bool {
    forall|i: int|
        0 <= i < history.len() ==> !((#[trigger] history[i]) is CreateFailed || history[i] is ReadFailed
            || history[i] is ReplaceFailed)
}

/// What the settings of a changed file have to be.
spec fn accepted(
    task: ConfigTask,
    parse: spec_fn(Seq<char>) -> Option<AppConfig>,
    text: Seq<char>,
) -> bool {
    parse(text) matches Some(settings) && change_verdict(task, settings) is Ok
}

/// What is so at each stage of a change to the file.
proof fn lemma_change(
    task: ConfigTask,
    directory: Seq<char>,
    old_text: Seq<char>,
    parse: spec_fn(Seq<char>) -> Option<AppConfig>,
    history: Seq<ConfigEvent>,
)
    requires
        !(task is Load),
        truthful(initial(task, directory).0, Some(old_text), parse, history),
    ensures
        ({
            let start = initial(task, directory).0;
            let state = run(start, history);
            let file = file_after(start, Some(old_text), history);
            let done = succeeded(start, history);
            let fitting = changed(task, old_text) == Ok::<Seq<char>, ConfigError>(state.text);
            &&& state.task == task
            &&& !done ==> file == Some(old_text)
            &&& done ==> fitting && file == Some(state.text) && accepted(task, parse, state.text)
                && state.phase is Ended
            &&& match state.phase {
                ConfigPhase::Reading => start.phase is Reading,
                ConfigPhase::Parsing => fitting,
                ConfigPhase::Replacing => fitting && accepted(task, parse, state.text),
                ConfigPhase::Ended => undisturbed(history) && !done ==> (changed(
                    task,
                    old_text,
                ) is Err || !accepted(task, parse, changed(task, old_text)->Ok_0)),
                _ => false,
            }
        }),
    decreases history.len(),
{
    if history.len() > 0 {
        let before = history.drop_last();
        lemma_change(task, directory, old_text, parse, before);
        assert(undisturbed(history) ==> undisturbed(before) && !(history.last() is ReadFailed
            || history.last() is ReplaceFailed)) by {
            if undisturbed(history) {
                assert forall|i: int| 0 <= i < before.len() implies !((
                #[trigger] before[i]) is CreateFailed || before[i] is ReadFailed
                    || before[i] is ReplaceFailed) by {
                    assert(before[i] == history[i]);
                }
                assert(history[history.len() - 1] == history.last());
            }
        }
    }
}

/// Activating a calibration either replaces the file by itself with the new
/// path, which then holds settings that are accepted and name that path, or
/// leaves the file as it was. A path that is not absolute is refused at once.
/// Where files can be read and written it succeeds exactly if the result is an
/// accepted configuration that names the path.
pub proof fn law_activating_a_calibration(
    path: String,
    directory: Seq<char>,
    old_text: Seq<char>,
    parse: spec_fn(Seq<char>) -> Option<AppConfig>,
    history: Seq<ConfigEvent>,
)
    requires
        truthful(
            initial(ConfigTask::SetCalibration(path), directory).0,
            Some(old_text),
            parse,
            history,
        ),
    ensures
        ({
            let (start, first) = initial(ConfigTask::SetCalibration(path), directory);
            let file = file_after(start, Some(old_text), history);
            let new_text = config::with_calibration(old_text, path@);
            let fits = config::absolute(path@) && new_text is Ok && (parse(
                new_text->Ok_0,
            ) matches Some(settings) && settings.verdict() is Ok && settings.scan.calibration@
                == path@);
            &&& !config::absolute(path@) ==> history.len() == 0 && first == ConfigAction::Fail(
                ConfigFailure::Rejected(ConfigError::NotAbsolute),
            )
            &&& succeeded(start, history) ==> fits && file == Some(new_text->Ok_0)
            &&& !succeeded(start, history) ==> file == Some(old_text)
            &&& undisturbed(history) && run(start, history).phase is Ended ==> (succeeded(
                start,
                history,
            ) <==> fits)
        }),
{
    let task = ConfigTask::SetCalibration(path);
    lemma_change(task, directory, old_text, parse, history);
    if !config::absolute(path@) && history.len() > 0 {
        lemma_ended(initial(task, directory).0, Some(old_text), parse, history);
    }
}

/// Nothing follows the end.
proof fn lemma_ended(
    state: ConfigState,
    file: Option<Seq<char>>,
    parse: spec_fn(Seq<char>) -> Option<AppConfig>,
    history: Seq<ConfigEvent>,
)
    requires
        state.phase is Ended,
        truthful(state, file, parse, history),
    ensures
        history.len() == 0,
    decreases history.len(),
{
    if history.len() > 0 {
        lemma_ended(state, file, parse, history.drop_last());
    }
}

/// Choosing an output format either replaces the file by itself with the new
/// format, which then holds settings that are accepted and have that format, or
/// leaves the file as it was. Where files can be read and written it succeeds
/// exactly if the result is an accepted configuration with the format.
pub proof fn law_choosing_an_output(
    format: OutputFormat,
    directory: Seq<char>,
    old_text: Seq<char>,
    parse: spec_fn(Seq<char>) -> Option<AppConfig>,
    history: Seq<ConfigEvent>,
)
    requires
        truthful(
            initial(ConfigTask::SetOutput(format), directory).0,
            Some(old_text),
            parse,
            history,
        ),
    ensures
        ({
            let start = initial(ConfigTask::SetOutput(format), directory).0;
            let file = file_after(start, Some(old_text), history);
            let new_text = config::with_output(old_text, format);
            let fits = new_text is Ok && (parse(new_text->Ok_0) matches Some(settings)
                && settings.verdict() is Ok && settings.output == format);
            &&& succeeded(start, history) ==> fits && file == Some(new_text->Ok_0)
            &&& !succeeded(start, history) ==> file == Some(old_text)
            &&& undisturbed(history) && run(start, history).phase is Ended ==> (succeeded(
                start,
                history,
            ) <==> fits)
        }),
{
    lemma_change(ConfigTask::SetOutput(format), directory, old_text, parse, history);
}

/// The text that a load starts from: the file, or the one that is created.
pub open spec fn base_text(file: Option<Seq<char>>, directory: Seq<char>) -> Seq<char> {
    match file {
        Some(text) => text,
        None => created_text(directory),
    }
}

/// `text` is `base` brought up to date, if its calibration is a relative path.
pub open spec fn brought_up_to_date(
    base: Seq<char>,
    text: Seq<char>,
    directory: Seq<char>,
    parse: spec_fn(Seq<char>) -> Option<AppConfig>,
) -> bool {
    parse(base) matches Some(settings) && {
        let configured = settings.scan.calibration@;
        if config::absolute(configured) {
            text == base
        } else {
            config::with_calibration(base, config::joined(directory, configured)) == Ok::<
                Seq<char>,
                EditError,
            >(text)
        }
    }
}

/// What is so at each stage of a load.
proof fn lemma_load(
    directory: Seq<char>,
    file: Option<Seq<char>>,
    parse: spec_fn(Seq<char>) -> Option<AppConfig>,
    history: Seq<ConfigEvent>,
)
    requires
        truthful(initial(ConfigTask::Load, directory).0, file, parse, history),
    ensures
        ({
            let start = initial(ConfigTask::Load, directory).0;
            let state = run(start, history);
            let now = file_after(start, file, history);
            let base = base_text(file, directory);
            let updated = brought_up_to_date(base, state.text, directory, parse);
            &&& state.task is Load
            &&& state.directory == directory
            &&& !(state.phase is Looking || state.phase is Ended) ==> state.created == (file is None)
            &&& match state.phase {
                ConfigPhase::Looking => now == file && !state.created,
                ConfigPhase::Creating => now == file && file is None && state.text == base,
                ConfigPhase::Reading => now == Some(base),
                ConfigPhase::Parsing => now == Some(base) && state.text == base,
                ConfigPhase::Replacing => now == Some(base) && updated,
                ConfigPhase::Settling => now == Some(state.text) && updated,
                ConfigPhase::Ended => succeeded(start, history) ==> {
                    &&& state.created == (file is None)
                    &&& now == Some(state.text)
                    &&& updated
                    &&& state.settings is Some
                    &&& state.settings->0.verdict() is Ok
                    &&& parse(state.text) is Some
                    &&& same_settings(parse(state.text)->0, state.settings->0)
                },
            }
            &&& succeeded(start, history) ==> state.phase is Ended
        }),
    decreases history.len(),
{
    if history.len() > 0 {
        lemma_load(directory, file, parse, history.drop_last());
    }
}

/// A configuration that was loaded is accepted, is what the file holds, and is
/// the file as it was but for a relative calibration path, which is written out
/// as seen from the directory of the file. It was created only if there was
/// none.
pub proof fn law_loaded_configuration(
    directory: Seq<char>,
    file: Option<Seq<char>>,
    parse: spec_fn(Seq<char>) -> Option<AppConfig>,
    history: Seq<ConfigEvent>,
)
    requires
        truthful(initial(ConfigTask::Load, directory).0, file, parse, history),
        succeeded(initial(ConfigTask::Load, directory).0, history),
    ensures
        ({
            let start = initial(ConfigTask::Load, directory).0;
            let state = run(start, history);
            &&& state.created == (file is None)
            &&& file_after(start, file, history) == Some(state.text)
            &&& brought_up_to_date(base_text(file, directory), state.text, directory, parse)
            &&& state.settings matches Some(settings) && settings.verdict() is Ok && (parse(
                state.text,
            ) matches Some(found) && same_settings(found, settings))
        }),
{
    lemma_load(directory, file, parse, history);
}

/// A configuration that was loaded is loaded again as it is: the second time
/// nothing is created or written, and the text and the settings are those of the
/// first time.
pub proof fn law_second_load_changes_nothing(
    directory: Seq<char>,
    file: Option<Seq<char>>,
    parse: spec_fn(Seq<char>) -> Option<AppConfig>,
    first: Seq<ConfigEvent>,
    second: Seq<ConfigEvent>,
)
    requires
        truthful(initial(ConfigTask::Load, directory).0, file, parse, first),
        succeeded(initial(ConfigTask::Load, directory).0, first),
        truthful(
            initial(ConfigTask::Load, directory).0,
            file_after(initial(ConfigTask::Load, directory).0, file, first),
            parse,
            second,
        ),
    ensures
        ({
            let start = initial(ConfigTask::Load, directory).0;
            let left = file_after(start, file, first);
            let one = run(start, first);
            let two = run(start, second);
            &&& file_after(start, left, second) == left
            &&& !(two.phase is Creating || two.phase is Replacing)
            &&& undisturbed(second) && two.phase is Ended ==> {
                &&& succeeded(start, second)
                &&& !two.created
                &&& two.text == one.text
                &&& one.settings is Some && two.settings is Some
                &&& same_settings(one.settings->0, two.settings->0)
            }
        }),
{
    lemma_load(directory, file, parse, first);
    let one = run(initial(ConfigTask::Load, directory).0, first);
    lemma_second_load(directory, one.text, one.settings->0, parse, second);
}

proof fn lemma_second_load(
    directory: Seq<char>,
    text: Seq<char>,
    settings: AppConfig,
    parse: spec_fn(Seq<char>) -> Option<AppConfig>,
    history: Seq<ConfigEvent>,
)
    requires
        parse(text) is Some,
        same_settings(parse(text)->0, settings),
        settings.verdict() is Ok,
        truthful(initial(ConfigTask::Load, directory).0, Some(text), parse, history),
    ensures
        ({
            let start = initial(ConfigTask::Load, directory).0;
            let state = run(start, history);
            &&& state.task is Load
            &&& state.directory == directory
            &&& !state.created
            &&& file_after(start, Some(text), history) == Some(text)
            &&& match state.phase {
                ConfigPhase::Looking | ConfigPhase::Reading => true,
                ConfigPhase::Parsing => state.text == text,
                ConfigPhase::Ended => undisturbed(history) ==> {
                    &&& succeeded(start, history)
                    &&& state.text == text
                    &&& state.settings is Some
                    &&& same_settings(settings, state.settings->0)
                },
                _ => false,
            }
        }),
    decreases history.len(),
{
    if history.len() > 0 {
        lemma_second_load(directory, text, settings, parse, history.drop_last());
        if undisturbed(history) {
            assert(history[history.len() - 1] == history.last());
        }
    }
}

/// The two settle the same things but for `setting`.
pub open spec fn same_but(setting: Setting, left: AppConfig, right: AppConfig) -> bool {
    &&& setting == Setting::RootOutput || left.output == right.output
    &&& left.directory_prefix@ == right.directory_prefix@
    &&& left.device.port@ == right.device.port@
    &&& left.scan.start_hz == right.scan.start_hz
    &&& left.scan.stop_hz == right.scan.stop_hz
    &&& left.scan.points == right.scan.points
    &&& left.scan.mode == right.scan.mode
    &&& setting == Setting::ScanCalibration || left.scan.calibration@ == right.scan.calibration@
}

/// The texts have the same lines but for lines that set `setting` in both.
pub open spec fn differ_in(setting: Setting, left: Seq<char>, right: Seq<char>) -> bool {
    let before = text::lines(left);
    let after = text::lines(right);
    &&& after.len() == before.len()
    &&& forall|i: int|
        0 <= i < before.len() ==> #[trigger] after[i] == before[i] || (edit::sets(
            setting,
            before,
            i,
        ) && edit::sets(setting, after, i))
}

/// A line of `content` that looks as if it set `setting` does nothing else: a
/// text that differs from `content` in such lines alone has the same settings
/// but for that one.
pub open spec fn set_line_by_line(
    setting: Setting,
    content: Seq<char>,
    parse: spec_fn(Seq<char>) -> Option<AppConfig>,
) -> bool {
    forall|other: Seq<char>| #[trigger]
        differ_in(setting, content, other) && parse(content) is Some && parse(other) is Some
            ==> same_but(setting, parse(content)->0, parse(other)->0)
}

/// Choosing an output format leaves all other settings as they were, if lines
/// that set the format set nothing else.
pub proof fn law_new_output_keeps_the_other_settings(
    content: Seq<char>,
    format: OutputFormat,
    parse: spec_fn(Seq<char>) -> Option<AppConfig>,
)
    requires
        set_line_by_line(Setting::RootOutput, content, parse),
        config::with_output(content, format) is Ok,
        parse(content) is Some,
        parse(config::with_output(content, format)->Ok_0) is Some,
    ensures
        same_but(
            Setting::RootOutput,
            parse(content)->0,
            parse(config::with_output(content, format)->Ok_0)->0,
        ),
{
    config::law_output_update_keeps_the_rest(content, format);
    assert(differ_in(
        Setting::RootOutput,
        content,
        config::with_output(content, format)->Ok_0,
    ));
}

/// Activating a calibration leaves all other settings as they were, if lines
/// that set the calibration set nothing else.
pub proof fn law_new_calibration_keeps_the_other_settings(
    content: Seq<char>,
    path: Seq<char>,
    parse: spec_fn(Seq<char>) -> Option<AppConfig>,
)
    requires
        set_line_by_line(Setting::ScanCalibration, content, parse),
        config::with_calibration(content, path) is Ok,
        parse(content) is Some,
        parse(config::with_calibration(content, path)->Ok_0) is Some,
    ensures
        same_but(
            Setting::ScanCalibration,
            parse(content)->0,
            parse(config::with_calibration(content, path)->Ok_0)->0,
        ),
{
    config::law_calibration_update_keeps_the_rest(content, path);
    assert(differ_in(
        Setting::ScanCalibration,
        content,
        config::with_calibration(content, path)->Ok_0,
    ));
}

/// A file whose output was chosen holds accepted settings with the new format,
/// and all others are those that it held before.
pub proof fn law_chosen_output_is_all_that_changes(
    format: OutputFormat,
    directory: Seq<char>,
    old_text: Seq<char>,
    parse: spec_fn(Seq<char>) -> Option<AppConfig>,
    history: Seq<ConfigEvent>,
)
    requires
        truthful(
            initial(ConfigTask::SetOutput(format), directory).0,
            Some(old_text),
            parse,
            history,
        ),
        succeeded(initial(ConfigTask::SetOutput(format), directory).0, history),
        set_line_by_line(Setting::RootOutput, old_text, parse),
        parse(old_text) is Some,
    ensures
        file_after(
            initial(ConfigTask::SetOutput(format), directory).0,
            Some(old_text),
            history,
        ) matches Some(new_text) && (parse(new_text) matches Some(settings)
            && settings.verdict() is Ok && settings.output == format && same_but(
            Setting::RootOutput,
            parse(old_text)->0,
            settings,
        )),
{
    law_choosing_an_output(format, directory, old_text, parse, history);
    law_new_output_keeps_the_other_settings(old_text, format, parse);
}

/// A file whose calibration was activated holds accepted settings with the new
/// path, and all others are those that it held before.
pub proof fn law_activated_calibration_is_all_that_changes(
    path: String,
    directory: Seq<char>,
    old_text: Seq<char>,
    parse: spec_fn(Seq<char>) -> Option<AppConfig>,
    history: Seq<ConfigEvent>,
)
    requires
        truthful(
            initial(ConfigTask::SetCalibration(path), directory).0,
            Some(old_text),
            parse,
            history,
        ),
        succeeded(initial(ConfigTask::SetCalibration(path), directory).0, history),
        set_line_by_line(Setting::ScanCalibration, old_text, parse),
        parse(old_text) is Some,
    ensures
        file_after(
            initial(ConfigTask::SetCalibration(path), directory).0,
            Some(old_text),
            history,
        ) matches Some(new_text) && (parse(new_text) matches Some(settings)
            && settings.verdict() is Ok && settings.scan.calibration@ == path@ && same_but(
            Setting::ScanCalibration,
            parse(old_text)->0,
            settings,
        )),
{
    law_activating_a_calibration(path, directory, old_text, parse, history);
    law_new_calibration_keeps_the_other_settings(old_text, path@, parse);
}

/// A line that gives the calibration in place of one of `content` is read: its
/// string literal is the path.
pub open spec fn calibration_read_back(
    content: Seq<char>,
    parse: spec_fn(Seq<char>) -> Option<AppConfig>,
) -> bool {
    forall|other: Seq<char>, path: Seq<char>, i: int|
        #![trigger differ_in(Setting::ScanCalibration, content, other), json::quoted(path), edit::sets(Setting::ScanCalibration, text::lines(other), i)]
        differ_in(Setting::ScanCalibration, content, other) && 0 <= i < text::lines(other).len()
            && edit::sets(Setting::ScanCalibration, text::lines(other), i) && edit::value_of(
            text::lines(other)[i],
        ) == json::quoted(path) && parse(other) is Some ==> parse(other)->0.scan.calibration@
            == path
}

/// A relative calibration path of a file that was loaded has become the path as
/// seen from the file's directory in the settings too, and all other settings
/// are those that the file held before.
pub proof fn law_relative_calibration_is_resolved(
    directory: Seq<char>,
    file: Option<Seq<char>>,
    parse: spec_fn(Seq<char>) -> Option<AppConfig>,
    history: Seq<ConfigEvent>,
)
    requires
        truthful(initial(ConfigTask::Load, directory).0, file, parse, history),
        succeeded(initial(ConfigTask::Load, directory).0, history),
        set_line_by_line(Setting::ScanCalibration, base_text(file, directory), parse),
        calibration_read_back(base_text(file, directory), parse),
    ensures
        ({
            let before = parse(base_text(file, directory));
            let after = run(initial(ConfigTask::Load, directory).0, history).settings;
            &&& before is Some && after is Some
            &&& after->0.scan.calibration@ == config::joined(
                directory,
                before->0.scan.calibration@,
            )
            &&& same_but(Setting::ScanCalibration, before->0, after->0)
        }),
{
    law_loaded_configuration(directory, file, parse, history);
    let content = base_text(file, directory);
    let state = run(initial(ConfigTask::Load, directory).0, history);
    let configured = parse(content)->0.scan.calibration@;
    if !config::absolute(configured) {
        let path = config::joined(directory, configured);
        law_new_calibration_keeps_the_other_settings(content, path, parse);
        json::law_literal_is_one_line(path);
        edit::law_edit_changes_one_line(Setting::ScanCalibration, content, json::quoted(path));
        let lines = text::lines(content);
        lemma_counted(Setting::ScanCalibration, lines, lines.len() as int);
        let i = choose|i: int|
            0 <= i < lines.len() && edit::sets(Setting::ScanCalibration, lines, i);
        config::law_calibration_update_keeps_the_rest(content, path);
        assert(differ_in(Setting::ScanCalibration, content, state.text));
        assert(edit::value_of(text::lines(state.text)[i]) == json::quoted(path));
    }
}

proof fn lemma_counted(setting: Setting, lines: Seq<Seq<char>>, n: int)
    requires
        0 <= n <= lines.len(),
        edit::count(setting, lines, n) > 0,
    ensures
        exists|i: int| 0 <= i < n && edit::sets(setting, lines, i),
    decreases n,
{
    if !edit::sets(setting, lines, n - 1) {
        lemma_counted(setting, lines, n - 1);
    }
}

/// A session fails with what went wrong, and nothing else makes it fail: a file
/// that cannot be created, read, understood or replaced, or a configuration that
/// is refused. It is created exactly if there was none.
pub proof fn law_session_failures(state: ConfigState, event: ConfigEvent)
    requires
        state.accepts(event),
    ensures
        ({
            let (after, action) = state.next(event);
            &&& action == ConfigAction::Fail(ConfigFailure::Create) <==> event is CreateFailed
            &&& action == ConfigAction::Fail(ConfigFailure::Read) <==> event is ReadFailed
            &&& action == ConfigAction::Fail(ConfigFailure::Parse) <==> event is ParseFailed
            &&& action == ConfigAction::Fail(ConfigFailure::Replace) <==> event is ReplaceFailed
            &&& (action matches ConfigAction::Fail(failure) && failure is Rejected) ==> event is Read
                || event is Parsed
            &&& action is Create <==> event is Absent
            &&& action is Read <==> event is Present || event is Created
            &&& after.created == (state.created || event is Absent)
            &&& after.phase is Ended <==> action is Finish || action is Fail
            &&& event matches ConfigEvent::Parsed(settings) ==> after.settings == Some(settings)
            &&& after.directory == state.directory && after.task == state.task
        }),
{
}

/// A configuration that is created names the supplied calibration beside it.
pub proof fn law_created_configuration(directory: Seq<char>)
    requires
        directory.len() > 0,
        directory.last() != '/',
    ensures
        text::ends_with(
            created_text(directory),
            "calibration = "@ + json::quoted(
                directory + seq!['/'] + "NATES-miniVNA_Tiny.json"@,
            ) + seq!['\n'],
        ),
{
    reveal_strlit("NATES-miniVNA_Tiny.json");
    let path = directory + seq!['/'] + "NATES-miniVNA_Tiny.json"@;
    config::law_joined_paths(directory, "NATES-miniVNA_Tiny.json"@);
    config::law_default_configuration(path, path);
}

} // verus!
