//! The guided calibration as a machine that decides what to do next: have each
//! standard connected, capture it, save the calibration, and activate it if the
//! scan is still the one that it was made for.
use vstd::prelude::*;

use crate::binary64::Binary64;
use crate::calibration::{
    build_native_calibration, CalibrationCapture, CalibrationError, CalibrationFile,
    CalibrationStandard,
};
use crate::calibration;
use crate::model::{RawSample, ScanMode, ScanSpec};
use crate::text;

verus! {

/// The standards of a mode, in the order in which they are captured.
pub open spec fn standards_of(mode: ScanMode) -> Seq<CalibrationStandard> {
    match mode {
        ScanMode::Reflection => seq![
            CalibrationStandard::Open,
            CalibrationStandard::Short,
            CalibrationStandard::Load,
        ],
        ScanMode::Transmission => seq![CalibrationStandard::Open, CalibrationStandard::Loopback],
    }
}

pub fn calibration_standards(mode: ScanMode) -> (standards: Vec<CalibrationStandard>)
    ensures
        standards@ == standards_of(mode),
{
    let mut standards: Vec<CalibrationStandard> = Vec::new();
    standards.push(CalibrationStandard::Open);
    match mode {
        ScanMode::Reflection => {
            standards.push(CalibrationStandard::Short);
            standards.push(CalibrationStandard::Load);
        },
        ScanMode::Transmission => standards.push(CalibrationStandard::Loopback),
    }
    assert(standards@ =~= standards_of(mode));
    standards
}

pub open spec fn instruction_text(mode: ScanMode, standard: CalibrationStandard) -> Seq<char> {
    match (mode, standard) {
        (ScanMode::Reflection, CalibrationStandard::Open) =>
            "connect the OPEN standard to the DUT port"@,
        (ScanMode::Transmission, CalibrationStandard::Open) =>
            "leave the measurement path in its OPEN/isolation condition"@,
        (_, CalibrationStandard::Short) => "connect the SHORT standard to the DUT port"@,
        (_, CalibrationStandard::Load) => "connect the 50 ohm LOAD standard to the DUT port"@,
        (_, CalibrationStandard::Loopback) =>
            "connect the generator output to the detector input with the THRU/loopback standard"@,
    }
}

/// What the user has to do before a standard is captured.
pub fn calibration_standard_instruction(mode: ScanMode, standard: CalibrationStandard) -> (instruction:
    &'static str)
    ensures
        instruction@ == instruction_text(mode, standard),
{
    match (mode, standard) {
        (ScanMode::Reflection, CalibrationStandard::Open) =>
            "connect the OPEN standard to the DUT port",
        (ScanMode::Transmission, CalibrationStandard::Open) =>
            "leave the measurement path in its OPEN/isolation condition",
        (_, CalibrationStandard::Short) => "connect the SHORT standard to the DUT port",
        (_, CalibrationStandard::Load) => "connect the 50 ohm LOAD standard to the DUT port",
        (_, CalibrationStandard::Loopback) =>
            "connect the generator output to the detector input with the THRU/loopback standard",
    }
}

/// What the user answered to a prompt.
#[derive(Clone, Copy, Debug, PartialEq, Eq, Structural)]
pub enum Confirmation {
    Proceed,
    Interrupted,
    /// There will be no more input.
    Closed,
    Aborted,
}

/// An interrupt counts more than any input. The end of input is no answer; `q`
/// and `quit`, in any case, abort; anything else confirms.
pub open spec fn confirmation_of(interrupted: bool, ended: bool, input: Seq<char>) -> Confirmation {
    if interrupted {
        Confirmation::Interrupted
    } else if ended {
        Confirmation::Closed
    } else if text::lower(text::trim(input)) == "q"@ || text::lower(text::trim(input)) == "quit"@ {
        Confirmation::Aborted
    } else {
        Confirmation::Proceed
    }
}

pub fn read_confirmation(interrupted: bool, ended: bool, input: &str) -> (confirmation: Confirmation)
    ensures
        confirmation == confirmation_of(interrupted, ended, input@),
{
    if interrupted {
        return Confirmation::Interrupted;
    }
    if ended {
        return Confirmation::Closed;
    }
    let chars: Vec<char> = text::chars_of(input);
    let answer: Vec<char> = text::lowered(text::trimmed(chars.as_slice()));
    if text::same(answer.as_slice(), "q") || text::same(answer.as_slice(), "quit") {
        return Confirmation::Aborted;
    }
    Confirmation::Proceed
}

/// Where a recipe stands.
#[derive(Clone, Copy, Debug, PartialEq, Eq, Structural)]
pub enum RecipePhase {
    Prompting,
    Capturing,
    /// All standards are captured; the calibration is being saved.
    Saving,
    /// The configuration is being read again.
    Reloading,
    Activating,
    Ended,
}

/// What came of the last action.
#[derive(Debug)]
pub enum RecipeEvent {
    Answered(Confirmation),
    Captured { device_temperature_c: Binary64, samples: Vec<RawSample> },
    CaptureFailed,
    Saved,
    SaveFailed,
    /// The scan that the configuration asks for by now.
    Reloaded(ScanSpec),
    ReloadFailed,
    Activated,
    ActivationFailed,
}

#[derive(Clone, Copy, Debug, PartialEq, Eq, Structural)]
pub enum RecipeFailure {
    NotConfirmed { answer: Confirmation, standard: CalibrationStandard },
    Capture(CalibrationStandard),
    Save,
    Reload,
    /// The scan changed while the calibration was running.
    ScanChanged,
    Activation,
}

/// What to do next. Steps count from one.
#[derive(Clone, Copy, Debug, PartialEq, Eq, Structural)]
pub enum RecipeAction {
    Prompt { standard: CalibrationStandard, step: usize, total_steps: usize },
    Capture(CalibrationStandard),
    /// Build the calibration and save it.
    Save,
    Reload,
    Activate,
    Finish,
    Fail(RecipeFailure),
}

impl RecipeFailure {
    /// The words for the failure; `path` is where the calibration was saved.
    pub open spec fn failure_text(self, path: Seq<char>) -> Option<Seq<char>> {
        match self {
            RecipeFailure::NotConfirmed { answer, standard } => match answer {
                Confirmation::Closed => Some(
                    "stdin closed before the "@ + standard.text()
                        + " standard was confirmed"@,
                ),
                Confirmation::Aborted => Some(
                    "calibration aborted before the "@ + standard.text() + " standard"@,
                ),
                _ => Some("calibration interrupted"@),
            },
            RecipeFailure::Capture(standard) => Some(
                "failed to capture "@ + standard.text() + " standard"@,
            ),
            RecipeFailure::ScanChanged => Some(
                "scan range, point count, or mode changed while calibration was running; saved "@
                    + path + " but did not activate it"@,
            ),
            _ => None,
        }
    }

    pub fn message(&self, path: &str) -> (message: Option<String>)
        ensures
            match (message, self.failure_text(path@)) {
                (Some(message), Some(expected)) => message@ == expected,
                (None, None) => true,
                _ => false,
            },
    {
        let mut out: String = String::new();
        match *self {
            RecipeFailure::NotConfirmed { answer, standard } => match answer {
                Confirmation::Closed => {
                    out.append("stdin closed before the ");
                    out.append(standard.name());
                    out.append(" standard was confirmed");
                },
                Confirmation::Aborted => {
                    out.append("calibration aborted before the ");
                    out.append(standard.name());
                    out.append(" standard");
                },
                _ => out.append("calibration interrupted"),
            },
            RecipeFailure::Capture(standard) => {
                out.append("failed to capture ");
                out.append(standard.name());
                out.append(" standard");
            },
            RecipeFailure::ScanChanged => {
                out.append(
                    "scan range, point count, or mode changed while calibration was running; saved ",
                );
                out.append(path);
                out.append(" but did not activate it");
            },
            _ => return None,
        }
        assert(out@ =~= self.failure_text(path@)->0);
        Some(out)
    }
}

/// A recipe in progress.
#[derive(Debug)]
pub struct CalibrationRecipe {
    pub spec: ScanSpec,
    pub standards: Vec<CalibrationStandard>,
    pub captures: Vec<CalibrationCapture>,
    pub phase: RecipePhase,
}

/// The captures are of the first standards of the mode, in order.
pub open spec fn captured_in_order(
    mode: ScanMode,
    captures: Seq<CalibrationCapture>,
) -> bool {
    &&& captures.len() <= standards_of(mode).len()
    &&& forall|i: int|
        0 <= i < captures.len() ==> (#[trigger] captures[i]).standard == standards_of(mode)[i]
}

impl CalibrationRecipe {
    pub open spec fn valid(self) -> bool {
        &&& self.standards@ == standards_of(self.spec.mode)
        &&& captured_in_order(self.spec.mode, self.captures@)
        &&& match self.phase {
            RecipePhase::Prompting | RecipePhase::Capturing => self.captures@.len()
                < self.standards@.len(),
            RecipePhase::Saving | RecipePhase::Reloading | RecipePhase::Activating =>
                self.captures@.len() == self.standards@.len(),
            RecipePhase::Ended => true,
        }
    }

    /// The standard whose turn it is.
    pub open spec fn current(self) -> CalibrationStandard {
        self.standards@[self.captures@.len() as int]
    }

    /// `event` can come of what the recipe asked for last.
    pub open spec fn accepts(self, event: RecipeEvent) -> bool {
        match self.phase {
            RecipePhase::Prompting => event is Answered,
            RecipePhase::Capturing => event is Captured || event is CaptureFailed,
            RecipePhase::Saving => event is Saved || event is SaveFailed,
            RecipePhase::Reloading => event is Reloaded || event is ReloadFailed,
            RecipePhase::Activating => event is Activated || event is ActivationFailed,
            RecipePhase::Ended => false,
        }
    }

    /// The prompt for the standard whose turn it is, or the end of capturing.
    pub open spec fn continuing(self) -> (RecipePhase, RecipeAction) {
        if self.captures@.len() < self.standards@.len() {
            (
                RecipePhase::Prompting,
                RecipeAction::Prompt {
                    standard: self.current(),
                    step: (self.captures@.len() + 1) as usize,
                    total_steps: self.standards@.len() as usize,
                },
            )
        } else {
            (RecipePhase::Saving, RecipeAction::Save)
        }
    }

    pub open spec fn failing(failure: RecipeFailure) -> (RecipePhase, RecipeAction) {
        (RecipePhase::Ended, RecipeAction::Fail(failure))
    }

    /// Where the recipe stands after `event`, and what it does next. A capture
    /// that has arrived is among `self`'s already.
    pub open spec fn next(self, event: RecipeEvent) -> (RecipePhase, RecipeAction) {
        match event {
            RecipeEvent::Answered(answer) => if answer == Confirmation::Proceed {
                (RecipePhase::Capturing, RecipeAction::Capture(self.current()))
            } else {
                CalibrationRecipe::failing(
                    RecipeFailure::NotConfirmed { answer, standard: self.current() },
                )
            },
            RecipeEvent::Captured { .. } => self.continuing(),
            RecipeEvent::CaptureFailed => CalibrationRecipe::failing(
                RecipeFailure::Capture(self.current()),
            ),
            RecipeEvent::Saved => (RecipePhase::Reloading, RecipeAction::Reload),
            RecipeEvent::SaveFailed => CalibrationRecipe::failing(RecipeFailure::Save),
            RecipeEvent::Reloaded(spec) => if spec == self.spec {
                (RecipePhase::Activating, RecipeAction::Activate)
            } else {
                CalibrationRecipe::failing(RecipeFailure::ScanChanged)
            },
            RecipeEvent::ReloadFailed => CalibrationRecipe::failing(RecipeFailure::Reload),
            RecipeEvent::Activated => (RecipePhase::Ended, RecipeAction::Finish),
            RecipeEvent::ActivationFailed => CalibrationRecipe::failing(
                RecipeFailure::Activation,
            ),
        }
    }

    /// `captures` after `event`.
    pub open spec fn captures_grow(
        self,
        after: CalibrationRecipe,
        event: RecipeEvent,
    ) -> bool {
        match event {
            RecipeEvent::Captured { device_temperature_c, samples } => {
                &&& after.captures@.len() == self.captures@.len() + 1
                &&& forall|i: int|
                    0 <= i < self.captures@.len() ==> #[trigger] after.captures@[i]
                        == self.captures@[i]
                &&& after.captures@.last().standard == self.current()
                &&& after.captures@.last().device_temperature_c == device_temperature_c
                &&& after.captures@.last().samples@ == samples@
            },
            _ => after.captures@ == self.captures@,
        }
    }

    /// A recipe that is about to prompt for its first standard.
    pub fn new(spec: ScanSpec) -> (recipe: CalibrationRecipe)
        ensures
            recipe.valid(),
            recipe.spec == spec,
            recipe.captures@.len() == 0,
            recipe.phase == RecipePhase::Prompting,
    {
        CalibrationRecipe {
            spec,
            standards: calibration_standards(spec.mode),
            captures: Vec::new(),
            phase: RecipePhase::Prompting,
        }
    }

    /// The first prompt.
    pub fn first_action(&self) -> (action: RecipeAction)
        requires
            self.valid(),
            self.phase == RecipePhase::Prompting,
        ensures
            action == self.continuing().1,
    {
        RecipeAction::Prompt {
            standard: self.standards[self.captures.len()],
            step: self.captures.len() + 1,
            total_steps: self.standards.len(),
        }
    }

    /// Takes in what came of the last action and says what to do next.
    pub fn step(&mut self, event: RecipeEvent) -> (action: RecipeAction)
        requires
            old(self).valid(),
            old(self).accepts(event),
        ensures
            final(self).valid(),
            final(self).spec == old(self).spec,
            final(self).standards@ == old(self).standards@,
            old(self).captures_grow(*final(self), event),
            (final(self).phase, action) == (if event is Captured {
                final(self).next(event)
            } else {
                old(self).next(event)
            }),
    {
        match event {
            RecipeEvent::Answered(answer) => {
                let standard: CalibrationStandard = self.standards[self.captures.len()];
                if answer == Confirmation::Proceed {
                    self.phase = RecipePhase::Capturing;
                    return RecipeAction::Capture(standard);
                }
                self.phase = RecipePhase::Ended;
                RecipeAction::Fail(RecipeFailure::NotConfirmed { answer, standard })
            },
            RecipeEvent::Captured { device_temperature_c, samples } => {
                let standard: CalibrationStandard = self.standards[self.captures.len()];
                self.captures.push(
                    CalibrationCapture { standard, device_temperature_c, samples },
                );
                if self.captures.len() < self.standards.len() {
                    self.phase = RecipePhase::Prompting;
                    return RecipeAction::Prompt {
                        standard: self.standards[self.captures.len()],
                        step: self.captures.len() + 1,
                        total_steps: self.standards.len(),
                    };
                }
                self.phase = RecipePhase::Saving;
                RecipeAction::Save
            },
            RecipeEvent::CaptureFailed => {
                let standard: CalibrationStandard = self.standards[self.captures.len()];
                self.phase = RecipePhase::Ended;
                RecipeAction::Fail(RecipeFailure::Capture(standard))
            },
            RecipeEvent::Saved => {
                self.phase = RecipePhase::Reloading;
                RecipeAction::Reload
            },
            RecipeEvent::SaveFailed => {
                self.phase = RecipePhase::Ended;
                RecipeAction::Fail(RecipeFailure::Save)
            },
            RecipeEvent::Reloaded(spec) => {
                if spec.same_as(&self.spec) {
                    self.phase = RecipePhase::Activating;
                    return RecipeAction::Activate;
                }
                self.phase = RecipePhase::Ended;
                RecipeAction::Fail(RecipeFailure::ScanChanged)
            },
            RecipeEvent::ReloadFailed => {
                self.phase = RecipePhase::Ended;
                RecipeAction::Fail(RecipeFailure::Reload)
            },
            RecipeEvent::Activated => {
                self.phase = RecipePhase::Ended;
                RecipeAction::Finish
            },
            RecipeEvent::ActivationFailed => {
                self.phase = RecipePhase::Ended;
                RecipeAction::Fail(RecipeFailure::Activation)
            },
        }
    }

    /// The calibration of the captured standards.
    pub fn build(&self, comment: Option<String>) -> (file: Result<CalibrationFile, CalibrationError>)
        requires
            self.valid(),
            self.phase == RecipePhase::Saving,
        ensures
            match file {
                Ok(file) => calibration::build_verdict(self.spec, self.captures@) is Ok
                    && calibration::built(file, self.spec, self.captures@, comment),
                Err(error) => calibration::build_verdict(self.spec, self.captures@) == Err::<
                    (),
                    CalibrationError,
                >(error),
            },
    {
        build_native_calibration(&self.spec, self.captures.as_slice(), comment)
    }
}

// ---------------------------------------------------------------------------
// Laws
// ---------------------------------------------------------------------------
/// A recipe that has captured its standards has all that its mode needs, none
/// that it does not use, and none twice: a calibration of it fails only if a
/// single capture is unusable.
pub proof fn law_recipe_captures_what_its_mode_needs(
    spec: ScanSpec,
    captures: Seq<CalibrationCapture>,
)
    requires
        spec.valid(),
        captured_in_order(spec.mode, captures),
        captures.len() == standards_of(spec.mode).len(),
    ensures
        calibration::build_verdict(spec, captures) is Ok <==> forall|i: int|
            0 <= i < captures.len() ==> calibration::capture_verdict(
                spec,
                #[trigger] captures[i],
            ) is Ok,
{
    reveal_with_fuel(calibration::captured, 5);
    reveal_with_fuel(calibration::captures_verdict, 5);
    assert(captures[0].standard == standards_of(spec.mode)[0]);
    assert(captures[1].standard == standards_of(spec.mode)[1]);
    if spec.mode == ScanMode::Reflection {
        assert(captures[2].standard == standards_of(spec.mode)[2]);
        if calibration::build_verdict(spec, captures) is Ok {
            assert forall|i: int| 0 <= i < captures.len() implies calibration::capture_verdict(
                spec,
                #[trigger] captures[i],
            ) is Ok by {
                assert(i == 0 || i == 1 || i == 2);
            }
        }
    } else {
        if calibration::build_verdict(spec, captures) is Ok {
            assert forall|i: int| 0 <= i < captures.len() implies calibration::capture_verdict(
                spec,
                #[trigger] captures[i],
            ) is Ok by {
                assert(i == 0 || i == 1);
            }
        }
    }
}

/// A calibration is activated only for the very scan that it was made for.
pub proof fn law_activation_needs_the_same_scan(recipe: CalibrationRecipe, event: RecipeEvent)
    requires
        recipe.valid(),
        recipe.accepts(event),
    ensures
        recipe.next(event).1 is Activate ==> event == RecipeEvent::Reloaded(recipe.spec),
        recipe.next(event).1 is Finish ==> recipe.phase is Activating,
{
}

/// A prompt is aborted with `q` or `quit`, in any case and with white space around
/// it, and confirmed with anything else, an empty line included. An interrupt
/// counts more than any input, and the end of input is no answer.
pub proof fn law_answers_to_a_prompt(input: Seq<char>)
    ensures
        confirmation_of(false, false, input) == if text::spells(text::trim(input), "q"@)
            || text::spells(text::trim(input), "quit"@) {
            Confirmation::Aborted
        } else {
            Confirmation::Proceed
        },
        confirmation_of(true, false, input) == Confirmation::Interrupted,
        confirmation_of(true, true, input) == Confirmation::Interrupted,
        confirmation_of(false, true, input) == Confirmation::Closed,
{
    reveal_strlit("q");
    reveal_strlit("quit");
    text::law_spelling(text::trim(input), "q"@);
    text::law_spelling(text::trim(input), "quit"@);
}

/// The standards are asked for one after the other and in a fixed order: open,
/// short and load for reflection, open and loopback for transmission. When all of
/// them are captured the calibration is saved.
pub proof fn law_order_of_the_standards(recipe: CalibrationRecipe)
    requires
        recipe.valid(),
    ensures
        ({
            let n = recipe.captures@.len();
            let action = recipe.continuing().1;
            match recipe.spec.mode {
                ScanMode::Reflection => {
                    &&& n == 0 ==> action == (RecipeAction::Prompt {
                        standard: CalibrationStandard::Open,
                        step: 1,
                        total_steps: 3,
                    })
                    &&& n == 1 ==> action == (RecipeAction::Prompt {
                        standard: CalibrationStandard::Short,
                        step: 2,
                        total_steps: 3,
                    })
                    &&& n == 2 ==> action == (RecipeAction::Prompt {
                        standard: CalibrationStandard::Load,
                        step: 3,
                        total_steps: 3,
                    })
                    &&& n >= 3 ==> n == 3 && action == RecipeAction::Save
                },
                ScanMode::Transmission => {
                    &&& n == 0 ==> action == (RecipeAction::Prompt {
                        standard: CalibrationStandard::Open,
                        step: 1,
                        total_steps: 2,
                    })
                    &&& n == 1 ==> action == (RecipeAction::Prompt {
                        standard: CalibrationStandard::Loopback,
                        step: 2,
                        total_steps: 2,
                    })
                    &&& n >= 2 ==> n == 2 && action == RecipeAction::Save
                },
            }
        }),
{
}

/// A recipe goes on only with what it asked for, and fails with what went wrong:
/// the standard whose turn it was, or the stage. A capture is saved under the
/// standard that was asked for.
pub proof fn law_recipe_failures(recipe: CalibrationRecipe, event: RecipeEvent)
    requires
        recipe.valid(),
        recipe.accepts(event),
        !(event is Captured),
    ensures
        ({
            let turn = standards_of(recipe.spec.mode)[recipe.captures@.len() as int];
            match recipe.next(event).1 {
                RecipeAction::Capture(standard) => standard == turn && event
                    == RecipeEvent::Answered(Confirmation::Proceed),
                RecipeAction::Reload => event is Saved,
                RecipeAction::Activate => event == RecipeEvent::Reloaded(recipe.spec),
                RecipeAction::Finish => event is Activated,
                RecipeAction::Fail(RecipeFailure::NotConfirmed { answer, standard }) => standard
                    == turn && event == RecipeEvent::Answered(answer) && answer
                    != Confirmation::Proceed,
                RecipeAction::Fail(RecipeFailure::Capture(standard)) => standard == turn
                    && event is CaptureFailed,
                RecipeAction::Fail(RecipeFailure::Save) => event is SaveFailed,
                RecipeAction::Fail(RecipeFailure::Reload) => event is ReloadFailed,
                RecipeAction::Fail(RecipeFailure::ScanChanged) => event matches RecipeEvent::Reloaded(
                    spec,
                ) && spec != recipe.spec,
                RecipeAction::Fail(RecipeFailure::Activation) => event is ActivationFailed,
                _ => false,
            }
        }),
{
}

/// A capture is put behind the others, with its temperature, its samples and the
/// standard whose turn it was.
pub proof fn law_captures_are_kept(
    before: CalibrationRecipe,
    after: CalibrationRecipe,
    device_temperature_c: Binary64,
    samples: Vec<RawSample>,
    i: int,
)
    requires
        before.valid(),
        before.captures_grow(after, RecipeEvent::Captured { device_temperature_c, samples }),
        0 <= i < after.captures@.len(),
    ensures
        after.captures@.len() == before.captures@.len() + 1,
        i < before.captures@.len() ==> after.captures@[i] == before.captures@[i],
        i == before.captures@.len() ==> {
            let capture = after.captures@[i];
            &&& capture.standard == standards_of(before.spec.mode)[i]
            &&& capture.device_temperature_c == device_temperature_c
            &&& capture.samples@ == samples@
        },
{
}

/// A failure names the standard that it is about, and the file that was saved all
/// the same.
pub proof fn law_failures_in_words(standard: CalibrationStandard, path: Seq<char>)
    ensures
        ({
            let closed = RecipeFailure::NotConfirmed { answer: Confirmation::Closed, standard };
            let aborted = RecipeFailure::NotConfirmed { answer: Confirmation::Aborted, standard };
            &&& closed.failure_text(path) == Some(
                "stdin closed before the "@ + standard.text() + " standard was confirmed"@,
            )
            &&& aborted.failure_text(path) == Some(
                "calibration aborted before the "@ + standard.text() + " standard"@,
            )
            &&& RecipeFailure::Capture(standard).failure_text(path) == Some(
                "failed to capture "@ + standard.text() + " standard"@,
            )
            &&& RecipeFailure::ScanChanged.failure_text(path) == Some(
                "scan range, point count, or mode changed while calibration was running; saved "@
                    + path + " but did not activate it"@,
            )
        }),
{
}

} // verus!
