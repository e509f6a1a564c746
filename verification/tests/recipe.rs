use minivna::binary64::Binary64;
use minivna::calibration::{prepare, CalibrationStandard};
use minivna::model::{RawSample, ScanMode, ScanSpec};
use minivna::recipe::{
    calibration_standard_instruction, calibration_standards, read_confirmation, CalibrationRecipe,
    Confirmation, RecipeAction, RecipeEvent, RecipeFailure,
};

fn spec(mode: ScanMode) -> ScanSpec {
    ScanSpec { start_hz: 45_000_000, stop_hz: 60_000_000, points: 4, mode }
}

fn captured(spec: &ScanSpec) -> RecipeEvent {
    let zero = Binary64 { bits: 0 };
    RecipeEvent::Captured {
        device_temperature_c: Binary64 { bits: 41.5_f64.to_bits() },
        samples: (0..spec.points)
            .map(|index| RawSample {
                frequency_hz: spec.frequency_at(index),
                real: zero,
                imaginary: zero,
                p1: 0,
                p2: 0,
                p3: 0,
                p4: 0,
            })
            .collect(),
    }
}

fn proceed() -> RecipeEvent {
    RecipeEvent::Answered(Confirmation::Proceed)
}

/// A recipe that has captured all of its standards.
fn saving(mode: ScanMode) -> CalibrationRecipe {
    let spec = spec(mode);
    let mut recipe = CalibrationRecipe::new(spec);
    for _ in calibration_standards(mode) {
        recipe.step(proceed());
        recipe.step(captured(&spec));
    }
    recipe
}

#[test]
fn reflection_captures_open_short_and_load() {
    let spec = spec(ScanMode::Reflection);
    let mut recipe = CalibrationRecipe::new(spec);
    assert_eq!(
        recipe.first_action(),
        RecipeAction::Prompt { standard: CalibrationStandard::Open, step: 1, total_steps: 3 }
    );
    assert_eq!(recipe.step(proceed()), RecipeAction::Capture(CalibrationStandard::Open));
    assert_eq!(
        recipe.step(captured(&spec)),
        RecipeAction::Prompt { standard: CalibrationStandard::Short, step: 2, total_steps: 3 }
    );
    assert_eq!(recipe.step(proceed()), RecipeAction::Capture(CalibrationStandard::Short));
    recipe.step(captured(&spec));
    assert_eq!(recipe.step(proceed()), RecipeAction::Capture(CalibrationStandard::Load));
    assert_eq!(recipe.step(captured(&spec)), RecipeAction::Save);
    let file = recipe.build(None).unwrap();
    assert!(file.open.is_some() && file.short.is_some() && file.load.is_some());
    assert!(prepare(file).is_ok());
    assert_eq!(recipe.step(RecipeEvent::Saved), RecipeAction::Reload);
    assert_eq!(recipe.step(RecipeEvent::Reloaded(spec)), RecipeAction::Activate);
    assert_eq!(recipe.step(RecipeEvent::Activated), RecipeAction::Finish);
}

#[test]
fn transmission_captures_open_and_loopback() {
    let mut recipe = saving(ScanMode::Transmission);
    let file = recipe.build(Some("made".to_owned())).unwrap();
    assert!(file.open.is_some() && file.loopback.is_some() && file.short.is_none());
    recipe.step(RecipeEvent::Saved);
    assert_eq!(
        recipe.step(RecipeEvent::Reloaded(spec(ScanMode::Reflection))),
        RecipeAction::Fail(RecipeFailure::ScanChanged)
    );
    assert_eq!(
        RecipeFailure::ScanChanged.message("/c.json").unwrap(),
        "scan range, point count, or mode changed while calibration was running; saved /c.json but did not activate it"
    );
}

#[test]
fn answers_are_read_generously() {
    assert_eq!(read_confirmation(false, false, "\n"), Confirmation::Proceed);
    assert_eq!(read_confirmation(false, false, " Q \n"), Confirmation::Aborted);
    assert_eq!(read_confirmation(false, false, "QUIT"), Confirmation::Aborted);
    assert_eq!(read_confirmation(false, true, ""), Confirmation::Closed);
    assert_eq!(read_confirmation(true, true, "q"), Confirmation::Interrupted);
}

#[test]
fn every_recipe_failure_has_its_words() {
    let mut recipe = CalibrationRecipe::new(spec(ScanMode::Reflection));
    let failure = match recipe.step(RecipeEvent::Answered(Confirmation::Aborted)) {
        RecipeAction::Fail(failure) => failure,
        other => panic!("{other:?}"),
    };
    assert_eq!(
        failure.message("").unwrap(),
        "calibration aborted before the open standard"
    );
    let of = |answer| RecipeFailure::NotConfirmed { answer, standard: CalibrationStandard::Short };
    assert_eq!(
        of(Confirmation::Closed).message("").unwrap(),
        "stdin closed before the short standard was confirmed"
    );
    assert_eq!(of(Confirmation::Interrupted).message("").unwrap(), "calibration interrupted");
    let mut recipe = CalibrationRecipe::new(spec(ScanMode::Reflection));
    recipe.step(proceed());
    assert_eq!(
        recipe.step(RecipeEvent::CaptureFailed),
        RecipeAction::Fail(RecipeFailure::Capture(CalibrationStandard::Open))
    );
    assert_eq!(
        RecipeFailure::Capture(CalibrationStandard::Open).message("").unwrap(),
        "failed to capture open standard"
    );
    assert_eq!(
        saving(ScanMode::Reflection).step(RecipeEvent::SaveFailed),
        RecipeAction::Fail(RecipeFailure::Save)
    );
    assert_eq!(RecipeFailure::Save.message(""), None);
}

#[test]
fn every_standard_has_its_instruction() {
    let instruction = calibration_standard_instruction;
    assert_eq!(
        instruction(ScanMode::Reflection, CalibrationStandard::Open),
        "connect the OPEN standard to the DUT port"
    );
    assert_eq!(
        instruction(ScanMode::Transmission, CalibrationStandard::Open),
        "leave the measurement path in its OPEN/isolation condition"
    );
    assert_eq!(
        instruction(ScanMode::Reflection, CalibrationStandard::Short),
        "connect the SHORT standard to the DUT port"
    );
    assert_eq!(
        instruction(ScanMode::Reflection, CalibrationStandard::Load),
        "connect the 50 ohm LOAD standard to the DUT port"
    );
    assert_eq!(
        instruction(ScanMode::Transmission, CalibrationStandard::Loopback),
        "connect the generator output to the detector input with the THRU/loopback standard"
    );
}
