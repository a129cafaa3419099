use gooey::progress::{
    indeterminant_animation_for, update_progress_bar, AnimationStep, Easing, IndeterminantAnimation,
    Progress, ProgressAction, ProgressBar, ProgressValue, RotationCycle, Value,
};

fn expected_animation(rotation: Option<RotationCycle>) -> IndeterminantAnimation {
    IndeterminantAnimation {
        start: vec![
            AnimationStep::SetTo { target: 0 },
            AnimationStep::Hold { millis: 250 },
            AnimationStep::TransitionTo { target: 330, millis: 500, easing: Easing::EaseInQuadratic },
            AnimationStep::TransitionTo { target: 1000, millis: 500, easing: Easing::EaseOutQuadratic },
        ],
        end: vec![
            AnimationStep::SetTo { target: 0 },
            AnimationStep::TransitionTo { target: 750, millis: 500, easing: Easing::EaseInQuadratic },
            AnimationStep::TransitionTo { target: 1000, millis: 250, easing: Easing::EaseOutQuadratic },
        ],
        rotation,
    }
}

/// A count of steps out of a known total, as a percentage.
struct Steps(u32);

impl ProgressValue<u32> for Steps {
    type Value = u32;

    fn spec_to_progress(&self, range: Option<(&u32, &u32)>) -> Progress<u32> {
        self.to_progress(range)
    }

    fn to_progress(&self, range: Option<(&u32, &u32)>) -> Progress<u32> {
        let (min, max) = match range {
            Some((min, max)) => (*min, *max),
            None => (0, 100),
        };
        Progress::Percent((self.0 - min) * 100 / (max - min))
    }
}

#[test]
fn indeterminant_bar() {
    let bar = ProgressBar::<u32, ()>::indeterminant();
    assert!(matches!(bar.progress(), Value::Constant(Progress::Indeterminant)));
    assert!(!bar.is_spinner());
}

#[test]
fn dynamic_bar_and_spinner() {
    let bar = ProgressBar::<u32, &str>::new("handle");
    assert!(matches!(bar.progress(), Value::Dynamic("handle")));
    assert!(!bar.is_spinner());
    let spinner = bar.spinner();
    assert!(spinner.is_spinner());
    assert!(matches!(spinner.progress(), Value::Dynamic("handle")));
}

#[test]
fn indeterminant_progress_starts_the_animation_once() {
    let mut animating = false;
    let first = update_progress_bar::<u32>(Progress::Indeterminant, &mut animating, true);
    assert_eq!(
        first,
        ProgressAction::StartIndeterminant(expected_animation(Some(RotationCycle { millis: 1660 })))
    );
    assert!(animating);
    let second = update_progress_bar::<u32>(Progress::Indeterminant, &mut animating, true);
    assert_eq!(second, ProgressAction::Nothing);
    assert!(animating);
}

#[test]
fn percent_progress_stops_the_animation() {
    let mut animating = true;
    let action = update_progress_bar(Progress::Percent(40u32), &mut animating, false);
    assert_eq!(action, ProgressAction::ShowPercent { start: 0, end: 40, rotation_degrees: None });
    assert!(!animating);
    let again = update_progress_bar(Progress::Percent(40u32), &mut animating, false);
    assert_eq!(again, action);
    assert!(!animating);
    let spin = update_progress_bar(Progress::Percent(7u32), &mut animating, true);
    assert_eq!(spin, ProgressAction::ShowPercent { start: 0, end: 7, rotation_degrees: Some(270) });
}

#[test]
fn bar_without_spin() {
    let mut animating = false;
    let action = update_progress_bar::<u32>(Progress::Indeterminant, &mut animating, false);
    assert_eq!(action, ProgressAction::StartIndeterminant(expected_animation(None)));
    assert_eq!(indeterminant_animation_for(false), expected_animation(None));
}

#[test]
fn optional_values_are_indeterminant_when_missing() {
    let none: Option<Steps> = None;
    assert_eq!(none.to_progress(None), Progress::Indeterminant);
    assert_eq!(Some(Steps(30)).to_progress(None), Progress::Percent(30));
    assert_eq!(Some(Steps(30)).to_progress(Some((&20, &70))), Progress::Percent(20));
}

#[test]
fn progress_values_convert_their_measure() {
    let unknown: Progress<Steps> = Progress::Indeterminant;
    assert_eq!(unknown.to_progress(Some((&0, &10))), Progress::Indeterminant);
    assert_eq!(Progress::Percent(Steps(5)).to_progress(Some((&0, &10))), Progress::Percent(50));
}
