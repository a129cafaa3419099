//! Progress indicators.

use vstd::prelude::*;

verus! {

/// A measurement of progress for an indicator widget like [`ProgressBar`].
#[derive(Clone, Copy, Debug, PartialEq, Eq)]
pub enum Progress<T> {
    /// The task has an indeterminant length.
    Indeterminant,
    /// The task is a specified amount complete.
    Percent(T),
}

/// A value that is either fixed or changes over time; `D` is the handle of a
/// changing value.
#[derive(Debug)]
pub enum Value<T, D> {
    Constant(T),
    Dynamic(D),
}

/// A bar-shaped progress indicator. `P` is the fraction type of its progress
/// and `D` the handle of a changing progress.
#[derive(Debug)]
pub struct ProgressBar<P, D> {
    progress: Value<Progress<P>, D>,
    spinner: bool,
}

impl<P, D> ProgressBar<P, D> {
    /// The progress that the bar displays.
    pub closed spec fn spec_progress(&self) -> Value<Progress<P>, D> {
        self.progress
    }

    /// Whether the bar is drawn as a spinner.
    pub closed spec fn spec_spinner(&self) -> bool {
        self.spinner
    }

    /// Returns an indeterminant progress bar.
    pub fn indeterminant() -> (bar: ProgressBar<P, D>)
        ensures
            bar.spec_progress() == Value::<Progress<P>, D>::Constant(Progress::Indeterminant),
            !bar.spec_spinner(),
    {
        ProgressBar { progress: Value::Constant(Progress::Indeterminant), spinner: false }
    }

    /// Returns a new progress bar that displays `progress`.
    pub fn new(progress: D) -> (bar: ProgressBar<P, D>)
        ensures
            bar.spec_progress() == Value::<Progress<P>, D>::Dynamic(progress),
            !bar.spec_spinner(),
    {
        ProgressBar { progress: Value::Dynamic(progress), spinner: false }
    }

    /// Returns this progress bar drawn as a spinner.
    pub fn spinner(self) -> (bar: ProgressBar<P, D>)
        ensures
            bar.spec_progress() == self.spec_progress(),
            bar.spec_spinner(),
    {
        let mut this = self;
        this.spinner = true;
        this
    }

    /// The progress that the bar displays.
    pub fn progress(&self) -> (p: &Value<Progress<P>, D>)
        ensures
            *p == self.spec_progress(),
    {
        &self.progress
    }

    /// Whether the bar is drawn as a spinner.
    pub fn is_spinner(&self) -> (s: bool)
        ensures
            s == self.spec_spinner(),
    {
        self.spinner
    }
}

/// The angle, in degrees, at which a spinner rests while it shows a measured
/// progress.
pub const RESTING_ROTATION_DEGREES: i64 = 270;

/// How long one turn of an indeterminant spinner takes, in milliseconds.
pub const ROTATION_CYCLE_MILLIS: u64 = 1660;

/// How an animated value moves toward its target.
#[derive(Clone, Copy, Debug, PartialEq, Eq, Structural)]
pub enum Easing {
    /// Quadratic, slow at first.
    EaseInQuadratic,
    /// Quadratic, slow at the end.
    EaseOutQuadratic,
}

/// One step of the animation of a fraction. Targets are thousandths of the
/// whole (so 1000 is all of it); durations are milliseconds.
#[derive(Clone, Copy, Debug, PartialEq, Eq, Structural)]
pub enum AnimationStep {
    /// Jump to `target` at once.
    SetTo { target: u32 },
    /// Keep the value for `millis`.
    Hold { millis: u64 },
    /// Move to `target` over `millis` with `easing`.
    TransitionTo { target: u32, millis: u64, easing: Easing },
}

/// The turning of a spinner: from the smallest angle at once to the largest
/// angle over `millis`, over and over.
#[derive(Clone, Copy, Debug, PartialEq, Eq, Structural)]
pub struct RotationCycle {
    pub millis: u64,
}

/// The endless animation of an indeterminant task. The steps of `start` (the
/// beginning of the filled part) and of `end` (its end) run side by side, and
/// the two start over together once both are done; `rotation` turns a
/// spinner meanwhile.
#[derive(Debug, PartialEq, Eq)]
pub struct IndeterminantAnimation {
    pub start: Vec<AnimationStep>,
    pub end: Vec<AnimationStep>,
    pub rotation: Option<RotationCycle>,
}

/// The mathematical value of an [`IndeterminantAnimation`].
pub struct IndeterminantModel {
    pub start: Seq<AnimationStep>,
    pub end: Seq<AnimationStep>,
    pub rotation: Option<RotationCycle>,
}

impl View for IndeterminantAnimation {
    type V = IndeterminantModel;

    open spec fn view(&self) -> IndeterminantModel {
        IndeterminantModel { start: self.start@, end: self.end@, rotation: self.rotation }
    }
}

/// The steps of the beginning of the filled part: to nothing at once, hold a
/// quarter second, a third of the way in half a second easing in, and all
/// the way in half a second easing out.
pub open spec fn indeterminant_start_steps() -> Seq<AnimationStep> {
    seq![
        AnimationStep::SetTo { target: 0 },
        AnimationStep::Hold { millis: 250 },
        AnimationStep::TransitionTo { target: 330, millis: 500, easing: Easing::EaseInQuadratic },
        AnimationStep::TransitionTo { target: 1000, millis: 500, easing: Easing::EaseOutQuadratic },
    ]
}

/// The steps of the end of the filled part: to nothing at once, three
/// quarters of the way in half a second easing in, and all the way in a
/// quarter second easing out.
pub open spec fn indeterminant_end_steps() -> Seq<AnimationStep> {
    seq![
        AnimationStep::SetTo { target: 0 },
        AnimationStep::TransitionTo { target: 750, millis: 500, easing: Easing::EaseInQuadratic },
        AnimationStep::TransitionTo { target: 1000, millis: 250, easing: Easing::EaseOutQuadratic },
    ]
}

/// The indeterminant animation, turning the indicator when it `rotates`.
pub open spec fn indeterminant_animation(rotates: bool) -> IndeterminantModel {
    IndeterminantModel {
        start: indeterminant_start_steps(),
        end: indeterminant_end_steps(),
        rotation: if rotates {
            Some(RotationCycle { millis: ROTATION_CYCLE_MILLIS })
        } else {
            None
        },
    }
}

/// What a progress indicator does when its progress changes.
#[derive(Debug, PartialEq, Eq)]
pub enum ProgressAction<T> {
    /// Keep going as it is.
    Nothing,
    /// Start the endless animation of an indeterminant task.
    StartIndeterminant(IndeterminantAnimation),
    /// Stop any animation and show a measured progress: the filled part runs
    /// from `start` (thousandths of the whole) to `end`, and a spinner is
    /// turned to `rotation_degrees`.
    ShowPercent { start: u32, end: T, rotation_degrees: Option<i64> },
}

/// The mathematical value of a [`ProgressAction`].
pub enum ProgressActionModel<T> {
    Nothing,
    StartIndeterminant(IndeterminantModel),
    ShowPercent { start: u32, end: T, rotation_degrees: Option<i64> },
}

impl<T> View for ProgressAction<T> {
    type V = ProgressActionModel<T>;

    open spec fn view(&self) -> ProgressActionModel<T> {
        match self {
            ProgressAction::Nothing => ProgressActionModel::Nothing,
            ProgressAction::StartIndeterminant(a) => ProgressActionModel::StartIndeterminant(a@),
            ProgressAction::ShowPercent { start, end, rotation_degrees } => ProgressActionModel::ShowPercent {
                start: *start,
                end: *end,
                rotation_degrees: *rotation_degrees,
            },
        }
    }
}

/// The new animation state and the action for progress `progress`, when the
/// indeterminant animation is `animating` and the indicator can turn
/// (`rotates`): an indeterminant task starts its animation unless it already
/// runs; a measured one stops it, fills from nothing to the measure, and
/// puts a spinner back to its resting angle.
pub open spec fn progress_step<T>(progress: Progress<T>, animating: bool, rotates: bool) -> (bool, ProgressActionModel<T>) {
    match progress {
        Progress::Indeterminant => if animating {
            (true, ProgressActionModel::Nothing)
        } else {
            (true, ProgressActionModel::StartIndeterminant(indeterminant_animation(rotates)))
        },
        Progress::Percent(value) => (
            false,
            ProgressActionModel::ShowPercent {
                start: 0,
                end: value,
                rotation_degrees: if rotates {
                    Some(RESTING_ROTATION_DEGREES)
                } else {
                    None
                },
            },
        ),
    }
}

/// The indeterminant animation, turning the indicator when it `rotates`.
pub fn indeterminant_animation_for(rotates: bool) -> (animation: IndeterminantAnimation)
    ensures
        animation@ == indeterminant_animation(rotates),
{
    let mut start: Vec<AnimationStep> = Vec::new();
    start.push(AnimationStep::SetTo { target: 0 });
    start.push(AnimationStep::Hold { millis: 250 });
    start.push(AnimationStep::TransitionTo { target: 330, millis: 500, easing: Easing::EaseInQuadratic });
    start.push(AnimationStep::TransitionTo { target: 1000, millis: 500, easing: Easing::EaseOutQuadratic });
    let mut end: Vec<AnimationStep> = Vec::new();
    end.push(AnimationStep::SetTo { target: 0 });
    end.push(AnimationStep::TransitionTo { target: 750, millis: 500, easing: Easing::EaseInQuadratic });
    end.push(AnimationStep::TransitionTo { target: 1000, millis: 250, easing: Easing::EaseOutQuadratic });
    let rotation = if rotates {
        Some(RotationCycle { millis: ROTATION_CYCLE_MILLIS })
    } else {
        None
    };
    assert(start@ =~= indeterminant_start_steps());
    assert(end@ =~= indeterminant_end_steps());
    IndeterminantAnimation { start, end, rotation }
}

/// Updates a progress indicator for a new `progress`. `animating` tells
/// whether the indeterminant animation runs; `rotates` whether the indicator
/// is a spinner.
pub fn update_progress_bar<T>(progress: Progress<T>, animating: &mut bool, rotates: bool) -> (action: ProgressAction<T>)
    ensures
        (*final(animating), action@) == progress_step(progress, *old(animating), rotates),
{
    match progress {
        Progress::Indeterminant => {
            if !*animating {
                *animating = true;
                ProgressAction::StartIndeterminant(indeterminant_animation_for(rotates))
            } else {
                ProgressAction::Nothing
            }
        },
        Progress::Percent(value) => {
            *animating = false;
            let rotation_degrees = if rotates {
                Some(RESTING_ROTATION_DEGREES)
            } else {
                None
            };
            ProgressAction::ShowPercent { start: 0, end: value, rotation_degrees }
        },
    }
}

/// After any update the indeterminant animation runs exactly when the progress
/// is indeterminant, and a second update with the same progress changes no
/// state and starts nothing new.
pub proof fn law_progress_update_settles<T>(progress: Progress<T>, animating: bool, rotates: bool)
    ensures
        progress_step(progress, animating, rotates).0 == (progress is Indeterminant),
        progress_step(progress, progress_step(progress, animating, rotates).0, rotates).0
            == progress_step(progress, animating, rotates).0,
        !(progress_step(progress, progress_step(progress, animating, rotates).0, rotates).1 is StartIndeterminant),
{
}

/// A value that can be used in a progress indicator; `P` is the fraction type
/// of the progress.
pub trait ProgressValue<P> {
    /// The type that progress is ranged over.
    type Value;

    /// The progress of this value within `range`, or within the full range of
    /// the type when there is none.
    spec fn spec_to_progress(&self, range: Option<(&Self::Value, &Self::Value)>) -> Progress<P>;

    /// Converts this value to a progress using the range given, if provided.
    /// If no range is provided, the full range of the type should be
    /// considered.
    fn to_progress(&self, range: Option<(&Self::Value, &Self::Value)>) -> (p: Progress<P>)
        ensures
            p == self.spec_to_progress(range),
    ;
}

impl<P, T: ProgressValue<P>> ProgressValue<P> for Option<T> {
    type Value = T::Value;

    /// A missing value is indeterminant progress.
    open spec fn spec_to_progress(&self, range: Option<(&T::Value, &T::Value)>) -> Progress<P> {
        match self {
            Some(value) => value.spec_to_progress(range),
            None => Progress::Indeterminant,
        }
    }

    fn to_progress(&self, range: Option<(&T::Value, &T::Value)>) -> (p: Progress<P>) {
        match self {
            Some(value) => value.to_progress(range),
            None => Progress::Indeterminant,
        }
    }
}

impl<P, T: ProgressValue<P>> ProgressValue<P> for Progress<T> {
    type Value = T::Value;

    /// Indeterminant progress stays so; a measured value is converted.
    open spec fn spec_to_progress(&self, range: Option<(&T::Value, &T::Value)>) -> Progress<P> {
        match self {
            Progress::Indeterminant => Progress::Indeterminant,
            Progress::Percent(value) => value.spec_to_progress(range),
        }
    }

    fn to_progress(&self, range: Option<(&T::Value, &T::Value)>) -> (p: Progress<P>) {
        match self {
            Progress::Indeterminant => Progress::Indeterminant,
            Progress::Percent(value) => value.to_progress(range),
        }
    }
}

/// A measured progress always shows its measure from nothing, whatever
/// animation ran before: the filled part starts at zero and ends at the
/// measure, no animation keeps running, and a spinner is put back to its
/// resting angle of 270 degrees (an indicator that does not turn is not
/// turned).
pub proof fn law_measured_progress_is_shown<T>(value: T, animating: bool, rotates: bool)
    ensures
        !progress_step(Progress::Percent(value), animating, rotates).0,
        (progress_step(Progress::Percent(value), animating, rotates).1 == (ProgressActionModel::ShowPercent {
            start: 0,
            end: value,
            rotation_degrees: if rotates { Some(270i64) } else { None },
        })),
{
}

/// An indeterminant progress starts the animation exactly when none runs, and
/// then starts it in full: the beginning of the filled part holds at nothing
/// for 250 ms and then runs in over two half seconds (to 330 thousandths
/// easing in, then to the whole easing out); its end runs to 750 thousandths
/// over half a second easing in and to the whole over a quarter second easing
/// out; and a spinner turns once every 1660 ms.
pub proof fn law_indeterminant_progress_animates<T>(animating: bool, rotates: bool)
    ensures
        progress_step(Progress::<T>::Indeterminant, animating, rotates).0,
        animating ==> progress_step(Progress::<T>::Indeterminant, animating, rotates).1 is Nothing,
        (!animating ==> progress_step(Progress::<T>::Indeterminant, animating, rotates).1
            == ProgressActionModel::<T>::StartIndeterminant(
            IndeterminantModel {
                start: seq![
                    AnimationStep::SetTo { target: 0 },
                    AnimationStep::Hold { millis: 250 },
                    AnimationStep::TransitionTo { target: 330, millis: 500, easing: Easing::EaseInQuadratic },
                    AnimationStep::TransitionTo { target: 1000, millis: 500, easing: Easing::EaseOutQuadratic },
                ],
                end: seq![
                    AnimationStep::SetTo { target: 0 },
                    AnimationStep::TransitionTo { target: 750, millis: 500, easing: Easing::EaseInQuadratic },
                    AnimationStep::TransitionTo { target: 1000, millis: 250, easing: Easing::EaseOutQuadratic },
                ],
                rotation: if rotates { Some(RotationCycle { millis: 1660 }) } else { None },
            },
        )),
{
}

/// Converting a measured progress converts its measure, with the same range
/// (or none); only an indeterminant progress converts to indeterminant. A
/// present optional value converts as the value itself, a missing one to
/// indeterminant.
pub proof fn law_progress_conversion_delegates<P, T: ProgressValue<P>>(
    value: T,
    range: Option<(&T::Value, &T::Value)>,
)
    ensures
        Progress::Percent(value).spec_to_progress(range) == value.spec_to_progress(range),
        Progress::<T>::Indeterminant.spec_to_progress(range) == Progress::<P>::Indeterminant,
        Some(value).spec_to_progress(range) == value.spec_to_progress(range),
        Option::<T>::None.spec_to_progress(range) == Progress::<P>::Indeterminant,
{
}

} // verus!
