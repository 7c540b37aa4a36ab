//! Detection expressions: boolean combinations of "some path matches this
//! pattern", evaluated over the listing of a directory.

use crate::context::Context;
use crate::glob::accepts_any;
use crate::glob::usable;
use vstd::prelude::*;

verus! {

/// A boolean expression over glob patterns.
#[derive(Debug, PartialEq, Eq)]
pub enum Detection {
    /// Both hold.
    All(Box<Detection>, Box<Detection>),
    /// At least one holds.
    Any(Box<Detection>, Box<Detection>),
    /// The inner expression does not hold.
    Not(Box<Detection>),
    /// Some path of the listing matches the pattern.
    Pattern(String),
}

/// A detection expression as plain values.
pub enum DetectionView {
    All(Box<DetectionView>, Box<DetectionView>),
    Any(Box<DetectionView>, Box<DetectionView>),
    Not(Box<DetectionView>),
    Pattern(Seq<char>),
}

/// The expression as plain values.
pub open spec fn detection_view(detection: Detection) -> DetectionView
    decreases detection,
{
    match detection {
        Detection::All(left, right) => DetectionView::All(
            Box::new(detection_view(*left)),
            Box::new(detection_view(*right)),
        ),
        Detection::Any(left, right) => DetectionView::Any(
            Box::new(detection_view(*left)),
            Box::new(detection_view(*right)),
        ),
        Detection::Not(inner) => DetectionView::Not(Box::new(detection_view(*inner))),
        Detection::Pattern(pattern) => DetectionView::Pattern(pattern@),
    }
}

impl View for Detection {
    type V = DetectionView;

    open spec fn view(&self) -> DetectionView {
        detection_view(*self)
    }
}

/// The pattern can be matched with and accepts some path of `paths`.
pub open spec fn present(pattern: Seq<char>, paths: Seq<Seq<char>>) -> bool {
    usable(pattern) && accepts_any(pattern, paths)
}

impl Clone for Detection {
    fn clone(&self) -> (copy: Detection)
        ensures
            copy == *self,
            copy@ == self@,
        decreases self,
    {
        match self {
            Detection::All(left, right) => Detection::All(
                Box::new((**left).clone()),
                Box::new((**right).clone()),
            ),
            Detection::Any(left, right) => Detection::Any(
                Box::new((**left).clone()),
                Box::new((**right).clone()),
            ),
            Detection::Not(inner) => Detection::Not(Box::new((**inner).clone())),
            Detection::Pattern(pattern) => Detection::Pattern(pattern.clone()),
        }
    }
}

impl DetectionView {
    /// The truth value of the expression over a list of paths.
    pub open spec fn holds(self, paths: Seq<Seq<char>>) -> bool
        decreases self,
    {
        match self {
            DetectionView::All(left, right) => left.holds(paths) && right.holds(paths),
            DetectionView::Any(left, right) => left.holds(paths) || right.holds(paths),
            DetectionView::Not(inner) => !inner.holds(paths),
            DetectionView::Pattern(pattern) => present(pattern, paths),
        }
    }
}

impl Detection {
    /// Evaluates the expression over the listing of `context`.
    ///
    /// Evaluation goes from left to right and stops as soon as the value is
    /// known; it reads the listing and changes nothing.
    pub fn matches(&self, context: &Context) -> (r: bool)
        ensures
            r == self@.holds(context.paths()),
        decreases self,
    {
        match self {
            Detection::All(left, right) => left.matches(context) && right.matches(context),
            Detection::Any(left, right) => left.matches(context) || right.matches(context),
            Detection::Not(inner) => !inner.matches(context),
            Detection::Pattern(pattern) => context.contains(pattern.as_str()),
        }
    }
}

} // verus!
