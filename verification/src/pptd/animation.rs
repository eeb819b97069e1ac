//! Page-level animation orchestrations (`Page.animations`).

use vstd::prelude::*;

verus! {

/// Animation effects: entrance / emphasis / exit / motion-path.
#[derive(Debug, Clone, Copy, PartialEq, Eq)]
pub enum AnimationEffect {
    Appear,
    FadeIn,
    FlyIn,
    ZoomIn,
    WipeIn,
    FloatIn,
    PeekIn,
    RiseIn,
    Pulse,
    GrowShrink,
    Spin,
    Teeter,
    FillColor,
    Transparency,
    ColorPulse,
    Disappear,
    FadeOut,
    FlyOut,
    ZoomOut,
    WipeOut,
    FloatOut,
    MotionPath,
}

/// When an animation starts relative to its predecessors.
#[derive(Debug, Clone, Copy, PartialEq, Eq)]
pub enum AnimationTrigger {
    OnClick,
    WithPrevious,
    AfterPrevious,
}

/// Travel / wipe direction.
#[derive(Debug, Clone, Copy, PartialEq, Eq)]
pub enum AnimationDirection {
    Up,
    Down,
    Left,
    Right,
}

/// Animation easing curve.
#[derive(Debug, Clone, Copy, PartialEq, Eq)]
pub enum AnimationEasing {
    Linear,
    EaseIn,
    EaseOut,
    EaseInOut,
}

} // verus!
