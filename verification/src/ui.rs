use vstd::prelude::*;

verus! {

/// The bar above the workspace: transport buttons and tempo. It keeps no state.
pub struct UITopBar {}

impl UITopBar {
    pub fn new() -> (r: Self)
        ensures
            r == (UITopBar {}),
    {
        UITopBar {}
    }
}

/// Painter of a clip's waveform. It keeps no state.
#[derive(Clone)]
pub struct UIWaveform {}

impl UIWaveform {
    pub fn new() -> (r: Self)
        ensures
            r == (UIWaveform {}),
    {
        UIWaveform {}
    }
}

/// Painter of a track's peak and RMS levels. It keeps no state.
#[derive(Clone)]
pub struct LoudnessMeter {}

/// A command that a hotkey can trigger.
#[derive(PartialEq, Eq, Hash, Debug)]
pub enum Action {
    Undo,
    Redo,
    PlayPause,
}

/// Spacing of the workspace grid lines.
#[derive(Debug, Clone, Copy, PartialEq, Eq, Structural)]
pub enum GridResolution {
    /// One line every sixteen bars.
    SixTeenBar,
    /// One line every four bars.
    FourBar,
    /// One line per bar.
    Bar,
    /// One line per beat.
    Beat,
    /// Four lines per beat.
    Quarter,
    /// Eight lines per beat.
    Height,
}

} // verus!
