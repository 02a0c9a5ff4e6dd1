//! The built-in icons and where their SVG assets lie.

use vstd::prelude::*;

verus! {

/// A built-in icon; each has an SVG asset under `icons/`.
#[derive(Debug, Clone, Copy, PartialEq, Eq, Hash, Structural)]
pub enum IconName {
    /// Play (a filled triangle).
    Play,
    /// Pause (two bars).
    Pause,
    /// Volume on (a speaker with waves).
    VolumeOn,
    /// Volume off (a struck-out speaker).
    VolumeOff,
    /// More (three dots, vertical).
    More,
}

impl IconName {
    /// The path of the icon's asset among the embedded assets.
    pub open spec fn path_spec(self) -> Seq<char> {
        match self {
            IconName::Play => "icons/play_filled.svg"@,
            IconName::Pause => "icons/debug_pause.svg"@,
            IconName::VolumeOn => "icons/audio_on.svg"@,
            IconName::VolumeOff => "icons/audio_off.svg"@,
            IconName::More => "icons/ellipsis_vertical.svg"@,
        }
    }

    pub fn path(self) -> (r: &'static str)
        ensures
            r@ == self.path_spec(),
    {
        match self {
            IconName::Play => "icons/play_filled.svg",
            IconName::Pause => "icons/debug_pause.svg",
            IconName::VolumeOn => "icons/audio_on.svg",
            IconName::VolumeOff => "icons/audio_off.svg",
            IconName::More => "icons/ellipsis_vertical.svg",
        }
    }
}

} // verus!
