use vstd::prelude::*;

verus! {

/// How much the lyrics view moves.
#[derive(Debug, Clone, Copy, PartialEq, Eq, Structural)]
pub enum Motion {
    Normal,
    Minimal,
}

impl Default for Motion {
    fn default() -> (r: Motion)
        ensures
            r == Motion::Normal,
    {
        Motion::Normal
    }
}

/// The user's preferences.
#[derive(Debug, Clone, Copy, PartialEq, Eq, Structural)]
pub struct Settings {
    pub lyrics_backdrop: bool,
    pub lyrics_motion: Motion,
}

impl Default for Settings {
    /// A backdrop behind the lyrics, with normal motion.
    fn default() -> (r: Settings)
        ensures
            r == (Settings { lyrics_backdrop: true, lyrics_motion: Motion::Normal }),
    {
        Settings { lyrics_backdrop: true, lyrics_motion: Motion::Normal }
    }
}

} // verus!
