//! The keyboard chords of the editor.
use vstd::prelude::*;

verus! {

/// The keys that the editor reads in one tick.
#[derive(Clone, Copy, PartialEq, Eq, Structural, Debug)]
pub struct Keys {
    /// `Z` went down this tick.
    pub z_pressed: bool,
    /// `S` went down this tick.
    pub s_pressed: bool,
    /// Left `Ctrl` is held.
    pub ctrl_held: bool,
    /// Left `Shift` is held.
    pub shift_held: bool,
}

/// The commands that a tick's keys ask for.
#[derive(Clone, Copy, PartialEq, Eq, Structural, Debug)]
pub struct Shortcuts {
    pub undo: bool,
    pub redo: bool,
    pub save: bool,
}

/// Undo is Ctrl+Z, redo is Ctrl+Shift+Z, save is Ctrl+S.
pub fn shortcuts(keys: Keys) -> (r: Shortcuts)
    ensures
        r.undo == (keys.z_pressed && keys.ctrl_held && !keys.shift_held),
        r.redo == (keys.z_pressed && keys.ctrl_held && keys.shift_held),
        r.save == (keys.s_pressed && keys.ctrl_held),
{
    Shortcuts {
        undo: keys.z_pressed && keys.ctrl_held && !keys.shift_held,
        redo: keys.z_pressed && keys.ctrl_held && keys.shift_held,
        save: keys.s_pressed && keys.ctrl_held,
    }
}

} // verus!
