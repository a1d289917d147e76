//! The configuration panel's header row. The column titles (command,
//! keybinding, when, modes) are fixed, so the header carries no state; the
//! UI layer owns its geometry and drawing.

use vstd::prelude::*;

verus! {

/// The header row above the keybinding list.
#[derive(PartialEq, Eq, Structural, Debug)]
pub struct LapceKeymapHeader {}

impl LapceKeymapHeader {
    pub fn new() -> (r: LapceKeymapHeader)
        ensures
            r == (LapceKeymapHeader {  }),
    {
        LapceKeymapHeader {  }
    }
}

} // verus!
