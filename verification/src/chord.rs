//! Key chords, modifier sets and modal-mode sets.

use vstd::prelude::*;

verus! {

/// An identifier for an editor command.
///
/// Command names are interned by the caller; the engine only compares
/// identifiers for equality.
pub type CommandId = u64;

/// The modifier keys held together with a key press.
#[derive(Clone, Copy, PartialEq, Eq, Structural, Debug)]
pub struct Modifiers {
    pub ctrl: bool,
    pub alt: bool,
    pub shift: bool,
    pub meta: bool,
}

impl Modifiers {
    /// A modifier set with no modifier held.
    pub fn none() -> (r: Modifiers)
        ensures
            r == (Modifiers { ctrl: false, alt: false, shift: false, meta: false }),
    {
        Modifiers { ctrl: false, alt: false, shift: false, meta: false }
    }
}

/// One normalized key event: a physical key code with its modifiers.
#[derive(Clone, Copy, PartialEq, Eq, Structural, Debug)]
pub struct KeyChord {
    pub key: u32,
    pub mods: Modifiers,
}

/// A modal editing state.
#[derive(Clone, Copy, PartialEq, Eq, Structural, Debug)]
pub enum Mode {
    Normal,
    Insert,
    Visual,
    Terminal,
}

/// The set of modes a binding applies to.
///
/// The empty set means the binding is not modal and applies in every mode.
#[derive(Clone, Copy, PartialEq, Eq, Structural, Debug)]
pub struct ModeSet {
    pub normal: bool,
    pub insert: bool,
    pub visual: bool,
    pub terminal: bool,
}

impl ModeSet {
    pub open spec fn spec_is_empty(self) -> bool {
        !self.normal && !self.insert && !self.visual && !self.terminal
    }

    pub open spec fn spec_contains(self, m: Mode) -> bool {
        match m {
            Mode::Normal => self.normal,
            Mode::Insert => self.insert,
            Mode::Visual => self.visual,
            Mode::Terminal => self.terminal,
        }
    }

    /// Whether a binding carrying this mode set is active in mode `m`:
    /// either the set names `m`, or the set is empty and the binding is
    /// active everywhere.
    pub open spec fn spec_applies_in(self, m: Mode) -> bool {
        self.spec_is_empty() || self.spec_contains(m)
    }

    /// Whether two mode sets can be active in some common mode.
    pub open spec fn spec_overlaps(self, other: ModeSet) -> bool {
        self.spec_is_empty() || other.spec_is_empty() || (self.normal && other.normal) || (
        self.insert && other.insert) || (self.visual && other.visual) || (self.terminal
            && other.terminal)
    }

    /// The empty mode set, standing for "all modes".
    pub fn empty() -> (r: ModeSet)
        ensures
            r.spec_is_empty(),
    {
        ModeSet { normal: false, insert: false, visual: false, terminal: false }
    }

    pub fn is_empty(&self) -> (r: bool)
        ensures
            r == self.spec_is_empty(),
    {
        !self.normal && !self.insert && !self.visual && !self.terminal
    }

    pub fn contains(&self, m: Mode) -> (r: bool)
        ensures
            r == self.spec_contains(m),
    {
        match m {
            Mode::Normal => self.normal,
            Mode::Insert => self.insert,
            Mode::Visual => self.visual,
            Mode::Terminal => self.terminal,
        }
    }

    pub fn applies_in(&self, m: Mode) -> (r: bool)
        ensures
            r == self.spec_applies_in(m),
    {
        self.is_empty() || self.contains(m)
    }

    pub fn overlaps(&self, other: &ModeSet) -> (r: bool)
        ensures
            r == self.spec_overlaps(*other),
    {
        self.is_empty() || other.is_empty() || (self.normal && other.normal) || (self.insert
            && other.insert) || (self.visual && other.visual) || (self.terminal && other.terminal)
    }
}

/// Compares two chord sequences element by element.
pub fn chords_equal(a: &Vec<KeyChord>, b: &Vec<KeyChord>) -> (r: bool)
    ensures
        r == (a@ == b@),
{
    if a.len() != b.len() {
        proof {
            assert(a@.len() != b@.len());
        }
        return false;
    }
    let mut i: usize = 0;
    while i < a.len()
        invariant
            i <= a.len(),
            a@.len() == b@.len(),
            forall|k: int| 0 <= k < i ==> a@[k] == b@[k],
        decreases a.len() - i,
    {
        if a[i] != b[i] {
            return false;
        }
        i += 1;
    }
    proof {
        assert(a@ =~= b@);
    }
    true
}

} // verus!
