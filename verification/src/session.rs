//! The transient recording state of the configuration panel: the chords the
//! user has pressed so far for a selected command, committed back into the
//! binding table or discarded.

use vstd::prelude::*;

use crate::chord::{CommandId, KeyChord, ModeSet};
use crate::table::{
    binding_wf, spec_remove, table_wf, BindingForm, BindingTable, EntryForm, KeyBinding,
    insert_post,
};

verus! {

/// The mathematical form of a session: the target command, the template
/// binding being edited, if any, and the chords recorded so far.
#[verifier::ext_equal]
pub struct SessionForm {
    pub command: CommandId,
    pub template: Option<BindingForm>,
    pub recorded: Seq<KeyChord>,
}

/// How recording one chord changes the buffer: a full buffer of two chords
/// is cleared before the new chord is pushed, so a third chord leaves the
/// buffer holding that chord alone.
pub open spec fn record_step(s: Seq<KeyChord>, c: KeyChord) -> Seq<KeyChord> {
    if s.len() == 2 {
        seq![c]
    } else {
        s.push(c)
    }
}

/// The binding a commit builds: the recorded chords bound to the session's
/// command, with the modes and guard carried over from the template, or none
/// for a previously unbound command.
pub open spec fn committed_binding(s: SessionForm) -> BindingForm {
    BindingForm {
        command: s.command,
        chords: s.recorded,
        modes: match s.template {
            Some(t) => t.modes,
            None => ModeSet { normal: false, insert: false, visual: false, terminal: false },
        },
        when: match s.template {
            Some(t) => t.when,
            None => None,
        },
    }
}

/// A recording session. It never holds more than two chords.
pub struct BindingEditorSession {
    command: CommandId,
    template: Option<KeyBinding>,
    recorded: Vec<KeyChord>,
}

impl View for BindingEditorSession {
    type V = SessionForm;

    closed spec fn view(&self) -> SessionForm {
        SessionForm {
            command: self.command,
            template: match self.template {
                Some(t) => Some(t@),
                None => None,
            },
            recorded: self.recorded@,
        }
    }
}

/// The chord buffer never exceeds two chords, and an edited template is a
/// stored binding, so it is well formed.
pub open spec fn session_wf(s: SessionForm) -> bool {
    s.recorded.len() <= 2 && match s.template {
        Some(t) => binding_wf(t),
        None => true,
    }
}

impl BindingEditorSession {
    /// Opens a recording session for `command`, with an empty chord buffer.
    /// `existing` is the stored binding being edited; `None` starts from a
    /// previously unbound command.
    pub fn start(command: CommandId, existing: Option<KeyBinding>) -> (r: BindingEditorSession)
        requires
            match existing {
                Some(b) => binding_wf(b@),
                None => true,
            },
        ensures
            r@.command == command,
            r@.template == match existing {
                Some(b) => Some(b@),
                None => None::<BindingForm>,
            },
            r@.recorded == Seq::<KeyChord>::empty(),
            session_wf(r@),
    {
        let r = BindingEditorSession { command, template: existing, recorded: Vec::new() };
        proof {
            assert(r@.recorded =~= Seq::<KeyChord>::empty());
        }
        r
    }

    /// Records one chord: a buffer already holding two chords is cleared
    /// first, then the chord is appended.
    pub fn record_chord(&mut self, c: KeyChord)
        ensures
            final(self)@.recorded == record_step(old(self)@.recorded, c),
            final(self)@.command == old(self)@.command,
            final(self)@.template == old(self)@.template,
            session_wf(old(self)@) ==> session_wf(final(self)@),
    {
        if self.recorded.len() == 2 {
            self.recorded.clear();
        }
        self.recorded.push(c);
        proof {
            if old(self)@.recorded.len() == 2 {
                assert(self@.recorded =~= seq![c]);
            }
        }
    }

    /// The chords recorded so far, for live display during capture.
    pub fn recorded_chords(&self) -> (r: &Vec<KeyChord>)
        ensures
            r@ == self@.recorded,
    {
        &self.recorded
    }

    /// The command the session is recording for.
    pub fn command(&self) -> (r: CommandId)
        ensures
            r == self@.command,
    {
        self.command
    }

    /// Commits the recording into the table. Recorded chords become a user
    /// binding that overrides the stored binding of the same shape. A commit
    /// with no recorded chords means "unbind": it removes the template's
    /// binding of this command instead of storing an empty sequence, and
    /// does nothing for a previously unbound command.
    pub fn commit(self, table: &mut BindingTable)
        requires
            session_wf(self@),
            table_wf(old(table)@),
        ensures
            self@.recorded.len() == 0 ==> final(table)@ == match self@.template {
                Some(t) => spec_remove(old(table)@, self@.command, t.chords),
                None => old(table)@,
            },
            self@.recorded.len() > 0 ==> insert_post(
                old(table)@,
                final(table)@,
                EntryForm { binding: committed_binding(self@), user: true },
            ),
            table_wf(final(table)@),
    {
        if self.recorded.len() == 0 {
            match self.template {
                Some(t) => {
                    table.remove(self.command, &t.chords);
                },
                None => {},
            }
        } else {
            let (modes, when) = match self.template {
                Some(t) => (t.modes, t.when),
                None => (ModeSet::empty(), None),
            };
            let binding = KeyBinding { command: self.command, chords: self.recorded, modes, when };
            table.insert_or_override(binding, true);
        }
    }

    /// Discards the session without touching the table.
    pub fn cancel(self) {
    }
}

/// Recording three chords into an empty buffer leaves only the third: the
/// buffer is cleared before the third push, not rolled.
pub proof fn lemma_record_three(a: KeyChord, b: KeyChord, c: KeyChord)
    ensures
        record_step(record_step(record_step(Seq::<KeyChord>::empty(), a), b), c) == seq![c],
{
    assert(record_step(Seq::<KeyChord>::empty(), a) =~= seq![a]);
    assert(record_step(seq![a], b) =~= seq![a, b]);
    assert(record_step(seq![a, b], c) =~= seq![c]);
}

} // verus!
