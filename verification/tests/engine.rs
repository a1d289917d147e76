use lapce_keymap::chord::{KeyChord, Mode, ModeSet, Modifiers};
use lapce_keymap::matcher::{ChordMatcher, ResolveOutcome};
use lapce_keymap::panel::LapceKeymapHeader;
use lapce_keymap::session::BindingEditorSession;
use lapce_keymap::table::{BindingTable, KeyBinding};
use lapce_keymap::when::{Flags, WhenClause};

fn plain(key: u32) -> KeyChord {
    KeyChord { key, mods: Modifiers::none() }
}

fn ctrl(key: u32) -> KeyChord {
    KeyChord { key, mods: Modifiers { ctrl: true, alt: false, shift: false, meta: false } }
}

fn binding(command: u64, chords: Vec<KeyChord>) -> KeyBinding {
    KeyBinding { command, chords, modes: ModeSet::empty(), when: None }
}

fn no_flags() -> Flags {
    Flags::new()
}

#[test]
fn single_chord_resolves() {
    let mut table = BindingTable::new();
    table.insert_or_override(binding(1, vec![ctrl(75)]), false);
    let mut m = ChordMatcher::new();
    let r = m.on_chord(&table, ctrl(75), Mode::Normal, &no_flags());
    assert_eq!(r, ResolveOutcome::Resolved(1));
    assert!(m.is_idle());
}

#[test]
fn unrelated_second_chord_is_consumed() {
    let mut table = BindingTable::new();
    table.insert_or_override(binding(2, vec![ctrl(75), ctrl(67)]), false);
    table.insert_or_override(binding(9, vec![ctrl(88)]), false);
    let mut m = ChordMatcher::new();
    let first = m.on_chord(&table, ctrl(75), Mode::Normal, &no_flags());
    assert_eq!(first, ResolveOutcome::Pending);
    assert_eq!(m.pending_chord(), Some(ctrl(75)));
    // Ctrl+X completes no two-chord binding starting with Ctrl+K: it is
    // consumed unmatched, not looked up as a fresh first chord.
    let second = m.on_chord(&table, ctrl(88), Mode::Normal, &no_flags());
    assert_eq!(second, ResolveOutcome::Unmatched);
    assert!(m.is_idle());
    // Pressed from idle, the same chord does resolve.
    let third = m.on_chord(&table, ctrl(88), Mode::Normal, &no_flags());
    assert_eq!(third, ResolveOutcome::Resolved(9));
}

#[test]
fn ambiguity_waits_then_resolves_pair() {
    let mut table = BindingTable::new();
    table.insert_or_override(binding(1, vec![ctrl(75)]), false);
    table.insert_or_override(binding(2, vec![ctrl(75), ctrl(67)]), false);
    let mut m = ChordMatcher::new();
    let first = m.on_chord(&table, ctrl(75), Mode::Normal, &no_flags());
    assert_eq!(first, ResolveOutcome::Pending);
    let second = m.on_chord(&table, ctrl(67), Mode::Normal, &no_flags());
    assert_eq!(second, ResolveOutcome::Resolved(2));
    assert!(m.is_idle());
}

#[test]
fn empty_table_is_unmatched() {
    let table = BindingTable::new();
    let mut m = ChordMatcher::new();
    let r = m.on_chord(&table, plain(65), Mode::Normal, &no_flags());
    assert_eq!(r, ResolveOutcome::Unmatched);
    assert!(m.is_idle());
}

#[test]
fn modifiers_distinguish_chords() {
    let mut table = BindingTable::new();
    table.insert_or_override(binding(1, vec![ctrl(75)]), false);
    let mut m = ChordMatcher::new();
    let r = m.on_chord(&table, plain(75), Mode::Normal, &no_flags());
    assert_eq!(r, ResolveOutcome::Unmatched);
}

#[test]
fn mode_set_gates_bindings() {
    let mut table = BindingTable::new();
    let modal = KeyBinding {
        command: 4,
        chords: vec![plain(74)],
        modes: ModeSet { normal: true, insert: false, visual: false, terminal: false },
        when: None,
    };
    table.insert_or_override(modal, false);
    let mut m = ChordMatcher::new();
    let in_insert = m.on_chord(&table, plain(74), Mode::Insert, &no_flags());
    assert_eq!(in_insert, ResolveOutcome::Unmatched);
    let in_normal = m.on_chord(&table, plain(74), Mode::Normal, &no_flags());
    assert_eq!(in_normal, ResolveOutcome::Resolved(4));
}

#[test]
fn empty_mode_set_means_all_modes() {
    let mut table = BindingTable::new();
    table.insert_or_override(binding(5, vec![plain(74)]), false);
    let mut m = ChordMatcher::new();
    for mode in [Mode::Normal, Mode::Insert, Mode::Visual, Mode::Terminal] {
        let r = m.on_chord(&table, plain(74), mode, &no_flags());
        assert_eq!(r, ResolveOutcome::Resolved(5));
    }
}

#[test]
fn later_binding_wins_among_equals() {
    let mut table = BindingTable::new();
    table.insert_or_override(binding(1, vec![plain(75)]), false);
    // A different guard source gives a different shape, so both rows stay.
    let guarded = KeyBinding {
        command: 2,
        chords: vec![plain(75)],
        modes: ModeSet::empty(),
        when: Some(WhenClause::new(b"editorFocus".to_vec())),
    };
    table.insert_or_override(guarded, false);
    let mut flags = Flags::new();
    flags.push(b"editorFocus".to_vec(), true);
    let mut m = ChordMatcher::new();
    let r = m.on_chord(&table, plain(75), Mode::Normal, &flags);
    assert_eq!(r, ResolveOutcome::Resolved(2));
}

#[test]
fn user_binding_beats_later_default() {
    let mut table = BindingTable::new();
    table.insert_or_override(binding(1, vec![plain(75)]), true);
    let guarded = KeyBinding {
        command: 2,
        chords: vec![plain(75)],
        modes: ModeSet::empty(),
        when: Some(WhenClause::new(b"editorFocus".to_vec())),
    };
    table.insert_or_override(guarded, false);
    let mut flags = Flags::new();
    flags.push(b"editorFocus".to_vec(), true);
    let mut m = ChordMatcher::new();
    let r = m.on_chord(&table, plain(75), Mode::Normal, &flags);
    assert_eq!(r, ResolveOutcome::Resolved(1));
}

#[test]
fn override_replaces_same_shape() {
    let mut table = BindingTable::new();
    table.insert_or_override(binding(1, vec![ctrl(80)]), false);
    assert_eq!(table.len(), 1);
    table.insert_or_override(binding(7, vec![ctrl(80)]), true);
    assert_eq!(table.len(), 1);
    let candidates = table.lookup_candidates(ctrl(80));
    assert_eq!(candidates.len(), 1);
    assert_eq!(candidates[0].command, 7);
}

#[test]
fn lookup_returns_candidates_in_table_order() {
    let mut table = BindingTable::new();
    table.insert_or_override(binding(1, vec![ctrl(75), ctrl(67)]), false);
    table.insert_or_override(binding(2, vec![ctrl(75)]), false);
    table.insert_or_override(binding(3, vec![plain(88)]), false);
    let candidates = table.lookup_candidates(ctrl(75));
    assert_eq!(candidates.len(), 2);
    assert_eq!(candidates[0].command, 1);
    assert_eq!(candidates[1].command, 2);
}

#[test]
fn remove_absent_binding_is_noop() {
    let mut table = BindingTable::new();
    table.insert_or_override(binding(1, vec![ctrl(75)]), false);
    table.remove(99, &vec![ctrl(75)]);
    table.remove(1, &vec![plain(75)]);
    assert_eq!(table.len(), 1);
}

#[test]
fn record_three_chords_keeps_only_the_third() {
    let mut session = BindingEditorSession::start(1, None);
    assert_eq!(session.command(), 1);
    session.record_chord(plain(65));
    session.record_chord(plain(66));
    assert_eq!(session.recorded_chords().as_slice(), &[plain(65), plain(66)]);
    session.record_chord(plain(67));
    assert_eq!(session.recorded_chords().as_slice(), &[plain(67)]);
}

#[test]
fn commit_inserts_recorded_binding() {
    let mut table = BindingTable::new();
    let mut session = BindingEditorSession::start(6, None);
    session.record_chord(ctrl(75));
    session.record_chord(ctrl(84));
    session.commit(&mut table);
    let candidates = table.lookup_candidates(ctrl(75));
    assert_eq!(candidates.len(), 1);
    assert_eq!(candidates[0].command, 6);
    assert_eq!(candidates[0].chords.as_slice(), &[ctrl(75), ctrl(84)]);
    assert!(candidates[0].modes.is_empty());
    assert!(candidates[0].when.is_none());
}

#[test]
fn commit_with_no_chords_unbinds() {
    let mut table = BindingTable::new();
    table.insert_or_override(binding(6, vec![ctrl(75)]), false);
    let template = {
        let candidates = table.lookup_candidates(ctrl(75));
        candidates.into_iter().next().unwrap()
    };
    let session = BindingEditorSession::start(6, Some(template));
    session.commit(&mut table);
    assert_eq!(table.len(), 0);
    assert!(table.lookup_candidates(ctrl(75)).is_empty());
}

#[test]
fn commit_with_no_chords_on_unbound_command_is_noop() {
    let mut table = BindingTable::new();
    table.insert_or_override(binding(1, vec![ctrl(75)]), false);
    let session = BindingEditorSession::start(2, None);
    session.commit(&mut table);
    assert_eq!(table.len(), 1);
}

#[test]
fn commit_keeps_template_modes_and_guard() {
    let mut table = BindingTable::new();
    let stored = KeyBinding {
        command: 3,
        chords: vec![ctrl(75)],
        modes: ModeSet { normal: true, insert: false, visual: false, terminal: false },
        when: Some(WhenClause::new(b"editorFocus".to_vec())),
    };
    table.insert_or_override(stored, false);
    let template = {
        let candidates = table.lookup_candidates(ctrl(75));
        candidates.into_iter().next().unwrap()
    };
    let mut session = BindingEditorSession::start(3, Some(template));
    session.record_chord(ctrl(66));
    session.commit(&mut table);
    let candidates = table.lookup_candidates(ctrl(66));
    assert_eq!(candidates.len(), 1);
    assert!(candidates[0].modes.contains(Mode::Normal));
    assert!(!candidates[0].modes.contains(Mode::Insert));
    let clause = candidates[0].when.as_ref().unwrap();
    assert_eq!(clause.source().as_slice(), b"editorFocus");
}

#[test]
fn cancel_leaves_table_untouched() {
    let mut table = BindingTable::new();
    table.insert_or_override(binding(1, vec![ctrl(75)]), false);
    let mut session = BindingEditorSession::start(1, None);
    session.record_chord(ctrl(90));
    session.cancel();
    assert_eq!(table.len(), 1);
    assert!(table.lookup_candidates(ctrl(90)).is_empty());
}

#[test]
fn header_carries_no_state() {
    let header = LapceKeymapHeader::new();
    assert_eq!(header, LapceKeymapHeader {});
}
