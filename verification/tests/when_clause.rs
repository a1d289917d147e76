use lapce_keymap::chord::{KeyChord, Mode, ModeSet, Modifiers};
use lapce_keymap::matcher::{ChordMatcher, ResolveOutcome};
use lapce_keymap::table::{BindingTable, KeyBinding};
use lapce_keymap::when::{Flags, WhenClause};

fn flags_of(pairs: &[(&[u8], bool)]) -> Flags {
    let mut flags = Flags::new();
    for (name, value) in pairs {
        flags.push(name.to_vec(), *value);
    }
    flags
}

#[test]
fn and_with_negation_tracks_live_flags() {
    let clause = WhenClause::new(b"editorFocus && !listFocus".to_vec());
    assert!(clause.is_valid());
    let focused = flags_of(&[(b"editorFocus", true), (b"listFocus", false)]);
    assert!(clause.eval(&focused));
    // The same parsed clause, evaluated against changed state: no re-parse,
    // a different answer.
    let list_focused = flags_of(&[(b"editorFocus", true), (b"listFocus", true)]);
    assert!(!clause.eval(&list_focused));
}

#[test]
fn parentheses_group_disjunctions() {
    let clause = WhenClause::new(b"(editorFocus || listFocus) && !modalActive".to_vec());
    assert!(clause.is_valid());
    let only_list = flags_of(&[(b"editorFocus", false), (b"listFocus", true), (b"modalActive", false)]);
    assert!(clause.eval(&only_list));
    let modal = flags_of(&[(b"editorFocus", false), (b"listFocus", true), (b"modalActive", true)]);
    assert!(!clause.eval(&modal));
    let neither = flags_of(&[(b"modalActive", false)]);
    assert!(!clause.eval(&neither));
}

#[test]
fn or_binds_looser_than_and() {
    // a || b && c reads as a || (b && c).
    let clause = WhenClause::new(b"a || b && c".to_vec());
    assert!(clause.is_valid());
    assert!(clause.eval(&flags_of(&[(b"a", true), (b"b", false), (b"c", false)])));
    assert!(!clause.eval(&flags_of(&[(b"a", false), (b"b", true), (b"c", false)])));
    assert!(clause.eval(&flags_of(&[(b"a", false), (b"b", true), (b"c", true)])));
}

#[test]
fn double_negation_and_whitespace() {
    let clause = WhenClause::new(b"  ! ! editorFocus  ".to_vec());
    assert!(clause.is_valid());
    assert!(clause.eval(&flags_of(&[(b"editorFocus", true)])));
    assert!(!clause.eval(&flags_of(&[(b"editorFocus", false)])));
}

#[test]
fn unknown_identifier_reads_as_false() {
    let clause = WhenClause::new(b"noSuchFlag".to_vec());
    assert!(clause.is_valid());
    assert!(!clause.eval(&flags_of(&[(b"editorFocus", true)])));
    let negated = WhenClause::new(b"!noSuchFlag".to_vec());
    assert!(negated.eval(&Flags::new()));
}

#[test]
fn malformed_clause_fails_closed() {
    for source in [
        b"editorFocus &&".as_slice(),
        b"&& editorFocus".as_slice(),
        b"(editorFocus".as_slice(),
        b"editorFocus)".as_slice(),
        b"editorFocus || ".as_slice(),
        b"a b".as_slice(),
        b"".as_slice(),
        b"a & b".as_slice(),
    ] {
        let clause = WhenClause::new(source.to_vec());
        assert!(!clause.is_valid(), "{:?} should not parse", source);
        assert!(!clause.eval(&flags_of(&[(b"editorFocus", true), (b"a", true), (b"b", true)])));
    }
}

#[test]
fn malformed_guard_never_matches_its_binding() {
    let mut table = BindingTable::new();
    let chord = KeyChord { key: 75, mods: Modifiers::none() };
    let broken = KeyBinding {
        command: 1,
        chords: vec![chord],
        modes: ModeSet::empty(),
        when: Some(WhenClause::new(b"editorFocus &&".to_vec())),
    };
    table.insert_or_override(broken, false);
    let mut m = ChordMatcher::new();
    let flags = flags_of(&[(b"editorFocus", true)]);
    let r = m.on_chord(&table, chord, Mode::Normal, &flags);
    assert_eq!(r, ResolveOutcome::Unmatched);
}

#[test]
fn guard_gates_resolution_per_event() {
    let mut table = BindingTable::new();
    let chord = KeyChord { key: 75, mods: Modifiers::none() };
    let guarded = KeyBinding {
        command: 8,
        chords: vec![chord],
        modes: ModeSet::empty(),
        when: Some(WhenClause::new(b"editorFocus".to_vec())),
    };
    table.insert_or_override(guarded, false);
    let mut m = ChordMatcher::new();
    let off = m.on_chord(&table, chord, Mode::Normal, &flags_of(&[(b"editorFocus", false)]));
    assert_eq!(off, ResolveOutcome::Unmatched);
    let on = m.on_chord(&table, chord, Mode::Normal, &flags_of(&[(b"editorFocus", true)]));
    assert_eq!(on, ResolveOutcome::Resolved(8));
}

#[test]
fn first_flag_entry_wins() {
    let flags = flags_of(&[(b"x", true), (b"x", false)]);
    let clause = WhenClause::new(b"x".to_vec());
    assert!(clause.eval(&flags));
}

#[test]
fn duplicate_preserves_source_and_meaning() {
    let clause = WhenClause::new(b"a && (b || !c)".to_vec());
    let copy = clause.duplicate();
    assert_eq!(copy.source().as_slice(), clause.source().as_slice());
    let flags = flags_of(&[(b"a", true), (b"b", false), (b"c", false)]);
    assert_eq!(copy.eval(&flags), clause.eval(&flags));
    assert!(copy.eval(&flags));
}
