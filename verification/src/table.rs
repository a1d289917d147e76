//! The ordered table of key bindings, with lookup, override-aware insertion
//! and removal.

use vstd::prelude::*;

use crate::chord::{chords_equal, CommandId, KeyChord, ModeSet};
use crate::when::{bytes_equal, ClauseForm, WhenClause};

verus! {

/// The mathematical form of a binding: the bound command, the chord sequence
/// that triggers it, the modes it is restricted to and its optional guard.
#[verifier::ext_equal]
pub struct BindingForm {
    pub command: CommandId,
    pub chords: Seq<KeyChord>,
    pub modes: ModeSet,
    pub when: Option<ClauseForm>,
}

/// A key binding: one or two chords, pressed in order, bound to a command,
/// restricted to a set of modes and guarded by an optional "when" clause.
pub struct KeyBinding {
    pub command: CommandId,
    pub chords: Vec<KeyChord>,
    pub modes: ModeSet,
    pub when: Option<WhenClause>,
}

impl View for KeyBinding {
    type V = BindingForm;

    open spec fn view(&self) -> BindingForm {
        BindingForm {
            command: self.command,
            chords: self.chords@,
            modes: self.modes,
            when: match self.when {
                Some(c) => Some(c@),
                None => None,
            },
        }
    }
}

/// A persisted binding holds one or two chords; the empty sequence stands for
/// "unbound" and is never stored.
pub open spec fn binding_wf(b: BindingForm) -> bool {
    1 <= b.chords.len() <= 2
}

/// The guard's source text, the identity by which two bindings are compared
/// for override purposes.
pub open spec fn when_source(b: BindingForm) -> Option<Seq<u8>> {
    match b.when {
        Some(c) => Some(c.src),
        None => None,
    }
}

/// Two bindings have the same shape when they share the chord sequence, their
/// mode sets can be active together, and their guard source text is equal.
/// Inserting a binding replaces the stored binding of the same shape.
pub open spec fn same_shape(a: BindingForm, b: BindingForm) -> bool {
    a.chords == b.chords && a.modes.spec_overlaps(b.modes) && when_source(a) == when_source(b)
}

impl KeyBinding {
    /// A structural copy of the binding.
    pub fn duplicate(&self) -> (r: KeyBinding)
        ensures
            r@ == self@,
    {
        let mut chords: Vec<KeyChord> = Vec::new();
        let mut i: usize = 0;
        while i < self.chords.len()
            invariant
                i <= self.chords@.len(),
                chords@ == self.chords@.subrange(0, i as int),
            decreases self.chords@.len() - i,
        {
            chords.push(self.chords[i]);
            proof {
                assert(chords@ =~= self.chords@.subrange(0, i + 1));
            }
            i += 1;
        }
        proof {
            assert(self.chords@.subrange(0, self.chords@.len() as int) =~= self.chords@);
        }
        KeyBinding {
            command: self.command,
            chords,
            modes: self.modes,
            when: match &self.when {
                Some(c) => Some(c.duplicate()),
                None => None,
            },
        }
    }

    /// Whether this binding and `other` have the same shape.
    pub fn shares_shape(&self, other: &KeyBinding) -> (r: bool)
        ensures
            r == same_shape(self@, other@),
    {
        if !chords_equal(&self.chords, &other.chords) {
            return false;
        }
        if !self.modes.overlaps(&other.modes) {
            return false;
        }
        match (&self.when, &other.when) {
            (None, None) => true,
            (Some(a), Some(b)) => bytes_equal(a.source(), b.source()),
            _ => false,
        }
    }
}

/// The mathematical form of a table row: the binding and whether it came from
/// the user's configuration rather than the default set.
#[verifier::ext_equal]
pub struct EntryForm {
    pub binding: BindingForm,
    pub user: bool,
}

/// One table row.
pub struct Entry {
    pub binding: KeyBinding,
    pub user: bool,
}

impl View for Entry {
    type V = EntryForm;

    open spec fn view(&self) -> EntryForm {
        EntryForm { binding: self.binding@, user: self.user }
    }
}

/// The ordered collection of all key bindings, defaults and user overrides
/// together, in insertion order.
pub struct BindingTable {
    entries: Vec<Entry>,
}

impl View for BindingTable {
    type V = Seq<EntryForm>;

    closed spec fn view(&self) -> Seq<EntryForm> {
        self.entries@.map_values(|e: Entry| e@)
    }
}

/// Every stored binding holds one or two chords.
pub open spec fn table_wf(t: Seq<EntryForm>) -> bool {
    forall|i: int| 0 <= i < t.len() ==> binding_wf(#[trigger] t[i].binding)
}

/// How insertion changes the table: the first row of the same shape is
/// replaced, keeping its position; with no such row the binding is appended.
/// Later rows take precedence at resolution, so a replacement or a fresh user
/// row wins over what stood before.
pub open spec fn insert_post(
    old_t: Seq<EntryForm>,
    new_t: Seq<EntryForm>,
    e: EntryForm,
) -> bool {
    (exists|i: int|
        0 <= i < old_t.len() && #[trigger] same_shape(old_t[i].binding, e.binding) && (forall|
            k: int,
        |
            0 <= k < i ==> !same_shape(#[trigger] old_t[k].binding, e.binding)) && new_t
            == old_t.update(i, e)) || ((forall|k: int|
        0 <= k < old_t.len() ==> !same_shape(#[trigger] old_t[k].binding, e.binding)) && new_t
        == old_t.push(e))
}

/// The table without the rows that bind `command` through exactly `chords`.
pub open spec fn spec_remove(
    t: Seq<EntryForm>,
    command: CommandId,
    chords: Seq<KeyChord>,
) -> Seq<EntryForm>
    decreases t.len(),
{
    if t.len() == 0 {
        t
    } else if t[0].binding.command == command && t[0].binding.chords == chords {
        spec_remove(t.drop_first(), command, chords)
    } else {
        seq![t[0]] + spec_remove(t.drop_first(), command, chords)
    }
}

/// The bindings whose first chord is `c`, in table order.
pub open spec fn spec_candidates(t: Seq<EntryForm>, c: KeyChord) -> Seq<BindingForm>
    decreases t.len(),
{
    if t.len() == 0 {
        Seq::empty()
    } else if t.last().binding.chords.len() > 0 && t.last().binding.chords[0] == c {
        spec_candidates(t.drop_last(), c) + seq![t.last().binding]
    } else {
        spec_candidates(t.drop_last(), c)
    }
}

impl BindingTable {
    /// An empty table.
    pub fn new() -> (r: BindingTable)
        ensures
            r@ == Seq::<EntryForm>::empty(),
            table_wf(r@),
    {
        let r = BindingTable { entries: Vec::new() };
        proof {
            assert(r@ =~= Seq::<EntryForm>::empty());
        }
        r
    }

    /// The number of stored bindings.
    pub fn len(&self) -> (r: usize)
        ensures
            r == self@.len(),
    {
        self.entries.len()
    }

    /// Inserts a binding, overriding the stored binding of the same shape if
    /// one exists: same chord sequence, overlapping modes, equal guard source.
    /// `user` marks a binding from the user's configuration; such bindings
    /// take precedence over defaults at resolution.
    #[verifier::loop_isolation(false)]
    pub fn insert_or_override(&mut self, binding: KeyBinding, user: bool)
        requires
            binding_wf(binding@),
            table_wf(old(self)@),
        ensures
            insert_post(old(self)@, final(self)@, EntryForm { binding: binding@, user }),
            table_wf(final(self)@),
    {
        let ghost before = self@;
        let ghost e = EntryForm { binding: binding@, user };
        let mut i: usize = 0;
        let n = self.entries.len();
        while i < n
            invariant
                i <= n,
                n == self.entries@.len(),
                before == self@,
                forall|k: int| 0 <= k < i ==> !same_shape(#[trigger] before[k].binding, e.binding),
            decreases n - i,
        {
            proof {
                assert(before[i as int] == self.entries@[i as int]@);
            }
            if self.entries[i].binding.shares_shape(&binding) {
                let ghost old_entries = self.entries@;
                self.entries[i] = Entry { binding, user };
                proof {
                    assert(forall|k: int|
                        0 <= k < before.len() ==> #[trigger] before[k] == old_entries[k]@);
                    assert(forall|k: int|
                        0 <= k < self@.len() ==> #[trigger] self@[k] == self.entries@[k]@);
                    assert(self@ =~~= before.update(i as int, e));
                }
                return ;
            }
            i += 1;
        }
        self.entries.push(Entry { binding, user });
        proof {
            assert(self@ =~= before.push(e));
        }
    }

    /// Removes the bindings of `command` triggered by exactly `chords`; does
    /// nothing when none is stored.
    #[verifier::loop_isolation(false)]
    pub fn remove(&mut self, command: CommandId, chords: &Vec<KeyChord>)
        ensures
            final(self)@ == spec_remove(old(self)@, command, chords@),
            table_wf(old(self)@) ==> table_wf(final(self)@),
    {
        let ghost before = self@;
        let mut i: usize = self.entries.len();
        proof {
            assert(before.skip(before.len() as int) =~= Seq::<EntryForm>::empty());
            assert(before.subrange(0, before.len() as int) =~= before);
        }
        while i > 0
            invariant
                i <= before.len(),
                self.entries@.len() == i + spec_remove(before.skip(i as int), command, chords@).len(),
                self@ == before.subrange(0, i as int) + spec_remove(
                    before.skip(i as int),
                    command,
                    chords@,
                ),
            decreases i,
        {
            i -= 1;
            let ghost suffix = before.skip(i as int);
            proof {
                assert(suffix.len() > 0);
                assert(suffix[0] == before[i as int]);
                assert(suffix.drop_first() =~= before.skip(i + 1));
                assert(before.subrange(0, i + 1).drop_last() =~= before.subrange(0, i as int));
                assert(self@[i as int] == before[i as int]);
            }
            let ghost view_before_step = self@;
            let hit = self.entries[i].binding.command == command && chords_equal(
                &self.entries[i].binding.chords,
                chords,
            );
            if hit {
                self.entries.remove(i);
                proof {
                    assert(forall|k: int|
                        0 <= k < self@.len() ==> #[trigger] self@[k] == self.entries@[k]@);
                    assert(self@ =~= view_before_step.remove(i as int));
                    assert(self@ =~= before.subrange(0, i as int) + spec_remove(
                        before.skip(i as int),
                        command,
                        chords@,
                    ));
                }
            } else {
                proof {
                    assert(self@ =~= before.subrange(0, i as int) + spec_remove(
                        before.skip(i as int),
                        command,
                        chords@,
                    ));
                }
            }
        }
        proof {
            assert(before.subrange(0, 0) =~= Seq::<EntryForm>::empty());
            assert(before.skip(0) =~= before);
            assert(self@ =~= spec_remove(before, command, chords@));
            if table_wf(before) {
                lemma_remove_wf(before, command, chords@);
            }
        }
    }

    /// All stored bindings whose first chord is `c`, in table order,
    /// regardless of mode or guard: filtering against the current mode and
    /// flags is the resolver's business.
    #[verifier::loop_isolation(false)]
    pub fn lookup_candidates(&self, c: KeyChord) -> (r: Vec<KeyBinding>)
        ensures
            r@.len() == spec_candidates(self@, c).len(),
            forall|k: int|
                0 <= k < r@.len() ==> #[trigger] r@[k]@ == spec_candidates(self@, c)[k],
    {
        let mut r: Vec<KeyBinding> = Vec::new();
        let mut i: usize = 0;
        let n = self.entries.len();
        proof {
            assert(self@.subrange(0, 0) =~= Seq::<EntryForm>::empty());
        }
        while i < n
            invariant
                i <= n,
                n == self.entries@.len(),
                self.entries@.len() == self@.len(),
                r@.len() == spec_candidates(self@.subrange(0, i as int), c).len(),
                forall|k: int|
                    0 <= k < r@.len() ==> #[trigger] r@[k]@ == spec_candidates(
                        self@.subrange(0, i as int),
                        c,
                    )[k],
            decreases n - i,
        {
            let ghost prefix = self@.subrange(0, i + 1);
            proof {
                assert(prefix.drop_last() =~= self@.subrange(0, i as int));
                assert(prefix.last() == self@[i as int]);
                assert(self@[i as int] == self.entries@[i as int]@);
            }
            let b = &self.entries[i].binding;
            if b.chords.len() > 0 && b.chords[0] == c {
                r.push(b.duplicate());
            }
            i += 1;
        }
        proof {
            assert(self@.subrange(0, self@.len() as int) =~= self@);
        }
        r
    }

    /// A row of the table, for rendering the configuration panel.
    pub fn get(&self, i: usize) -> (r: &Entry)
        requires
            i < self@.len(),
        ensures
            r@ == self@[i as int],
    {
        &self.entries[i]
    }
}

/// Override precedence: when exactly one stored row has the shape of the
/// inserted binding, insertion replaces that row in place, and afterwards the
/// inserted binding is the only row of that shape.
pub proof fn lemma_override_replaces(
    old_t: Seq<EntryForm>,
    new_t: Seq<EntryForm>,
    e: EntryForm,
    i: int,
)
    requires
        insert_post(old_t, new_t, e),
        0 <= i < old_t.len(),
        same_shape(old_t[i].binding, e.binding),
        forall|k: int|
            0 <= k < old_t.len() && k != i ==> !same_shape(#[trigger] old_t[k].binding, e.binding),
    ensures
        new_t == old_t.update(i, e),
        new_t.len() == old_t.len(),
        forall|k: int|
            0 <= k < new_t.len() ==> (same_shape(#[trigger] new_t[k].binding, e.binding) <==> k
                == i),
{
    assert(same_shape(e.binding, e.binding));
    let j = choose|j: int|
        0 <= j < old_t.len() && #[trigger] same_shape(old_t[j].binding, e.binding) && (forall|
            k: int,
        |
            0 <= k < j ==> !same_shape(#[trigger] old_t[k].binding, e.binding)) && new_t
            == old_t.update(j, e);
    assert(j == i);
}

/// Removal is complete: no row binding `command` through `chords` survives
/// it.
pub proof fn lemma_remove_clears(t: Seq<EntryForm>, command: CommandId, chords: Seq<KeyChord>)
    ensures
        forall|k: int|
            0 <= k < spec_remove(t, command, chords).len() ==> !(#[trigger] spec_remove(
                t,
                command,
                chords,
            )[k].binding.command == command && spec_remove(t, command, chords)[k].binding.chords
                == chords),
    decreases t.len(),
{
    if t.len() > 0 {
        lemma_remove_clears(t.drop_first(), command, chords);
        let rest = spec_remove(t.drop_first(), command, chords);
        if !(t[0].binding.command == command && t[0].binding.chords == chords) {
            let r = spec_remove(t, command, chords);
            assert(r == seq![t[0]] + rest);
            assert forall|k: int| 1 <= k < r.len() implies r[k] == rest[k - 1] by {}
        }
    }
}

/// Removal keeps every row it does not target, in order.
pub proof fn lemma_remove_keeps(t: Seq<EntryForm>, command: CommandId, chords: Seq<KeyChord>)
    ensures
        forall|k: int|
            0 <= k < t.len() && !(#[trigger] t[k].binding.command == command && t[k].binding.chords
                == chords) ==> spec_remove(t, command, chords).contains(t[k]),
    decreases t.len(),
{
    if t.len() > 0 {
        lemma_remove_keeps(t.drop_first(), command, chords);
        let rest = spec_remove(t.drop_first(), command, chords);
        let r = spec_remove(t, command, chords);
        assert forall|k: int|
            0 <= k < t.len() && !(t[k].binding.command == command && t[k].binding.chords
                == chords) implies r.contains(#[trigger] t[k]) by {
            if k == 0 {
                assert(r[0] == t[0]);
            } else {
                assert(t.drop_first()[k - 1] == t[k]);
                assert(!(t.drop_first()[k - 1].binding.command == command && t.drop_first()[k
                    - 1].binding.chords == chords));
                assert(rest.contains(t[k]));
                let j = choose|j: int| 0 <= j < rest.len() && rest[j] == t[k];
                if t[0].binding.command == command && t[0].binding.chords == chords {
                    assert(r[j] == t[k]);
                } else {
                    assert(r[j + 1] == t[k]);
                }
            }
        }
    }
}

/// Every candidate a lookup returns is the binding of some table row.
pub proof fn lemma_candidates_are_rows(t: Seq<EntryForm>, c: KeyChord)
    ensures
        forall|k: int|
            0 <= k < spec_candidates(t, c).len() ==> exists|i: int|
                0 <= i < t.len() && #[trigger] spec_candidates(t, c)[k] == t[i].binding,
    decreases t.len(),
{
    if t.len() > 0 {
        lemma_candidates_are_rows(t.drop_last(), c);
        let rest = spec_candidates(t.drop_last(), c);
        let r = spec_candidates(t, c);
        assert(forall|i: int| 0 <= i < t.len() - 1 ==> #[trigger] t.drop_last()[i] == t[i]);
        assert forall|k: int| 0 <= k < r.len() implies exists|i: int|
            0 <= i < t.len() && #[trigger] r[k] == t[i].binding by {
            if k < rest.len() {
                assert(r[k] == rest[k]);
                let i = choose|i: int|
                    0 <= i < t.drop_last().len() && #[trigger] rest[k] == t.drop_last()[i].binding;
                assert(r[k] == t[i].binding);
            } else {
                assert(r[k] == t.last().binding);
                assert(r[k] == t[t.len() - 1].binding);
            }
        }
    }
}

/// After removing a binding, a lookup by its first chord offers no candidate
/// binding that command through those chords.
pub proof fn lemma_removed_has_no_candidates(
    t: Seq<EntryForm>,
    command: CommandId,
    chords: Seq<KeyChord>,
    c: KeyChord,
)
    ensures
        forall|k: int|
            0 <= k < spec_candidates(spec_remove(t, command, chords), c).len() ==> !(
            #[trigger] spec_candidates(spec_remove(t, command, chords), c)[k].command == command
                && spec_candidates(spec_remove(t, command, chords), c)[k].chords == chords),
{
    let removed = spec_remove(t, command, chords);
    lemma_candidates_are_rows(removed, c);
    lemma_remove_clears(t, command, chords);
    assert forall|k: int| 0 <= k < spec_candidates(removed, c).len() implies !(
    #[trigger] spec_candidates(removed, c)[k].command == command && spec_candidates(
        removed,
        c,
    )[k].chords == chords) by {
        let i = choose|i: int|
            0 <= i < removed.len() && #[trigger] spec_candidates(removed, c)[k]
                == removed[i].binding;
    }
}

/// Removal keeps the table well formed.
pub proof fn lemma_remove_wf(t: Seq<EntryForm>, command: CommandId, chords: Seq<KeyChord>)
    requires
        table_wf(t),
    ensures
        table_wf(spec_remove(t, command, chords)),
    decreases t.len(),
{
    if t.len() > 0 {
        assert(forall|k: int|
            0 <= k < t.drop_first().len() ==> #[trigger] t.drop_first()[k] == t[k + 1]);
        lemma_remove_wf(t.drop_first(), command, chords);
        let rest = spec_remove(t.drop_first(), command, chords);
        if !(t[0].binding.command == command && t[0].binding.chords == chords) {
            let r = spec_remove(t, command, chords);
            assert forall|k: int| 0 <= k < r.len() implies binding_wf(#[trigger] r[k].binding) by {
                if k == 0 {
                    assert(r[0] == t[0]);
                } else {
                    assert(r[k] == rest[k - 1]);
                }
            }
        }
    }
}

} // verus!
