//! The resolver: a state machine that accumulates pressed chords and matches
//! them against the binding table, handling the single-versus-two-chord
//! ambiguity by waiting for more input.

use vstd::prelude::*;

use crate::chord::{CommandId, KeyChord, Mode};
use crate::table::{BindingTable, EntryForm};
use crate::when::{spec_clause_eval, FlagState, Flags};

verus! {

/// The outcome of feeding one chord to the resolver.
#[derive(Clone, Copy, PartialEq, Eq, Structural, Debug)]
pub enum ResolveOutcome {
    /// A binding matched: dispatch this command.
    Resolved(CommandId),
    /// A two-chord binding may still complete: wait for the next chord.
    Pending,
    /// No binding matched; nothing fires.
    Unmatched,
}

/// Whether a table row is active now: its mode set admits the current mode
/// and its guard, if any, holds under the current flags. A row without a
/// guard always passes; a row whose guard did not parse never does.
pub open spec fn entry_active(e: EntryForm, mode: Mode, fs: Seq<FlagState>) -> bool {
    e.binding.modes.spec_applies_in(mode) && match e.binding.when {
        Some(c) => spec_clause_eval(c, fs),
        None => true,
    }
}

/// Whether a row is active and bound to exactly the chord sequence `target`.
pub open spec fn active_exact(
    e: EntryForm,
    target: Seq<KeyChord>,
    mode: Mode,
    fs: Seq<FlagState>,
) -> bool {
    e.binding.chords == target && entry_active(e, mode, fs)
}

/// Whether some active row is bound to a two-chord sequence starting with
/// `c`: pressing `c` alone must then wait.
pub open spec fn has_active_prefix(t: Seq<EntryForm>, c: KeyChord, mode: Mode, fs: Seq<FlagState>) -> bool {
    exists|i: int|
        0 <= i < t.len() && (#[trigger] t[i].binding.chords).len() == 2 && t[i].binding.chords[0]
            == c && entry_active(t[i], mode, fs)
}

/// The last row that is active, bound to exactly `target` and, when
/// `user_only` is set, comes from the user's configuration; -1 when there is
/// none.
pub open spec fn last_exact_idx(
    t: Seq<EntryForm>,
    target: Seq<KeyChord>,
    mode: Mode,
    fs: Seq<FlagState>,
    user_only: bool,
) -> int
    decreases t.len(),
{
    if t.len() == 0 {
        -1
    } else if active_exact(t.last(), target, mode, fs) && (t.last().user || !user_only) {
        t.len() - 1
    } else {
        last_exact_idx(t.drop_last(), target, mode, fs, user_only)
    }
}

/// The command that wins for the chord sequence `target`: among active rows
/// bound to exactly `target`, a user row beats the defaults, and among equals
/// the most recently inserted row wins.
pub open spec fn best_exact(
    t: Seq<EntryForm>,
    target: Seq<KeyChord>,
    mode: Mode,
    fs: Seq<FlagState>,
) -> Option<CommandId> {
    let u = last_exact_idx(t, target, mode, fs, true);
    let a = last_exact_idx(t, target, mode, fs, false);
    if u >= 0 {
        Some(t[u].binding.command)
    } else if a >= 0 {
        Some(t[a].binding.command)
    } else {
        None
    }
}

/// One step of the resolver from the idle state: an active two-chord prefix
/// makes it wait, otherwise an active single-chord binding resolves, and
/// with neither the chord falls through unmatched.
pub open spec fn step_idle(t: Seq<EntryForm>, c: KeyChord, mode: Mode, fs: Seq<FlagState>) -> ResolveOutcome {
    if has_active_prefix(t, c, mode, fs) {
        ResolveOutcome::Pending
    } else {
        match best_exact(t, seq![c], mode, fs) {
            Some(cmd) => ResolveOutcome::Resolved(cmd),
            None => ResolveOutcome::Unmatched,
        }
    }
}

/// One step of the resolver while a first chord is pending: only a binding
/// of exactly the two chords can resolve; anything else is unmatched and the
/// second chord is consumed, not reinterpreted.
pub open spec fn step_pending(
    t: Seq<EntryForm>,
    c1: KeyChord,
    c2: KeyChord,
    mode: Mode,
    fs: Seq<FlagState>,
) -> ResolveOutcome {
    match best_exact(t, seq![c1, c2], mode, fs) {
        Some(cmd) => ResolveOutcome::Resolved(cmd),
        None => ResolveOutcome::Unmatched,
    }
}

/// The chord resolver. Its abstract state is the pending first chord, if
/// any; every terminal outcome returns it to idle.
pub struct ChordMatcher {
    pending: Option<KeyChord>,
}

impl View for ChordMatcher {
    type V = Option<KeyChord>;

    closed spec fn view(&self) -> Option<KeyChord> {
        self.pending
    }
}

impl ChordMatcher {
    /// A resolver in the idle state.
    pub fn new() -> (r: ChordMatcher)
        ensures
            r@ is None,
    {
        ChordMatcher { pending: None }
    }

    /// Whether no chord is pending.
    pub fn is_idle(&self) -> (r: bool)
        ensures
            r == (self@ is None),
    {
        self.pending.is_none()
    }

    /// The pending first chord, when one is held.
    pub fn pending_chord(&self) -> (r: Option<KeyChord>)
        ensures
            r == self@,
    {
        self.pending
    }

    /// Feeds one chord. From idle, an active two-chord prefix takes
    /// precedence over a same-prefix single-chord binding and the resolver
    /// waits; otherwise the best single-chord binding resolves. From the
    /// waiting state the pair either resolves or is consumed unmatched.
    /// After any terminal outcome the resolver is idle again.
    pub fn on_chord(
        &mut self,
        table: &BindingTable,
        c: KeyChord,
        mode: Mode,
        fs: &Flags,
    ) -> (r: ResolveOutcome)
        ensures
            old(self)@ is None ==> r == step_idle(table@, c, mode, fs@) && final(self)@ == (
            if has_active_prefix(table@, c, mode, fs@) {
                Some(c)
            } else {
                Option::<KeyChord>::None
            }),
            old(self)@ matches Some(c1) ==> r == step_pending(table@, c1, c, mode, fs@)
                && final(self)@ is None,
    {
        match self.pending {
            None => {
                if has_prefix(table, c, mode, fs) {
                    self.pending = Some(c);
                    ResolveOutcome::Pending
                } else {
                    let target: Vec<KeyChord> = vec![c];
                    proof {
                        assert(target@ =~= seq![c]);
                    }
                    match best_exact_match(table, &target, mode, fs) {
                        Some(cmd) => ResolveOutcome::Resolved(cmd),
                        None => ResolveOutcome::Unmatched,
                    }
                }
            },
            Some(c1) => {
                self.pending = None;
                let target: Vec<KeyChord> = vec![c1, c];
                proof {
                    assert(target@ =~= seq![c1, c]);
                }
                match best_exact_match(table, &target, mode, fs) {
                    Some(cmd) => ResolveOutcome::Resolved(cmd),
                    None => ResolveOutcome::Unmatched,
                }
            },
        }
    }
}

/// Whether the row at `i` is active now.
fn entry_active_at(table: &BindingTable, i: usize, mode: Mode, fs: &Flags) -> (r: bool)
    requires
        i < table@.len(),
    ensures
        r == entry_active(table@[i as int], mode, fs@),
{
    let e = table.get(i);
    if !e.binding.modes.applies_in(mode) {
        return false;
    }
    match &e.binding.when {
        Some(cl) => cl.eval(fs),
        None => true,
    }
}

/// Whether some active two-chord binding starts with `c`.
#[verifier::loop_isolation(false)]
fn has_prefix(table: &BindingTable, c: KeyChord, mode: Mode, fs: &Flags) -> (r: bool)
    ensures
        r == has_active_prefix(table@, c, mode, fs@),
{
    let n = table.len();
    let mut i: usize = 0;
    while i < n
        invariant
            i <= n,
            forall|k: int|
                0 <= k < i ==> !((#[trigger] table@[k].binding.chords).len() == 2
                    && table@[k].binding.chords[0] == c && entry_active(table@[k], mode, fs@)),
        decreases n - i,
    {
        let e = table.get(i);
        if e.binding.chords.len() == 2 && e.binding.chords[0] == c && entry_active_at(
            table,
            i,
            mode,
            fs,
        ) {
            proof {
                assert(table@[i as int].binding.chords.len() == 2 && table@[i as int].binding.chords[0]
                    == c && entry_active(table@[i as int], mode, fs@));
            }
            return true;
        }
        i += 1;
    }
    false
}

/// The winning command for the exact chord sequence `target`, by the
/// precedence order: user rows before defaults, later rows before earlier.
#[verifier::loop_isolation(false)]
fn best_exact_match(table: &BindingTable, target: &Vec<KeyChord>, mode: Mode, fs: &Flags) -> (r:
    Option<CommandId>)
    ensures
        r == best_exact(table@, target@, mode, fs@),
{
    let n = table.len();
    let mut user_cmd: Option<CommandId> = None;
    let mut any_cmd: Option<CommandId> = None;
    proof {
        assert(table@.subrange(0, 0) =~= Seq::<EntryForm>::empty());
    }
    let mut i: usize = 0;
    while i < n
        invariant
            i <= n,
            ({
                let pre = table@.subrange(0, i as int);
                let u = last_exact_idx(pre, target@, mode, fs@, true);
                &&& (u >= 0 ==> user_cmd == Some(pre[u].binding.command))
                &&& (u < 0 ==> user_cmd is None)
            }),
            ({
                let pre = table@.subrange(0, i as int);
                let a = last_exact_idx(pre, target@, mode, fs@, false);
                &&& (a >= 0 ==> any_cmd == Some(pre[a].binding.command))
                &&& (a < 0 ==> any_cmd is None)
            }),
        decreases n - i,
    {
        let ghost pre = table@.subrange(0, i as int);
        let ghost ext = table@.subrange(0, i + 1);
        proof {
            assert(ext.drop_last() =~= pre);
            assert(ext.last() == table@[i as int]);
        }
        let e = table.get(i);
        let chords_hit = crate::chord::chords_equal(&e.binding.chords, target);
        let active = chords_hit && entry_active_at(table, i, mode, fs);
        if active {
            if e.user {
                user_cmd = Some(e.binding.command);
            }
            any_cmd = Some(e.binding.command);
        }
        proof {
            let tgt = target@;
            lemma_last_exact_idx(pre, tgt, mode, fs@, true);
            lemma_last_exact_idx(pre, tgt, mode, fs@, false);
            assert(ext.len() == i + 1);
            assert(active == active_exact(ext.last(), tgt, mode, fs@));
            if active && ext.last().user {
                assert(last_exact_idx(ext, tgt, mode, fs@, true) == i);
            } else {
                assert(last_exact_idx(ext, tgt, mode, fs@, true) == last_exact_idx(
                    pre,
                    tgt,
                    mode,
                    fs@,
                    true,
                ));
            }
            if active {
                assert(last_exact_idx(ext, tgt, mode, fs@, false) == i);
            } else {
                assert(last_exact_idx(ext, tgt, mode, fs@, false) == last_exact_idx(
                    pre,
                    tgt,
                    mode,
                    fs@,
                    false,
                ));
            }
            assert(forall|k: int| 0 <= k < pre.len() ==> #[trigger] pre[k] == ext[k]);
        }
        i += 1;
    }
    proof {
        assert(table@.subrange(0, n as int) =~= table@);
    }
    match user_cmd {
        Some(cmd) => Some(cmd),
        None => any_cmd,
    }
}

/// A single-chord binding with no competing active two-chord prefix
/// resolves: when some active row is bound to exactly `[c]` and no active
/// two-chord row starts with `c`, one step from idle fires the command of an
/// active row bound to `[c]`; when that row is the only such row, its own
/// command.
pub proof fn lemma_single_chord_resolves(
    t: Seq<EntryForm>,
    i: int,
    c: KeyChord,
    mode: Mode,
    fs: Seq<FlagState>,
)
    requires
        0 <= i < t.len(),
        active_exact(t[i], seq![c], mode, fs),
        !has_active_prefix(t, c, mode, fs),
    ensures
        step_idle(t, c, mode, fs) is Resolved,
        exists|k: int|
            0 <= k < t.len() && active_exact(#[trigger] t[k], seq![c], mode, fs) && step_idle(
                t,
                c,
                mode,
                fs,
            ) == ResolveOutcome::Resolved(t[k].binding.command),
        (forall|k: int|
            0 <= k < t.len() && k != i ==> !active_exact(#[trigger] t[k], seq![c], mode, fs))
            ==> step_idle(t, c, mode, fs) == ResolveOutcome::Resolved(t[i].binding.command),
{
    lemma_last_exact_idx(t, seq![c], mode, fs, true);
    lemma_last_exact_idx(t, seq![c], mode, fs, false);
    let a = last_exact_idx(t, seq![c], mode, fs, false);
    assert(a >= 0);
}

/// Characterizes `last_exact_idx`: a non-negative result names an active row
/// bound to exactly `target` (a user row when `user_only` is set) with no
/// later such row; -1 means there is no such row at all.
pub proof fn lemma_last_exact_idx(
    t: Seq<EntryForm>,
    target: Seq<KeyChord>,
    mode: Mode,
    fs: Seq<FlagState>,
    user_only: bool,
)
    ensures
        ({
            let r = last_exact_idx(t, target, mode, fs, user_only);
            &&& -1 <= r < t.len()
            &&& (r >= 0 ==> active_exact(t[r], target, mode, fs) && (t[r].user || !user_only))
            &&& (r >= 0 ==> forall|k: int|
                r < k < t.len() ==> !(#[trigger] active_exact(t[k], target, mode, fs) && (t[k].user
                    || !user_only)))
            &&& (r == -1 ==> forall|k: int|
                0 <= k < t.len() ==> !(#[trigger] active_exact(t[k], target, mode, fs) && (t[k].user
                    || !user_only)))
        }),
    decreases t.len(),
{
    if t.len() > 0 {
        lemma_last_exact_idx(t.drop_last(), target, mode, fs, user_only);
        assert(forall|k: int| 0 <= k < t.len() - 1 ==> #[trigger] t.drop_last()[k] == t[k]);
        if !(active_exact(t.last(), target, mode, fs) && (t.last().user || !user_only)) {
            let r = last_exact_idx(t.drop_last(), target, mode, fs, user_only);
            assert(last_exact_idx(t, target, mode, fs, user_only) == r);
            if r >= 0 {
                assert forall|k: int| r < k < t.len() implies !(#[trigger] active_exact(
                    t[k],
                    target,
                    mode,
                    fs,
                ) && (t[k].user || !user_only)) by {
                    if k < t.len() - 1 {
                        assert(!(active_exact(t.drop_last()[k], target, mode, fs) && (
                        t.drop_last()[k].user || !user_only)));
                    }
                }
            } else {
                assert forall|k: int| 0 <= k < t.len() implies !(#[trigger] active_exact(
                    t[k],
                    target,
                    mode,
                    fs,
                ) && (t[k].user || !user_only)) by {
                    if k < t.len() - 1 {
                        assert(!(active_exact(t.drop_last()[k], target, mode, fs) && (
                        t.drop_last()[k].user || !user_only)));
                    }
                }
            }
        }
    }
}

/// Tie-breaking is deterministic: when any active user row is bound to
/// exactly `target`, the winner is the most recently inserted such user row,
/// whatever default rows match.
pub proof fn lemma_user_precedence(
    t: Seq<EntryForm>,
    j: int,
    target: Seq<KeyChord>,
    mode: Mode,
    fs: Seq<FlagState>,
)
    requires
        0 <= j < t.len(),
        active_exact(t[j], target, mode, fs),
        t[j].user,
    ensures
        ({
            let u = last_exact_idx(t, target, mode, fs, true);
            &&& j <= u < t.len()
            &&& t[u].user
            &&& active_exact(t[u], target, mode, fs)
            &&& best_exact(t, target, mode, fs) == Some(t[u].binding.command)
        }),
{
    lemma_last_exact_idx(t, target, mode, fs, true);
    let u = last_exact_idx(t, target, mode, fs, true);
    assert(u >= 0);
    assert(j <= u) by {
        if u < j {
            assert(!(active_exact(t[j], target, mode, fs) && (t[j].user || !true)));
        }
    }
}

/// While a first chord is pending, a second chord that completes no active
/// two-chord binding is consumed unmatched; it is not reinterpreted as a new
/// first chord.
pub proof fn lemma_unrelated_second_chord(
    t: Seq<EntryForm>,
    c1: KeyChord,
    c2: KeyChord,
    mode: Mode,
    fs: Seq<FlagState>,
)
    requires
        forall|k: int|
            0 <= k < t.len() ==> !active_exact(#[trigger] t[k], seq![c1, c2], mode, fs),
    ensures
        step_pending(t, c1, c2, mode, fs) == ResolveOutcome::Unmatched,
{
    lemma_last_exact_idx(t, seq![c1, c2], mode, fs, true);
    lemma_last_exact_idx(t, seq![c1, c2], mode, fs, false);
    let u = last_exact_idx(t, seq![c1, c2], mode, fs, true);
    let a = last_exact_idx(t, seq![c1, c2], mode, fs, false);
    assert(u == -1);
    assert(a == -1);
}

/// The ambiguity rule: when a chord both completes an active single-chord
/// binding and starts an active two-chord binding, one step from idle waits
/// rather than resolving the single-chord binding.
pub proof fn lemma_prefix_takes_precedence(
    t: Seq<EntryForm>,
    c: KeyChord,
    mode: Mode,
    fs: Seq<FlagState>,
)
    requires
        has_active_prefix(t, c, mode, fs),
    ensures
        step_idle(t, c, mode, fs) == ResolveOutcome::Pending,
{
}

} // verus!
