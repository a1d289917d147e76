//! The "when" guard language: a small boolean expression language over named
//! editor-state flags, with `&&`, `||`, `!`, parentheses and bare identifiers.
//!
//! A clause is parsed once from its source text; evaluation happens on every
//! resolution attempt against the flags supplied for that attempt, so it
//! always reflects the current editor state. A clause whose source does not
//! parse fails closed: it never matches.

use vstd::prelude::*;

verus! {

/// The parsed form of a guard expression.
pub enum WhenExpr {
    Flag(Vec<u8>),
    Not(Box<WhenExpr>),
    And(Box<WhenExpr>, Box<WhenExpr>),
    Or(Box<WhenExpr>, Box<WhenExpr>),
}

/// The mathematical form of a guard expression, over byte sequences.
pub enum WhenAst {
    Flag(Seq<u8>),
    Not(Box<WhenAst>),
    And(Box<WhenAst>, Box<WhenAst>),
    Or(Box<WhenAst>, Box<WhenAst>),
}

pub open spec fn ast_of(e: WhenExpr) -> WhenAst
    decreases e,
{
    match e {
        WhenExpr::Flag(name) => WhenAst::Flag(name@),
        WhenExpr::Not(a) => WhenAst::Not(Box::new(ast_of(*a))),
        WhenExpr::And(a, b) => WhenAst::And(Box::new(ast_of(*a)), Box::new(ast_of(*b))),
        WhenExpr::Or(a, b) => WhenAst::Or(Box::new(ast_of(*a)), Box::new(ast_of(*b))),
    }
}

impl View for WhenExpr {
    type V = WhenAst;

    open spec fn view(&self) -> WhenAst {
        ast_of(*self)
    }
}

/// One named editor-state flag and its current value.
pub struct Flag {
    pub name: Vec<u8>,
    pub value: bool,
}

/// The mathematical form of a flag.
pub struct FlagState {
    pub name: Seq<u8>,
    pub value: bool,
}

/// The live editor-state flags a clause is evaluated against.
pub struct Flags {
    pub entries: Vec<Flag>,
}

impl View for Flags {
    type V = Seq<FlagState>;

    open spec fn view(&self) -> Seq<FlagState> {
        self.entries@.map_values(|f: Flag| FlagState { name: f.name@, value: f.value })
    }
}

/// The value of the first flag named `name`; an unknown identifier reads as
/// false, so a clause naming it fails closed.
pub open spec fn spec_flag_value(fs: Seq<FlagState>, name: Seq<u8>) -> bool
    decreases fs.len(),
{
    if fs.len() == 0 {
        false
    } else if fs[0].name == name {
        fs[0].value
    } else {
        spec_flag_value(fs.drop_first(), name)
    }
}

proof fn lemma_flag_value_skip(fs: Seq<FlagState>, name: Seq<u8>, i: int)
    requires
        0 <= i <= fs.len(),
        forall|k: int| 0 <= k < i ==> fs[k].name != name,
    ensures
        spec_flag_value(fs, name) == spec_flag_value(fs.skip(i), name),
    decreases i,
{
    if i > 0 {
        assert(fs.drop_first() =~= fs.skip(1));
        lemma_flag_value_skip(fs.skip(1), name, i - 1);
        assert(fs.skip(1).skip(i - 1) =~= fs.skip(i));
    } else {
        assert(fs.skip(0) =~= fs);
    }
}

impl Flags {
    /// A flag store with no entries.
    pub fn new() -> (r: Flags)
        ensures
            r@ == Seq::<FlagState>::empty(),
    {
        let r = Flags { entries: Vec::new() };
        proof {
            assert(r@ =~= Seq::<FlagState>::empty());
        }
        r
    }

    /// Appends a flag; an earlier entry of the same name keeps precedence.
    pub fn push(&mut self, name: Vec<u8>, value: bool)
        ensures
            final(self)@ == old(self)@.push(FlagState { name: name@, value }),
    {
        let ghost before = self@;
        let ghost entry = FlagState { name: name@, value };
        self.entries.push(Flag { name, value });
        proof {
            assert(self@ =~= before.push(entry));
        }
    }

    /// Looks up the current value of the flag named `name`.
    pub fn value_of(&self, name: &Vec<u8>) -> (r: bool)
        ensures
            r == spec_flag_value(self@, name@),
    {
        let mut i: usize = 0;
        while i < self.entries.len()
            invariant
                i <= self.entries.len(),
                forall|k: int| 0 <= k < i ==> self@[k].name != name@,
            decreases self.entries.len() - i,
        {
            if bytes_equal(&self.entries[i].name, name) {
                proof {
                    lemma_flag_value_skip(self@, name@, i as int);
                    assert(self@.skip(i as int)[0] == self@[i as int]);
                }
                return self.entries[i].value;
            }
            i += 1;
        }
        proof {
            lemma_flag_value_skip(self@, name@, self@.len() as int);
            assert(self@.skip(self@.len() as int) =~= Seq::<FlagState>::empty());
        }
        false
    }
}

/// Compares two byte strings element by element.
pub fn bytes_equal(a: &Vec<u8>, b: &Vec<u8>) -> (r: bool)
    ensures
        r == (a@ == b@),
{
    if a.len() != b.len() {
        proof {
            assert(a@.len() != b@.len());
        }
        return false;
    }
    let mut i: usize = 0;
    while i < a.len()
        invariant
            i <= a.len(),
            a@.len() == b@.len(),
            forall|k: int| 0 <= k < i ==> a@[k] == b@[k],
        decreases a.len() - i,
    {
        if a[i] != b[i] {
            return false;
        }
        i += 1;
    }
    proof {
        assert(a@ =~= b@);
    }
    true
}

/// Copies a byte string.
pub fn bytes_copy(a: &Vec<u8>) -> (r: Vec<u8>)
    ensures
        r@ == a@,
{
    let mut r: Vec<u8> = Vec::new();
    let mut i: usize = 0;
    while i < a.len()
        invariant
            i <= a.len(),
            r@ == a@.subrange(0, i as int),
        decreases a.len() - i,
    {
        r.push(a[i]);
        proof {
            assert(r@ =~= a@.subrange(0, i + 1));
        }
        i += 1;
    }
    proof {
        assert(a@.subrange(0, a@.len() as int) =~= a@);
    }
    r
}

/// The truth value of a guard expression under the given flags.
pub open spec fn ast_eval(e: WhenAst, fs: Seq<FlagState>) -> bool
    decreases e,
{
    match e {
        WhenAst::Flag(name) => spec_flag_value(fs, name),
        WhenAst::Not(a) => !ast_eval(*a, fs),
        WhenAst::And(a, b) => ast_eval(*a, fs) && ast_eval(*b, fs),
        WhenAst::Or(a, b) => ast_eval(*a, fs) || ast_eval(*b, fs),
    }
}

impl WhenExpr {
    /// Evaluates the expression against the current flags.
    pub fn eval(&self, fs: &Flags) -> (r: bool)
        ensures
            r == ast_eval(self@, fs@),
        decreases *self,
    {
        match self {
            WhenExpr::Flag(name) => fs.value_of(name),
            WhenExpr::Not(a) => !a.eval(fs),
            WhenExpr::And(a, b) => {
                let ra = a.eval(fs);
                ra && b.eval(fs)
            },
            WhenExpr::Or(a, b) => {
                let ra = a.eval(fs);
                ra || b.eval(fs)
            },
        }
    }

    /// A structural copy of the expression.
    pub fn duplicate(&self) -> (r: WhenExpr)
        ensures
            r@ == self@,
        decreases *self,
    {
        match self {
            WhenExpr::Flag(name) => WhenExpr::Flag(bytes_copy(name)),
            WhenExpr::Not(a) => WhenExpr::Not(Box::new(a.duplicate())),
            WhenExpr::And(a, b) => WhenExpr::And(Box::new(a.duplicate()), Box::new(b.duplicate())),
            WhenExpr::Or(a, b) => WhenExpr::Or(Box::new(a.duplicate()), Box::new(b.duplicate())),
        }
    }
}

pub open spec fn is_ws(c: u8) -> bool {
    c == 32 || c == 9 || c == 10 || c == 13
}

pub open spec fn is_ident_byte(c: u8) -> bool {
    (65 <= c <= 90) || (97 <= c <= 122) || (48 <= c <= 57) || c == 95
}

/// The first position at or after `pos` that does not hold whitespace.
pub open spec fn spec_skip_ws(s: Seq<u8>, pos: int) -> int
    decreases s.len() - pos,
        when 0 <= pos <= s.len()
{
    if pos < s.len() && is_ws(s[pos]) {
        spec_skip_ws(s, pos + 1)
    } else {
        pos
    }
}

proof fn lemma_skip_ws_bounds(s: Seq<u8>, pos: int)
    requires
        0 <= pos <= s.len(),
    ensures
        pos <= spec_skip_ws(s, pos) <= s.len(),
    decreases s.len() - pos,
{
    if pos < s.len() && is_ws(s[pos]) {
        lemma_skip_ws_bounds(s, pos + 1);
    }
}

fn is_ws_byte(c: u8) -> (r: bool)
    ensures
        r == is_ws(c),
{
    c == 32 || c == 9 || c == 10 || c == 13
}

fn is_ident_b(c: u8) -> (r: bool)
    ensures
        r == is_ident_byte(c),
{
    (65 <= c && c <= 90) || (97 <= c && c <= 122) || (48 <= c && c <= 57) || c == 95
}

fn skip_ws(s: &Vec<u8>, pos: usize) -> (r: usize)
    requires
        pos <= s@.len(),
    ensures
        r == spec_skip_ws(s@, pos as int),
        pos <= r <= s@.len(),
{
    let mut i: usize = pos;
    while i < s.len() && is_ws_byte(s[i])
        invariant
            pos <= i <= s@.len(),
            spec_skip_ws(s@, pos as int) == spec_skip_ws(s@, i as int),
        decreases s@.len() - i,
    {
        i += 1;
    }
    i
}

/// The end of the identifier that starts at `pos`.
pub open spec fn spec_ident_end(s: Seq<u8>, pos: int) -> int
    decreases s.len() - pos,
        when 0 <= pos <= s.len()
{
    if pos < s.len() && is_ident_byte(s[pos]) {
        spec_ident_end(s, pos + 1)
    } else {
        pos
    }
}

proof fn lemma_ident_end_bounds(s: Seq<u8>, pos: int)
    requires
        0 <= pos <= s.len(),
    ensures
        pos <= spec_ident_end(s, pos) <= s.len(),
    decreases s.len() - pos,
{
    if pos < s.len() && is_ident_byte(s[pos]) {
        lemma_ident_end_bounds(s, pos + 1);
    }
}

fn ident_end(s: &Vec<u8>, pos: usize) -> (r: usize)
    requires
        pos <= s@.len(),
    ensures
        r == spec_ident_end(s@, pos as int),
        pos <= r <= s@.len(),
{
    let mut i: usize = pos;
    while i < s.len() && is_ident_b(s[i])
        invariant
            pos <= i <= s@.len(),
            spec_ident_end(s@, pos as int) == spec_ident_end(s@, i as int),
        decreases s@.len() - i,
    {
        i += 1;
    }
    i
}

/// Recursive-descent grammar of a guard expression, at the lowest level:
/// negation, a parenthesized expression, or a flag identifier. The fuel
/// argument bounds the recursion depth; every unit of fuel spent consumes at
/// least one byte of input, so `s.len() + 1` units always suffice.
pub open spec fn spec_parse_unary(s: Seq<u8>, pos: int, fuel: nat) -> Option<(WhenAst, int)>
    decreases fuel, 0int,
{
    if fuel == 0 {
        None
    } else {
        let p = spec_skip_ws(s, pos);
        if !(0 <= p && p < s.len()) {
            None
        } else if s[p] == 33 {
            match spec_parse_unary(s, p + 1, (fuel - 1) as nat) {
                Some((e, q)) => Some((WhenAst::Not(Box::new(e)), q)),
                None => None,
            }
        } else if s[p] == 40 {
            match spec_parse_or(s, p + 1, (fuel - 1) as nat) {
                Some((e, q)) => {
                    if 0 <= q <= s.len() {
                        let q2 = spec_skip_ws(s, q);
                        if q2 < s.len() && s[q2] == 41 {
                            Some((e, q2 + 1))
                        } else {
                            None
                        }
                    } else {
                        None
                    }
                },
                None => None,
            }
        } else if is_ident_byte(s[p]) {
            let q = spec_ident_end(s, p);
            Some((WhenAst::Flag(s.subrange(p, q)), q))
        } else {
            None
        }
    }
}

/// A conjunction: unary expressions joined by `&&`, grouped to the right.
pub open spec fn spec_parse_and(s: Seq<u8>, pos: int, fuel: nat) -> Option<(WhenAst, int)>
    decreases fuel, 1int,
{
    if fuel == 0 {
        None
    } else {
        match spec_parse_unary(s, pos, fuel) {
            Some((a, p)) => {
                if 0 <= p <= s.len() {
                    let p2 = spec_skip_ws(s, p);
                    if p2 + 1 < s.len() && s[p2] == 38 && s[p2 + 1] == 38 {
                        match spec_parse_and(s, p2 + 2, (fuel - 1) as nat) {
                            Some((b, q)) => Some((WhenAst::And(Box::new(a), Box::new(b)), q)),
                            None => None,
                        }
                    } else {
                        Some((a, p))
                    }
                } else {
                    None
                }
            },
            None => None,
        }
    }
}

/// A disjunction: conjunctions joined by `||`, grouped to the right.
pub open spec fn spec_parse_or(s: Seq<u8>, pos: int, fuel: nat) -> Option<(WhenAst, int)>
    decreases fuel, 2int,
{
    if fuel == 0 {
        None
    } else {
        match spec_parse_and(s, pos, fuel) {
            Some((a, p)) => {
                if 0 <= p <= s.len() {
                    let p2 = spec_skip_ws(s, p);
                    if p2 + 1 < s.len() && s[p2] == 124 && s[p2 + 1] == 124 {
                        match spec_parse_or(s, p2 + 2, (fuel - 1) as nat) {
                            Some((b, q)) => Some((WhenAst::Or(Box::new(a), Box::new(b)), q)),
                            None => None,
                        }
                    } else {
                        Some((a, p))
                    }
                } else {
                    None
                }
            },
            None => None,
        }
    }
}

/// The whole guard expression: a disjunction followed only by whitespace.
pub open spec fn spec_parse(s: Seq<u8>) -> Option<WhenAst> {
    match spec_parse_or(s, 0, (s.len() + 1) as nat) {
        Some((e, q)) => {
            if 0 <= q <= s.len() && spec_skip_ws(s, q) == s.len() {
                Some(e)
            } else {
                None
            }
        },
        None => None,
    }
}

fn parse_unary(s: &Vec<u8>, pos: usize, fuel: usize) -> (r: Option<(WhenExpr, usize)>)
    requires
        pos <= s@.len(),
    ensures
        match r {
            Some((e, q)) => spec_parse_unary(s@, pos as int, fuel as nat) == Some(
                (e@, q as int),
            ) && pos <= q <= s@.len(),
            None => spec_parse_unary(s@, pos as int, fuel as nat) is None,
        },
    decreases fuel, 0int,
{
    if fuel == 0 {
        return None;
    }
    let p = skip_ws(s, pos);
    if p >= s.len() {
        return None;
    }
    let c = s[p];
    if c == 33 {
        match parse_unary(s, p + 1, fuel - 1) {
            Some((e, q)) => Some((WhenExpr::Not(Box::new(e)), q)),
            None => None,
        }
    } else if c == 40 {
        match parse_or(s, p + 1, fuel - 1) {
            Some((e, q)) => {
                let q2 = skip_ws(s, q);
                if q2 < s.len() && s[q2] == 41 {
                    Some((e, q2 + 1))
                } else {
                    None
                }
            },
            None => None,
        }
    } else if (65 <= c && c <= 90) || (97 <= c && c <= 122) || (48 <= c && c <= 57) || c == 95 {
        let q = ident_end(s, p);
        let mut name: Vec<u8> = Vec::new();
        let mut i: usize = p;
        while i < q
            invariant
                p <= i <= q <= s@.len(),
                name@ == s@.subrange(p as int, i as int),
            decreases q - i,
        {
            name.push(s[i]);
            proof {
                assert(name@ =~= s@.subrange(p as int, i + 1));
            }
            i += 1;
        }
        Some((WhenExpr::Flag(name), q))
    } else {
        None
    }
}

fn parse_and(s: &Vec<u8>, pos: usize, fuel: usize) -> (r: Option<(WhenExpr, usize)>)
    requires
        pos <= s@.len(),
    ensures
        match r {
            Some((e, q)) => spec_parse_and(s@, pos as int, fuel as nat) == Some(
                (e@, q as int),
            ) && pos <= q <= s@.len(),
            None => spec_parse_and(s@, pos as int, fuel as nat) is None,
        },
    decreases fuel, 1int,
{
    if fuel == 0 {
        return None;
    }
    match parse_unary(s, pos, fuel) {
        Some((a, p)) => {
            let p2 = skip_ws(s, p);
            if p2 < s.len() && p2 + 1 < s.len() && s[p2] == 38 && s[p2 + 1] == 38 {
                match parse_and(s, p2 + 2, fuel - 1) {
                    Some((b, q)) => Some((WhenExpr::And(Box::new(a), Box::new(b)), q)),
                    None => None,
                }
            } else {
                Some((a, p))
            }
        },
        None => None,
    }
}

fn parse_or(s: &Vec<u8>, pos: usize, fuel: usize) -> (r: Option<(WhenExpr, usize)>)
    requires
        pos <= s@.len(),
    ensures
        match r {
            Some((e, q)) => spec_parse_or(s@, pos as int, fuel as nat) == Some(
                (e@, q as int),
            ) && pos <= q <= s@.len(),
            None => spec_parse_or(s@, pos as int, fuel as nat) is None,
        },
    decreases fuel, 2int,
{
    if fuel == 0 {
        return None;
    }
    match parse_and(s, pos, fuel) {
        Some((a, p)) => {
            let p2 = skip_ws(s, p);
            if p2 < s.len() && p2 + 1 < s.len() && s[p2] == 124 && s[p2 + 1] == 124 {
                match parse_or(s, p2 + 2, fuel - 1) {
                    Some((b, q)) => Some((WhenExpr::Or(Box::new(a), Box::new(b)), q)),
                    None => None,
                }
            } else {
                Some((a, p))
            }
        },
        None => None,
    }
}

/// Parses a guard expression from its source text.
pub fn parse_when(s: &Vec<u8>) -> (r: Option<WhenExpr>)
    requires
        s@.len() < usize::MAX,
    ensures
        match r {
            Some(e) => spec_parse(s@) == Some(e@),
            None => spec_parse(s@) is None,
        },
{
    match parse_or(s, 0, s.len() + 1) {
        Some((e, q)) => {
            let q2 = skip_ws(s, q);
            if q2 == s.len() {
                Some(e)
            } else {
                None
            }
        },
        None => None,
    }
}

/// The mathematical form of a stored clause: its source text and, where the
/// source parses, its expression.
#[verifier::ext_equal]
pub struct ClauseForm {
    pub src: Seq<u8>,
    pub expr: Option<WhenAst>,
}

/// A stored "when" clause: the source text it was built from, together with
/// the result of parsing it once. A clause that failed to parse is kept (its
/// text still identifies the binding) but never matches.
pub struct WhenClause {
    src: Vec<u8>,
    parsed: Option<WhenExpr>,
}

impl View for WhenClause {
    type V = ClauseForm;

    closed spec fn view(&self) -> ClauseForm {
        ClauseForm {
            src: self.src@,
            expr: match self.parsed {
                Some(e) => Some(e@),
                None => None,
            },
        }
    }
}

/// The truth value of a stored clause: a clause that did not parse fails
/// closed and never matches.
pub open spec fn spec_clause_eval(c: ClauseForm, fs: Seq<FlagState>) -> bool {
    match c.expr {
        Some(e) => ast_eval(e, fs),
        None => false,
    }
}

impl WhenClause {
    /// Builds a clause from its source text, parsing it once.
    pub fn new(src: Vec<u8>) -> (r: WhenClause)
        requires
            src@.len() < usize::MAX,
        ensures
            r@.src == src@,
            r@.expr == spec_parse(src@),
    {
        let parsed = parse_when(&src);
        WhenClause { src, parsed }
    }

    /// Whether the source text parsed. A caller reports a failure once, when
    /// the clause is built, not on every evaluation.
    pub fn is_valid(&self) -> (r: bool)
        ensures
            r == (self@.expr is Some),
    {
        self.parsed.is_some()
    }

    /// The source text the clause was built from.
    pub fn source(&self) -> (r: &Vec<u8>)
        ensures
            r@ == self@.src,
    {
        &self.src
    }

    /// Evaluates the clause against the current flags, without re-parsing.
    pub fn eval(&self, fs: &Flags) -> (r: bool)
        ensures
            r == spec_clause_eval(self@, fs@),
    {
        match &self.parsed {
            Some(e) => e.eval(fs),
            None => false,
        }
    }

    /// A structural copy of the clause.
    pub fn duplicate(&self) -> (r: WhenClause)
        ensures
            r@ == self@,
    {
        WhenClause {
            src: bytes_copy(&self.src),
            parsed: match &self.parsed {
                Some(e) => Some(e.duplicate()),
                None => None,
            },
        }
    }
}

} // verus!
