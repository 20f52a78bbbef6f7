//! The matcher: walks the frozen tree, consuming tokens one at a time,
//! selecting successor nodes by literal or prefix match and priority, and
//! producing either a bound parse state or a structured error.
//!
//! The whole algorithm is mirrored by the spec function [`spec_parse`]:
//! [`parse`] returns exactly that outcome, so parsing is a mathematical
//! function of the tree and of the token sequence.

use vstd::prelude::*;
use vstd::string::StrSliceExecFns;
use vstd::string::StringExecFns;
use crate::parser::nodes::CmdModel;
use crate::parser::nodes::CommandNode;
use crate::parser::nodes::ParamModel;
use crate::parser::nodes::ParameterKind;
use crate::parser::nodes::ParameterNode;
use crate::parser::nodes::RootNode;
use crate::parser::nodes::TreeModel;
use crate::parser::nodes::symbol_of;

verus! {

/// The bound values of one parse: for each parameter of the matched
/// command, in declaration order, the ordered sequence of values bound to
/// it so far.
pub type BoundModel = Seq<Seq<Seq<char>>>;

/// Mathematical model of a parse state.
pub struct StateModel {
    /// Index of the matched command in the tree, set once.
    pub matched: Option<int>,
    /// Per-parameter bound values of the matched command.
    pub bound: BoundModel,
}

/// The outcome of a parse: a fully bound state, or one of the two
/// token-level failures, each carrying the failing token and the listing
/// shown to a human.
pub enum Outcome {
    Matched(StateModel),
    NoMatches(Seq<char>, Seq<Seq<char>>),
    AmbiguousMatch(Seq<char>, Seq<Seq<char>>),
}

/// `t` is a (not necessarily proper) prefix of `s`.
pub open spec fn is_prefix_of(t: Seq<char>, s: Seq<char>) -> bool {
    t.len() <= s.len() && s.subrange(0, t.len() as int) == t
}

/// Flag and named parameters match by literal name; simple parameters have
/// no fixed literal and accept any token as a value.
pub open spec fn literal_kind(p: ParamModel) -> bool {
    p.kind != ParameterKind::Simple
}

/// The token equals the parameter's name or one of its aliases.
pub open spec fn exact_matches(p: ParamModel, t: Seq<char>) -> bool {
    literal_kind(p) && (p.name == t || exists|k: int|
        0 <= k < p.aliases.len() && p.aliases[k] == t)
}

/// The token is a case-sensitive prefix of the parameter's name or of one
/// of its aliases.
pub open spec fn prefix_matches(p: ParamModel, t: Seq<char>) -> bool {
    literal_kind(p) && (is_prefix_of(t, p.name) || exists|k: int|
        0 <= k < p.aliases.len() && is_prefix_of(t, p.aliases[k]))
}

/// Parameter `j` is in the frontier: not yet bound, or repeatable (a
/// repeatable parameter stays eligible after a match; a non-repeatable
/// matched parameter is removed).
pub open spec fn in_frontier(cmd: CmdModel, b: BoundModel, j: int) -> bool {
    0 <= j < cmd.params.len() && (b[j].len() == 0 || cmd.params[j].repeatable)
}

/// Some frontier parameter matches the token exactly; in that case prefix
/// matches are not considered at all.
pub open spec fn frontier_has_exact(cmd: CmdModel, b: BoundModel, t: Seq<char>) -> bool {
    exists|j: int| in_frontier(cmd, b, j) && exact_matches(cmd.params[j], t)
}

/// Parameter `j` is a literal candidate for the token: an exact match, or —
/// only when no exact match exists anywhere in the frontier — a prefix
/// match.
pub open spec fn literal_candidate(cmd: CmdModel, b: BoundModel, t: Seq<char>, j: int) -> bool {
    in_frontier(cmd, b, j) && if frontier_has_exact(cmd, b, t) {
        exact_matches(cmd.params[j], t)
    } else {
        prefix_matches(cmd.params[j], t)
    }
}

/// Parameter `j` is a catch-all candidate: a simple parameter in the
/// frontier accepts any token as its value.
pub open spec fn simple_candidate(cmd: CmdModel, b: BoundModel, j: int) -> bool {
    in_frontier(cmd, b, j) && cmd.params[j].kind == ParameterKind::Simple
}

/// Parameter `j` can consume the token.
pub open spec fn candidate(cmd: CmdModel, b: BoundModel, t: Seq<char>, j: int) -> bool {
    literal_candidate(cmd, b, t, j) || simple_candidate(cmd, b, j)
}

/// Candidate `i` outranks candidate `j`: strictly higher priority, or equal
/// priority with `i` a literal match and `j` only a catch-all (a simple
/// parameter is ranked below any literal match of equal or higher
/// priority).
pub open spec fn outranks(cmd: CmdModel, b: BoundModel, t: Seq<char>, i: int, j: int) -> bool {
    cmd.params[i].priority > cmd.params[j].priority || (cmd.params[i].priority
        == cmd.params[j].priority && literal_candidate(cmd, b, t, i) && !literal_candidate(
        cmd,
        b,
        t,
        j,
    ))
}

/// Parameter `j` wins the token outright: it is a candidate and outranks
/// every other candidate.
pub open spec fn winner(cmd: CmdModel, b: BoundModel, t: Seq<char>, j: int) -> bool {
    candidate(cmd, b, t, j) && forall|k: int|
        candidate(cmd, b, t, k) && k != j ==> outranks(cmd, b, t, j, k)
}

/// Parameter `j` stands at the top: it is a candidate that no candidate
/// outranks.  When two distinct parameters stand at the top, the token is
/// ambiguous.
pub open spec fn top_candidate(cmd: CmdModel, b: BoundModel, t: Seq<char>, j: int) -> bool {
    candidate(cmd, b, t, j) && forall|k: int|
        candidate(cmd, b, t, k) ==> !outranks(cmd, b, t, k, j)
}

/// Command `k` matches the token exactly by name.
pub open spec fn root_has_exact(rt: TreeModel, t: Seq<char>) -> bool {
    exists|k: int| 0 <= k < rt.commands.len() && rt.commands[k].name == t
}

/// Command `k` is a candidate for the first token: an exact name match, or
/// — only when no command matches exactly — a prefix of its name.
pub open spec fn root_candidate(rt: TreeModel, t: Seq<char>, k: int) -> bool {
    0 <= k < rt.commands.len() && if root_has_exact(rt, t) {
        rt.commands[k].name == t
    } else {
        is_prefix_of(t, rt.commands[k].name)
    }
}

/// Command `i` outranks command `j` by strictly higher priority.
pub open spec fn root_outranks(rt: TreeModel, i: int, j: int) -> bool {
    rt.commands[i].priority > rt.commands[j].priority
}

/// Command `j` wins the first token outright.
pub open spec fn root_winner(rt: TreeModel, t: Seq<char>, j: int) -> bool {
    root_candidate(rt, t, j) && forall|k: int|
        root_candidate(rt, t, k) && k != j ==> root_outranks(rt, j, k)
}

/// Command `j` stands at the top priority among the candidates.
pub open spec fn root_top_candidate(rt: TreeModel, t: Seq<char>, j: int) -> bool {
    root_candidate(rt, t, j) && forall|k: int|
        root_candidate(rt, t, k) ==> !root_outranks(rt, k, j)
}

// ---------------------------------------------------------------------
// Listings: what a failure shows to a human.
// ---------------------------------------------------------------------

/// One line of a suggestion listing: the node's priority and name decide
/// its place, the symbol is what is printed.
pub struct ListingEntry {
    pub priority: int,
    pub name: Seq<char>,
    pub symbol: Seq<char>,
}

/// Lexicographic (case-sensitive, by scalar value) order on names.
pub open spec fn lex_lt(a: Seq<char>, b: Seq<char>) -> bool
    decreases a.len(),
{
    if b.len() == 0 {
        false
    } else if a.len() == 0 {
        true
    } else if a[0] != b[0] {
        (a[0] as u32) < (b[0] as u32)
    } else {
        lex_lt(a.subrange(1, a.len() as int), b.subrange(1, b.len() as int))
    }
}

/// Listing order: priority descending, then name ascending.
pub open spec fn entry_precedes(a: ListingEntry, b: ListingEntry) -> bool {
    a.priority > b.priority || (a.priority == b.priority && lex_lt(a.name, b.name))
}

/// Insert an entry before the first entry it strictly precedes.
pub open spec fn insert_entry(x: ListingEntry, s: Seq<ListingEntry>) -> Seq<ListingEntry>
    decreases s.len(),
{
    if s.len() == 0 {
        seq![x]
    } else if entry_precedes(x, s[0]) {
        seq![x] + s
    } else {
        seq![s[0]] + insert_entry(x, s.subrange(1, s.len() as int))
    }
}

/// Insertion sort of a listing by priority descending, then name
/// ascending.
pub open spec fn sort_entries(s: Seq<ListingEntry>) -> Seq<ListingEntry>
    decreases s.len(),
{
    if s.len() == 0 {
        Seq::<ListingEntry>::empty()
    } else {
        insert_entry(s.last(), sort_entries(s.drop_last()))
    }
}

/// The printed column of a listing.
pub open spec fn entry_symbols(s: Seq<ListingEntry>) -> Seq<Seq<char>> {
    s.map_values(|e: ListingEntry| e.symbol)
}

/// The listing entry of a parameter.
pub open spec fn param_entry(p: ParamModel) -> ListingEntry {
    ListingEntry { priority: p.priority, name: p.name, symbol: symbol_of(p) }
}

/// The listing entry of a command.
pub open spec fn cmd_entry(c: CmdModel) -> ListingEntry {
    ListingEntry { priority: c.priority, name: c.name, symbol: c.name }
}

/// The visible frontier parameters among the first `n`, in declaration
/// order.  Hidden nodes match but are never listed.
pub open spec fn frontier_entries(cmd: CmdModel, b: BoundModel, n: int) -> Seq<ListingEntry>
    decreases n,
{
    if n <= 0 {
        Seq::<ListingEntry>::empty()
    } else {
        let pre = frontier_entries(cmd, b, n - 1);
        if in_frontier(cmd, b, n - 1) && !cmd.params[n - 1].hidden {
            pre.push(param_entry(cmd.params[n - 1]))
        } else {
            pre
        }
    }
}

/// What a `NoMatches` failure at command level lists: every visible
/// frontier node, ordered by priority descending then name ascending.
pub open spec fn options_listing(cmd: CmdModel, b: BoundModel) -> Seq<Seq<char>> {
    entry_symbols(sort_entries(frontier_entries(cmd, b, cmd.params.len() as int)))
}

/// The visible commands among the first `n`, in declaration order.
pub open spec fn root_entries(rt: TreeModel, n: int) -> Seq<ListingEntry>
    decreases n,
{
    if n <= 0 {
        Seq::<ListingEntry>::empty()
    } else {
        let pre = root_entries(rt, n - 1);
        if !rt.commands[n - 1].hidden {
            pre.push(cmd_entry(rt.commands[n - 1]))
        } else {
            pre
        }
    }
}

/// What a `NoMatches` failure on the first token lists.
pub open spec fn root_options_listing(rt: TreeModel) -> Seq<Seq<char>> {
    entry_symbols(sort_entries(root_entries(rt, rt.commands.len() as int)))
}

/// What an `AmbiguousMatch` at command level lists: the symbols of the
/// visible tied parameters, in declaration order.
pub open spec fn tied_upto(cmd: CmdModel, b: BoundModel, t: Seq<char>, n: int) -> Seq<Seq<char>>
    decreases n,
{
    if n <= 0 {
        Seq::<Seq<char>>::empty()
    } else {
        let pre = tied_upto(cmd, b, t, n - 1);
        if top_candidate(cmd, b, t, n - 1) && !cmd.params[n - 1].hidden {
            pre.push(symbol_of(cmd.params[n - 1]))
        } else {
            pre
        }
    }
}

/// The full tied listing at command level.
pub open spec fn tied_listing(cmd: CmdModel, b: BoundModel, t: Seq<char>) -> Seq<Seq<char>> {
    tied_upto(cmd, b, t, cmd.params.len() as int)
}

/// What an `AmbiguousMatch` on the first token lists.
pub open spec fn root_tied_upto(rt: TreeModel, t: Seq<char>, n: int) -> Seq<Seq<char>>
    decreases n,
{
    if n <= 0 {
        Seq::<Seq<char>>::empty()
    } else {
        let pre = root_tied_upto(rt, t, n - 1);
        if root_top_candidate(rt, t, n - 1) && !rt.commands[n - 1].hidden {
            pre.push(rt.commands[n - 1].name)
        } else {
            pre
        }
    }
}

/// The full tied listing on the first token.
pub open spec fn root_tied_listing(rt: TreeModel, t: Seq<char>) -> Seq<Seq<char>> {
    root_tied_upto(rt, t, rt.commands.len() as int)
}

// ---------------------------------------------------------------------
// The parse itself.
// ---------------------------------------------------------------------

/// The fresh binding table of a command: one empty value sequence per
/// parameter.
pub open spec fn empty_bound(n: int) -> BoundModel {
    Seq::new(n as nat, |j: int| Seq::<Seq<char>>::empty())
}

/// Append one value to parameter `j`'s bound values.
pub open spec fn bind_value(st: StateModel, j: int, v: Seq<char>) -> StateModel {
    StateModel { matched: st.matched, bound: st.bound.update(j, st.bound[j].push(v)) }
}

/// The marker a flag parameter binds when present.
pub open spec fn flag_marker() -> Seq<char> {
    "true"@
}

/// The unique winning parameter, where one exists.
pub open spec fn the_winner(cmd: CmdModel, b: BoundModel, t: Seq<char>) -> int {
    choose|j: int| winner(cmd, b, t, j)
}

/// The unique winning command, where one exists.
pub open spec fn the_root_winner(rt: TreeModel, t: Seq<char>) -> int {
    choose|k: int| root_winner(rt, t, k)
}

/// One parse, begun in state `st`, over the remaining tokens.
///
/// Per token: no candidate fails with `NoMatches` and the ordered visible
/// frontier; a unique top-priority candidate wins and is bound (a flag
/// binds the true marker, a named parameter consumes the following token
/// as its value and fails with `NoMatches` on an empty token when none
/// remains, a simple parameter binds the token itself); tied top
/// candidates fail with `AmbiguousMatch` and the tied listing.  Exhausting
/// the tokens is success, whatever is still unbound: required parameters
/// are the verifier's business.
pub open spec fn spec_parse_from(rt: TreeModel, st: StateModel, toks: Seq<Seq<char>>) -> Outcome
    decreases toks.len(),
{
    if toks.len() == 0 {
        Outcome::Matched(st)
    } else {
        let t = toks[0];
        match st.matched {
            Option::None => {
                if exists|k: int| root_winner(rt, t, k) {
                    let w = the_root_winner(rt, t);
                    spec_parse_from(
                        rt,
                        StateModel {
                            matched: Option::Some(w),
                            bound: empty_bound(rt.commands[w].params.len() as int),
                        },
                        toks.subrange(1, toks.len() as int),
                    )
                } else if exists|k: int| root_candidate(rt, t, k) {
                    Outcome::AmbiguousMatch(t, root_tied_listing(rt, t))
                } else {
                    Outcome::NoMatches(t, root_options_listing(rt))
                }
            },
            Option::Some(c) => {
                let cmd = rt.commands[c];
                if exists|j: int| winner(cmd, st.bound, t, j) {
                    let w = the_winner(cmd, st.bound, t);
                    if cmd.params[w].kind == ParameterKind::Named {
                        if toks.len() >= 2 {
                            spec_parse_from(
                                rt,
                                bind_value(st, w, toks[1]),
                                toks.subrange(2, toks.len() as int),
                            )
                        } else {
                            Outcome::NoMatches(Seq::<char>::empty(), options_listing(cmd, st.bound))
                        }
                    } else if cmd.params[w].kind == ParameterKind::Flag {
                        spec_parse_from(
                            rt,
                            bind_value(st, w, flag_marker()),
                            toks.subrange(1, toks.len() as int),
                        )
                    } else {
                        spec_parse_from(
                            rt,
                            bind_value(st, w, t),
                            toks.subrange(1, toks.len() as int),
                        )
                    }
                } else if exists|j: int| candidate(cmd, st.bound, t, j) {
                    Outcome::AmbiguousMatch(t, tied_listing(cmd, st.bound, t))
                } else {
                    Outcome::NoMatches(t, options_listing(cmd, st.bound))
                }
            },
        }
    }
}

/// A whole parse from the initial state: nothing matched, nothing bound.
pub open spec fn spec_parse(rt: TreeModel, toks: Seq<Seq<char>>) -> Outcome {
    spec_parse_from(
        rt,
        StateModel { matched: Option::None, bound: Seq::<Seq<Seq<char>>>::empty() },
        toks,
    )
}

/// A parse state is well formed for a tree when its matched index is in
/// range and its binding table runs parallel to that command's parameters.
pub open spec fn state_wf(rt: TreeModel, sv: StateModel) -> bool {
    match sv.matched {
        Option::None => sv.bound.len() == 0,
        Option::Some(c) => 0 <= c < rt.commands.len() && sv.bound.len()
            == rt.commands[c].params.len(),
    }
}

/// The parse state of one invocation of the matcher: the matched command,
/// if any, and the values bound to each of its parameters.
#[derive(Debug)]
pub struct ParseState {
    /// Index of the matched command in the tree's command list.
    pub matched: Option<usize>,
    /// For each parameter of the matched command, in declaration order,
    /// the values bound to it, in encounter order.
    pub bound: Vec<Vec<String>>,
}

impl View for ParseState {
    type V = StateModel;

    open spec fn view(&self) -> StateModel {
        StateModel {
            matched: match self.matched {
                Option::Some(c) => Option::Some(c as int),
                Option::None => Option::None,
            },
            bound: self.bound.deep_view(),
        }
    }
}

/// A token-level failure of the matcher.
#[derive(Debug, PartialEq, Eq)]
pub enum ParseError {
    /// The token matched nothing in the active frontier (or a named
    /// parameter had no following value token, in which case the token is
    /// empty).  Carries the ordered list of visible candidates.
    NoMatches { token: String, options: Vec<String> },
    /// The token matched more than one sibling at equal top priority.
    /// Carries the visible tied candidates in declaration order.
    AmbiguousMatch { token: String, tied: Vec<String> },
}

// ---------------------------------------------------------------------
// Executable string tests.
// ---------------------------------------------------------------------

/// The two strings hold the same characters.
pub(crate) fn str_eq(a: &String, b: &String) -> (r: bool)
    ensures
        r == (a@ == b@),
{
    *a == *b
}

/// `t`'s characters are a prefix of `s`'s.
fn str_is_prefix(t: &String, s: &String) -> (r: bool)
    ensures
        r == is_prefix_of(t@, s@),
{
    let tl = t.as_str().unicode_len();
    let sl = s.as_str().unicode_len();
    if tl > sl {
        return false;
    }
    let mut i: usize = 0;
    while i < tl
        invariant
            i <= tl,
            tl == t@.len(),
            sl == s@.len(),
            tl <= sl,
            forall|k: int| 0 <= k < i ==> t@[k] == s@[k],
        decreases tl - i,
    {
        if t.as_str().get_char(i) != s.as_str().get_char(i) {
            proof {
                if is_prefix_of(t@, s@) {
                    assert(s@.subrange(0, t@.len() as int)[i as int] == t@[i as int]);
                }
            }
            return false;
        }
        i += 1;
    }
    proof {
        assert(s@.subrange(0, t@.len() as int) =~= t@);
    }
    true
}

/// `lex_lt` is settled by the first position where the strings differ.
proof fn lemma_lex_lt_skip(a: Seq<char>, b: Seq<char>, i: int)
    requires
        0 <= i <= a.len(),
        0 <= i <= b.len(),
        forall|k: int| 0 <= k < i ==> a[k] == b[k],
    ensures
        lex_lt(a, b) == lex_lt(a.skip(i), b.skip(i)),
    decreases i,
{
    if i > 0 {
        assert(a.len() > 0 && b.len() > 0);
        assert(a[0] == b[0]);
        let a1 = a.subrange(1, a.len() as int);
        let b1 = b.subrange(1, b.len() as int);
        assert(forall|k: int| 0 <= k < i - 1 ==> a1[k] == b1[k]);
        lemma_lex_lt_skip(a1, b1, i - 1);
        assert(a1.skip(i - 1) =~= a.skip(i));
        assert(b1.skip(i - 1) =~= b.skip(i));
    } else {
        assert(a.skip(0) =~= a);
        assert(b.skip(0) =~= b);
    }
}

/// `a`'s characters come strictly before `b`'s in lexicographic order.
fn str_lex_lt(a: &String, b: &String) -> (r: bool)
    ensures
        r == lex_lt(a@, b@),
{
    let al = a.as_str().unicode_len();
    let bl = b.as_str().unicode_len();
    let mut i: usize = 0;
    loop
        invariant
            i <= al,
            i <= bl,
            al == a@.len(),
            bl == b@.len(),
            forall|k: int| 0 <= k < i ==> a@[k] == b@[k],
        decreases al - i,
    {
        proof {
            lemma_lex_lt_skip(a@, b@, i as int);
        }
        if i >= bl {
            return false;
        }
        if i >= al {
            return true;
        }
        let ca = a.as_str().get_char(i);
        let cb = b.as_str().get_char(i);
        if ca != cb {
            proof {
                assert(a@.skip(i as int)[0] == a@[i as int]);
                assert(b@.skip(i as int)[0] == b@[i as int]);
            }
            return (ca as u32) < (cb as u32);
        }
        i += 1;
    }
}

// ---------------------------------------------------------------------
// Executable candidate tests.
// ---------------------------------------------------------------------

/// The token equals the parameter's name or one of its aliases.
fn param_exact(p: &ParameterNode, t: &String) -> (r: bool)
    ensures
        r == exact_matches(p@, t@),
{
    if p.kind == ParameterKind::Simple {
        return false;
    }
    if str_eq(&p.name, t) {
        return true;
    }
    let n = p.aliases.len();
    for k in 0..n
        invariant
            n == p.aliases.len(),
            p@.kind != ParameterKind::Simple,
            forall|x: int| 0 <= x < k ==> p@.aliases[x] != t@,
    {
        if str_eq(&p.aliases[k], t) {
            proof {
                assert(p@.aliases[k as int] == t@);
                assert((k as int) < p@.aliases.len());
                assert(literal_kind(p@));
                assert(exact_matches(p@, t@));
            }
            return true;
        }
    }
    false
}

/// The token is a prefix of the parameter's name or of one of its aliases.
fn param_prefix(p: &ParameterNode, t: &String) -> (r: bool)
    ensures
        r == prefix_matches(p@, t@),
{
    if p.kind == ParameterKind::Simple {
        return false;
    }
    if str_is_prefix(t, &p.name) {
        return true;
    }
    let n = p.aliases.len();
    for k in 0..n
        invariant
            n == p.aliases.len(),
            p@.kind != ParameterKind::Simple,
            forall|x: int| 0 <= x < k ==> !is_prefix_of(t@, p@.aliases[x]),
    {
        if str_is_prefix(t, &p.aliases[k]) {
            proof {
                assert(is_prefix_of(t@, p@.aliases[k as int]));
                assert((k as int) < p@.aliases.len());
                assert(literal_kind(p@));
                assert(prefix_matches(p@, t@));
            }
            return true;
        }
    }
    false
}

/// Parameter `j` is still eligible to match.
fn frontier_member(cmd: &CommandNode, bound: &Vec<Vec<String>>, j: usize) -> (r: bool)
    requires
        bound@.len() == cmd.parameters@.len(),
        j < cmd.parameters@.len(),
    ensures
        r == in_frontier(cmd@, bound.deep_view(), j as int),
{
    bound[j].len() == 0 || cmd.parameters[j].repeatable
}

/// Does any frontier parameter match the token exactly?
fn frontier_exact(cmd: &CommandNode, bound: &Vec<Vec<String>>, t: &String) -> (r: bool)
    requires
        bound@.len() == cmd.parameters@.len(),
    ensures
        r == frontier_has_exact(cmd@, bound.deep_view(), t@),
{
    let n = cmd.parameters.len();
    for j in 0..n
        invariant
            n == cmd.parameters@.len(),
            bound@.len() == n,
            forall|x: int|
                0 <= x < j ==> !(in_frontier(cmd@, bound.deep_view(), x) && exact_matches(
                    cmd@.params[x],
                    t@,
                )),
    {
        if frontier_member(cmd, bound, j) && param_exact(&cmd.parameters[j], t) {
            proof {
                assert(in_frontier(cmd@, bound.deep_view(), j as int) && exact_matches(
                    cmd@.params[j as int],
                    t@,
                ));
            }
            return true;
        }
    }
    false
}

/// Classify parameter `j` for the token: is it a candidate at all, and is
/// it a literal (rather than catch-all) candidate?  `has_ex` must say
/// whether the frontier holds an exact match.
fn candidate_class(
    cmd: &CommandNode,
    bound: &Vec<Vec<String>>,
    t: &String,
    j: usize,
    has_ex: bool,
) -> (r: (bool, bool))
    requires
        bound@.len() == cmd.parameters@.len(),
        j < cmd.parameters@.len(),
        has_ex == frontier_has_exact(cmd@, bound.deep_view(), t@),
    ensures
        r.0 == candidate(cmd@, bound.deep_view(), t@, j as int),
        r.1 == literal_candidate(cmd@, bound.deep_view(), t@, j as int),
{
    if !frontier_member(cmd, bound, j) {
        return (false, false);
    }
    let p = &cmd.parameters[j];
    if p.kind == ParameterKind::Simple {
        return (true, false);
    }
    let lit = if has_ex {
        param_exact(p, t)
    } else {
        param_prefix(p, t)
    };
    (lit, lit)
}

/// The outcome of resolving one token against a frontier.
enum Selection {
    /// No node can consume the token.
    Empty,
    /// Exactly one node stands at the top priority; its index.
    Winner(usize),
    /// Two or more nodes tie at the top priority; the index of one of
    /// them.
    Tied(usize),
}

/// Two outright winners are the same node.
proof fn lemma_winner_unique(cmd: CmdModel, b: BoundModel, t: Seq<char>, i: int, j: int)
    requires
        winner(cmd, b, t, i),
        winner(cmd, b, t, j),
    ensures
        i == j,
{
    if i != j {
        assert(outranks(cmd, b, t, i, j));
        assert(outranks(cmd, b, t, j, i));
    }
}

/// Resolve one token against the matched command's frontier.
fn select_param(cmd: &CommandNode, bound: &Vec<Vec<String>>, t: &String) -> (r: Selection)
    requires
        bound@.len() == cmd.parameters@.len(),
    ensures
        match r {
            Selection::Empty => forall|j: int| !candidate(cmd@, bound.deep_view(), t@, j),
            Selection::Winner(w) => winner(cmd@, bound.deep_view(), t@, w as int),
            Selection::Tied(b0) => top_candidate(cmd@, bound.deep_view(), t@, b0 as int) && (forall|
                j: int,
            | !winner(cmd@, bound.deep_view(), t@, j)),
        },
{
    let ghost cm = cmd@;
    let ghost bm = bound.deep_view();
    let has_ex = frontier_exact(cmd, bound, t);
    let n = cmd.parameters.len();
    let mut best: Option<usize> = None;
    let mut best_lit: bool = false;
    let mut tie: bool = false;
    for j in 0..n
        invariant
            n == cmd.parameters@.len(),
            bound@.len() == n,
            has_ex == frontier_has_exact(cm, bm, t@),
            cm == cmd@,
            bm == bound.deep_view(),
            match best {
                Option::None => (forall|x: int| 0 <= x < j ==> !candidate(cm, bm, t@, x)) && !tie,
                Option::Some(b0) => {
                    &&& b0 < j
                    &&& candidate(cm, bm, t@, b0 as int)
                    &&& best_lit == literal_candidate(cm, bm, t@, b0 as int)
                    &&& forall|x: int|
                        0 <= x < j && candidate(cm, bm, t@, x) ==> !outranks(cm, bm, t@, x, b0 as int)
                    &&& tie == exists|x: int|
                        0 <= x < j && x != b0 as int && candidate(cm, bm, t@, x) && !outranks(
                            cm,
                            bm,
                            t@,
                            b0 as int,
                            x,
                        )
                },
            },
    {
        let (cand, lit) = candidate_class(cmd, bound, t, j, has_ex);
        if cand {
            match best {
                None => {
                    best = Some(j);
                    best_lit = lit;
                    tie = false;
                },
                Some(b0) => {
                    let bp = cmd.parameters[b0].priority;
                    let jp = cmd.parameters[j].priority;
                    if jp > bp || (jp == bp && lit && !best_lit) {
                        proof {
                            assert(outranks(cm, bm, t@, j as int, b0 as int));
                            assert forall|x: int|
                                0 <= x < j + 1 && candidate(cm, bm, t@, x) implies !outranks(
                                cm,
                                bm,
                                t@,
                                x,
                                j as int,
                            ) by {
                                if x < j {
                                    assert(!outranks(cm, bm, t@, x, b0 as int));
                                }
                            }
                            assert forall|x: int|
                                0 <= x < j + 1 && x != j as int && candidate(cm, bm, t@, x)
                                    implies outranks(cm, bm, t@, j as int, x) by {
                                assert(!outranks(cm, bm, t@, x, b0 as int));
                            }
                        }
                        best = Some(j);
                        best_lit = lit;
                        tie = false;
                    } else if jp == bp && lit == best_lit {
                        proof {
                            assert(!outranks(cm, bm, t@, b0 as int, j as int));
                            assert(!outranks(cm, bm, t@, j as int, b0 as int));
                        }
                        tie = true;
                    } else {
                        proof {
                            assert(outranks(cm, bm, t@, b0 as int, j as int));
                        }
                    }
                },
            }
        }
    }
    match best {
        None => Selection::Empty,
        Some(b0) => {
            if tie {
                proof {
                    assert(top_candidate(cm, bm, t@, b0 as int));
                    let x = choose|x: int|
                        0 <= x < n && x != b0 as int && candidate(cm, bm, t@, x) && !outranks(
                            cm,
                            bm,
                            t@,
                            b0 as int,
                            x,
                        );
                    assert forall|w: int| !winner(cm, bm, t@, w) by {
                        if winner(cm, bm, t@, w) {
                            if w == b0 as int {
                                assert(outranks(cm, bm, t@, b0 as int, x));
                            } else {
                                assert(outranks(cm, bm, t@, w, b0 as int));
                                assert(!outranks(cm, bm, t@, w, b0 as int));
                            }
                        }
                    }
                }
                Selection::Tied(b0)
            } else {
                proof {
                    assert forall|k: int|
                        candidate(cm, bm, t@, k) && k != b0 as int implies outranks(
                        cm,
                        bm,
                        t@,
                        b0 as int,
                        k,
                    ) by {
                        assert(!outranks(cm, bm, t@, k, b0 as int));
                    }
                }
                Selection::Winner(b0)
            }
        },
    }
}

/// Two outright root winners are the same command.
proof fn lemma_root_winner_unique(rt: TreeModel, t: Seq<char>, i: int, j: int)
    requires
        root_winner(rt, t, i),
        root_winner(rt, t, j),
    ensures
        i == j,
{
    if i != j {
        assert(root_outranks(rt, i, j));
        assert(root_outranks(rt, j, i));
    }
}

/// Does any command match the first token exactly by name?
fn root_exact(root: &RootNode, t: &String) -> (r: bool)
    ensures
        r == root_has_exact(root@, t@),
{
    let n = root.commands.len();
    for k in 0..n
        invariant
            n == root.commands@.len(),
            forall|x: int| 0 <= x < k ==> root@.commands[x].name != t@,
    {
        if str_eq(&root.commands[k].name, t) {
            proof {
                assert(root@.commands[k as int].name == t@);
            }
            return true;
        }
    }
    false
}

/// Is command `k` a candidate for the first token?
fn root_cand(root: &RootNode, t: &String, k: usize, has_ex: bool) -> (r: bool)
    requires
        k < root.commands@.len(),
        has_ex == root_has_exact(root@, t@),
    ensures
        r == root_candidate(root@, t@, k as int),
{
    if has_ex {
        str_eq(&root.commands[k].name, t)
    } else {
        str_is_prefix(t, &root.commands[k].name)
    }
}

/// Resolve the first token against the top-level commands.
fn select_command(root: &RootNode, t: &String) -> (r: Selection)
    ensures
        match r {
            Selection::Empty => forall|k: int| !root_candidate(root@, t@, k),
            Selection::Winner(w) => root_winner(root@, t@, w as int),
            Selection::Tied(b0) => root_top_candidate(root@, t@, b0 as int) && (forall|k: int|
                !root_winner(root@, t@, k)),
        },
{
    let ghost rm = root@;
    let has_ex = root_exact(root, t);
    let n = root.commands.len();
    let mut best: Option<usize> = None;
    let mut tie: bool = false;
    for k in 0..n
        invariant
            n == root.commands@.len(),
            rm == root@,
            has_ex == root_has_exact(rm, t@),
            match best {
                Option::None => (forall|x: int| 0 <= x < k ==> !root_candidate(rm, t@, x)) && !tie,
                Option::Some(b0) => {
                    &&& b0 < k
                    &&& root_candidate(rm, t@, b0 as int)
                    &&& forall|x: int|
                        0 <= x < k && root_candidate(rm, t@, x) ==> !root_outranks(rm, x, b0 as int)
                    &&& tie == exists|x: int|
                        0 <= x < k && x != b0 as int && root_candidate(rm, t@, x) && !root_outranks(
                            rm,
                            b0 as int,
                            x,
                        )
                },
            },
    {
        let cand = root_cand(root, t, k, has_ex);
        if cand {
            match best {
                None => {
                    best = Some(k);
                    tie = false;
                },
                Some(b0) => {
                    let bp = root.commands[b0].priority;
                    let kp = root.commands[k].priority;
                    if kp > bp {
                        proof {
                            assert(root_outranks(rm, k as int, b0 as int));
                            assert forall|x: int|
                                0 <= x < k + 1 && root_candidate(rm, t@, x) implies !root_outranks(
                                rm,
                                x,
                                k as int,
                            ) by {
                                if x < k {
                                    assert(!root_outranks(rm, x, b0 as int));
                                }
                            }
                            assert forall|x: int|
                                0 <= x < k + 1 && x != k as int && root_candidate(rm, t@, x)
                                    implies root_outranks(rm, k as int, x) by {
                                assert(!root_outranks(rm, x, b0 as int));
                            }
                        }
                        best = Some(k);
                        tie = false;
                    } else if kp == bp {
                        proof {
                            assert(root_candidate(rm, t@, k as int));
                            assert(k as int != b0 as int);
                            assert(!root_outranks(rm, b0 as int, k as int));
                        }
                        tie = true;
                    } else {
                        proof {
                            assert(root_outranks(rm, b0 as int, k as int));
                        }
                    }
                },
            }
        }
    }
    match best {
        None => Selection::Empty,
        Some(b0) => {
            if tie {
                proof {
                    assert(root_top_candidate(rm, t@, b0 as int));
                    let x = choose|x: int|
                        0 <= x < n && x != b0 as int && root_candidate(rm, t@, x) && !root_outranks(
                            rm,
                            b0 as int,
                            x,
                        );
                    assert forall|w: int| !root_winner(rm, t@, w) by {
                        if root_winner(rm, t@, w) {
                            if w == b0 as int {
                                assert(root_outranks(rm, b0 as int, x));
                            } else {
                                assert(root_outranks(rm, w, b0 as int));
                                assert(!root_outranks(rm, w, b0 as int));
                            }
                        }
                    }
                }
                Selection::Tied(b0)
            } else {
                proof {
                    assert forall|x: int|
                        root_candidate(rm, t@, x) && x != b0 as int implies root_outranks(
                        rm,
                        b0 as int,
                        x,
                    ) by {
                        assert(!root_outranks(rm, x, b0 as int));
                    }
                }
                Selection::Winner(b0)
            }
        },
    }
}

// ---------------------------------------------------------------------
// Executable listing construction.
// ---------------------------------------------------------------------

/// One line of a listing while it is being built.
struct OptionEntry {
    name: String,
    priority: i32,
    symbol: String,
}

impl View for OptionEntry {
    type V = ListingEntry;

    closed spec fn view(&self) -> ListingEntry {
        ListingEntry { priority: self.priority as int, name: self.name@, symbol: self.symbol@ }
    }
}

impl DeepView for OptionEntry {
    type V = ListingEntry;

    open spec fn deep_view(&self) -> ListingEntry {
        self.view()
    }
}

/// `a` is printed before `b`: higher priority first, then names in
/// ascending lexicographic order.
fn entry_lt(a: &OptionEntry, b: &OptionEntry) -> (r: bool)
    ensures
        r == entry_precedes(a@, b@),
{
    if a.priority > b.priority {
        true
    } else if a.priority == b.priority {
        str_lex_lt(&a.name, &b.name)
    } else {
        false
    }
}

/// Inserting before the first entry the new one strictly precedes is what
/// `insert_entry` does.
proof fn lemma_insert_entry_at(x: ListingEntry, s: Seq<ListingEntry>, m: int)
    requires
        0 <= m <= s.len(),
        forall|k: int| 0 <= k < m ==> !entry_precedes(x, s[k]),
        m < s.len() ==> entry_precedes(x, s[m]),
    ensures
        insert_entry(x, s) == s.subrange(0, m) + seq![x] + s.subrange(m, s.len() as int),
    decreases m,
{
    if m == 0 {
        if s.len() == 0 {
            assert(insert_entry(x, s) =~= s.subrange(0, 0) + seq![x] + s.subrange(
                0,
                s.len() as int,
            ));
        } else {
            assert(insert_entry(x, s) =~= s.subrange(0, 0) + seq![x] + s.subrange(
                0,
                s.len() as int,
            ));
        }
    } else {
        let s1 = s.subrange(1, s.len() as int);
        assert(forall|k: int| 0 <= k < m - 1 ==> !entry_precedes(x, s1[k]));
        lemma_insert_entry_at(x, s1, m - 1);
        assert(seq![s[0]] + (s1.subrange(0, m - 1) + seq![x] + s1.subrange(m - 1, s1.len() as int))
            =~= s.subrange(0, m) + seq![x] + s.subrange(m, s.len() as int));
    }
}

/// The place a new entry takes in a partially built listing: just before
/// the first entry it strictly precedes.
fn find_insert_pos(out: &Vec<OptionEntry>, x: &OptionEntry) -> (m: usize)
    ensures
        m <= out@.len(),
        forall|k: int| 0 <= k < m ==> !entry_precedes(x@, out.deep_view()[k]),
        m < out@.len() ==> entry_precedes(x@, out.deep_view()[m as int]),
{
    let n = out.len();
    let mut m: usize = 0;
    while m < n
        invariant
            n == out@.len(),
            m <= n,
            forall|k: int| 0 <= k < m ==> !entry_precedes(x@, out.deep_view()[k]),
        decreases n - m,
    {
        if entry_lt(x, &out[m]) {
            proof {
                assert(out.deep_view()[m as int] == out@[m as int]@);
            }
            return m;
        }
        proof {
            assert(out.deep_view()[m as int] == out@[m as int]@);
        }
        m += 1;
    }
    m
}

/// Sort a listing by priority descending, then name ascending.
fn sort_listing(v: Vec<OptionEntry>) -> (r: Vec<OptionEntry>)
    ensures
        r.deep_view() == sort_entries(v.deep_view()),
{
    let ghost vm = v.deep_view();
    let mut out: Vec<OptionEntry> = Vec::new();
    let n = v.len();
    let mut i: usize = 0;
    while i < n
        invariant
            n == v@.len(),
            n == vm.len(),
            vm == v.deep_view(),
            i <= n,
            out.deep_view() =~= sort_entries(vm.subrange(0, i as int)),
        decreases n - i,
    {
        let ghost pre = out.deep_view();
        let x = clone_entry(&v[i]);
        let m = find_insert_pos(&out, &x);
        proof {
            lemma_insert_entry_at(x@, pre, m as int);
        }
        out.insert(m, x);
        i += 1;
        proof {
            assert(vm.subrange(0, i as int).drop_last() =~= vm.subrange(0, i - 1));
            assert(vm.subrange(0, i as int).last() == vm[i - 1]);
            assert(out.deep_view() =~= pre.subrange(0, m as int) + seq![x@] + pre.subrange(
                m as int,
                pre.len() as int,
            ));
        }
    }
    proof {
        assert(vm.subrange(0, n as int) =~= vm);
    }
    out
}

/// Copy one listing line.
fn clone_entry(e: &OptionEntry) -> (r: OptionEntry)
    ensures
        r@ == e@,
{
    OptionEntry {
        name: e.name.clone(),
        priority: e.priority,
        symbol: e.symbol.clone(),
    }
}

/// The printed column of a sorted listing.
fn listing_symbols(v: Vec<OptionEntry>) -> (r: Vec<String>)
    ensures
        r.deep_view() == entry_symbols(v.deep_view()),
{
    let mut r: Vec<String> = Vec::new();
    let n = v.len();
    for i in 0..n
        invariant
            n == v@.len(),
            r@.len() == i,
            forall|j: int| 0 <= j < i ==> #[trigger] r@[j]@ == v@[j]@.symbol,
    {
        r.push(v[i].symbol.clone());
    }
    proof {
        assert(r.deep_view() =~= entry_symbols(v.deep_view()));
    }
    r
}

/// Build the `NoMatches` listing at command level: the visible frontier,
/// ordered by priority descending then name ascending.
fn build_options(cmd: &CommandNode, bound: &Vec<Vec<String>>) -> (r: Vec<String>)
    requires
        bound@.len() == cmd.parameters@.len(),
    ensures
        r.deep_view() == options_listing(cmd@, bound.deep_view()),
{
    let ghost cm = cmd@;
    let ghost bm = bound.deep_view();
    let mut entries: Vec<OptionEntry> = Vec::new();
    let n = cmd.parameters.len();
    for j in 0..n
        invariant
            n == cmd.parameters@.len(),
            bound@.len() == n,
            cm == cmd@,
            bm == bound.deep_view(),
            entries.deep_view() =~= frontier_entries(cm, bm, j as int),
    {
        if frontier_member(cmd, bound, j) && !cmd.parameters[j].hidden {
            let p = &cmd.parameters[j];
            let e = OptionEntry {
                name: p.name.clone(),
                priority: p.priority,
                symbol: p.display_symbol(),
            };
            proof {
                assert(e@ == param_entry(cm.params[j as int]));
            }
            entries.push(e);
        }
        proof {
            assert(entries.deep_view() =~= frontier_entries(cm, bm, j + 1));
        }
    }
    listing_symbols(sort_listing(entries))
}

/// Build the `NoMatches` listing for the first token: the visible
/// commands, ordered by priority descending then name ascending.
fn build_root_options(root: &RootNode) -> (r: Vec<String>)
    ensures
        r.deep_view() == root_options_listing(root@),
{
    let ghost rm = root@;
    let mut entries: Vec<OptionEntry> = Vec::new();
    let n = root.commands.len();
    for k in 0..n
        invariant
            n == root.commands@.len(),
            rm == root@,
            entries.deep_view() =~= root_entries(rm, k as int),
    {
        if !root.commands[k].hidden {
            let c = &root.commands[k];
            let e = OptionEntry {
                name: c.name.clone(),
                priority: c.priority,
                symbol: c.display_symbol(),
            };
            proof {
                assert(e@ == cmd_entry(rm.commands[k as int]));
            }
            entries.push(e);
        }
        proof {
            assert(entries.deep_view() =~= root_entries(rm, k + 1));
        }
    }
    listing_symbols(sort_listing(entries))
}

/// Build the `AmbiguousMatch` listing at command level: the visible tied
/// parameters in declaration order.  `b0` must be one of the tied top
/// candidates.
fn build_tied(cmd: &CommandNode, bound: &Vec<Vec<String>>, t: &String, b0: usize) -> (r: Vec<
    String,
>)
    requires
        bound@.len() == cmd.parameters@.len(),
        top_candidate(cmd@, bound.deep_view(), t@, b0 as int),
    ensures
        r.deep_view() == tied_listing(cmd@, bound.deep_view(), t@),
{
    let ghost cm = cmd@;
    let ghost bm = bound.deep_view();
    let has_ex = frontier_exact(cmd, bound, t);
    let bp = cmd.parameters[b0].priority;
    let (_, blit) = candidate_class(cmd, bound, t, b0, has_ex);
    let mut r: Vec<String> = Vec::new();
    let n = cmd.parameters.len();
    for j in 0..n
        invariant
            n == cmd.parameters@.len(),
            bound@.len() == n,
            cm == cmd@,
            bm == bound.deep_view(),
            b0 < n,
            has_ex == frontier_has_exact(cm, bm, t@),
            top_candidate(cm, bm, t@, b0 as int),
            bp == cm.params[b0 as int].priority,
            blit == literal_candidate(cm, bm, t@, b0 as int),
            r.deep_view() =~= tied_upto(cm, bm, t@, j as int),
    {
        let (cand, lit) = candidate_class(cmd, bound, t, j, has_ex);
        let jp = cmd.parameters[j].priority;
        let is_top = cand && !(bp > jp || (bp == jp && blit && !lit));
        proof {
            if is_top {
                assert(!outranks(cm, bm, t@, b0 as int, j as int));
                assert forall|k: int| candidate(cm, bm, t@, k) implies !outranks(
                    cm,
                    bm,
                    t@,
                    k,
                    j as int,
                ) by {
                    assert(!outranks(cm, bm, t@, k, b0 as int));
                }
                assert(top_candidate(cm, bm, t@, j as int));
            } else {
                if top_candidate(cm, bm, t@, j as int) {
                    assert(candidate(cm, bm, t@, b0 as int));
                    assert(!outranks(cm, bm, t@, b0 as int, j as int));
                }
            }
        }
        if is_top && !cmd.parameters[j].hidden {
            r.push(cmd.parameters[j].display_symbol());
        }
        proof {
            assert(r.deep_view() =~= tied_upto(cm, bm, t@, j + 1));
        }
    }
    r
}

/// Build the `AmbiguousMatch` listing for the first token.  `b0` must be
/// one of the tied top commands.
fn build_root_tied(root: &RootNode, t: &String, b0: usize) -> (r: Vec<String>)
    requires
        root_top_candidate(root@, t@, b0 as int),
    ensures
        r.deep_view() == root_tied_listing(root@, t@),
{
    let ghost rm = root@;
    let has_ex = root_exact(root, t);
    proof {
        assert(root_candidate(rm, t@, b0 as int));
    }
    let b0u: usize = b0;
    let bp = root.commands[b0u].priority;
    let mut r: Vec<String> = Vec::new();
    let n = root.commands.len();
    for k in 0..n
        invariant
            n == root.commands@.len(),
            rm == root@,
            b0 < n,
            has_ex == root_has_exact(rm, t@),
            root_top_candidate(rm, t@, b0 as int),
            bp == rm.commands[b0 as int].priority,
            r.deep_view() =~= root_tied_upto(rm, t@, k as int),
    {
        let cand = root_cand(root, t, k, has_ex);
        let kp = root.commands[k].priority;
        let is_top = cand && !(bp > kp);
        proof {
            if is_top {
                assert forall|x: int| root_candidate(rm, t@, x) implies !root_outranks(
                    rm,
                    x,
                    k as int,
                ) by {
                    assert(!root_outranks(rm, x, b0 as int));
                }
                assert(root_top_candidate(rm, t@, k as int));
            } else {
                if root_top_candidate(rm, t@, k as int) {
                    assert(root_candidate(rm, t@, b0 as int));
                    assert(!root_outranks(rm, b0 as int, k as int));
                }
            }
        }
        if is_top && !root.commands[k].hidden {
            r.push(root.commands[k].display_symbol());
        }
        proof {
            assert(r.deep_view() =~= root_tied_upto(rm, t@, k + 1));
        }
    }
    r
}

/// The outcome a parse result stands for.
pub open spec fn result_model(r: Result<ParseState, ParseError>) -> Outcome {
    match r {
        Result::Ok(st) => Outcome::Matched(st@),
        Result::Err(ParseError::NoMatches { token, options }) => Outcome::NoMatches(
            token@,
            options.deep_view(),
        ),
        Result::Err(ParseError::AmbiguousMatch { token, tied }) => Outcome::AmbiguousMatch(
            token@,
            tied.deep_view(),
        ),
    }
}


// ---------------------------------------------------------------------
// Binding and the parse loop.
// ---------------------------------------------------------------------

/// A fresh binding table: one empty value list per parameter.
fn make_empty_bound(n: usize) -> (r: Vec<Vec<String>>)
    ensures
        r.deep_view() == empty_bound(n as int),
{
    let mut r: Vec<Vec<String>> = Vec::new();
    for i in 0..n
        invariant
            r@.len() == i,
            forall|j: int| 0 <= j < i ==> #[trigger] r@[j]@.len() == 0,
    {
        r.push(Vec::new());
    }
    proof {
        assert forall|j: int| 0 <= j < n implies r.deep_view()[j] =~= empty_bound(n as int)[j] by {
            assert(r@[j]@ =~= Seq::<String>::empty());
        }
        assert(r.deep_view() =~= empty_bound(n as int));
    }
    r
}

/// Append one value to parameter `j`'s bound values.
fn bind_param(bound: &mut Vec<Vec<String>>, j: usize, v: String)
    requires
        j < old(bound)@.len(),
    ensures
        final(bound).deep_view() == old(bound).deep_view().update(
            j as int,
            old(bound).deep_view()[j as int].push(v@),
        ),
{
    let ghost pre = bound.deep_view();
    let mut inner = bound.remove(j);
    inner.push(v);
    bound.insert(j, inner);
    proof {
        let post = pre.update(j as int, pre[j as int].push(v@));
        assert forall|k: int| 0 <= k < bound@.len() implies bound.deep_view()[k] == post[k] by {
            if k < j {
                assert(bound@[k] == old(bound)@[k]);
            } else if k == j {
                assert(bound@[k] == inner);
                assert(inner@ == old(bound)@[j as int]@.push(v));
                assert(inner.deep_view() =~= pre[j as int].push(v@));
            } else {
                assert(bound@[k] == old(bound)@.remove(j as int)[k - 1]);
                assert(old(bound)@.remove(j as int)[k - 1] == old(bound)@[k]);
            }
        }
        assert(bound.deep_view() =~= post);
    }
}

/// Resolve a tokenized input line against the frozen tree.
///
/// The result is exactly [`spec_parse`] of the tree's and the tokens'
/// models: the same tree and the same tokens always give the same matched
/// command, the same bound values, or the identical error.  On success the
/// returned state is well formed for the tree.
pub fn parse(root: &RootNode, tokens: &Vec<String>) -> (r: Result<ParseState, ParseError>)
    ensures
        result_model(r) == spec_parse(root@, tokens.deep_view()),
        r matches Result::Ok(st) ==> state_wf(root@, st@),
{
    let ghost rm = root@;
    let ghost toks = tokens.deep_view();
    let mut st = ParseState { matched: None, bound: Vec::new() };
    let mut i: usize = 0;
    let n = tokens.len();
    proof {
        assert(toks.subrange(0, toks.len() as int) =~= toks);
        assert(st@.bound =~= Seq::<Seq<Seq<char>>>::empty());
    }
    while i < n
        invariant
            n == tokens@.len(),
            n == toks.len(),
            rm == root@,
            toks == tokens.deep_view(),
            i <= n,
            state_wf(rm, st@),
            spec_parse_from(rm, st@, toks.subrange(i as int, toks.len() as int)) == spec_parse(
                rm,
                toks,
            ),
        decreases n - i,
    {
        let ghost rest = toks.subrange(i as int, toks.len() as int);
        let t = &tokens[i];
        proof {
            assert(rest.len() > 0);
            assert(rest[0] == toks[i as int]);
            assert(toks[i as int] == t@);
        }
        match st.matched {
            None => {
                match select_command(root, t) {
                    Selection::Empty => {
                        proof {
                            assert forall|k: int| !root_winner(rm, t@, k) by {
                                assert(!root_candidate(rm, t@, k));
                            }
                        }
                        return Err(
                            ParseError::NoMatches {
                                token: t.clone(),
                                options: build_root_options(root),
                            },
                        );
                    },
                    Selection::Tied(b0) => {
                        return Err(
                            ParseError::AmbiguousMatch {
                                token: t.clone(),
                                tied: build_root_tied(root, t, b0),
                            },
                        );
                    },
                    Selection::Winner(w) => {
                        proof {
                            let wj = the_root_winner(rm, t@);
                            assert(root_winner(rm, t@, w as int));
                            assert(root_winner(rm, t@, wj));
                            lemma_root_winner_unique(rm, t@, w as int, wj);
                        }
                        let np = root.commands[w].parameters.len();
                        st = ParseState { matched: Some(w), bound: make_empty_bound(np) };
                        proof {
                            assert(np as int == rm.commands[w as int].params.len());
                            assert(rest.subrange(1, rest.len() as int) =~= toks.subrange(
                                i + 1,
                                toks.len() as int,
                            ));
                        }
                        i += 1;
                    },
                }
            },
            Some(c) => {
                let cmd = &root.commands[c];
                let ghost cm = cmd@;
                let ghost bm = st.bound.deep_view();
                proof {
                    assert(cm == rm.commands[c as int]);
                }
                match select_param(cmd, &st.bound, t) {
                    Selection::Empty => {
                        proof {
                            assert forall|j: int| !winner(cm, bm, t@, j) by {
                                assert(!candidate(cm, bm, t@, j));
                            }
                        }
                        return Err(
                            ParseError::NoMatches {
                                token: t.clone(),
                                options: build_options(cmd, &st.bound),
                            },
                        );
                    },
                    Selection::Tied(b0) => {
                        return Err(
                            ParseError::AmbiguousMatch {
                                token: t.clone(),
                                tied: build_tied(cmd, &st.bound, t, b0),
                            },
                        );
                    },
                    Selection::Winner(w) => {
                        proof {
                            let wj = the_winner(cm, bm, t@);
                            assert(winner(cm, bm, t@, w as int));
                            assert(winner(cm, bm, t@, wj));
                            lemma_winner_unique(cm, bm, t@, w as int, wj);
                            assert(in_frontier(cm, bm, w as int));
                        }
                        let kind = cmd.parameters[w].kind;
                        if kind == ParameterKind::Named {
                            if i + 1 < n {
                                let v = tokens[i + 1].clone();
                                proof {
                                    assert(rest.len() >= 2);
                                    assert(rest[1] == toks[i + 1]);
                                    assert(v@ == toks[i + 1]);
                                }
                                bind_param(&mut st.bound, w, v);
                                proof {
                                    assert(rest.subrange(2, rest.len() as int) =~= toks.subrange(
                                        i + 2,
                                        toks.len() as int,
                                    ));
                                }
                                i += 2;
                            } else {
                                proof {
                                    assert(rest.len() < 2);
                                }
                                return Err(
                                    ParseError::NoMatches {
                                        token: String::new(),
                                        options: build_options(cmd, &st.bound),
                                    },
                                );
                            }
                        } else if kind == ParameterKind::Flag {
                            let v = String::from_str("true");
                            proof {
                                assert(v@ == flag_marker());
                            }
                            bind_param(&mut st.bound, w, v);
                            proof {
                                assert(rest.subrange(1, rest.len() as int) =~= toks.subrange(
                                    i + 1,
                                    toks.len() as int,
                                ));
                            }
                            i += 1;
                        } else {
                            let v = t.clone();
                            bind_param(&mut st.bound, w, v);
                            proof {
                                assert(rest.subrange(1, rest.len() as int) =~= toks.subrange(
                                    i + 1,
                                    toks.len() as int,
                                ));
                            }
                            i += 1;
                        }
                    },
                }
            },
        }
    }
    proof {
        assert(toks.subrange(n as int, toks.len() as int).len() == 0);
    }
    Ok(st)
}

} // verus!
