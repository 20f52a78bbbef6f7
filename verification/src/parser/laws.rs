//! The engine's general laws, each stated over the same models the
//! functions' contracts use and proved once for every grammar and every
//! token sequence.

use vstd::prelude::*;
use crate::parser::matcher::BoundModel;
use crate::parser::matcher::Outcome;
use crate::parser::matcher::StateModel;
use crate::parser::matcher::bind_value;
use crate::parser::matcher::candidate;
use crate::parser::matcher::entry_precedes;
use crate::parser::matcher::frontier_entries;
use crate::parser::matcher::in_frontier;
use crate::parser::matcher::insert_entry;
use crate::parser::matcher::ListingEntry;
use crate::parser::matcher::options_listing;
use crate::parser::matcher::outranks;
use crate::parser::matcher::root_candidate;
use crate::parser::matcher::root_entries;
use crate::parser::matcher::root_options_listing;
use crate::parser::matcher::root_tied_listing;
use crate::parser::matcher::root_winner;
use crate::parser::matcher::the_root_winner;
use crate::parser::matcher::cmd_entry;
use crate::parser::matcher::param_entry;
use crate::parser::matcher::sort_entries;
use crate::parser::matcher::spec_parse;
use crate::parser::matcher::spec_parse_from;
use crate::parser::matcher::the_winner;
use crate::parser::matcher::tied_listing;
use crate::parser::matcher::tied_upto;
use crate::parser::matcher::top_candidate;
use crate::parser::matcher::winner;
use crate::parser::nodes::CmdModel;
use crate::parser::nodes::TreeModel;
use crate::parser::nodes::symbol_of;
use crate::parser::verify::missing_required;
use crate::parser::verify::missing_upto;

verus! {

/// Parsing is deterministic: the same tree and the same token sequence
/// always yield the same outcome — success with identical bindings, or
/// the identical error.  Two parse results, each equal to the one spec
/// outcome their contracts pin them to, are equal.
pub proof fn lemma_parse_deterministic(
    rt: TreeModel,
    toks: Seq<Seq<char>>,
    r1: Outcome,
    r2: Outcome,
)
    requires
        r1 == spec_parse(rt, toks),
        r2 == spec_parse(rt, toks),
    ensures
        r1 == r2,
{
}

/// Priority tie-break: when exactly two siblings can consume a token and
/// their priorities differ, the token is never ambiguous — the
/// higher-priority node wins outright, whatever the declaration order.
pub proof fn lemma_priority_tiebreak(cmd: CmdModel, b: BoundModel, t: Seq<char>, i: int, j: int)
    requires
        candidate(cmd, b, t, i),
        candidate(cmd, b, t, j),
        i != j,
        cmd.params[i].priority > cmd.params[j].priority,
        forall|k: int| candidate(cmd, b, t, k) ==> k == i || k == j,
    ensures
        winner(cmd, b, t, i),
        the_winner(cmd, b, t) == i,
        exists|k: int| winner(cmd, b, t, k),
{
    assert(outranks(cmd, b, t, i, j));
    assert(winner(cmd, b, t, i));
    let w = the_winner(cmd, b, t);
    assert(winner(cmd, b, t, w));
    if w != i {
        assert(outranks(cmd, b, t, w, i));
        assert(outranks(cmd, b, t, i, w));
    }
}

/// Equal-priority overlapping siblings always produce an ambiguous match,
/// never a silent pick: when two distinct literal candidates share the
/// top priority, no node wins, and a parse standing at that token fails
/// with `AmbiguousMatch` carrying the tied listing.
pub proof fn lemma_equal_priority_ambiguous(
    rt: TreeModel,
    st: StateModel,
    toks: Seq<Seq<char>>,
    c: int,
    i: int,
    j: int,
)
    requires
        st.matched == Option::Some(c),
        0 <= c < rt.commands.len(),
        toks.len() > 0,
        candidate(rt.commands[c], st.bound, toks[0], i),
        candidate(rt.commands[c], st.bound, toks[0], j),
        i != j,
        cmd_at(rt, c).params[i].priority == cmd_at(rt, c).params[j].priority,
        !outranks(rt.commands[c], st.bound, toks[0], i, j),
        !outranks(rt.commands[c], st.bound, toks[0], j, i),
        forall|k: int| candidate(rt.commands[c], st.bound, toks[0], k) ==> k == i || k == j,
    ensures
        forall|k: int| !winner(rt.commands[c], st.bound, toks[0], k),
        spec_parse_from(rt, st, toks) == Outcome::AmbiguousMatch(
            toks[0],
            tied_listing(rt.commands[c], st.bound, toks[0]),
        ),
{
    let cmd = rt.commands[c];
    let t = toks[0];
    assert forall|k: int| !winner(cmd, st.bound, t, k) by {
        if winner(cmd, st.bound, t, k) {
            assert(candidate(cmd, st.bound, t, k));
            if k == i {
                assert(outranks(cmd, st.bound, t, i, j));
            } else {
                assert(k == j);
                assert(outranks(cmd, st.bound, t, j, i));
            }
        }
    }
    assert(exists|k: int| candidate(cmd, st.bound, t, k));
}

/// The command at an index; a shorthand for stating laws.
pub open spec fn cmd_at(rt: TreeModel, c: int) -> CmdModel {
    rt.commands[c]
}

/// Binding appends exactly one value: after a match of parameter `j`, its
/// bound sequence is the old one with the new value at the end — in
/// encounter order — and every other parameter's bindings are untouched.
/// A parameter matched `n` times therefore holds exactly `n` values.
pub proof fn lemma_binding_appends(st: StateModel, j: int, v: Seq<char>)
    requires
        0 <= j < st.bound.len(),
    ensures
        bind_value(st, j, v).matched == st.matched,
        bind_value(st, j, v).bound.len() == st.bound.len(),
        bind_value(st, j, v).bound[j] == st.bound[j].push(v),
        bind_value(st, j, v).bound[j].len() == st.bound[j].len() + 1,
        forall|k: int|
            0 <= k < st.bound.len() && k != j ==> bind_value(st, j, v).bound[k] == st.bound[k],
{
}

/// A non-repeatable parameter that has already been matched leaves the
/// frontier: its second occurrence can never be a candidate, so the
/// matcher prevents a double match.
pub proof fn lemma_nonrepeatable_excluded(cmd: CmdModel, b: BoundModel, t: Seq<char>, j: int)
    requires
        0 <= j < cmd.params.len(),
        !cmd.params[j].repeatable,
        b[j].len() > 0,
    ensures
        !in_frontier(cmd, b, j),
        !candidate(cmd, b, t, j),
{
}

/// Verification is monotonic: adding bindings can only shrink the set of
/// missing required parameters.  A parameter missing after more bindings
/// was already missing before, and a state that verified keeps verifying.
pub proof fn lemma_verification_monotonic(rt: TreeModel, sv1: StateModel, sv2: StateModel, c: int)
    requires
        sv1.matched == Option::Some(c),
        sv2.matched == Option::Some(c),
        0 <= c < rt.commands.len(),
        sv1.bound.len() == rt.commands[c].params.len(),
        sv2.bound.len() == rt.commands[c].params.len(),
        forall|j: int| 0 <= j < sv1.bound.len() ==> sv1.bound[j].len() <= sv2.bound[j].len(),
    ensures
        forall|j: int|
            0 <= j < rt.commands[c].params.len() && cmd_at(rt, c).params[j].required
                && sv2.bound[j].len() == 0 ==> sv1.bound[j].len() == 0,
        missing_required(rt, sv1).len() == 0 ==> missing_required(rt, sv2).len() == 0,
{
    let cmd = rt.commands[c];
    let n = cmd.params.len() as int;
    lemma_missing_upto_pointwise(cmd, sv1.bound, n);
    lemma_missing_upto_pointwise(cmd, sv2.bound, n);
}

/// The missing listing is empty exactly when no required parameter among
/// the first `n` is unbound.
pub proof fn lemma_missing_upto_pointwise(cmd: CmdModel, b: BoundModel, n: int)
    ensures
        (missing_upto(cmd, b, n).len() == 0) <==> (forall|j: int|
            0 <= j < n ==> !(cmd.params[j].required && b[j].len() == 0)),
    decreases n,
{
    if n > 0 {
        lemma_missing_upto_pointwise(cmd, b, n - 1);
    }
}

/// Every line of `insert_entry`'s result is the inserted entry or one of
/// the old ones.
proof fn lemma_insert_entry_elems(x: ListingEntry, s: Seq<ListingEntry>)
    ensures
        forall|m: int|
            0 <= m < insert_entry(x, s).len() ==> #[trigger] insert_entry(x, s)[m] == x || exists|
                k: int,
            | 0 <= k < s.len() && s[k] == insert_entry(x, s)[m],
    decreases s.len(),
{
    if s.len() != 0 && !entry_precedes(x, s[0]) {
        let s1 = s.subrange(1, s.len() as int);
        lemma_insert_entry_elems(x, s1);
        assert forall|m: int|
            0 <= m < insert_entry(x, s).len() implies #[trigger] insert_entry(x, s)[m] == x
                || exists|k: int| 0 <= k < s.len() && s[k] == insert_entry(x, s)[m] by {
            if m == 0 {
                assert(s[0] == insert_entry(x, s)[0]);
            } else {
                let e = insert_entry(x, s)[m];
                assert(e == insert_entry(x, s1)[m - 1]);
                if e != x {
                    let k = choose|k: int| 0 <= k < s1.len() && s1[k] == e;
                    assert(s[k + 1] == e);
                }
            }
        }
    }
}

/// Sorting a listing neither invents nor loses lines: every line of the
/// sorted listing is one of the unsorted ones.
proof fn lemma_sort_entries_elems(s: Seq<ListingEntry>)
    ensures
        forall|m: int|
            0 <= m < sort_entries(s).len() ==> exists|k: int|
                0 <= k < s.len() && s[k] == #[trigger] sort_entries(s)[m],
    decreases s.len(),
{
    if s.len() != 0 {
        let s1 = s.drop_last();
        lemma_sort_entries_elems(s1);
        lemma_insert_entry_elems(s.last(), sort_entries(s1));
        assert forall|m: int|
            0 <= m < sort_entries(s).len() implies exists|k: int|
            0 <= k < s.len() && s[k] == #[trigger] sort_entries(s)[m] by {
            let e = sort_entries(s)[m];
            if e == s.last() {
                assert(s[s.len() - 1] == e);
            } else {
                let m1 = choose|k: int| 0 <= k < sort_entries(s1).len() && sort_entries(s1)[k] == e;
                let k = choose|k: int| 0 <= k < s1.len() && s1[k] == e;
                assert(s[k] == e);
            }
        }
    }
}

/// Every frontier entry among the first `n` comes from a visible frontier
/// parameter.
proof fn lemma_frontier_entries_visible(cmd: CmdModel, b: BoundModel, n: int)
    ensures
        forall|m: int|
            0 <= m < frontier_entries(cmd, b, n).len() ==> exists|j: int|
                in_frontier(cmd, b, j) && !cmd.params[j].hidden && #[trigger] frontier_entries(
                    cmd,
                    b,
                    n,
                )[m] == param_entry(cmd.params[j]),
    decreases n,
{
    if n > 0 {
        lemma_frontier_entries_visible(cmd, b, n - 1);
        assert forall|m: int|
            0 <= m < frontier_entries(cmd, b, n).len() implies exists|j: int|
            in_frontier(cmd, b, j) && !cmd.params[j].hidden && #[trigger] frontier_entries(
                cmd,
                b,
                n,
            )[m] == param_entry(cmd.params[j]) by {
            let e = frontier_entries(cmd, b, n)[m];
            if in_frontier(cmd, b, n - 1) && !cmd.params[n - 1].hidden && m == frontier_entries(
                cmd,
                b,
                n - 1,
            ).len() {
                assert(in_frontier(cmd, b, n - 1) && !cmd.params[n - 1].hidden && e == param_entry(
                    cmd.params[n - 1],
                ));
            } else {
                assert(e == frontier_entries(cmd, b, n - 1)[m]);
            }
        }
    }
}

/// Hidden nodes never appear in a `NoMatches` candidate listing: every
/// line of the options listing is the symbol of a visible frontier
/// parameter.
pub proof fn lemma_options_listing_visible(cmd: CmdModel, b: BoundModel)
    ensures
        forall|m: int|
            0 <= m < options_listing(cmd, b).len() ==> exists|j: int|
                in_frontier(cmd, b, j) && !cmd.params[j].hidden && #[trigger] options_listing(
                    cmd,
                    b,
                )[m] == symbol_of(cmd.params[j]),
{
    let n = cmd.params.len() as int;
    let fe = frontier_entries(cmd, b, n);
    lemma_frontier_entries_visible(cmd, b, n);
    lemma_sort_entries_elems(fe);
    assert forall|m: int|
        0 <= m < options_listing(cmd, b).len() implies exists|j: int|
        in_frontier(cmd, b, j) && !cmd.params[j].hidden && #[trigger] options_listing(cmd, b)[m]
            == symbol_of(cmd.params[j]) by {
        let e = sort_entries(fe)[m];
        assert(options_listing(cmd, b)[m] == e.symbol);
        let k = choose|k: int| 0 <= k < fe.len() && fe[k] == e;
        let j = choose|j: int|
            in_frontier(cmd, b, j) && !cmd.params[j].hidden && fe[k] == param_entry(cmd.params[j]);
        assert(in_frontier(cmd, b, j) && !cmd.params[j].hidden && options_listing(cmd, b)[m]
            == symbol_of(cmd.params[j]));
    }
}

/// Hidden nodes never appear in an `AmbiguousMatch` tied listing — though
/// they still take part in matching, and may cause the ambiguity — and
/// every line of the listing is the symbol of a visible tied candidate.
pub proof fn lemma_tied_listing_visible(cmd: CmdModel, b: BoundModel, t: Seq<char>)
    ensures
        forall|m: int|
            0 <= m < tied_listing(cmd, b, t).len() ==> exists|j: int|
                top_candidate(cmd, b, t, j) && !cmd.params[j].hidden && #[trigger] tied_listing(
                    cmd,
                    b,
                    t,
                )[m] == symbol_of(cmd.params[j]),
{
    let n = cmd.params.len() as int;
    lemma_tied_upto_visible(cmd, b, t, n);
    assert forall|m: int|
        0 <= m < tied_listing(cmd, b, t).len() implies exists|j: int|
        top_candidate(cmd, b, t, j) && !cmd.params[j].hidden && #[trigger] tied_listing(cmd, b, t)[m]
            == symbol_of(cmd.params[j]) by {
        assert(tied_listing(cmd, b, t)[m] == tied_upto(cmd, b, t, n)[m]);
        let j = choose|j: int|
            top_candidate(cmd, b, t, j) && !cmd.params[j].hidden && tied_upto(cmd, b, t, n)[m]
                == symbol_of(cmd.params[j]);
        assert(top_candidate(cmd, b, t, j) && !cmd.params[j].hidden && tied_listing(cmd, b, t)[m]
            == symbol_of(cmd.params[j]));
    }
}

/// Every line of the tied listing among the first `n` parameters comes
/// from a visible top candidate.
proof fn lemma_tied_upto_visible(cmd: CmdModel, b: BoundModel, t: Seq<char>, n: int)
    ensures
        forall|m: int|
            0 <= m < tied_upto(cmd, b, t, n).len() ==> exists|j: int|
                top_candidate(cmd, b, t, j) && !cmd.params[j].hidden && #[trigger] tied_upto(
                    cmd,
                    b,
                    t,
                    n,
                )[m] == symbol_of(cmd.params[j]),
    decreases n,
{
    if n > 0 {
        lemma_tied_upto_visible(cmd, b, t, n - 1);
        assert forall|m: int|
            0 <= m < tied_upto(cmd, b, t, n).len() implies exists|j: int|
            top_candidate(cmd, b, t, j) && !cmd.params[j].hidden && #[trigger] tied_upto(
                cmd,
                b,
                t,
                n,
            )[m] == symbol_of(cmd.params[j]) by {
            let e = tied_upto(cmd, b, t, n)[m];
            if top_candidate(cmd, b, t, n - 1) && !cmd.params[n - 1].hidden && m == tied_upto(
                cmd,
                b,
                t,
                n - 1,
            ).len() {
                assert(top_candidate(cmd, b, t, n - 1) && !cmd.params[n - 1].hidden && e
                    == symbol_of(cmd.params[n - 1]));
            } else {
                assert(e == tied_upto(cmd, b, t, n - 1)[m]);
            }
        }
    }
}

/// Hidden nodes are matchable: whether a parameter can consume a token
/// never depends on any parameter's hidden flag.  Two commands that agree
/// on everything but hidden flags have the same candidates.
pub proof fn lemma_hidden_matchable(
    cmd1: CmdModel,
    cmd2: CmdModel,
    b: BoundModel,
    t: Seq<char>,
    j: int,
)
    requires
        cmd1.params.len() == cmd2.params.len(),
        forall|k: int|
            0 <= k < cmd1.params.len() ==> #[trigger] cmd2.params[k]
                == (crate::parser::nodes::ParamModel {
                hidden: cmd2.params[k].hidden,
                ..cmd1.params[k]
            }),
    ensures
        candidate(cmd1, b, t, j) == candidate(cmd2, b, t, j),
{
    assert forall|k: int| 0 <= k < cmd1.params.len() implies {
        &&& #[trigger] cmd1.params[k].name == cmd2.params[k].name
        &&& cmd1.params[k].aliases == cmd2.params[k].aliases
        &&& cmd1.params[k].kind == cmd2.params[k].kind
        &&& cmd1.params[k].repeatable == cmd2.params[k].repeatable
        &&& cmd1.params[k].priority == cmd2.params[k].priority
    } by {
        assert(cmd2.params[k] == (crate::parser::nodes::ParamModel {
            hidden: cmd2.params[k].hidden,
            ..cmd1.params[k]
        }));
    }
    assert forall|k: int| 0 <= k < cmd1.params.len() implies {
        &&& crate::parser::matcher::exact_matches(cmd1.params[k], t)
            == crate::parser::matcher::exact_matches(cmd2.params[k], t)
        &&& crate::parser::matcher::prefix_matches(cmd1.params[k], t)
            == crate::parser::matcher::prefix_matches(cmd2.params[k], t)
        &&& in_frontier(cmd1, b, k) == in_frontier(cmd2, b, k)
    } by {
        assert(cmd1.params[k].name == cmd2.params[k].name);
        assert(cmd1.params[k].aliases == cmd2.params[k].aliases);
    }
    assert(crate::parser::matcher::frontier_has_exact(cmd1, b, t)
        == crate::parser::matcher::frontier_has_exact(cmd2, b, t)) by {
        if crate::parser::matcher::frontier_has_exact(cmd1, b, t) {
            let k = choose|k: int|
                in_frontier(cmd1, b, k) && crate::parser::matcher::exact_matches(
                    cmd1.params[k],
                    t,
                );
            assert(in_frontier(cmd2, b, k) && crate::parser::matcher::exact_matches(
                cmd2.params[k],
                t,
            ));
        }
        if crate::parser::matcher::frontier_has_exact(cmd2, b, t) {
            let k = choose|k: int|
                in_frontier(cmd2, b, k) && crate::parser::matcher::exact_matches(
                    cmd2.params[k],
                    t,
                );
            assert(in_frontier(cmd1, b, k) && crate::parser::matcher::exact_matches(
                cmd1.params[k],
                t,
            ));
        }
    }
    if 0 <= j < cmd1.params.len() {
        assert(cmd1.params[j].kind == cmd2.params[j].kind);
    }
}


/// Priority tie-break among top-level commands: when exactly two commands
/// can match the first token and their priorities differ, the
/// higher-priority command wins outright, whatever the declaration order.
pub proof fn lemma_root_priority_tiebreak(rt: TreeModel, t: Seq<char>, i: int, j: int)
    requires
        root_candidate(rt, t, i),
        root_candidate(rt, t, j),
        i != j,
        rt.commands[i].priority > rt.commands[j].priority,
        forall|k: int| root_candidate(rt, t, k) ==> k == i || k == j,
    ensures
        root_winner(rt, t, i),
        the_root_winner(rt, t) == i,
        exists|k: int| root_winner(rt, t, k),
{
    assert(root_winner(rt, t, i));
    let w = the_root_winner(rt, t);
    assert(root_winner(rt, t, w));
    if w != i {
        assert(crate::parser::matcher::root_outranks(rt, w, i));
        assert(crate::parser::matcher::root_outranks(rt, i, w));
    }
}

/// Equal-priority overlap among top-level commands is always ambiguous:
/// when the only two candidates for the first token share a priority, no
/// command wins, and the parse fails with `AmbiguousMatch`.
pub proof fn lemma_root_equal_priority_ambiguous(rt: TreeModel, toks: Seq<Seq<char>>, i: int, j: int)
    requires
        toks.len() > 0,
        root_candidate(rt, toks[0], i),
        root_candidate(rt, toks[0], j),
        i != j,
        rt.commands[i].priority == rt.commands[j].priority,
        forall|k: int| root_candidate(rt, toks[0], k) ==> k == i || k == j,
    ensures
        forall|k: int| !root_winner(rt, toks[0], k),
        spec_parse(rt, toks) == Outcome::AmbiguousMatch(
            toks[0],
            crate::parser::matcher::root_tied_listing(rt, toks[0]),
        ),
{
    let t = toks[0];
    assert forall|k: int| !root_winner(rt, t, k) by {
        if root_winner(rt, t, k) {
            assert(root_candidate(rt, t, k));
            if k == i {
                assert(crate::parser::matcher::root_outranks(rt, i, j));
            } else {
                assert(k == j);
                assert(crate::parser::matcher::root_outranks(rt, j, i));
            }
        }
    }
    assert(exists|k: int| root_candidate(rt, t, k));
}

/// Every visible-command entry among the first `n` comes from a visible
/// command.
proof fn lemma_root_entries_visible(rt: TreeModel, n: int)
    requires
        n <= rt.commands.len(),
    ensures
        forall|m: int|
            0 <= m < root_entries(rt, n).len() ==> exists|k: int|
                0 <= k < rt.commands.len() && !rt.commands[k].hidden && #[trigger] root_entries(
                    rt,
                    n,
                )[m] == cmd_entry(rt.commands[k]),
    decreases n,
{
    if n > 0 {
        lemma_root_entries_visible(rt, n - 1);
        assert forall|m: int|
            0 <= m < root_entries(rt, n).len() implies exists|k: int|
            0 <= k < rt.commands.len() && !rt.commands[k].hidden && #[trigger] root_entries(rt, n)[m]
                == cmd_entry(rt.commands[k]) by {
            let e = root_entries(rt, n)[m];
            if !rt.commands[n - 1].hidden && m == root_entries(rt, n - 1).len() {
                assert(0 <= n - 1 < rt.commands.len() && !rt.commands[n - 1].hidden && e
                    == cmd_entry(rt.commands[n - 1]));
            } else {
                assert(e == root_entries(rt, n - 1)[m]);
            }
        }
    }
}

/// Hidden commands never appear in the first token's `NoMatches` listing:
/// every line is the name of a visible command.
pub proof fn lemma_root_options_listing_visible(rt: TreeModel)
    ensures
        forall|m: int|
            0 <= m < root_options_listing(rt).len() ==> exists|k: int|
                0 <= k < rt.commands.len() && !rt.commands[k].hidden
                    && #[trigger] root_options_listing(rt)[m] == rt.commands[k].name,
{
    let n = rt.commands.len() as int;
    let fe = root_entries(rt, n);
    lemma_root_entries_visible(rt, n);
    lemma_sort_entries_elems(fe);
    assert forall|m: int|
        0 <= m < root_options_listing(rt).len() implies exists|k: int|
        0 <= k < rt.commands.len() && !rt.commands[k].hidden && #[trigger] root_options_listing(
            rt,
        )[m] == rt.commands[k].name by {
        let e = sort_entries(fe)[m];
        assert(root_options_listing(rt)[m] == e.symbol);
        let x = choose|x: int| 0 <= x < fe.len() && fe[x] == e;
        let k = choose|k: int|
            0 <= k < rt.commands.len() && !rt.commands[k].hidden && fe[x] == cmd_entry(
                rt.commands[k],
            );
        assert(0 <= k < rt.commands.len() && !rt.commands[k].hidden && root_options_listing(rt)[m]
            == rt.commands[k].name);
    }
}

/// Hidden commands never appear in the first token's `AmbiguousMatch`
/// listing: every line is the name of a visible tied command.
pub proof fn lemma_root_tied_listing_visible(rt: TreeModel, t: Seq<char>)
    ensures
        forall|m: int|
            0 <= m < root_tied_listing(rt, t).len() ==> exists|k: int|
                crate::parser::matcher::root_top_candidate(rt, t, k) && !rt.commands[k].hidden
                    && #[trigger] root_tied_listing(rt, t)[m] == rt.commands[k].name,
{
    let n = rt.commands.len() as int;
    lemma_root_tied_upto_visible(rt, t, n);
    assert forall|m: int|
        0 <= m < root_tied_listing(rt, t).len() implies exists|k: int|
        crate::parser::matcher::root_top_candidate(rt, t, k) && !rt.commands[k].hidden
            && #[trigger] root_tied_listing(rt, t)[m] == rt.commands[k].name by {
        assert(root_tied_listing(rt, t)[m] == crate::parser::matcher::root_tied_upto(rt, t, n)[m]);
        let k = choose|k: int|
            crate::parser::matcher::root_top_candidate(rt, t, k) && !rt.commands[k].hidden
                && crate::parser::matcher::root_tied_upto(rt, t, n)[m] == rt.commands[k].name;
        assert(crate::parser::matcher::root_top_candidate(rt, t, k) && !rt.commands[k].hidden
            && root_tied_listing(rt, t)[m] == rt.commands[k].name);
    }
}

/// Every line of the first token's tied listing among the first `n`
/// commands comes from a visible top candidate.
proof fn lemma_root_tied_upto_visible(rt: TreeModel, t: Seq<char>, n: int)
    ensures
        forall|m: int|
            0 <= m < crate::parser::matcher::root_tied_upto(rt, t, n).len() ==> exists|k: int|
                crate::parser::matcher::root_top_candidate(rt, t, k) && !rt.commands[k].hidden
                    && #[trigger] crate::parser::matcher::root_tied_upto(rt, t, n)[m]
                    == rt.commands[k].name,
    decreases n,
{
    if n > 0 {
        lemma_root_tied_upto_visible(rt, t, n - 1);
        assert forall|m: int|
            0 <= m < crate::parser::matcher::root_tied_upto(rt, t, n).len() implies exists|k: int|
            crate::parser::matcher::root_top_candidate(rt, t, k) && !rt.commands[k].hidden
                && #[trigger] crate::parser::matcher::root_tied_upto(rt, t, n)[m]
                == rt.commands[k].name by {
            let e = crate::parser::matcher::root_tied_upto(rt, t, n)[m];
            if crate::parser::matcher::root_top_candidate(rt, t, n - 1) && !rt.commands[n
                - 1].hidden && m == crate::parser::matcher::root_tied_upto(rt, t, n - 1).len() {
                assert(crate::parser::matcher::root_top_candidate(rt, t, n - 1) && !rt.commands[n
                    - 1].hidden && e == rt.commands[n - 1].name);
            } else {
                assert(e == crate::parser::matcher::root_tied_upto(rt, t, n - 1)[m]);
            }
        }
    }
}

} // verus!
