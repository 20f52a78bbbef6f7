//! The dispatcher: given a verified parse state, resolves which command's
//! handler is to be invoked, following a wrapper to its target.
//!
//! Handlers themselves live outside the engine: the caller keeps whatever
//! table maps a command to its side effect, and `execute` hands back the
//! index of the command whose handler runs with this parse's bound values.
//! `None` is a no-op: nothing was matched, the matched command has no
//! handler path of its own to follow, or a wrapper's path names no command.

use vstd::prelude::*;
use crate::parser::matcher::ParseState;
use crate::parser::matcher::str_eq;
use crate::parser::matcher::StateModel;
use crate::parser::matcher::state_wf;
use crate::parser::nodes::RootNode;
use crate::parser::nodes::TreeModel;

verus! {

/// The first command whose name is `name`, searching from index `k` on.
pub open spec fn find_command_from(rt: TreeModel, name: Seq<char>, k: int) -> Option<int>
    decreases rt.commands.len() - k,
{
    if k < 0 || k >= rt.commands.len() {
        Option::None
    } else if rt.commands[k].name == name {
        Option::Some(k)
    } else {
        find_command_from(rt, name, k + 1)
    }
}

/// The command whose handler a verified parse dispatches to: the matched
/// command itself, or — when it is a wrapper — the first command its path
/// names.  `None` when nothing was matched or the path names no command.
pub open spec fn dispatch_target(rt: TreeModel, sv: StateModel) -> Option<int> {
    match sv.matched {
        Option::None => Option::None,
        Option::Some(c) => match rt.commands[c].wraps {
            Option::None => Option::Some(c),
            Option::Some(path) => find_command_from(rt, path, 0),
        },
    }
}

/// The model of an optional command index.
pub open spec fn target_model(r: Option<usize>) -> Option<int> {
    match r {
        Option::Some(c) => Option::Some(c as int),
        Option::None => Option::None,
    }
}

/// Resolve the command whose handler runs for this parse, passing this
/// parse's bound values: the matched command, or the target of the matched
/// wrapper.  Dispatch itself reports no error: an unmatched state, or a
/// wrapper whose path names no command, is a no-op (`None`).
pub fn execute(root: &RootNode, state: &ParseState) -> (r: Option<usize>)
    requires
        state_wf(root@, state@),
    ensures
        target_model(r) == dispatch_target(root@, state@),
{
    let ghost rm = root@;
    let c = match state.matched {
        None => {
            return None;
        },
        Some(c) => c,
    };
    let cmd = &root.commands[c];
    proof {
        assert(cmd@ == rm.commands[c as int]);
    }
    let path = match &cmd.wrapped_root {
        None => {
            return Some(c);
        },
        Some(path) => path,
    };
    let n = root.commands.len();
    for k in 0..n
        invariant
            n == root.commands@.len(),
            rm == root@,
            c < n,
            state@.matched == Option::Some(c as int),
            rm.commands[c as int].wraps == Option::Some(path@),
            find_command_from(rm, path@, 0) == find_command_from(rm, path@, k as int),
    {
        if str_eq(&root.commands[k].name, path) {
            proof {
                assert(rm.commands[k as int].name == path@);
                assert(find_command_from(rm, path@, k as int) == Option::Some(k as int));
            }
            return Some(k);
        }
        proof {
            assert(rm.commands[k as int].name != path@);
            assert(find_command_from(rm, path@, k as int) == find_command_from(
                rm,
                path@,
                k + 1,
            ));
        }
    }
    proof {
        assert(find_command_from(rm, path@, n as int) == Option::<int>::None);
    }
    None
}

} // verus!
