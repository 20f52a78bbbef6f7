//! The verifier: after a successful parse, checks that every required
//! parameter of the matched command received at least one binding.

use vstd::prelude::*;
use crate::parser::matcher::BoundModel;
use crate::parser::matcher::ParseState;
use crate::parser::matcher::StateModel;
use crate::parser::matcher::state_wf;
use crate::parser::nodes::CmdModel;
use crate::parser::nodes::RootNode;
use crate::parser::nodes::TreeModel;

verus! {

/// The names of the required parameters among the first `n` that received
/// no binding, in declaration order.
pub open spec fn missing_upto(cmd: CmdModel, b: BoundModel, n: int) -> Seq<Seq<char>>
    decreases n,
{
    if n <= 0 {
        Seq::<Seq<char>>::empty()
    } else {
        let pre = missing_upto(cmd, b, n - 1);
        if cmd.params[n - 1].required && b[n - 1].len() == 0 {
            pre.push(cmd.params[n - 1].name)
        } else {
            pre
        }
    }
}

/// Every required parameter of the matched command with zero bound
/// occurrences, in declaration order.  A parse that matched no command has
/// nothing required of it.
pub open spec fn missing_required(rt: TreeModel, sv: StateModel) -> Seq<Seq<char>> {
    match sv.matched {
        Option::None => Seq::<Seq<char>>::empty(),
        Option::Some(c) => missing_upto(
            rt.commands[c],
            sv.bound,
            rt.commands[c].params.len() as int,
        ),
    }
}

/// The verification failure: the ordered names of the required parameters
/// that were never bound.
#[derive(Debug, PartialEq, Eq)]
pub struct MissingRequired {
    /// The missing parameters' names, in declaration order.
    pub missing: Vec<String>,
}

/// Check the matched command's full declared parameter list — not just the
/// matched successors — and collect every required parameter with zero
/// bound occurrences.  Returns `Ok` exactly when nothing is missing; the
/// error carries the ordered names of all missing parameters.
pub fn verify(root: &RootNode, state: &ParseState) -> (r: Result<(), MissingRequired>)
    requires
        state_wf(root@, state@),
    ensures
        r is Ok <==> missing_required(root@, state@).len() == 0,
        r matches Result::Err(e) ==> e.missing.deep_view() == missing_required(root@, state@),
{
    let ghost rm = root@;
    let c = match state.matched {
        None => {
            return Ok(());
        },
        Some(c) => c,
    };
    let cmd = &root.commands[c];
    let ghost cm = cmd@;
    let ghost bm = state.bound.deep_view();
    proof {
        assert(cm == rm.commands[c as int]);
    }
    let mut missing: Vec<String> = Vec::new();
    let n = cmd.parameters.len();
    for j in 0..n
        invariant
            n == cmd.parameters@.len(),
            state.bound@.len() == n,
            cm == cmd@,
            bm == state.bound.deep_view(),
            missing.deep_view() =~= missing_upto(cm, bm, j as int),
    {
        if cmd.parameters[j].required && state.bound[j].len() == 0 {
            missing.push(cmd.parameters[j].name.clone());
        }
        proof {
            assert(missing.deep_view() =~= missing_upto(cm, bm, j + 1));
        }
    }
    if missing.len() == 0 {
        Ok(())
    } else {
        Err(MissingRequired { missing })
    }
}

} // verus!
