//! The frozen grammar tree: immutable nodes produced by the builder and
//! consumed by the matcher, together with their mathematical models.

use vstd::prelude::*;
use vstd::string::StringExecFns;

verus! {

/// Priority given to commands and flag parameters unless overridden.
pub const PRIORITY_DEFAULT: i32 = 0;

/// Priority given to named and simple (positional) parameters unless
/// overridden.  It lies below `PRIORITY_DEFAULT` so that a literal command
/// or flag beats a value-accepting parameter of default priority.
pub const PRIORITY_PARAMETER: i32 = -1;

/// Indicate the type of parameter, so that the correct node structure is
/// created.
#[derive(Clone, Copy, PartialEq, Eq, Structural, Debug)]
pub enum ParameterKind {
    /// Presence-only: matching consumes one token equal to the name or an
    /// alias and records a boolean-true marker.
    Flag,
    /// Key/value: matching consumes one token equal to the name or an alias,
    /// then the following token as the bound value.
    Named,
    /// Positional: matching consumes the current token directly as the bound
    /// value, without requiring a literal key.
    Simple,
}

/// Mathematical model of a parameter node.
pub struct ParamModel {
    pub name: Seq<char>,
    pub aliases: Seq<Seq<char>>,
    pub help_text: Option<Seq<char>>,
    pub hidden: bool,
    pub priority: int,
    pub repeatable: bool,
    pub required: bool,
    pub kind: ParameterKind,
}

/// Mathematical model of a command node.
pub struct CmdModel {
    pub name: Seq<char>,
    pub help_text: Option<Seq<char>>,
    pub hidden: bool,
    pub priority: int,
    pub params: Seq<ParamModel>,
    pub wraps: Option<Seq<char>>,
}

/// Mathematical model of the whole grammar tree.
pub struct TreeModel {
    pub commands: Seq<CmdModel>,
}

/// A frozen parameter node.  A command's declared parameter list doubles as
/// its successor list, so the position of a node in that list is its
/// identity for both matching and verification.
pub struct ParameterNode {
    pub name: String,
    pub aliases: Vec<String>,
    pub help_text: Option<String>,
    pub hidden: bool,
    pub priority: i32,
    pub repeatable: bool,
    pub required: bool,
    pub kind: ParameterKind,
}

impl View for ParameterNode {
    type V = ParamModel;

    open spec fn view(&self) -> ParamModel {
        ParamModel {
            name: self.name@,
            aliases: self.aliases.deep_view(),
            help_text: self.help_text.deep_view(),
            hidden: self.hidden,
            priority: self.priority as int,
            repeatable: self.repeatable,
            required: self.required,
            kind: self.kind,
        }
    }
}

impl DeepView for ParameterNode {
    type V = ParamModel;

    open spec fn deep_view(&self) -> ParamModel {
        self.view()
    }
}

/// A frozen command node.  A command whose `wrapped_root` is set stands for
/// a wrapper: it matches under its own name and parameters, but dispatch is
/// redirected to the command the path names.
pub struct CommandNode {
    pub name: String,
    pub help_text: Option<String>,
    pub hidden: bool,
    pub priority: i32,
    pub parameters: Vec<ParameterNode>,
    pub wrapped_root: Option<String>,
}

impl View for CommandNode {
    type V = CmdModel;

    open spec fn view(&self) -> CmdModel {
        CmdModel {
            name: self.name@,
            help_text: self.help_text.deep_view(),
            hidden: self.hidden,
            priority: self.priority as int,
            params: self.parameters.deep_view(),
            wraps: self.wrapped_root.deep_view(),
        }
    }
}

impl DeepView for CommandNode {
    type V = CmdModel;

    open spec fn deep_view(&self) -> CmdModel {
        self.view()
    }
}

/// The root of a frozen grammar tree.  Its children are the top-level
/// commands; it has no name, help text or priority of its own.
pub struct RootNode {
    pub commands: Vec<CommandNode>,
}

impl View for RootNode {
    type V = TreeModel;

    open spec fn view(&self) -> TreeModel {
        TreeModel { commands: self.commands.deep_view() }
    }
}

/// The canonical printed form of a parameter: its name, or the name in
/// angle brackets for a positional parameter that has no fixed literal.
pub open spec fn symbol_of(p: ParamModel) -> Seq<char> {
    if p.kind == ParameterKind::Simple {
        "<"@ + p.name + ">"@
    } else {
        p.name
    }
}

impl ParameterNode {
    /// The node's display symbol, used when rendering suggestion and
    /// ambiguity listings.
    pub fn display_symbol(&self) -> (r: String)
        ensures
            r@ == symbol_of(self@),
    {
        if self.kind == ParameterKind::Simple {
            let r = String::from_str("<").concat(self.name.as_str()).concat(">");
            proof {
                assert(r@ =~= symbol_of(self@));
            }
            r
        } else {
            self.name.clone()
        }
    }
}

impl CommandNode {
    /// The node's display symbol: a command is always printed as its name.
    pub fn display_symbol(&self) -> (r: String)
        ensures
            r@ == self@.name,
    {
        self.name.clone()
    }
}

} // verus!
