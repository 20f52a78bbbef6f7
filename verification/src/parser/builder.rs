//! # Node Builder
//!
//! A fluent description layer for a command grammar.  A [`CommandTree`]
//! collects [`Command`] descriptions, each of which collects [`Parameter`]
//! descriptions; [`CommandTree::finalize`] freezes the whole description
//! into an immutable [`RootNode`] tree for the matcher.
//!
//! Each configuration method states exactly which field of the description
//! it sets, and `finalize` states exactly which tree it produces, including
//! the defaulting of priorities per parameter kind.

use vstd::prelude::*;
use crate::parser::nodes::CmdModel;
use crate::parser::nodes::CommandNode;
use crate::parser::nodes::ParamModel;
use crate::parser::nodes::ParameterNode;
use crate::parser::nodes::RootNode;
use crate::parser::nodes::TreeModel;
use crate::parser::nodes::PRIORITY_DEFAULT;
use crate::parser::nodes::PRIORITY_PARAMETER;

pub use crate::parser::nodes::ParameterKind;

verus! {

/// Mathematical model of a parameter description.
pub struct ParamDesc {
    pub hidden: bool,
    pub priority: Option<int>,
    pub name: Seq<char>,
    pub repeatable: bool,
    pub aliases: Seq<Seq<char>>,
    pub help_text: Option<Seq<char>>,
    pub required: bool,
    pub kind: ParameterKind,
}

/// Mathematical model of a command description.
pub struct CommandDesc {
    pub hidden: bool,
    pub priority: int,
    pub name: Seq<char>,
    pub help_text: Option<Seq<char>>,
    pub parameters: Seq<ParamDesc>,
    pub wrapped_root: Option<Seq<char>>,
}

/// The parameter node a description freezes into: the priority defaults to
/// `PRIORITY_DEFAULT` for flags and to `PRIORITY_PARAMETER` for named and
/// simple parameters when no override was given.
pub open spec fn frozen_param(p: ParamDesc) -> ParamModel {
    ParamModel {
        name: p.name,
        aliases: p.aliases,
        help_text: p.help_text,
        hidden: p.hidden,
        priority: match p.priority {
            Option::Some(x) => x,
            Option::None => if p.kind == ParameterKind::Flag {
                PRIORITY_DEFAULT as int
            } else {
                PRIORITY_PARAMETER as int
            },
        },
        repeatable: p.repeatable,
        required: p.required,
        kind: p.kind,
    }
}

/// The command node a description freezes into.
pub open spec fn frozen_command(c: CommandDesc) -> CmdModel {
    CmdModel {
        name: c.name,
        help_text: c.help_text,
        hidden: c.hidden,
        priority: c.priority,
        params: c.parameters.map_values(|p: ParamDesc| frozen_param(p)),
        wraps: c.wrapped_root,
    }
}

/// The tree a sequence of command descriptions freezes into.
pub open spec fn frozen_tree(cs: Seq<CommandDesc>) -> TreeModel {
    TreeModel { commands: cs.map_values(|c: CommandDesc| frozen_command(c)) }
}

/// Description of a parameter to be added to a `Command`.
pub struct Parameter {
    hidden: bool,
    priority: Option<i32>,
    name: String,
    repeatable: bool,
    aliases: Vec<String>,
    help_text: Option<String>,
    required: bool,
    parameter_kind: ParameterKind,
}

impl View for Parameter {
    type V = ParamDesc;

    closed spec fn view(&self) -> ParamDesc {
        ParamDesc {
            hidden: self.hidden,
            priority: match self.priority {
                Option::Some(x) => Option::Some(x as int),
                Option::None => Option::None,
            },
            name: self.name@,
            repeatable: self.repeatable,
            aliases: self.aliases.deep_view(),
            help_text: self.help_text.deep_view(),
            required: self.required,
            kind: self.parameter_kind,
        }
    }
}

impl DeepView for Parameter {
    type V = ParamDesc;

    open spec fn deep_view(&self) -> ParamDesc {
        self.view()
    }
}

impl Parameter {
    /// Construct a default (blank) parameter with the given `name`: visible,
    /// optional, not repeatable, of `Simple` kind, with no aliases, no help
    /// text and no priority override.
    pub fn new(name: &str) -> (r: Self)
        ensures
            r@ == (ParamDesc {
                hidden: false,
                priority: Option::None,
                name: name@,
                repeatable: false,
                aliases: Seq::<Seq<char>>::empty(),
                help_text: Option::None,
                required: false,
                kind: ParameterKind::Simple,
            }),
    {
        let r = Parameter {
            hidden: false,
            priority: None,
            name: name.to_owned(),
            repeatable: false,
            aliases: Vec::new(),
            help_text: None,
            required: false,
            parameter_kind: ParameterKind::Simple,
        };
        proof {
            assert(r@.aliases =~= Seq::<Seq<char>>::empty());
        }
        r
    }

    /// Mark the parameter as hidden.  Hidden parameters will match within
    /// the parser, but are not listed during completion.
    pub fn hidden(self, hidden: bool) -> (r: Self)
        ensures
            r@ == (ParamDesc { hidden, ..self@ }),
    {
        Parameter { hidden, ..self }
    }

    /// Give the parameter a priority, used when sorting out conflicts
    /// during matching and completion.
    ///
    /// The priority of a `Parameter` defaults to `PRIORITY_PARAMETER`
    /// except for when the kind is `ParameterKind::Flag`, in which case
    /// the default is `PRIORITY_DEFAULT`.
    pub fn priority(self, priority: i32) -> (r: Self)
        ensures
            r@ == (ParamDesc { priority: Option::Some(priority as int), ..self@ }),
    {
        Parameter { priority: Some(priority), ..self }
    }

    /// Establish whether or not this parameter is repeatable.  Repeated
    /// parameters produce a vector of values and can be given multiple
    /// times within a single command invocation.
    pub fn repeatable(self, repeatable: bool) -> (r: Self)
        ensures
            r@ == (ParamDesc { repeatable, ..self@ }),
    {
        Parameter { repeatable, ..self }
    }

    /// Add an alias that this parameter can use.
    pub fn alias(self, alias: &str) -> (r: Self)
        ensures
            r@ == (ParamDesc { aliases: self@.aliases.push(alias@), ..self@ }),
    {
        let mut aliases = self.aliases;
        aliases.push(alias.to_owned());
        let r = Parameter { aliases, ..self };
        proof {
            assert(r@.aliases =~= self@.aliases.push(alias@));
        }
        r
    }

    /// Supply the help text for the parameter.
    pub fn help(self, help_text: &str) -> (r: Self)
        ensures
            r@ == (ParamDesc { help_text: Option::Some(help_text@), ..self@ }),
    {
        Parameter { help_text: Some(help_text.to_owned()), ..self }
    }

    /// Establish whether or not this parameter is required.
    pub fn required(self, required: bool) -> (r: Self)
        ensures
            r@ == (ParamDesc { required, ..self@ }),
    {
        Parameter { required, ..self }
    }

    /// Set which type of parameter node is supposed to be created to
    /// represent this parameter.
    pub fn kind(self, kind: ParameterKind) -> (r: Self)
        ensures
            r@ == (ParamDesc { kind, ..self@ }),
    {
        Parameter { parameter_kind: kind, ..self }
    }

    /// Return the finished `Parameter`, terminating the series of
    /// construction methods used to initialize and configure it.
    pub fn finalize(self) -> (r: Self)
        ensures
            r@ == self@,
    {
        self
    }
}

/// Description of a command to be added to the `CommandTree`.
pub struct Command {
    hidden: bool,
    priority: i32,
    name: String,
    help_text: Option<String>,
    parameters: Vec<Parameter>,
    wrapped_root: Option<String>,
}

impl View for Command {
    type V = CommandDesc;

    closed spec fn view(&self) -> CommandDesc {
        CommandDesc {
            hidden: self.hidden,
            priority: self.priority as int,
            name: self.name@,
            help_text: self.help_text.deep_view(),
            parameters: self.parameters.deep_view(),
            wrapped_root: self.wrapped_root.deep_view(),
        }
    }
}

impl DeepView for Command {
    type V = CommandDesc;

    open spec fn deep_view(&self) -> CommandDesc {
        self.view()
    }
}

impl Command {
    /// Construct a default (blank) command with the given `name`: visible,
    /// of default priority, with no help text, no parameters and no
    /// wrapped command.
    pub fn new(name: &str) -> (r: Self)
        ensures
            r@ == (CommandDesc {
                hidden: false,
                priority: PRIORITY_DEFAULT as int,
                name: name@,
                help_text: Option::None,
                parameters: Seq::<ParamDesc>::empty(),
                wrapped_root: Option::None,
            }),
    {
        let r = Command {
            hidden: false,
            priority: PRIORITY_DEFAULT,
            name: name.to_owned(),
            help_text: None,
            parameters: Vec::new(),
            wrapped_root: None,
        };
        proof {
            assert(r@.parameters =~= Seq::<ParamDesc>::empty());
        }
        r
    }

    /// Mark the command as hidden.  Hidden commands will match within the
    /// parser, but are not listed during completion.
    pub fn hidden(self, hidden: bool) -> (r: Self)
        ensures
            r@ == (CommandDesc { hidden, ..self@ }),
    {
        Command { hidden, ..self }
    }

    /// Give the command a priority, used when sorting out conflicts during
    /// matching and completion.
    pub fn priority(self, priority: i32) -> (r: Self)
        ensures
            r@ == (CommandDesc { priority: priority as int, ..self@ }),
    {
        Command { priority, ..self }
    }

    /// Supply help text for the command.
    pub fn help(self, help_text: &str) -> (r: Self)
        ensures
            r@ == (CommandDesc { help_text: Option::Some(help_text@), ..self@ }),
    {
        Command { help_text: Some(help_text.to_owned()), ..self }
    }

    /// Add a `Parameter` to the command.
    pub fn parameter(self, parameter: Parameter) -> (r: Self)
        ensures
            r@ == (CommandDesc { parameters: self@.parameters.push(parameter@), ..self@ }),
    {
        let ghost p = parameter@;
        let mut parameters = self.parameters;
        parameters.push(parameter);
        let r = Command { parameters, ..self };
        proof {
            assert(r@.parameters =~= self@.parameters.push(p));
        }
        r
    }

    /// Turn this command into a wrapper.  The `wrapped_root` is the path to
    /// the command whose handler this command redirects execution to.
    pub fn wraps(self, wrapped_root: String) -> (r: Self)
        ensures
            r@ == (CommandDesc { wrapped_root: Option::Some(wrapped_root@), ..self@ }),
    {
        Command { wrapped_root: Some(wrapped_root), ..self }
    }

    /// Return the finished `Command`, terminating the series of
    /// construction methods used to initialize and configure it.
    pub fn finalize(self) -> (r: Self)
        ensures
            r@ == self@,
    {
        self
    }
}

/// Store a command tree while populating it.  This is used to construct a
/// `RootNode` to be used with the matcher.
pub struct CommandTree {
    commands: Vec<Command>,
}

impl View for CommandTree {
    type V = Seq<CommandDesc>;

    closed spec fn view(&self) -> Seq<CommandDesc> {
        self.commands.deep_view()
    }
}

impl CommandTree {
    /// Create a new, empty `CommandTree`.
    pub fn new() -> (r: Self)
        ensures
            r@ == Seq::<CommandDesc>::empty(),
    {
        let r = CommandTree { commands: Vec::new() };
        proof {
            assert(r@ =~= Seq::<CommandDesc>::empty());
        }
        r
    }

    /// Add a `Command` to the `CommandTree`.
    pub fn command(&mut self, command: Command)
        ensures
            final(self)@ == old(self)@.push(command@),
    {
        let ghost c = command@;
        self.commands.push(command);
        proof {
            assert(self@ =~= old(self)@.push(c));
        }
    }

    /// Freeze the collected descriptions and produce the `RootNode` of the
    /// grammar tree, defaulting each parameter's priority by its kind.
    pub fn finalize(&self) -> (r: RootNode)
        ensures
            r@ == frozen_tree(self@),
    {
        let mut successors: Vec<CommandNode> = Vec::new();
        let n = self.commands.len();
        for i in 0..n
            invariant
                n == self.commands.len(),
                successors@.len() == i,
                forall|j: int|
                    0 <= j < i ==> #[trigger] successors@[j]@ == frozen_command(
                        self.commands@[j]@,
                    ),
        {
            let node = self.build_command(&self.commands[i]);
            proof {
                assert(self.commands@[i as int]@ == self@[i as int]);
            }
            successors.push(node);
        }
        let r = RootNode { commands: successors };
        proof {
            assert(r@.commands =~= frozen_tree(self@).commands);
        }
        r
    }

    fn build_command(&self, command: &Command) -> (r: CommandNode)
        ensures
            r@ == frozen_command(command@),
    {
        let mut parameters: Vec<ParameterNode> = Vec::new();
        let n = command.parameters.len();
        for i in 0..n
            invariant
                n == command.parameters.len(),
                parameters@.len() == i,
                forall|j: int|
                    0 <= j < i ==> #[trigger] parameters@[j]@ == frozen_param(
                        command.parameters@[j]@,
                    ),
        {
            let parameter = &command.parameters[i];
            match parameter.parameter_kind {
                ParameterKind::Flag => {
                    self.build_flag_parameter(parameter, &mut parameters);
                },
                ParameterKind::Named => {
                    self.build_named_parameter(parameter, &mut parameters);
                },
                ParameterKind::Simple => {
                    self.build_simple_parameter(parameter, &mut parameters);
                },
            }
        }
        let r = CommandNode {
            name: clone_string(&command.name),
            help_text: clone_opt_string(&command.help_text),
            hidden: command.hidden,
            priority: command.priority,
            parameters,
            wrapped_root: clone_opt_string(&command.wrapped_root),
        };
        proof {
            assert(r@.params =~= frozen_command(command@).params);
        }
        r
    }

    fn build_flag_parameter(&self, parameter: &Parameter, parameters: &mut Vec<ParameterNode>)
        requires
            parameter@.kind == ParameterKind::Flag,
        ensures
            final(parameters)@.len() == old(parameters)@.len() + 1,
            final(parameters)@.last()@ == frozen_param(parameter@),
            forall|j: int|
                0 <= j < old(parameters)@.len() ==> final(parameters)@[j] == old(parameters)@[j],
    {
        let priority = match parameter.priority {
            Some(x) => x,
            None => PRIORITY_DEFAULT,
        };
        let p = ParameterNode {
            name: clone_string(&parameter.name),
            aliases: clone_strings(&parameter.aliases),
            help_text: clone_opt_string(&parameter.help_text),
            hidden: parameter.hidden,
            priority,
            repeatable: parameter.repeatable,
            required: parameter.required,
            kind: ParameterKind::Flag,
        };
        parameters.push(p);
    }

    fn build_named_parameter(&self, parameter: &Parameter, parameters: &mut Vec<ParameterNode>)
        requires
            parameter@.kind == ParameterKind::Named,
        ensures
            final(parameters)@.len() == old(parameters)@.len() + 1,
            final(parameters)@.last()@ == frozen_param(parameter@),
            forall|j: int|
                0 <= j < old(parameters)@.len() ==> final(parameters)@[j] == old(parameters)@[j],
    {
        let priority = match parameter.priority {
            Some(x) => x,
            None => PRIORITY_PARAMETER,
        };
        let p = ParameterNode {
            name: clone_string(&parameter.name),
            aliases: clone_strings(&parameter.aliases),
            help_text: clone_opt_string(&parameter.help_text),
            hidden: parameter.hidden,
            priority,
            repeatable: parameter.repeatable,
            required: parameter.required,
            kind: ParameterKind::Named,
        };
        parameters.push(p);
    }

    fn build_simple_parameter(&self, parameter: &Parameter, parameters: &mut Vec<ParameterNode>)
        requires
            parameter@.kind == ParameterKind::Simple,
        ensures
            final(parameters)@.len() == old(parameters)@.len() + 1,
            final(parameters)@.last()@ == frozen_param(parameter@),
            forall|j: int|
                0 <= j < old(parameters)@.len() ==> final(parameters)@[j] == old(parameters)@[j],
    {
        let priority = match parameter.priority {
            Some(x) => x,
            None => PRIORITY_PARAMETER,
        };
        let p = ParameterNode {
            name: clone_string(&parameter.name),
            aliases: clone_strings(&parameter.aliases),
            help_text: clone_opt_string(&parameter.help_text),
            hidden: parameter.hidden,
            priority,
            repeatable: parameter.repeatable,
            required: parameter.required,
            kind: ParameterKind::Simple,
        };
        parameters.push(p);
    }
}

/// Copy a string, keeping its characters.
fn clone_string(s: &String) -> (r: String)
    ensures
        r@ == s@,
{
    s.clone()
}

/// Copy an optional string, keeping its characters.
fn clone_opt_string(s: &Option<String>) -> (r: Option<String>)
    ensures
        r.deep_view() == s.deep_view(),
{
    match s {
        Some(x) => Some(x.clone()),
        None => None,
    }
}

/// Copy a vector of strings, keeping each one's characters.
fn clone_strings(v: &Vec<String>) -> (r: Vec<String>)
    ensures
        r.deep_view() == v.deep_view(),
{
    let mut r: Vec<String> = Vec::new();
    let n = v.len();
    for i in 0..n
        invariant
            n == v.len(),
            r@.len() == i,
            forall|j: int| 0 <= j < i ==> #[trigger] r@[j]@ == v@[j]@,
    {
        let x = v[i].clone();
        r.push(x);
    }
    proof {
        assert(r.deep_view() =~= v.deep_view());
    }
    r
}

} // verus!
