use commands::parser::builder::{Command, CommandTree, Parameter, ParameterKind};
use commands::parser::nodes::{PRIORITY_DEFAULT, PRIORITY_PARAMETER};

#[test]
fn command_defaults() {
    let mut tree = CommandTree::new();
    tree.command(Command::new("again").finalize());
    let root = tree.finalize();
    assert_eq!(root.commands.len(), 1);
    let c = &root.commands[0];
    assert_eq!(c.name, "again");
    assert_eq!(c.hidden, false);
    assert_eq!(c.priority, PRIORITY_DEFAULT);
    assert!(c.help_text.is_none());
    assert!(c.wrapped_root.is_none());
    assert_eq!(c.parameters.len(), 0);
}

#[test]
fn parameter_defaults_and_kinds() {
    let mut tree = CommandTree::new();
    tree.command(
        Command::new("show")
            .hidden(false)
            .parameter(
                Parameter::new("test")
                    .required(false)
                    .help("This is just a test parameter.")
                    .finalize(),
            )
            .parameter(
                Parameter::new("--flag")
                    .kind(ParameterKind::Flag)
                    .finalize(),
            )
            .parameter(
                Parameter::new("--level")
                    .kind(ParameterKind::Named)
                    .alias("-l")
                    .required(true)
                    .finalize(),
            )
            .finalize(),
    );
    let root = tree.finalize();
    let c = &root.commands[0];
    assert_eq!(c.parameters.len(), 3);

    let simple = &c.parameters[0];
    assert_eq!(simple.name, "test");
    assert_eq!(simple.kind, ParameterKind::Simple);
    assert_eq!(simple.priority, PRIORITY_PARAMETER);
    assert_eq!(simple.required, false);
    assert_eq!(simple.repeatable, false);
    assert_eq!(simple.hidden, false);
    assert_eq!(simple.help_text.as_deref(), Some("This is just a test parameter."));
    assert!(simple.aliases.is_empty());

    let flag = &c.parameters[1];
    assert_eq!(flag.kind, ParameterKind::Flag);
    assert_eq!(flag.priority, PRIORITY_DEFAULT);

    let named = &c.parameters[2];
    assert_eq!(named.kind, ParameterKind::Named);
    assert_eq!(named.priority, PRIORITY_PARAMETER);
    assert_eq!(named.required, true);
    assert_eq!(named.aliases, vec!["-l".to_string()]);
}

#[test]
fn priority_override_and_flags() {
    let mut tree = CommandTree::new();
    tree.command(
        Command::new("top")
            .priority(7)
            .hidden(true)
            .help("a command")
            .parameter(
                Parameter::new("many")
                    .priority(3)
                    .repeatable(true)
                    .hidden(true)
                    .finalize(),
            )
            .finalize(),
    );
    let root = tree.finalize();
    let c = &root.commands[0];
    assert_eq!(c.priority, 7);
    assert_eq!(c.hidden, true);
    assert_eq!(c.help_text.as_deref(), Some("a command"));
    let p = &c.parameters[0];
    assert_eq!(p.priority, 3);
    assert_eq!(p.repeatable, true);
    assert_eq!(p.hidden, true);
}

#[test]
fn wrapper_records_path() {
    let mut tree = CommandTree::new();
    tree.command(Command::new("list").finalize());
    tree.command(Command::new("ls").wraps("list".to_string()).finalize());
    let root = tree.finalize();
    assert!(root.commands[0].wrapped_root.is_none());
    assert_eq!(root.commands[1].wrapped_root.as_deref(), Some("list"));
}

#[test]
fn display_symbols() {
    let mut tree = CommandTree::new();
    tree.command(
        Command::new("show")
            .parameter(Parameter::new("target").finalize())
            .parameter(Parameter::new("--verbose").kind(ParameterKind::Flag).finalize())
            .finalize(),
    );
    let root = tree.finalize();
    let c = &root.commands[0];
    assert_eq!(c.display_symbol(), "show");
    assert_eq!(c.parameters[0].display_symbol(), "<target>");
    assert_eq!(c.parameters[1].display_symbol(), "--verbose");
}
