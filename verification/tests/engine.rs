use commands::parser::builder::{Command, CommandTree, Parameter, ParameterKind};
use commands::parser::dispatcher::execute;
use commands::parser::matcher::{parse, ParseError};
use commands::parser::nodes::RootNode;
use commands::parser::verify::verify;

fn tokens(words: &[&str]) -> Vec<String> {
    let mut v: Vec<String> = Vec::new();
    for w in words {
        v.push(w.to_string());
    }
    v
}

fn show_tree() -> RootNode {
    let mut tree = CommandTree::new();
    tree.command(
        Command::new("show")
            .parameter(Parameter::new("target").required(false).finalize())
            .finalize(),
    );
    tree.finalize()
}

#[test]
fn show_exact_match_runs() {
    let root = show_tree();
    let st = parse(&root, &tokens(&["show"])).unwrap();
    assert_eq!(st.matched, Some(0));
    assert_eq!(st.bound, vec![Vec::<String>::new()]);
    assert!(verify(&root, &st).is_ok());
    assert_eq!(execute(&root, &st), Some(0));
}

#[test]
fn show_prefix_match_runs() {
    let root = show_tree();
    let st = parse(&root, &tokens(&["sh"])).unwrap();
    assert_eq!(st.matched, Some(0));
    assert_eq!(st.bound, vec![Vec::<String>::new()]);
    assert!(verify(&root, &st).is_ok());
    assert_eq!(execute(&root, &st), Some(0));
}

#[test]
fn show_unknown_token_lists_candidates() {
    let root = show_tree();
    let err = parse(&root, &tokens(&["foo"])).unwrap_err();
    assert_eq!(
        err,
        ParseError::NoMatches { token: "foo".to_string(), options: vec!["show".to_string()] }
    );
}

#[test]
fn empty_input_matches_nothing() {
    let root = show_tree();
    let st = parse(&root, &tokens(&[])).unwrap();
    assert_eq!(st.matched, None);
    assert!(verify(&root, &st).is_ok());
    assert_eq!(execute(&root, &st), None);
}

fn set_tree() -> RootNode {
    let mut tree = CommandTree::new();
    tree.command(
        Command::new("set")
            .parameter(
                Parameter::new("--level")
                    .kind(ParameterKind::Named)
                    .alias("-l")
                    .required(true)
                    .finalize(),
            )
            .parameter(
                Parameter::new("--verbose")
                    .kind(ParameterKind::Flag)
                    .required(false)
                    .finalize(),
            )
            .finalize(),
    );
    tree.finalize()
}

#[test]
fn named_without_value_is_no_match_on_empty_token() {
    let root = set_tree();
    let err = parse(&root, &tokens(&["set", "--level"])).unwrap_err();
    match err {
        ParseError::NoMatches { token, options } => {
            assert_eq!(token, "");
            assert_eq!(options, vec!["--verbose".to_string(), "--level".to_string()]);
        },
        other => panic!("expected NoMatches, got {:?}", other),
    }
}

#[test]
fn missing_required_parameter_fails_verification() {
    let root = set_tree();
    let st = parse(&root, &tokens(&["set", "--verbose"])).unwrap();
    assert_eq!(st.bound, vec![Vec::<String>::new(), vec!["true".to_string()]]);
    let err = verify(&root, &st).unwrap_err();
    assert_eq!(err.missing, vec!["--level".to_string()]);
}

#[test]
fn named_parameter_binds_following_token() {
    let root = set_tree();
    let st = parse(&root, &tokens(&["set", "--level", "5"])).unwrap();
    assert_eq!(st.bound[0], vec!["5".to_string()]);
    assert!(verify(&root, &st).is_ok());
}

#[test]
fn named_parameter_matches_by_alias() {
    let root = set_tree();
    let st = parse(&root, &tokens(&["set", "-l", "3"])).unwrap();
    assert_eq!(st.bound[0], vec!["3".to_string()]);
}

#[test]
fn named_parameter_matches_by_prefix() {
    let root = set_tree();
    let st = parse(&root, &tokens(&["set", "--lev", "9"])).unwrap();
    assert_eq!(st.bound[0], vec!["9".to_string()]);
}

#[test]
fn exact_match_beats_prefix_ambiguity() {
    let mut tree = CommandTree::new();
    tree.command(Command::new("show").finalize());
    tree.command(Command::new("showall").finalize());
    let root = tree.finalize();
    let st = parse(&root, &tokens(&["show"])).unwrap();
    assert_eq!(st.matched, Some(0));
}

#[test]
fn shared_prefix_at_equal_priority_is_ambiguous() {
    let mut tree = CommandTree::new();
    tree.command(Command::new("show").finalize());
    tree.command(Command::new("showall").finalize());
    let root = tree.finalize();
    let err = parse(&root, &tokens(&["sho"])).unwrap_err();
    assert_eq!(
        err,
        ParseError::AmbiguousMatch {
            token: "sho".to_string(),
            tied: vec!["show".to_string(), "showall".to_string()],
        }
    );
}

#[test]
fn higher_priority_wins_regardless_of_order() {
    let mut tree = CommandTree::new();
    tree.command(Command::new("dup").priority(0).finalize());
    tree.command(Command::new("dup").priority(4).finalize());
    let root = tree.finalize();
    let st = parse(&root, &tokens(&["dup"])).unwrap();
    assert_eq!(st.matched, Some(1));
}

#[test]
fn equal_priority_overlap_is_ambiguous() {
    let mut tree = CommandTree::new();
    tree.command(Command::new("dup").finalize());
    tree.command(Command::new("dup").finalize());
    let root = tree.finalize();
    let err = parse(&root, &tokens(&["dup"])).unwrap_err();
    assert_eq!(
        err,
        ParseError::AmbiguousMatch {
            token: "dup".to_string(),
            tied: vec!["dup".to_string(), "dup".to_string()],
        }
    );
}

#[test]
fn repeatable_parameter_accumulates_in_order() {
    let mut tree = CommandTree::new();
    tree.command(
        Command::new("add")
            .parameter(Parameter::new("item").repeatable(true).finalize())
            .finalize(),
    );
    let root = tree.finalize();
    let st = parse(&root, &tokens(&["add", "a", "b", "c"])).unwrap();
    assert_eq!(st.bound[0], vec!["a".to_string(), "b".to_string(), "c".to_string()]);
}

#[test]
fn non_repeatable_parameter_leaves_frontier_after_match() {
    let mut tree = CommandTree::new();
    tree.command(
        Command::new("one")
            .parameter(Parameter::new("value").finalize())
            .finalize(),
    );
    let root = tree.finalize();
    let err = parse(&root, &tokens(&["one", "a", "b"])).unwrap_err();
    assert_eq!(err, ParseError::NoMatches { token: "b".to_string(), options: vec![] });
}

#[test]
fn hidden_command_matches_but_is_not_listed() {
    let mut tree = CommandTree::new();
    tree.command(Command::new("visible").finalize());
    tree.command(Command::new("secret").hidden(true).finalize());
    let root = tree.finalize();

    let st = parse(&root, &tokens(&["secret"])).unwrap();
    assert_eq!(st.matched, Some(1));

    let err = parse(&root, &tokens(&["zzz"])).unwrap_err();
    assert_eq!(
        err,
        ParseError::NoMatches { token: "zzz".to_string(), options: vec!["visible".to_string()] }
    );
}

#[test]
fn hidden_sibling_still_causes_ambiguity_but_is_not_listed() {
    let mut tree = CommandTree::new();
    tree.command(Command::new("dup").finalize());
    tree.command(Command::new("dup").hidden(true).finalize());
    let root = tree.finalize();
    let err = parse(&root, &tokens(&["dup"])).unwrap_err();
    assert_eq!(
        err,
        ParseError::AmbiguousMatch { token: "dup".to_string(), tied: vec!["dup".to_string()] }
    );
}

#[test]
fn options_listing_orders_by_priority_then_name() {
    let mut tree = CommandTree::new();
    tree.command(
        Command::new("cmd")
            .parameter(Parameter::new("bb").kind(ParameterKind::Flag).finalize())
            .parameter(Parameter::new("aa").kind(ParameterKind::Flag).finalize())
            .parameter(Parameter::new("cc").kind(ParameterKind::Flag).priority(5).finalize())
            .finalize(),
    );
    let root = tree.finalize();
    let err = parse(&root, &tokens(&["cmd", "zz"])).unwrap_err();
    assert_eq!(
        err,
        ParseError::NoMatches {
            token: "zz".to_string(),
            options: vec!["cc".to_string(), "aa".to_string(), "bb".to_string()],
        }
    );
}

#[test]
fn flag_beats_catch_all_of_lower_priority() {
    let mut tree = CommandTree::new();
    tree.command(
        Command::new("go")
            .parameter(Parameter::new("x").kind(ParameterKind::Flag).finalize())
            .parameter(Parameter::new("val").finalize())
            .finalize(),
    );
    let root = tree.finalize();

    let st = parse(&root, &tokens(&["go", "x"])).unwrap();
    assert_eq!(st.bound[0], vec!["true".to_string()]);
    assert_eq!(st.bound[1], Vec::<String>::new());

    let st2 = parse(&root, &tokens(&["go", "y"])).unwrap();
    assert_eq!(st2.bound[0], Vec::<String>::new());
    assert_eq!(st2.bound[1], vec!["y".to_string()]);
}

#[test]
fn catch_all_of_higher_priority_beats_flag() {
    let mut tree = CommandTree::new();
    tree.command(
        Command::new("go")
            .parameter(Parameter::new("x").kind(ParameterKind::Flag).finalize())
            .parameter(Parameter::new("val").priority(10).finalize())
            .finalize(),
    );
    let root = tree.finalize();
    let st = parse(&root, &tokens(&["go", "x"])).unwrap();
    assert_eq!(st.bound[0], Vec::<String>::new());
    assert_eq!(st.bound[1], vec!["x".to_string()]);
}

#[test]
fn wrapper_dispatches_to_target_with_own_bindings() {
    let mut tree = CommandTree::new();
    tree.command(Command::new("list").finalize());
    tree.command(
        Command::new("ls")
            .wraps("list".to_string())
            .parameter(Parameter::new("what").finalize())
            .finalize(),
    );
    let root = tree.finalize();
    let st = parse(&root, &tokens(&["ls", "disks"])).unwrap();
    assert_eq!(st.matched, Some(1));
    assert_eq!(st.bound[0], vec!["disks".to_string()]);
    assert!(verify(&root, &st).is_ok());
    assert_eq!(execute(&root, &st), Some(0));
}

#[test]
fn wrapper_with_dangling_path_is_a_no_op() {
    let mut tree = CommandTree::new();
    tree.command(Command::new("ls").wraps("gone".to_string()).finalize());
    let root = tree.finalize();
    let st = parse(&root, &tokens(&["ls"])).unwrap();
    assert_eq!(execute(&root, &st), None);
}

#[test]
fn missing_required_names_in_declaration_order() {
    let mut tree = CommandTree::new();
    tree.command(
        Command::new("mk")
            .parameter(Parameter::new("--a").kind(ParameterKind::Named).required(true).finalize())
            .parameter(Parameter::new("--b").kind(ParameterKind::Named).required(true).finalize())
            .finalize(),
    );
    let root = tree.finalize();
    let st = parse(&root, &tokens(&["mk"])).unwrap();
    let err = verify(&root, &st).unwrap_err();
    assert_eq!(err.missing, vec!["--a".to_string(), "--b".to_string()]);
}

#[test]
fn parsing_is_deterministic_across_runs() {
    let root = set_tree();
    let toks = tokens(&["set", "--level", "5", "--verbose"]);
    let first = parse(&root, &toks).unwrap();
    let second = parse(&root, &toks).unwrap();
    assert_eq!(first.matched, second.matched);
    assert_eq!(first.bound, second.bound);
}

#[test]
fn missing_value_listing_shows_bracketed_positional() {
    let mut tree = CommandTree::new();
    tree.command(
        Command::new("c")
            .parameter(Parameter::new("--level").kind(ParameterKind::Named).finalize())
            .parameter(Parameter::new("pos").finalize())
            .finalize(),
    );
    let root = tree.finalize();
    let err = parse(&root, &tokens(&["c", "--level"])).unwrap_err();
    assert_eq!(
        err,
        ParseError::NoMatches {
            token: "".to_string(),
            options: vec!["--level".to_string(), "<pos>".to_string()],
        }
    );
}

#[test]
fn repeatable_flag_counts_occurrences() {
    let mut tree = CommandTree::new();
    tree.command(
        Command::new("v")
            .parameter(Parameter::new("-v").kind(ParameterKind::Flag).repeatable(true).finalize())
            .finalize(),
    );
    let root = tree.finalize();
    let st = parse(&root, &tokens(&["v", "-v", "-v", "-v"])).unwrap();
    assert_eq!(st.bound[0], vec!["true".to_string(); 3]);
}

#[test]
fn alias_prefix_matches_too() {
    let mut tree = CommandTree::new();
    tree.command(
        Command::new("set")
            .parameter(
                Parameter::new("--level")
                    .kind(ParameterKind::Named)
                    .alias("--height")
                    .finalize(),
            )
            .finalize(),
    );
    let root = tree.finalize();
    let st = parse(&root, &tokens(&["set", "--hei", "9"])).unwrap();
    assert_eq!(st.bound[0], vec!["9".to_string()]);
}
