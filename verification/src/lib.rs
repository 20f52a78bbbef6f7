//! A library for building tree-structured command-line grammars — the kind
//! used by network-device and administrative shells — and for resolving a
//! tokenized input line against a frozen grammar: selecting exactly one
//! command, binding its parameters, verifying required parameters, and
//! choosing the handler to dispatch to.
//!
//! The grammar is described with the fluent builder in [`parser::builder`],
//! frozen into an immutable tree of [`parser::nodes`], and then matched with
//! [`parser::matcher`]. Every function of the engine carries a contract that
//! pins its result down to a mathematical model of the tree and of the parse
//! state.

pub mod parser;
