//! The command-grammar engine: node model, builder, matcher, verifier and
//! dispatcher.

pub mod builder;
pub mod dispatcher;
pub mod laws;
pub mod matcher;
pub mod nodes;
pub mod verify;
