//! An interpreter for CC+, a small line-oriented scripting dialect: a
//! tokenizer that classifies the words of a line, and a line interpreter
//! that turns a script into the actions it asks for.

pub mod text;
pub mod parser;
pub mod interpreter;
pub mod laws;
