//! A task-automation engine: it parses declarative recipe files describing
//! named, parameterized automation steps with dependencies, conditionals,
//! loops and feature gating, and executes a requested recipe deterministically.
//!
//! The crate is organised bottom-up:
//! - `text`: byte-string helpers shared by the parser and the interpreter;
//! - `errors`: the closed error taxonomy of the engine;
//! - `value`: the typed value model (integer / string / list);
//! - `scope`: the layered variable scope chain;
//! - `feature`: the feature registry and guard evaluation;
//! - `words`: the spellings of the language's keywords;
//! - `func`: the registry of built-in functions;
//! - `parse`: the recipe-file parser, with file-inclusion resolution;
//! - `vm`: the execution engine, driven as an explicit step machine so that
//!   process spawning stays outside the library.

pub mod errors;
pub mod feature;
pub mod func;
pub mod parse;
pub mod scope;
pub mod text;
pub mod value;
pub mod vm;
pub mod words;
