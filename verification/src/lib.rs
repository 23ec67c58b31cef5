//! Declarative command-line argument parsing.
//!
//! A [`Parser`] is a registry of named parameters: value-taking parameters and
//! boolean flags, each with an optional alias and, for value-taking
//! parameters, an optional default. [`Parser::parse_args`] turns a sequence of
//! tokens into [`Args`], or says why it could not; [`Parser::help`] writes the
//! help text. Nothing here reads the arguments of the process, prints or ends
//! the process: the caller hands the tokens in and acts on what comes back.
//!
//! ```text
//! let mut parser = Parser::new("An example");
//! parser.add_parameter(Parameter::param("--count", "How many").alias("-c").default(&1));
//! parser.add_parameter(Parameter::flag("--verbose", "Say more").alias("-v"));
//! match parser.parse_args(&tokens) {
//!     Ok(args) => { /* args.get::<u32>("--count"), args.flag("--verbose"), args.positional */ }
//!     Err(error) => { /* error.notice(), parser.help(program), error.exit_status() */ }
//! }
//! ```
//!
//! The library is verified against a mathematical model:
//!
//! - [`table`] holds the association lists that the registry is made of;
//! - [`registry`] says what is registered and how a single token is read;
//! - [`scan`] says what a pass over the tokens gathers and how it ends;
//! - [`help`] says what the help text is;
//! - [`laws`] proves what holds of every parse: when it succeeds, which error
//!   comes when, and what the arguments then hold.
//!
//! Three calls into the standard library are taken on trust, in [`text`]: the
//! comparison of two string slices, the upper-case form of a string, and the
//! reading of a string as a value of the caller's type.

pub mod args;
pub mod error;
pub mod help;
pub mod laws;
pub mod parameter;
pub mod parser;
pub mod registry;
pub mod scan;
pub mod table;
pub mod text;

pub use args::Args;
pub use error::{ArgError, ParseError};
pub use parameter::Parameter;
pub use parser::{ParamInfo, Parser};
