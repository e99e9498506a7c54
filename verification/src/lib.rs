//! A small command-line option parser for flags that start with `+`.
//!
//! A [`CliParser`] collects rules, one for each recognised flag name. A rule
//! says whether the flag must be followed by a value, takes none, or may go
//! with or without one. Parsing an argument vector against the rules yields
//! a [`Matches`] value, which is asked for flags by name:
//!
//! ```text
//! let mut parser = CliParser::new();
//! parser.add_rule("out");
//! parser.add_rule_with_default("quiet", RuleType::NoArg, "");
//!
//! // prog +out file.txt +quiet
//! let found = parser.parse(&arguments)?;
//! found.get_opt("out");     // Ok(Some("file.txt"))
//! found.get_opt("quiet");   // Ok(None)
//! found.get_opt("other");   // Err("No argument found")
//! ```
//!
//! The modules:
//!
//! - [`rule`], [`token`], [`message`]: the arities, what makes a token a
//!   flag, and the fixed messages;
//! - [`grammar`]: what parsing means, as functions on sequences of
//!   characters;
//! - [`parser`], [`matches`]: the registry with its parser and the result,
//!   each proved to compute what the grammar says;
//! - [`laws`]: what holds of every parse.

pub mod grammar;
pub mod laws;
pub mod matches;
pub mod message;
pub mod parser;
pub mod rule;
pub mod token;

pub use matches::Matches;
pub use parser::CliParser;
pub use rule::RuleType;
