//! Buzz patterns: templates for tag-like strings such as `"python:3.8.5"`,
//! with wildcards (`*`), at most one capture (`#`) and a skip count (`<n>`)
//! behind the capture.
//!
//! [`patterns::Pattern::from`] compiles a pattern text and
//! [`patterns::Pattern::process`] matches a tag against the compiled
//! pattern. What both compute is defined on sequences of characters in
//! [`syntax`] and [`matching`]; [`refusals`], [`tokens`], [`resumes`],
//! [`verdicts`] and [`shapes`] state what follows from those definitions.

pub mod counting;
pub mod matching;
pub mod model;
pub mod patterns;
pub mod refusals;
pub mod resumes;
pub mod shapes;
pub mod syntax;
pub mod text;
pub mod tokens;
pub mod verdicts;
