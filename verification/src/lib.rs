//! A parser and validator for branching interactive stories written as plain
//! text: named sections, each with a description and a list of choices that
//! lead to other sections.
//!
//! [`Story::parse`] turns source text into a story in which every section name
//! is defined once and every choice leads to a defined section.
use vstd::prelude::*;

pub mod choice;
pub mod error;
pub mod identifier;
pub mod laws;
pub mod prose;
pub mod section;
pub mod story;
pub mod text;

pub use crate::choice::Choice;
pub use crate::error::{ParseError, ParseErrorType};
pub use crate::identifier::{Reserved, SectionIdentifier};
pub use crate::prose::{Description, Paragraph};
pub use crate::section::{Line, Section};
pub use crate::story::{load_str, source_lines, Story};
