//! Compiler from a structured newsletter document to a sequence of
//! length-bounded, escape-correct chat posts.
//!
//! The pipeline: a structural parser renders the document into titled
//! sections of pre-escaped lines, section post-processors rewrite a few
//! well-known sections, an assembler folds the sections into posts under a
//! hard length budget (cutting oversized text with an escape-preserving
//! splitter), and a validator proves every finished post well-formed.

pub mod docs;
pub mod escape;
pub mod events;
pub mod generator;
pub mod headings;
pub mod parser;
pub mod postprocess;
pub mod splitter;
pub mod text;
pub mod validator;

use vstd::prelude::*;

verus! {

/// Hard length budget for one post, in UTF-8 bytes.
pub const TELEGRAM_LIMIT: usize = 4000;

} // verus!
