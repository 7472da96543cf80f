//! A minimal embedded row store: a SQL tokenizer and recursive-descent
//! parser in front of a paged, fixed-width row table.
//!
//! The pipeline is: raw SQL text -> tokenizer -> parser -> executor ->
//! table -> pager. The pager keeps an in-memory image of the backing
//! file; reading that image from disk and writing it back is left to
//! the caller, so that everything in this crate is verified.

pub mod ast;
pub mod executor;
pub mod pager;
pub mod parser;
pub mod schema;
pub mod table;
pub mod tokenizer;

use vstd::prelude::*;

verus! {

/// Width of one page in bytes.
pub const PAGE_SIZE: usize = 4096;

/// Number of page slots in a pager; also the page count of the backing file.
pub const MAX_PAGES: usize = 100;

} // verus!
