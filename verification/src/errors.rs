//! The error type of the content extractors.

use vstd::prelude::*;

verus! {

/// What can go wrong while extracting content from a parsed tree.
#[derive(Debug)]
pub enum ZhihuError {
    /// The content walk met an element it has no rule for; the field holds
    /// the element's tag name.
    UnknownElement(String),
}

pub type ZhihuResult<T> = Result<T, ZhihuError>;

} // verus!
