//! Error types of the viewer and its rendering engine.

use vstd::prelude::*;

use crate::types::PageIndex;

verus! {

/// All errors produced by the viewer.
#[derive(Debug, Clone, PartialEq, Eq)]
pub enum Error {
    /// A string-typed engine error.
    Engine(String),
    /// No document is currently loaded.
    NotLoaded,
    /// A requested page index exceeded the loaded document range.
    PageOutOfRange(usize),
    /// The supplied bytes could not be parsed as a PDF.
    InvalidPdf,
}

/// Errors produced by rendering-engine operations.
#[derive(Debug, Clone, PartialEq, Eq)]
pub enum EngineError {
    /// The PDF library is not initialised.
    NotInitialised,
    /// Failed to load the PDF library's bindings.
    BindingsLoad(String),
    /// The initialisation lock was poisoned (another thread panicked).
    InitLockPoisoned,
    /// The byte slice could not be parsed as a valid PDF document.
    InvalidPdf,
    /// Page index out of bounds.
    PageIndexOutOfBounds {
        /// The requested page index.
        index: u32,
        /// The total number of pages in the document.
        count: u32,
    },
    /// Catch-all for PDF library errors not otherwise classified.
    Pdfium {
        /// Stringified error message.
        message: String,
    },
}

/// Check that `index` names a page of a document with `page_count` pages;
/// otherwise report the index and the count (as 32-bit numbers).
pub fn check_page_index(index: PageIndex, page_count: usize) -> (result: Result<(), EngineError>)
    ensures
        index.0 < page_count ==> result is Ok,
        index.0 >= page_count ==> result == Err::<(), EngineError>(
            EngineError::PageIndexOutOfBounds { index: index.0 as u32, count: page_count as u32 },
        ),
{
    if index.0 < page_count {
        Ok(())
    } else {
        Err(EngineError::PageIndexOutOfBounds { index: index.0 as u32, count: page_count as u32 })
    }
}

} // verus!
