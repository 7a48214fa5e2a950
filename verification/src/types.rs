//! Plain value types shared across the viewer: page indices, pixel
//! rectangles, raw images, view modes and search queries.

use vstd::prelude::*;

verus! {

/// Zero-based page index.
#[derive(Debug, Clone, Copy, PartialEq, Eq, Hash, Structural)]
pub struct PageIndex(pub usize);

/// A rectangle measured in screen pixels.
#[derive(Debug, Clone, Copy, PartialEq, Eq, Structural)]
pub struct PixelRect {
    /// Left edge in screen pixels.
    pub x: i32,
    /// Top edge in screen pixels.
    pub y: i32,
    /// Rectangle width in screen pixels.
    pub width: u32,
    /// Rectangle height in screen pixels.
    pub height: u32,
}

/// A raw RGBA image buffer produced by the rendering engine.
///
/// Pixels are stored in row-major order, 4 bytes per pixel (R, G, B, A).
#[derive(Debug, Clone)]
pub struct RawImage {
    /// Image width in pixels.
    pub width: u32,
    /// Image height in pixels.
    pub height: u32,
    /// RGBA bytes, row-major. Length == width * height * 4.
    pub pixels: Vec<u8>,
}

impl RawImage {
    /// The buffer holds exactly four bytes for every pixel.
    pub open spec fn well_formed(&self) -> bool {
        self.pixels@.len() == self.width * self.height * 4
    }
}

/// Viewer page layout mode.
#[derive(Debug, Clone, Copy, PartialEq, Eq, Structural)]
pub enum ViewMode {
    /// Show one page at a time.
    Single,
    /// Show pages in a single continuous vertical scroll.
    Continuous,
    /// Show pages in paired spreads.
    ///
    /// When `cover_separate` is `true`, page 1 is shown alone and later spreads
    /// pair as `(2, 3)`, `(4, 5)`, and so on. When `false`, spreads pair from
    /// the start as `(1, 2)`, `(3, 4)`, and so on.
    Spread {
        /// Whether the cover page stands alone before two-page pairing begins.
        cover_separate: bool,
    },
}

impl Default for ViewMode {
    fn default() -> (mode: ViewMode)
        ensures
            mode == ViewMode::Continuous,
    {
        ViewMode::Continuous
    }
}

/// A search query with options.
#[derive(Debug, Clone, PartialEq, Eq)]
pub struct SearchQuery {
    /// The search term.
    pub term: String,
    /// Whether the search is case-sensitive.
    pub case_sensitive: bool,
    /// Whether to match whole words only.
    pub whole_word: bool,
}

impl Default for SearchQuery {
    fn default() -> (query: SearchQuery)
        ensures
            query.term@ == Seq::<char>::empty(),
            !query.case_sensitive,
            !query.whole_word,
    {
        SearchQuery { term: String::new(), case_sensitive: false, whole_word: false }
    }
}

/// Zero-based character index within a page's text.
#[derive(Debug, Clone, Copy, PartialEq, Eq, Hash, Structural)]
pub struct CharIndex {
    /// The page this character belongs to.
    pub page: PageIndex,
    /// Zero-based character position within the page.
    pub char: usize,
}

/// A half-open range of characters on a single page: `[start, end)`.
#[derive(Debug, Clone, Copy, PartialEq, Eq, Structural)]
pub struct CharSpan {
    /// The page this span belongs to.
    pub page: PageIndex,
    /// First character index (inclusive).
    pub start: usize,
    /// One past the last character index (exclusive).
    pub end: usize,
}

impl CharSpan {
    /// The span lies on `page` and covers character `c`.
    pub open spec fn holds(self, page: PageIndex, c: usize) -> bool {
        self.page == page && self.start <= c && c < self.end
    }
}

} // verus!
