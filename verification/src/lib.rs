//! Verified core of a PDF viewer: page rotation, text selection, search
//! navigation, thumbnail caching, outline flattening, the grouping of
//! extracted text, and the application's load lifecycle.

pub mod error;
pub mod extract;
pub mod outline;
pub mod pdf;
pub mod plugin;
pub mod rotation;
mod sealing;
pub mod search;
pub mod session;
pub mod strings;
pub mod text;
pub mod text_layer;
pub mod thumbnail;
pub mod types;

pub use error::{EngineError, Error};
pub use outline::{Bookmark, Destination, Outline, OutlineNode, OutlineNodeId, OutlinePlugin};
pub use plugin::Sealed;
pub use rotation::{PdfPageRotation, RotationDelta};
pub use search::{Rgba, SearchMatch, SearchPlugin, SearchState};
pub use session::{AppSession, DemoLoadState, LoadState, SidebarTab};
pub use text::SelectionRange;
pub use text_layer::{DocumentText, PointerEvent, TextLayerPlugin, TextPage};
pub use thumbnail::{ThumbnailCache, ThumbnailCacheKey, ThumbnailPlugin};
pub use types::{CharIndex, CharSpan, PageIndex, PixelRect, RawImage, SearchQuery, ViewMode};
