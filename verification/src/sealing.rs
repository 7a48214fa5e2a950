//! The token trait behind [`crate::plugin::Sealed`]: this module is private,
//! so no other crate can name the token, and so none can implement `Sealed`.

use vstd::prelude::*;

use crate::outline::OutlinePlugin;
use crate::search::SearchPlugin;
use crate::text_layer::TextLayerPlugin;
use crate::thumbnail::ThumbnailPlugin;

verus! {

/// Implemented by the built-in plugin types only.
pub trait Token {}

impl Token for TextLayerPlugin {}

impl<R> Token for SearchPlugin<R> {}

impl<T> Token for ThumbnailPlugin<T> {}

impl<P> Token for OutlinePlugin<P> {}

} // verus!
