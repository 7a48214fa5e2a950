//! The marker that closes the set of viewer plugins to the ones defined in
//! this crate.

use vstd::prelude::*;

use crate::outline::OutlinePlugin;
use crate::search::SearchPlugin;
use crate::text_layer::TextLayerPlugin;
use crate::thumbnail::ThumbnailPlugin;

verus! {

/// Supertrait that only the built-in plugin types implement: its own
/// supertrait lives in a private module, so no other crate can implement it.
pub trait Sealed: crate::sealing::Token {}

impl Sealed for TextLayerPlugin {}

impl<R> Sealed for SearchPlugin<R> {}

impl<T> Sealed for ThumbnailPlugin<T> {}

impl<P> Sealed for OutlinePlugin<P> {}

} // verus!
