//! The handler that carries the extensions of one report.
use crate::extensions::erased::Image;
use crate::extensions::map::Extensions;
use std::any::TypeId;
use vstd::prelude::*;

verus! {

/// A report handler with room for extensions: the capability `inner`, to which
/// all formatting and caller tracking is passed on, and one type map, which
/// lives and dies with the handler.
pub struct Handler<I> {
    /// The wrapped capability. Nothing here ever looks into it.
    pub inner: I,
    /// The data attached to the report that owns this handler.
    pub extensions: Extensions,
}

impl<I> Handler<I> {
    /// A handler around `inner`, with an empty type map.
    pub fn new(inner: I) -> (handler: Self)
        ensures
            handler.inner == inner,
            handler.extensions.wf(),
            handler.extensions@ == Map::<TypeId, Image>::empty(),
    {
        Handler { inner, extensions: Extensions::new() }
    }
}

} // verus!
