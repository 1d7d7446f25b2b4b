//! Keeps the extension traits closed.
use crate::handler::Handler;
use vstd::prelude::*;

verus! {

/// Only what implements this can implement the extension traits, and only
/// this crate can implement this: so every implementation of their contracts
/// is one that was verified here.
pub trait Sealed {

}

impl<I> Sealed for Handler<I> {

}

impl<S, E: Sealed> Sealed for Result<S, E> {

}

} // verus!
