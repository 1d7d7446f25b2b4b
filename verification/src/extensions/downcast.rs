//! The operations on a report, given what the downcast of its handler found.
//!
//! A report owns one handler, of a type known only at run time. Whoever wants
//! its extensions asks whether that handler is a [`Handler`], and hands the
//! answer to one of these functions. When the handler is of another kind
//! there is nothing to read and nowhere to write: reads find nothing, and
//! writes are dropped without a word.
use super::map::Extensions;
use crate::handler::Handler;
use vstd::prelude::*;

verus! {

/// The attached value of type `T`, if the handler was found and has one.
pub fn extension_ref<'a, I, T: Send + Sync + 'static>(handler: Option<&'a Handler<I>>) -> (found:
    Option<&'a T>)
    requires
        handler matches Some(h) ==> h.extensions.wf(),
    ensures
        match (handler, found) {
            (Some(h), Some(v)) => h.extensions.gives(Some(*v)),
            (Some(h), None) => h.extensions.gives(None::<T>),
            (None, Some(_)) => false,
            (None, None) => true,
        },
{
    match handler {
        Some(h) => h.extensions.get::<T>(),
        None => None,
    }
}

/// Mutable access to the attached value of type `T`, if the handler was found
/// and has one.
pub fn extension_mut<'a, I, T: Send + Sync + 'static>(handler: Option<&'a mut Handler<I>>) -> (found:
    Option<&'a mut T>)
    requires
        handler matches Some(h) ==> h.extensions.wf(),
    ensures
        match handler {
            Some(h) => final(h).inner == h.inner && match found {
                Some(v) => h.extensions.gives(Some(*v)) && h.extensions.with_value(
                    *final(v),
                    final(h).extensions,
                ),
                None => h.extensions.gives(None::<T>) && *final(h) == *h,
            },
            None => found is None,
        },
{
    match handler {
        Some(h) => h.extensions.get_mut::<T>(),
        None => None,
    }
}

/// The whole type map, if the handler was found.
pub fn extensions_ref<'a, I>(handler: Option<&'a Handler<I>>) -> (found: Option<&'a Extensions>)
    ensures
        match (handler, found) {
            (Some(h), Some(map)) => *map == h.extensions,
            (None, None) => true,
            _ => false,
        },
{
    match handler {
        Some(h) => Some(&h.extensions),
        None => None,
    }
}

/// The whole type map, for changing it, if the handler was found.
pub fn extensions_mut<'a, I>(handler: Option<&'a mut Handler<I>>) -> (found: Option<
    &'a mut Extensions,
>)
    ensures
        match (handler, found) {
            (Some(h), Some(map)) => {
                &&& *map == h.extensions
                &&& final(h).extensions == *final(map)
                &&& final(h).inner == h.inner
            },
            (None, None) => true,
            _ => false,
        },
{
    match handler {
        Some(h) => Some(&mut h.extensions),
        None => None,
    }
}

/// Attaches `extension` if the handler was found, in place of an earlier
/// attachment of its type; drops it otherwise.
pub fn extension<I, T: Send + Sync + 'static>(handler: Option<&mut Handler<I>>, extension: T)
    requires
        handler matches Some(h) ==> h.extensions.wf(),
    ensures
        handler matches Some(h) ==> final(h).inner == h.inner && h.extensions.with_value(
            extension,
            final(h).extensions,
        ),
{
    match handler {
        Some(h) => h.extensions.insert::<T>(extension),
        None => {},
    }
}

/// Attaches what `f` makes if the handler was found, in place of an earlier
/// attachment of its type. `f` is called only then: where no handler was
/// found it need not even be callable, and nothing is made.
pub fn with_extension<I, T: Send + Sync + 'static, F: FnOnce() -> T>(
    handler: Option<&mut Handler<I>>,
    f: F,
)
    requires
        handler matches Some(h) ==> h.extensions.wf() && f.requires(()),
    ensures
        handler matches Some(h) ==> final(h).inner == h.inner && exists|made: T|
            {
                &&& f.ensures((), made)
                &&& h.extensions.with_value(made, final(h).extensions)
            },
{
    match handler {
        Some(h) => {
            let made = f();
            let ghost witness = made;
            let ghost before = h.extensions;
            h.extensions.insert::<T>(made);
            assert(f.ensures((), witness) && before.with_value(witness, h.extensions));
        },
        None => {},
    }
}

/// Removes the attachment of type `T` if the handler was found and has one,
/// and drops it.
pub fn remove_extension<I, T: Send + Sync + 'static>(handler: Option<&mut Handler<I>>)
    requires
        handler matches Some(h) ==> h.extensions.wf(),
    ensures
        handler matches Some(h) ==> final(h).inner == h.inner && h.extensions.without::<T>(
            final(h).extensions,
        ),
{
    match handler {
        Some(h) => {
            h.extensions.remove::<T>();
        },
        None => {},
    }
}

} // verus!
