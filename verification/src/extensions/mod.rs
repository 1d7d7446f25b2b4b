//! Attaching typed data to error reports, and reading it back.
//!
//! [`ExtensionExt`] attaches data, [`Extension`] reads it. Both are written for
//! whatever carries a type map: a [`Handler`] carries one, and a `Result`
//! carries what its error carries.
pub mod downcast;
pub mod erased;
pub mod map;

use crate::handler::Handler;
use crate::private::Sealed;
use erased::{faithful, image, key_of};
use map::{lemma_given_is_held, Extensions};
use vstd::prelude::*;

verus! {

/// What `carried` has for `T` is `got`: what the type map gives, where there
/// is a map, and nothing where there is none.
pub open spec fn given<T: Send + Sync + 'static>(
    carried: Option<Extensions>,
    got: Option<T>,
) -> bool {
    match carried {
        Some(map) => map.gives(got),
        None => got is None,
    }
}

/// The value of type `T` in the type map `carried`, if there is a map and it
/// holds one.
pub open spec fn stored<T: Send + Sync + 'static>(carried: Option<Extensions>) -> Option<T> {
    match carried {
        Some(map) => map.held::<T>(),
        None => None,
    }
}

/// Reading custom data from an error.
///
/// Implemented for [`Handler`], and for every `Result` whose error implements
/// it.
pub trait Extension: Sized + Sealed {
    /// The value is in a state that its own operations leave it in.
    spec fn wf(&self) -> bool;

    /// The type map that the value carries, if it carries one.
    spec fn carried(&self) -> Option<Extensions>;

    /// But for the type map that it carries, `after` is the value as it is.
    spec fn rest_kept(&self, after: Self) -> bool;

    /// The attached value of type `T`, if there is one.
    fn extension_ref<T: Send + Sync + 'static>(&self) -> (found: Option<&T>)
        requires
            self.wf(),
        ensures
            match found {
                Some(v) => given(self.carried(), Some(*v)),
                None => given(self.carried(), None::<T>),
            },
    ;

    /// Mutable access to the attached value of type `T`, if there is one. What
    /// the caller leaves behind the reference is the attached value from then
    /// on.
    fn extension_mut<T: Send + Sync + 'static>(&mut self) -> (found: Option<&mut T>)
        requires
            old(self).wf(),
        ensures
            match found {
                Some(v) => {
                    &&& given(old(self).carried(), Some(*v))
                    &&& final(self).wf()
                    &&& old(self).rest_kept(*final(self))
                    &&& old(self).carried() matches Some(before)
                    &&& final(self).carried() matches Some(after)
                    &&& before.with_value(*final(v), after)
                },
                None => given(old(self).carried(), None::<T>) && *final(self) == *old(self),
            },
    ;

    /// The whole type map, if the value carries one.
    fn extensions_ref(&self) -> (found: Option<&Extensions>)
        requires
            self.wf(),
        ensures
            match found {
                Some(map) => self.carried() == Some(*map) && map.wf(),
                None => self.carried() is None,
            },
    ;

    /// The whole type map, for changing it, if the value carries one.
    fn extensions_mut(&mut self) -> (found: Option<&mut Extensions>)
        requires
            old(self).wf(),
        ensures
            match found {
                Some(map) => {
                    &&& old(self).carried() == Some(*map)
                    &&& map.wf()
                    &&& old(self).rest_kept(*final(self))
                    &&& final(self).carried() == Some(*final(map))
                    &&& final(self).wf() == final(map).wf()
                },
                None => old(self).carried() is None && *final(self) == *old(self),
            },
    ;
}

impl<I> Extension for Handler<I> {
    open spec fn wf(&self) -> bool {
        self.extensions.wf()
    }

    /// A handler always carries its type map.
    open spec fn carried(&self) -> Option<Extensions> {
        Some(self.extensions)
    }

    /// The wrapped capability is the same.
    open spec fn rest_kept(&self, after: Self) -> bool {
        after.inner == self.inner
    }

    fn extension_ref<T: Send + Sync + 'static>(&self) -> (found: Option<&T>) {
        self.extensions.get::<T>()
    }

    fn extension_mut<T: Send + Sync + 'static>(&mut self) -> (found: Option<&mut T>) {
        self.extensions.get_mut::<T>()
    }

    fn extensions_ref(&self) -> (found: Option<&Extensions>)
        ensures
            found.is_some(),
    {
        Some(&self.extensions)
    }

    fn extensions_mut(&mut self) -> (found: Option<&mut Extensions>)
        ensures
            found.is_some(),
    {
        Some(&mut self.extensions)
    }
}

/// A result carries what its error carries; a success carries nothing.
impl<S, E: Extension> Extension for Result<S, E> {
    open spec fn wf(&self) -> bool {
        self matches Err(error) ==> error.wf()
    }

    open spec fn carried(&self) -> Option<Extensions> {
        match self {
            Ok(_) => None,
            Err(error) => error.carried(),
        }
    }

    /// A success is the same success; an error is an error that kept its
    /// rest.
    open spec fn rest_kept(&self, after: Self) -> bool {
        match self {
            Ok(success) => after == Ok::<S, E>(*success),
            Err(error) => after matches Err(changed) && error.rest_kept(changed),
        }
    }

    fn extension_ref<T: Send + Sync + 'static>(&self) -> (found: Option<&T>) {
        match self {
            Ok(_) => None,
            Err(error) => error.extension_ref::<T>(),
        }
    }

    fn extension_mut<T: Send + Sync + 'static>(&mut self) -> (found: Option<&mut T>) {
        match self {
            Ok(_) => None,
            Err(error) => error.extension_mut::<T>(),
        }
    }

    fn extensions_ref(&self) -> (found: Option<&Extensions>) {
        match self {
            Ok(_) => None,
            Err(error) => error.extensions_ref(),
        }
    }

    fn extensions_mut(&mut self) -> (found: Option<&mut Extensions>) {
        match self {
            Ok(_) => None,
            Err(error) => error.extensions_mut(),
        }
    }
}

/// `after` is what `before` becomes when `extension` is attached to what
/// carries it. A type map now has `extension` for `T`, in place of what it
/// had for `T`, and is the same otherwise; where there is no map there is none
/// afterwards, and `extension` is gone.
pub open spec fn attached<T: Send + Sync + 'static>(
    before: Option<Extensions>,
    extension: T,
    after: Option<Extensions>,
) -> bool {
    match before {
        Some(map) => after matches Some(changed) && map.with_value(extension, changed),
        None => after is None,
    }
}

/// `after` is what `before` becomes when the attachment of type `T` is
/// removed from what carries it. A type map has nothing for `T` any more, and
/// is the same otherwise; where there is no map there is none afterwards.
pub open spec fn detached<T: Send + Sync + 'static>(
    before: Option<Extensions>,
    after: Option<Extensions>,
) -> bool {
    match before {
        Some(map) => after matches Some(changed) && map.without::<T>(changed),
        None => after is None,
    }
}

/// Attaching custom data to an error.
///
/// Every operation takes the value and hands it back, so that calls can be
/// chained. Data goes only to what carries a type map; everything else comes
/// back as it went in.
///
/// Implemented for [`Handler`], and for every `Result` whose error implements
/// it.
pub trait ExtensionExt: Extension {
    /// What an operation hands back.
    type Return: Extension;

    /// But for the data attached to it, `ret` is the value as it was.
    spec fn kept(self, ret: Self::Return) -> bool;

    /// Attaches `extension`, in place of an earlier attachment of its type.
    fn extension<T: Send + Sync + 'static>(self, extension: T) -> (ret: Self::Return)
        requires
            self.wf(),
        ensures
            ret.wf(),
            self.kept(ret),
            attached(self.carried(), extension, ret.carried()),
    ;

    /// Attaches what `f` makes, in place of an earlier attachment of its type.
    /// `f` is called only where its result will be stored: otherwise it need
    /// not even be callable.
    fn with_extension<T: Send + Sync + 'static, F: FnOnce() -> T>(self, f: F) -> (ret:
        Self::Return)
        requires
            self.wf(),
            self.carried() is Some ==> f.requires(()),
        ensures
            ret.wf(),
            self.kept(ret),
            self.carried() is Some ==> exists|made: T|
                f.ensures((), made) && #[trigger] attached(self.carried(), made, ret.carried()),
            self.carried() is None ==> ret.carried() is None,
    ;

    /// Removes the attachment of type `T`, if there is one.
    fn remove_extension<T: Send + Sync + 'static>(self) -> (ret: Self::Return)
        requires
            self.wf(),
        ensures
            ret.wf(),
            self.kept(ret),
            detached::<T>(self.carried(), ret.carried()),
    ;
}

impl<I> ExtensionExt for Handler<I> {
    type Return = Handler<I>;

    /// The wrapped capability is the same.
    open spec fn kept(self, ret: Handler<I>) -> bool {
        ret.inner == self.inner
    }

    fn extension<T: Send + Sync + 'static>(self, extension: T) -> (ret: Handler<I>) {
        let mut handler = self;
        handler.extensions.insert::<T>(extension);
        handler
    }

    fn with_extension<T: Send + Sync + 'static, F: FnOnce() -> T>(self, f: F) -> (ret: Handler<
        I,
    >) {
        let mut handler = self;
        let made = f();
        let ghost witness = made;
        handler.extensions.insert::<T>(made);
        assert(f.ensures((), witness) && attached(
            self.carried(),
            witness,
            handler.carried(),
        ));
        handler
    }

    fn remove_extension<T: Send + Sync + 'static>(self) -> (ret: Handler<I>) {
        let mut handler = self;
        handler.extensions.remove::<T>();
        handler
    }
}

/// Every operation applies to the error alone; a success comes back
/// untouched.
impl<S, E: ExtensionExt> ExtensionExt for Result<S, E> {
    type Return = Result<S, E::Return>;

    open spec fn kept(self, ret: Result<S, E::Return>) -> bool {
        match self {
            Ok(success) => ret == Ok::<S, E::Return>(success),
            Err(error) => ret matches Err(report) && error.kept(report),
        }
    }

    fn extension<T: Send + Sync + 'static>(self, extension: T) -> (ret: Result<S, E::Return>) {
        match self {
            Ok(success) => Ok(success),
            Err(error) => Err(error.extension::<T>(extension)),
        }
    }

    fn with_extension<T: Send + Sync + 'static, F: FnOnce() -> T>(self, f: F) -> (ret: Result<
        S,
        E::Return,
    >) {
        match self {
            Ok(success) => Ok(success),
            Err(error) => Err(error.with_extension::<T, F>(f)),
        }
    }

    fn remove_extension<T: Send + Sync + 'static>(self) -> (ret: Result<S, E::Return>) {
        match self {
            Ok(success) => Ok(success),
            Err(error) => Err(error.remove_extension::<T>()),
        }
    }
}

/// An operation on a success hands the success back, and no type map comes
/// into being.
pub proof fn lemma_success_untouched<S, E: ExtensionExt>(
    result: Result<S, E>,
    ret: Result<S, E::Return>,
)
    requires
        result is Ok,
        result.kept(ret),
    ensures
        ret == Ok::<S, E::Return>(result->Ok_0),
        result.carried() is None,
        ret.carried() is None,
{
}

/// What was attached to a failure is found on the error that comes back: a
/// read of it gives a value with the image of the attached one, and for a
/// faithful type the attached value itself.
pub proof fn lemma_attached_is_found<S, I, T: Send + Sync + 'static>(
    result: Result<S, Handler<I>>,
    extension: T,
    ret: Result<S, Handler<I>>,
    got: Option<T>,
)
    requires
        result is Err,
        result.kept(ret),
        attached(result.carried(), extension, ret.carried()),
        given(ret.carried(), got),
    ensures
        ret is Err,
        ret->Err_0.inner == result->Err_0.inner,
        got matches Some(found) && image(found) == image(extension),
        faithful::<T>() ==> got == Some(extension) && stored::<T>(ret.carried()) == Some(
            extension,
        ),
{
    if faithful::<T>() {
        lemma_given_is_held(ret->Err_0.extensions, got);
        lemma_given_is_held(ret->Err_0.extensions, Some(extension));
    }
}

/// For a faithful type, what is given is the value that is stored.
pub proof fn lemma_given_is_stored<T: Send + Sync + 'static>(
    carried: Option<Extensions>,
    got: Option<T>,
)
    requires
        faithful::<T>(),
        given(carried, got),
    ensures
        got == stored::<T>(carried),
{
    if let Some(map) = carried {
        lemma_given_is_held(map, got);
    }
}

/// After a detachment nothing of the type is found, attached or not.
pub proof fn lemma_detached_is_gone<T: Send + Sync + 'static>(
    before: Option<Extensions>,
    after: Option<Extensions>,
    got: Option<T>,
)
    requires
        detached::<T>(before, after),
        given(after, got),
    ensures
        got is None,
        stored::<T>(after) is None,
{
}

/// Attaching a value of one type leaves what is attached of every other type
/// alone.
pub proof fn lemma_attached_keeps_others<T: Send + Sync + 'static, U: Send + Sync + 'static>(
    before: Option<Extensions>,
    extension: T,
    after: Option<Extensions>,
    other: Option<U>,
)
    requires
        attached(before, extension, after),
        key_of::<T>() != key_of::<U>(),
    ensures
        given(after, other) == given(before, other),
        stored::<U>(after) == stored::<U>(before),
{
}

} // verus!
