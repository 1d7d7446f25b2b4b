//! Values whose type is known only at run time.
//!
//! Verus cannot look inside a `Box<dyn Any + Send + Sync>`, so the box is kept
//! behind [`Erased`], and what it holds is spoken of through an [`Image`]: the
//! stored value with its static type forgotten. Every storable type maps into
//! that one ghost type. The trusted items say of a box only which image it
//! holds; that the image determines the value is a property of the type,
//! [`faithful`], which holds of types without ghost content and is a premise
//! wherever a contract speaks of the value itself. Everything in this module
//! that touches the box is trusted; each item says which function of
//! `std::any` it stands for.
use std::any::Any;
use std::any::TypeId;
use vstd::prelude::*;

verus! {

/// Marker for every type whose values can be stored: anything that is
/// `Send + Sync + 'static`.
pub trait Payload: Send + Sync {

}

impl<T: Send + Sync + 'static> Payload for T {

}

/// `std::any::TypeId`, the run-time identifier of a type. Verus sees it as an
/// opaque value; two identifiers are equal exactly when they name one type.
#[verifier::external_type_specification]
#[verifier::external_body]
pub struct ExTypeId(std::any::TypeId);

/// An owned value of some `Send + Sync + 'static` type, held as a
/// `Box<dyn Any + Send + Sync>`. Verus does not accept that type in a field,
/// so the whole struct is opaque to it.
#[verifier::external_body]
pub struct Erased {
    boxed: Box<dyn Any + Send + Sync>,
}

/// A value of some storable type with its static type forgotten. It exists in
/// specifications only: no executable code makes one.
pub struct Image {
    boxed: Box<dyn Payload>,
}

/// The value `v` with its static type forgotten.
#[verifier::opaque]
pub closed spec fn image<T: Send + Sync + 'static>(v: T) -> Image {
    Image { boxed: Box::new(v) }
}

/// The value that a cell holds, with its static type forgotten.
pub uninterp spec fn payload(cell: Erased) -> Image;

/// The identifier of the type of the value behind `i`: what `Any::type_id`
/// returns for it.
pub uninterp spec fn kind(i: Image) -> TypeId;

/// The identifier of `T`.
pub open spec fn key_of<T: Send + Sync + 'static>() -> TypeId {
    kind(image::<T>(arbitrary()))
}

/// Values of type `T` can be told apart by their images. This holds of a
/// type all of whose content exists at run time. It cannot hold of every
/// type: a type with ghost content can have more values than there are
/// images.
pub open spec fn faithful<T: Send + Sync + 'static>() -> bool {
    forall|a: T, b: T| image(a) == image(b) ==> a == b
}

/// A value of type `T` whose image is `i`, where there is one. Where `T` is
/// faithful it is the only one.
pub open spec fn recover<T: Send + Sync + 'static>(i: Image) -> T {
    choose|v: T| image(v) == i
}

/// `i` is the image of the value `v` of type `T`.
pub open spec fn holds<T: Send + Sync + 'static>(i: Image, v: T) -> bool {
    &&& i == image(v)
    &&& kind(i) == key_of::<T>()
}

/// For a faithful type, the value recovered from an image is the value that
/// the image was made of.
pub proof fn lemma_recover_image<T: Send + Sync + 'static>(v: T)
    requires
        faithful::<T>(),
    ensures
        recover::<T>(image(v)) == v,
{
    assert(image(v) == image(v));
}

/// `TypeId::of::<T>()`: the identifier of `T`, the same one that `Any::type_id`
/// reports for every value of type `T`.
#[verifier::external_body]
pub(crate) fn type_key<T: Send + Sync + 'static>() -> (key: TypeId)
    ensures
        key == key_of::<T>(),
{
    TypeId::of::<T>()
}

/// `==` on `TypeId`: true exactly when both identify the same type.
#[verifier::external_body]
pub(crate) fn same_key(a: &TypeId, b: &TypeId) -> (same: bool)
    ensures
        same == (*a == *b),
{
    a == b
}

/// `Box::new`, followed by the coercion to `Box<dyn Any + Send + Sync>`: the
/// cell holds `value`, and reports `T` as its type.
#[verifier::external_body]
pub(crate) fn seal<T: Send + Sync + 'static>(value: T) -> (cell: Erased)
    ensures
        holds(payload(cell), value),
{
    Erased { boxed: Box::new(value) }
}

/// `<dyn Any + Send + Sync>::downcast_ref::<T>()`: a reference to the held
/// value if its type is `T`, nothing otherwise.
#[verifier::external_body]
pub(crate) fn open_ref<T: Send + Sync + 'static>(cell: &Erased) -> (found: Option<&T>)
    ensures
        found is Some <==> kind(payload(*cell)) == key_of::<T>(),
        found matches Some(v) ==> holds(payload(*cell), *v),
{
    cell.boxed.downcast_ref::<T>()
}

/// `<dyn Any + Send + Sync>::downcast_mut::<T>()`: a mutable reference to the
/// held value if its type is `T`, nothing otherwise. Whatever is written
/// through the reference is what the cell holds afterwards, still of type `T`.
#[verifier::external_body]
pub(crate) fn open_mut<T: Send + Sync + 'static>(cell: &mut Erased) -> (found: Option<&mut T>)
    ensures
        found is Some <==> kind(payload(*old(cell))) == key_of::<T>(),
        found matches Some(v) ==> holds(payload(*old(cell)), *v) && holds(
            payload(*final(cell)),
            *final(v),
        ),
        found is None ==> *final(cell) == *old(cell),
{
    cell.boxed.downcast_mut::<T>()
}

/// `Box<dyn Any + Send + Sync>::downcast::<T>()`: the held value, moved out,
/// if its type is `T`; otherwise the cell comes back as it was.
#[verifier::external_body]
pub(crate) fn open<T: Send + Sync + 'static>(cell: Erased) -> (taken: Result<T, Erased>)
    ensures
        taken is Ok <==> kind(payload(cell)) == key_of::<T>(),
        taken matches Ok(v) ==> holds(payload(cell), v),
        taken matches Err(back) ==> back == cell,
{
    match cell.boxed.downcast::<T>() {
        Ok(value) => Ok(*value),
        Err(boxed) => Err(Erased { boxed }),
    }
}

} // verus!
