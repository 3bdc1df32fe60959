//! What this crate takes on trust about code it does not verify: the
//! non-empty collections of `nonempty_tools`, and one method of `String`.
use nonempty_tools::{NonEmptySliceRef, NonEmptyVec};
use vstd::prelude::*;

verus! {

/// `nonempty_tools::NonEmptyVec<T>`, a vector that holds at least one
/// element. Its contents are not visible to the verifier.
#[verifier::external_type_specification]
#[verifier::external_body]
#[verifier::reject_recursive_types(T)]
pub struct ExNonEmptyVec<T>(NonEmptyVec<T>);

/// `nonempty_tools::NonEmptySliceRef<'a, T>`, a shared slice that holds at
/// least one element. Its contents are not visible to the verifier.
#[verifier::external_type_specification]
#[verifier::external_body]
#[verifier::reject_recursive_types(T)]
pub struct ExNonEmptySliceRef<'a, T>(NonEmptySliceRef<'a, T>);

/// `NonEmptyVec::into_inner` hands out the vector it wraps. Every way of
/// making a `NonEmptyVec` leaves at least one element in it and no method
/// takes one out, so the vector handed out is not empty. That is all that
/// is claimed here; which elements it holds is left open.
pub assume_specification<T>[ NonEmptyVec::<T>::into_inner ](v: NonEmptyVec<T>) -> (items: Vec<T>)
    ensures
        items@.len() >= 1,
;

/// `NonEmptySliceRef::as_slice` hands out the slice it wraps, which
/// `NonEmptySliceRef::new` accepted only if it was not empty. That is all
/// that is claimed here; which elements it holds is left open.
pub assume_specification<'a, 'b, T>[ NonEmptySliceRef::<'a, T>::as_slice ](
    s: &'b NonEmptySliceRef<'a, T>,
) -> (items: &'b [T])
    ensures
        items@.len() >= 1,
;

/// `String::push` appends one character to the end of the string.
pub assume_specification[ String::push ](s: &mut String, ch: char)
    ensures
        final(s)@ == old(s)@.push(ch),
;

} // verus!
