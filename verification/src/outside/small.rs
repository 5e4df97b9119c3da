//! Vectors of the `smallvec` crate, which keep their first items inline.

use crate::types::field::{FieldRef, FieldView};
use smallvec::SmallVec;
use vstd::prelude::*;

verus! {

/// A `smallvec::SmallVec` that keeps up to `N` items inline.
#[verifier::external_body]
#[verifier::reject_recursive_types(T)]
#[derive(Debug, PartialEq, Eq)]
pub struct Small<T, const N: usize> {
    items: SmallVec<[T; N]>,
}

/// The tags and values of the fields that the vector holds, in order.
pub uninterp spec fn fields_in(list: Small<FieldRef<'_>, 32>) -> Seq<FieldView>;

/// The flags that the vector holds, in order.
pub uninterp spec fn flags_in(list: Small<bool, 56>) -> Seq<bool>;

/// The bytes that the vector holds, in order.
pub uninterp spec fn bytes_in(list: Small<u8, 10>) -> Seq<u8>;

/// `SmallVec::new`: no fields.
#[verifier::external_body]
pub(crate) fn no_fields<'a>() -> (list: Small<FieldRef<'a>, 32>)
    ensures
        fields_in(list) == Seq::<FieldView>::empty(),
{
    Small { items: SmallVec::new() }
}

/// `SmallVec::push`: appends `field`.
#[verifier::external_body]
pub(crate) fn push_field<'a>(list: &mut Small<FieldRef<'a>, 32>, field: FieldRef<'a>)
    ensures
        fields_in(*final(list)) == fields_in(*old(list)).push(field@),
{
    list.items.push(field)
}

/// `SmallVec::as_slice`: the fields as a slice.
#[verifier::external_body]
pub(crate) fn field_slice<'a, 'b>(list: &'b Small<FieldRef<'a>, 32>) -> (fields: &'b [FieldRef<
    'a,
>])
    ensures
        fields@.len() == fields_in(*list).len(),
        forall|i: int| 0 <= i < fields@.len() ==> (#[trigger] fields@[i])@ == fields_in(*list)[i],
{
    list.items.as_slice()
}

/// `SmallVec::new`: no flags.
#[verifier::external_body]
pub(crate) fn no_flags() -> (list: Small<bool, 56>)
    ensures
        flags_in(list) == Seq::<bool>::empty(),
{
    Small { items: SmallVec::new() }
}

/// `SmallVec::from_vec`: the flags of `flags`.
#[verifier::external_body]
pub(crate) fn flags_from_vec(flags: Vec<bool>) -> (list: Small<bool, 56>)
    ensures
        flags_in(list) == flags@,
{
    Small { items: SmallVec::from_vec(flags) }
}

/// `SmallVec::push`: appends `flag`.
#[verifier::external_body]
pub(crate) fn push_flag(list: &mut Small<bool, 56>, flag: bool)
    ensures
        flags_in(*final(list)) == flags_in(*old(list)).push(flag),
{
    list.items.push(flag)
}

/// `SmallVec::as_slice`: the flags as a slice.
#[verifier::external_body]
pub(crate) fn flag_slice(list: &Small<bool, 56>) -> (flags: &[bool])
    ensures
        flags@ == flags_in(*list),
{
    list.items.as_slice()
}

/// `SmallVec::clone`: a vector of its own with the same flags.
#[verifier::external_body]
pub(crate) fn clone_flags(list: &Small<bool, 56>) -> (copy: Small<bool, 56>)
    ensures
        flags_in(copy) == flags_in(*list),
{
    Small { items: list.items.clone() }
}

/// `SmallVec::new`: no bytes.
#[verifier::external_body]
pub(crate) fn no_bytes() -> (list: Small<u8, 10>)
    ensures
        bytes_in(list) == Seq::<u8>::empty(),
{
    Small { items: SmallVec::new() }
}

/// `SmallVec::push`: appends `byte`.
#[verifier::external_body]
pub(crate) fn push_byte(list: &mut Small<u8, 10>, byte: u8)
    ensures
        bytes_in(*final(list)) == bytes_in(*old(list)).push(byte),
{
    list.items.push(byte)
}

/// `SmallVec::as_slice`: the bytes as a slice.
#[verifier::external_body]
pub(crate) fn byte_slice(list: &Small<u8, 10>) -> (bytes: &[u8])
    ensures
        bytes@ == bytes_in(*list),
{
    list.items.as_slice()
}

} // verus!
