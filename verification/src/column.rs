//! Columns of per-sounding values, stored in one-dimensional `ndarray` arrays.
//!
//! Each column type holds one `ndarray::Array1` and is opaque to the verifier.
//! What a column holds is named by a specification function, and the few
//! operations the library needs are stated over that name. The statements are
//! taken from the documentation and source of `ndarray`; they are not proved.

use vstd::prelude::*;

verus! {

/// `ndarray::ShapeError`, the error of `ndarray::concatenate`.
#[verifier::external_type_specification]
#[verifier::external_body]
pub struct ExShapeError(ndarray::ShapeError);

/// The largest number of elements that `ndarray` accepts in one array.
pub open spec fn max_column_len() -> int {
    isize::MAX as int
}

/// A column of `u8` values: an `ndarray::Array1<u8>`.
#[verifier::external_body]
pub struct U8Column {
    inner: ndarray::Array1<u8>,
}

/// The elements of the column, first to last.
pub uninterp spec fn u8_column_items(c: U8Column) -> Seq<u8>;

impl View for U8Column {
    type V = Seq<u8>;

    open spec fn view(&self) -> Seq<u8> {
        u8_column_items(*self)
    }
}

/// `ndarray::Array1::from_vec`: the array takes over the vector's elements in
/// their order. Its documentation names a panic for lengths above `isize::MAX`,
/// which the precondition leaves out.
#[verifier::external_body]
pub(crate) fn u8_column_from_vec(v: Vec<u8>) -> (c: U8Column)
    requires
        v@.len() <= max_column_len(),
    ensures
        u8_column_items(c) == v@,
{
    U8Column { inner: ndarray::Array1::from_vec(v) }
}

/// `ndarray::ArrayBase::len`: the number of elements.
#[verifier::external_body]
pub(crate) fn u8_column_len(c: &U8Column) -> (n: usize)
    ensures
        n == u8_column_items(*c).len(),
{
    c.inner.len()
}

/// Indexing of a one-dimensional array (`Index<usize>` of `ndarray::ArrayBase`):
/// the element at position `i`. It panics out of bounds, which the precondition
/// leaves out.
#[verifier::external_body]
pub(crate) fn u8_column_get(c: &U8Column, i: usize) -> (x: u8)
    requires
        i < u8_column_items(*c).len(),
    ensures
        x == u8_column_items(*c)[i as int],
{
    c.inner[i]
}

/// `ndarray::concatenate` along axis 0 of two one-dimensional arrays: the
/// elements of `a` followed by those of `b`. For such arrays its source
/// returns an error only where the joint length exceeds `isize::MAX`.
#[verifier::external_body]
pub(crate) fn u8_column_concat(a: &U8Column, b: &U8Column) -> (r: Result<U8Column, ndarray::ShapeError>)
    ensures
        r matches Ok(c) ==> u8_column_items(c) == u8_column_items(*a) + u8_column_items(*b),
        u8_column_items(*a).len() + u8_column_items(*b).len() <= max_column_len() ==> r is Ok,
{
    match ndarray::concatenate(ndarray::Axis(0), &[a.inner.view(), b.inner.view()]) {
        Ok(inner) => Ok(U8Column { inner }),
        Err(e) => Err(e),
    }
}

/// A column of `u64` values: an `ndarray::Array1<u64>`.
#[verifier::external_body]
pub struct U64Column {
    inner: ndarray::Array1<u64>,
}

/// The elements of the column, first to last.
pub uninterp spec fn u64_column_items(c: U64Column) -> Seq<u64>;

impl View for U64Column {
    type V = Seq<u64>;

    open spec fn view(&self) -> Seq<u64> {
        u64_column_items(*self)
    }
}

/// `ndarray::Array1::from_vec`: the array takes over the vector's elements in
/// their order. Its documentation names a panic for lengths above `isize::MAX`,
/// which the precondition leaves out.
#[verifier::external_body]
pub(crate) fn u64_column_from_vec(v: Vec<u64>) -> (c: U64Column)
    requires
        v@.len() <= max_column_len(),
    ensures
        u64_column_items(c) == v@,
{
    U64Column { inner: ndarray::Array1::from_vec(v) }
}

/// `ndarray::ArrayBase::len`: the number of elements.
#[verifier::external_body]
pub(crate) fn u64_column_len(c: &U64Column) -> (n: usize)
    ensures
        n == u64_column_items(*c).len(),
{
    c.inner.len()
}

/// Indexing of a one-dimensional array (`Index<usize>` of `ndarray::ArrayBase`):
/// the element at position `i`. It panics out of bounds, which the precondition
/// leaves out.
#[verifier::external_body]
pub(crate) fn u64_column_get(c: &U64Column, i: usize) -> (x: u64)
    requires
        i < u64_column_items(*c).len(),
    ensures
        x == u64_column_items(*c)[i as int],
{
    c.inner[i]
}

/// `ndarray::concatenate` along axis 0 of two one-dimensional arrays: the
/// elements of `a` followed by those of `b`. For such arrays its source
/// returns an error only where the joint length exceeds `isize::MAX`.
#[verifier::external_body]
pub(crate) fn u64_column_concat(a: &U64Column, b: &U64Column) -> (r: Result<U64Column, ndarray::ShapeError>)
    ensures
        r matches Ok(c) ==> u64_column_items(c) == u64_column_items(*a) + u64_column_items(*b),
        u64_column_items(*a).len() + u64_column_items(*b).len() <= max_column_len() ==> r is Ok,
{
    match ndarray::concatenate(ndarray::Axis(0), &[a.inner.view(), b.inner.view()]) {
        Ok(inner) => Ok(U64Column { inner }),
        Err(e) => Err(e),
    }
}

/// A column of `i64` values: an `ndarray::Array1<i64>`.
#[verifier::external_body]
pub struct I64Column {
    inner: ndarray::Array1<i64>,
}

/// The elements of the column, first to last.
pub uninterp spec fn i64_column_items(c: I64Column) -> Seq<i64>;

impl View for I64Column {
    type V = Seq<i64>;

    open spec fn view(&self) -> Seq<i64> {
        i64_column_items(*self)
    }
}

/// `ndarray::Array1::from_vec`: the array takes over the vector's elements in
/// their order. Its documentation names a panic for lengths above `isize::MAX`,
/// which the precondition leaves out.
#[verifier::external_body]
pub(crate) fn i64_column_from_vec(v: Vec<i64>) -> (c: I64Column)
    requires
        v@.len() <= max_column_len(),
    ensures
        i64_column_items(c) == v@,
{
    I64Column { inner: ndarray::Array1::from_vec(v) }
}

/// `ndarray::ArrayBase::len`: the number of elements.
#[verifier::external_body]
pub(crate) fn i64_column_len(c: &I64Column) -> (n: usize)
    ensures
        n == i64_column_items(*c).len(),
{
    c.inner.len()
}

/// Indexing of a one-dimensional array (`Index<usize>` of `ndarray::ArrayBase`):
/// the element at position `i`. It panics out of bounds, which the precondition
/// leaves out.
#[verifier::external_body]
pub(crate) fn i64_column_get(c: &I64Column, i: usize) -> (x: i64)
    requires
        i < i64_column_items(*c).len(),
    ensures
        x == i64_column_items(*c)[i as int],
{
    c.inner[i]
}

/// `ndarray::concatenate` along axis 0 of two one-dimensional arrays: the
/// elements of `a` followed by those of `b`. For such arrays its source
/// returns an error only where the joint length exceeds `isize::MAX`.
#[verifier::external_body]
pub(crate) fn i64_column_concat(a: &I64Column, b: &I64Column) -> (r: Result<I64Column, ndarray::ShapeError>)
    ensures
        r matches Ok(c) ==> i64_column_items(c) == i64_column_items(*a) + i64_column_items(*b),
        i64_column_items(*a).len() + i64_column_items(*b).len() <= max_column_len() ==> r is Ok,
{
    match ndarray::concatenate(ndarray::Axis(0), &[a.inner.view(), b.inner.view()]) {
        Ok(inner) => Ok(I64Column { inner }),
        Err(e) => Err(e),
    }
}

} // verus!
