//! Rows of varying length stored in a rectangular table.
//!
//! A table has one row per record, and every row has the table's width. A row
//! that holds fewer values than the width is filled up at its end with the
//! "no data" value of its element type, and is recovered by cutting it at the
//! first "no data" value.

use vstd::prelude::*;

verus! {

/// An element type of the persisted columns, with its "no data" value: the
/// largest value of the type.
pub trait NoData: Copy + Sized {
    /// The "no data" value.
    spec fn no_data() -> Self;

    /// The "no data" value.
    fn fill() -> (f: Self)
        ensures
            f == Self::no_data(),
    ;

    /// Whether `self` is the "no data" value.
    fn is_fill(&self) -> (b: bool)
        ensures
            b == (*self == Self::no_data()),
    ;
}

impl NoData for u8 {
    open spec fn no_data() -> u8 {
        u8::MAX
    }

    fn fill() -> (f: u8) {
        u8::MAX
    }

    fn is_fill(&self) -> (b: bool) {
        *self == u8::MAX
    }
}

impl NoData for u32 {
    open spec fn no_data() -> u32 {
        u32::MAX
    }

    fn fill() -> (f: u32) {
        u32::MAX
    }

    fn is_fill(&self) -> (b: bool) {
        *self == u32::MAX
    }
}

impl NoData for u64 {
    open spec fn no_data() -> u64 {
        u64::MAX
    }

    fn fill() -> (f: u64) {
        u64::MAX
    }

    fn is_fill(&self) -> (b: bool) {
        *self == u64::MAX
    }
}

impl NoData for i64 {
    open spec fn no_data() -> i64 {
        i64::MAX
    }

    fn fill() -> (f: i64) {
        i64::MAX
    }

    fn is_fill(&self) -> (b: bool) {
        *self == i64::MAX
    }
}

/// The row `row` brought to `width` entries: its own entries first, then
/// "no data". A row longer than `width` loses its end.
pub open spec fn padded<T: NoData>(row: Seq<T>, width: nat) -> Seq<T> {
    Seq::new(width, |j: int| if j < row.len() { row[j] } else { T::no_data() })
}

/// The number of entries of `row` before its first "no data" entry.
pub open spec fn data_len<T: NoData>(row: Seq<T>) -> nat
    decreases row.len(),
{
    if row.len() == 0 || row[0] == T::no_data() {
        0
    } else {
        1 + data_len(row.skip(1))
    }
}

/// The entries of `row` before its first "no data" entry.
pub open spec fn unpadded<T: NoData>(row: Seq<T>) -> Seq<T> {
    row.take(data_len(row) as int)
}

/// `data_len(row)` is the one position up to which no entry is "no data" and
/// at which the row ends or holds "no data".
pub proof fn lemma_data_len<T: NoData>(row: Seq<T>, k: int)
    requires
        0 <= k <= row.len(),
        forall|j: int| 0 <= j < k ==> row[j] != T::no_data(),
        k == row.len() || row[k] == T::no_data(),
    ensures
        data_len(row) == k,
    decreases row.len(),
{
    if row.len() == 0 || row[0] == T::no_data() {
    } else {
        let rest = row.skip(1);
        assert forall|j: int| 0 <= j < k - 1 implies rest[j] != T::no_data() by {
            assert(rest[j] == row[j + 1]);
        }
        lemma_data_len(rest, k - 1);
    }
}

/// Cutting a padded row gives the row back, provided that the row holds no
/// "no data" value of its own and is not longer than the width.
pub proof fn lemma_unpadded_padded<T: NoData>(row: Seq<T>, width: nat)
    requires
        row.len() <= width,
        !row.contains(T::no_data()),
    ensures
        unpadded(padded(row, width)) == row,
{
    let p = padded(row, width);
    assert forall|j: int| 0 <= j < row.len() implies p[j] != T::no_data() by {
        assert(row.contains(row[j]));
    }
    lemma_data_len(p, row.len() as int);
    assert(p.take(row.len() as int) =~= row);
}

/// Brings a row to `width` entries by filling it up with "no data".
pub fn pad_row<T: NoData>(row: &Vec<T>, width: usize) -> (r: Vec<T>)
    requires
        row@.len() <= width,
    ensures
        r@ == padded(row@, width as nat),
{
    let mut r: Vec<T> = Vec::new();
    let mut j: usize = 0;
    while j < width
        invariant
            j <= width,
            r@.len() == j,
            forall|k: int| 0 <= k < j ==> r@[k] == padded(row@, width as nat)[k],
        decreases width - j,
    {
        if j < row.len() {
            r.push(row[j]);
        } else {
            r.push(T::fill());
        }
        j = j + 1;
    }
    assert(r@ =~= padded(row@, width as nat));
    r
}

/// Cuts a row at its first "no data" entry.
pub fn unpad_row<T: NoData>(row: &Vec<T>) -> (r: Vec<T>)
    ensures
        r@ == unpadded(row@),
{
    let mut r: Vec<T> = Vec::new();
    let mut j: usize = 0;
    while j < row.len() && !row[j].is_fill()
        invariant
            j <= row@.len(),
            r@ == row@.take(j as int),
            forall|k: int| 0 <= k < j ==> row@[k] != T::no_data(),
        decreases row@.len() - j,
    {
        r.push(row[j]);
        assert(row@.take(j as int + 1) =~= row@.take(j as int).push(row@[j as int]));
        j = j + 1;
    }
    proof {
        lemma_data_len(row@, j as int);
    }
    r
}

/// Whether a column holds the "no data" value anywhere.
pub fn has_no_data<T: NoData>(column: &Vec<T>) -> (b: bool)
    ensures
        b == column@.contains(T::no_data()),
{
    let mut j: usize = 0;
    while j < column.len()
        invariant
            j <= column@.len(),
            forall|k: int| 0 <= k < j ==> column@[k] != T::no_data(),
        decreases column@.len() - j,
    {
        if column[j].is_fill() {
            return true;
        }
        j = j + 1;
    }
    false
}

} // verus!
