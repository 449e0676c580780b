//! Ragged matrices and the flat layout they take on the native side.
//!
//! A ragged matrix is a sequence of rows, each row a sequence of its own
//! length. Across the boundary it travels as three values: an array with one
//! buffer address per row, an array with one 32-bit length per row, and the
//! row count. A row without elements has the null address and length 0, and a
//! matrix without rows has two null arrays and count 0.

use vstd::prelude::*;
use crate::error::BridgeError;

verus! {

/// The three values of the flat layout, as mathematical values. `None` is a
/// null pointer; a sequence is the whole allocation behind a pointer.
#[verifier::ext_equal]
pub struct Layout<T> {
    /// One buffer per row.
    pub arrays: Option<Seq<Option<Seq<T>>>>,
    /// One declared length per row.
    pub lengths: Option<Seq<i32>>,
    /// The declared number of rows.
    pub count: int,
}

/// What a buffer holds.
pub open spec fn buffer_view<T>(buffer: Option<Vec<T>>) -> Option<Seq<T>> {
    match buffer {
        Some(elements) => Some(elements@),
        None => None,
    }
}

/// What an array of row buffers holds.
pub open spec fn table_view<T>(table: Option<Vec<Option<Vec<T>>>>) -> Option<Seq<Option<Seq<T>>>> {
    match table {
        Some(buffers) => Some(buffers@.map_values(|b: Option<Vec<T>>| buffer_view(b))),
        None => None,
    }
}

/// What an array of row lengths holds.
pub open spec fn lengths_view(lengths: Option<Vec<i32>>) -> Option<Seq<i32>> {
    match lengths {
        Some(values) => Some(values@),
        None => None,
    }
}

/// The layout that three native values make up.
pub open spec fn layout_view<T>(
    table: Option<Vec<Option<Vec<T>>>>,
    lengths: Option<Vec<i32>>,
    count: i32,
) -> Layout<T> {
    Layout { arrays: table_view(table), lengths: lengths_view(lengths), count: count as int }
}

/// The rows of a managed matrix.
pub open spec fn matrix_view<T>(rows: Seq<Vec<T>>) -> Seq<Seq<T>> {
    rows.map_values(|r: Vec<T>| r@)
}

/// Whether `len` elements can be read at `buffer`. Nothing is read for a
/// length of 0, so any address goes with it, the null one too.
pub open spec fn row_in_bounds<T>(buffer: Option<Seq<T>>, len: i32) -> bool {
    len == 0 || (len > 0 && buffer is Some && len <= buffer.unwrap().len())
}

/// The first `len` elements at `buffer`.
pub open spec fn row_at<T>(buffer: Option<Seq<T>>, len: i32) -> Seq<T> {
    if len > 0 && buffer is Some {
        buffer.unwrap().take(len as int)
    } else {
        Seq::empty()
    }
}

impl<T> Layout<T> {
    /// Whether every declared count and length stays inside the allocation
    /// it describes. With a count of 0 neither array is looked at.
    pub open spec fn in_bounds(self) -> bool {
        self.count == 0 || {
            &&& self.count > 0
            &&& self.arrays is Some
            &&& self.lengths is Some
            &&& self.count <= self.arrays.unwrap().len()
            &&& self.count <= self.lengths.unwrap().len()
            &&& forall|i: int|
                0 <= i < self.count ==> #[trigger] row_in_bounds(
                    self.arrays.unwrap()[i],
                    self.lengths.unwrap()[i],
                )
        }
    }

    /// The rows that the layout declares.
    pub open spec fn rows(self) -> Seq<Seq<T>> {
        Seq::new(
            if self.count > 0 { self.count as nat } else { 0 },
            |i: int| row_at(self.arrays.unwrap()[i], self.lengths.unwrap()[i]),
        )
    }

    /// The matrix that the layout stands for, or `OutOfBounds`.
    pub open spec fn decoded(self) -> Result<Seq<Seq<T>>, BridgeError> {
        if self.in_bounds() {
            Ok(self.rows())
        } else {
            Err(BridgeError::OutOfBounds)
        }
    }
}

/// Whether the row count and every row length can be written in 32 bits.
pub open spec fn fits<T>(rows: Seq<Seq<T>>) -> bool {
    &&& rows.len() <= i32::MAX
    &&& forall|i: int| 0 <= i < rows.len() ==> (#[trigger] rows[i]).len() <= i32::MAX
}

/// The layout of a matrix: each row in a buffer of exactly its length, an
/// empty row at the null address, and no arrays at all for no rows.
pub open spec fn encoded<T>(rows: Seq<Seq<T>>) -> Layout<T> {
    if rows.len() == 0 {
        Layout { arrays: None, lengths: None, count: 0 }
    } else {
        Layout {
            arrays: Some(
                rows.map_values(
                    |r: Seq<T>|
                        if r.len() == 0 {
                            None
                        } else {
                            Some(r)
                        },
                ),
            ),
            lengths: Some(rows.map_values(|r: Seq<T>| r.len() as i32)),
            count: rows.len() as int,
        }
    }
}

/// What a decoder hands back, over mathematical values.
pub open spec fn decoded_view<T>(res: Result<Vec<Vec<T>>, BridgeError>) -> Result<
    Seq<Seq<T>>,
    BridgeError,
> {
    match res {
        Ok(rows) => Ok(matrix_view(rows@)),
        Err(e) => Err(e),
    }
}

/// Tells whether a matrix can be written in the flat layout.
pub fn rows_fit<T>(rows: &[Vec<T>]) -> (res: bool)
    ensures
        res == fits(matrix_view(rows@)),
{
    let n = rows.len();
    if n > i32::MAX as usize {
        return false;
    }
    let mut i: usize = 0;
    while i < n
        invariant
            i <= n == rows@.len(),
            forall|j: int| 0 <= j < i ==> (#[trigger] matrix_view(rows@)[j]).len() <= i32::MAX,
        decreases n - i,
    {
        if rows[i].len() > i32::MAX as usize {
            assert(matrix_view(rows@)[i as int].len() > i32::MAX);
            return false;
        }
        i += 1;
    }
    true
}

/// A fresh vector with the first `len` elements of `source`.
pub fn copy_prefix<T: Copy>(source: &[T], len: usize) -> (copy: Vec<T>)
    requires
        len <= source@.len(),
    ensures
        copy@ == source@.take(len as int),
{
    let mut copy: Vec<T> = Vec::with_capacity(len);
    let mut i: usize = 0;
    while i < len
        invariant
            i <= len <= source@.len(),
            copy@ == source@.take(i as int),
        decreases len - i,
    {
        copy.push(source[i]);
        i += 1;
    }
    copy
}

/// Reads one row: `len` elements at `buffer`, copied into a vector of its
/// own. Fails when the length is negative or reaches past the buffer.
pub fn decode_row<T: Copy>(buffer: &Option<Vec<T>>, len: i32) -> (res: Result<Vec<T>, BridgeError>)
    ensures
        match res {
            Ok(row) => row_in_bounds(buffer_view(*buffer), len) && row@ == row_at(
                buffer_view(*buffer),
                len,
            ),
            Err(e) => !row_in_bounds(buffer_view(*buffer), len) && e == BridgeError::OutOfBounds,
        },
{
    if len < 0 {
        return Err(BridgeError::OutOfBounds);
    }
    if len == 0 {
        return Ok(Vec::new());
    }
    match buffer {
        Some(elements) => {
            if elements.len() < len as usize {
                Err(BridgeError::OutOfBounds)
            } else {
                Ok(copy_prefix(elements.as_slice(), len as usize))
            }
        },
        None => Err(BridgeError::OutOfBounds),
    }
}

/// Reads a ragged matrix from its flat layout. Every row is copied, so the
/// result shares nothing with the native values. Fails with `OutOfBounds`,
/// and hands back no rows at all, as soon as one count or length does not
/// stay inside its allocation.
pub fn decode_rows<T: Copy>(
    table: &Option<Vec<Option<Vec<T>>>>,
    lengths: &Option<Vec<i32>>,
    count: i32,
) -> (res: Result<Vec<Vec<T>>, BridgeError>)
    ensures
        decoded_view(res) == layout_view(*table, *lengths, count).decoded(),
{
    let ghost layout = layout_view(*table, *lengths, count);
    if count < 0 {
        return Err(BridgeError::OutOfBounds);
    }
    if count == 0 {
        let rows: Vec<Vec<T>> = Vec::new();
        assert(matrix_view(rows@) =~= layout.rows());
        return Ok(rows);
    }
    let n = count as usize;
    let buffers = match table {
        Some(buffers) => buffers,
        None => { return Err(BridgeError::OutOfBounds); },
    };
    let declared = match lengths {
        Some(declared) => declared,
        None => { return Err(BridgeError::OutOfBounds); },
    };
    if buffers.len() < n || declared.len() < n {
        return Err(BridgeError::OutOfBounds);
    }
    let mut rows: Vec<Vec<T>> = Vec::with_capacity(n);
    let mut i: usize = 0;
    while i < n
        invariant
            i <= n == count,
            n <= buffers.len(),
            n <= declared.len(),
            layout == layout_view(*table, *lengths, count),
            *table == Some(*buffers),
            *lengths == Some(*declared),
            rows.len() == i,
            forall|j: int|
                0 <= j < i ==> #[trigger] row_in_bounds(
                    layout.arrays.unwrap()[j],
                    layout.lengths.unwrap()[j],
                ),
            forall|j: int| 0 <= j < i ==> (#[trigger] rows[j])@ == layout.rows()[j],
        decreases n - i,
    {
        match decode_row(&buffers[i], declared[i]) {
            Ok(row) => {
                rows.push(row);
            },
            Err(e) => {
                assert(!row_in_bounds(
                    layout.arrays.unwrap()[i as int],
                    layout.lengths.unwrap()[i as int],
                ));
                return Err(e);
            },
        }
        i += 1;
    }
    assert(matrix_view(rows@) =~= layout.rows());
    Ok(rows)
}

/// Writes a ragged matrix in its flat layout: the array of row buffers, the
/// array of row lengths and the row count. Every row that holds elements is
/// copied into a buffer of exactly its length; an empty row gets the null
/// address, and a matrix without rows gets two null arrays.
pub fn encode_rows<T: Copy>(rows: &[Vec<T>]) -> (res: (
    Option<Vec<Option<Vec<T>>>>,
    Option<Vec<i32>>,
    i32,
))
    requires
        fits(matrix_view(rows@)),
    ensures
        layout_view(res.0, res.1, res.2) == encoded(matrix_view(rows@)),
        layout_view(res.0, res.1, res.2).in_bounds(),
{
    let ghost matrix = matrix_view(rows@);
    proof {
        lemma_decode_encode(matrix);
    }
    let n = rows.len();
    if n == 0 {
        return (None, None, 0);
    }
    let mut buffers: Vec<Option<Vec<T>>> = Vec::with_capacity(n);
    let mut declared: Vec<i32> = Vec::with_capacity(n);
    let mut i: usize = 0;
    while i < n
        invariant
            i <= n == rows@.len(),
            matrix == matrix_view(rows@),
            fits(matrix),
            buffers.len() == i,
            declared.len() == i,
            forall|j: int|
                0 <= j < i ==> buffer_view(#[trigger] buffers[j]) == encoded(
                    matrix,
                ).arrays.unwrap()[j],
            forall|j: int|
                0 <= j < i ==> #[trigger] declared[j] == encoded(matrix).lengths.unwrap()[j],
        decreases n - i,
    {
        let row = &rows[i];
        let len = row.len();
        assert(matrix[i as int] == row@);
        if len == 0 {
            buffers.push(None);
        } else {
            let copy = copy_prefix(row.as_slice(), len);
            assert(copy@ =~= row@);
            buffers.push(Some(copy));
        }
        declared.push(len as i32);
        i += 1;
    }
    let res = (Some(buffers), Some(declared), n as i32);
    assert(layout_view(res.0, res.1, res.2) =~~= encoded(matrix));
    res
}

/// Decoding what was encoded gives the matrix back: every row in its place
/// with its elements in order, rows without elements and the matrix without
/// rows included.
pub proof fn lemma_decode_encode<T>(rows: Seq<Seq<T>>)
    requires
        fits(rows),
    ensures
        encoded(rows).in_bounds(),
        encoded(rows).decoded() == Ok::<Seq<Seq<T>>, BridgeError>(rows),
{
    let layout = encoded(rows);
    if rows.len() > 0 {
        assert forall|i: int| 0 <= i < layout.count implies #[trigger] row_in_bounds(
            layout.arrays.unwrap()[i],
            layout.lengths.unwrap()[i],
        ) by {
            assert(rows[i].len() <= i32::MAX);
        }
        assert forall|i: int| 0 <= i < rows.len() implies layout.rows()[i] == rows[i] by {
            assert(rows[i].len() <= i32::MAX);
            assert(rows[i].take(rows[i].len() as int) =~= rows[i]);
            assert(layout.rows()[i] =~= rows[i]);
        }
    }
    assert(layout.rows() =~= rows);
}

/// A layout stands for one matrix: two readings of the same layout hold the
/// same rows, whatever became of the first in between.
pub proof fn lemma_decode_twice<T>(
    layout: Layout<T>,
    first: Result<Vec<Vec<T>>, BridgeError>,
    second: Result<Vec<Vec<T>>, BridgeError>,
)
    requires
        decoded_view(first) == layout.decoded(),
        decoded_view(second) == layout.decoded(),
    ensures
        decoded_view(first) == decoded_view(second),
        first is Ok <==> second is Ok,
        first is Ok ==> first.unwrap().len() == second.unwrap().len(),
        first is Ok ==> forall|i: int|
            0 <= i < first.unwrap().len() ==> (#[trigger] first.unwrap()[i])@
                == second.unwrap()[i]@,
{
    if first is Ok {
        let a = first.unwrap();
        let b = second.unwrap();
        assert(matrix_view(a@) == matrix_view(b@));
        assert(matrix_view(a@).len() == a.len());
        assert(matrix_view(b@).len() == b.len());
        assert forall|i: int| 0 <= i < a.len() implies (#[trigger] a[i])@ == b[i]@ by {
            assert(matrix_view(a@)[i] == a[i]@);
            assert(matrix_view(b@)[i] == b[i]@);
        }
    }
}

/// Whether `other` declares what `layout` declares and holds the same
/// elements as far as the declared lengths reach. What lies behind them,
/// and at the addresses of rows without elements, is left open.
pub open spec fn same_as_declared<T>(layout: Layout<T>, other: Layout<T>) -> bool {
    &&& other.count == layout.count
    &&& layout.count > 0 ==> {
        &&& other.arrays is Some
        &&& other.lengths is Some
        &&& layout.count <= other.arrays.unwrap().len()
        &&& layout.count <= other.lengths.unwrap().len()
        &&& forall|i: int|
            0 <= i < layout.count ==> {
                let len = #[trigger] layout.lengths.unwrap()[i];
                &&& other.lengths.unwrap()[i] == len
                &&& len > 0 ==> {
                    &&& other.arrays.unwrap()[i] is Some
                    &&& len <= other.arrays.unwrap()[i].unwrap().len()
                    &&& other.arrays.unwrap()[i].unwrap().take(len as int)
                        == layout.arrays.unwrap()[i].unwrap().take(len as int)
                }
            }
    }
}

/// Nothing is read behind a declared count or length: a layout that differs
/// from one in bounds only there stands for the same matrix.
pub proof fn lemma_decode_within_declared<T>(layout: Layout<T>, other: Layout<T>)
    requires
        layout.in_bounds(),
        same_as_declared(layout, other),
    ensures
        other.in_bounds(),
        other.decoded() == layout.decoded(),
{
    if layout.count > 0 {
        assert forall|i: int| 0 <= i < other.count implies #[trigger] row_in_bounds(
            other.arrays.unwrap()[i],
            other.lengths.unwrap()[i],
        ) by {
            assert(row_in_bounds(layout.arrays.unwrap()[i], layout.lengths.unwrap()[i]));
        }
        assert forall|i: int| 0 <= i < other.count implies #[trigger] other.rows()[i]
            == layout.rows()[i] by {
            assert(row_in_bounds(layout.arrays.unwrap()[i], layout.lengths.unwrap()[i]));
        }
    }
    assert(other.rows() =~= layout.rows());
}

} // verus!
