//! The arguments and results of the sample entry points, with which the two
//! sides try out each shape of value that crosses the boundary.

use vstd::prelude::*;
use crate::c_types::MyByte;
use crate::error::BridgeError;
use crate::ragged::{
    buffer_view,
    copy_prefix,
    decode_row,
    encode_rows,
    encoded,
    fits,
    layout_view,
    matrix_view,
    row_at,
    row_in_bounds,
};

verus! {

/// Whether `record` holds exactly the bytes `data` and their number.
pub open spec fn holds_bytes(record: MyByte, data: Seq<u8>) -> bool {
    &&& record.b is Some
    &&& record.b.unwrap()@ == data
    &&& record.length == data.len()
}

/// The argument of `GetByteArrayAsStruct`: a copy of the bytes with their
/// number beside it. `GetByteArray` takes the two fields one by one.
pub fn byte_array_as_struct(data: &[u8]) -> (record: MyByte)
    requires
        data@.len() <= i64::MAX,
    ensures
        holds_bytes(record, data@),
{
    let len = data.len();
    let copy = copy_prefix(data, len);
    assert(copy@ =~= data@);
    MyByte { b: Some(copy), length: len as i64 }
}

/// The arguments of `GetByteArrayAsStructArray`: one record per item and
/// the number of records.
pub fn byte_array_as_struct_array(items: &[Vec<u8>]) -> (res: (Vec<MyByte>, i64))
    requires
        items@.len() <= i64::MAX,
        forall|i: int| 0 <= i < items@.len() ==> (#[trigger] items@[i])@.len() <= i64::MAX,
    ensures
        res.0@.len() == items@.len(),
        forall|i: int| 0 <= i < items@.len() ==> holds_bytes(#[trigger] res.0@[i], items@[i]@),
        res.1 == items@.len(),
{
    let n = items.len();
    let mut records: Vec<MyByte> = Vec::with_capacity(n);
    let mut i: usize = 0;
    while i < n
        invariant
            i <= n == items@.len(),
            forall|j: int| 0 <= j < items@.len() ==> (#[trigger] items@[j])@.len() <= i64::MAX,
            records@.len() == i,
            forall|j: int| 0 <= j < i ==> holds_bytes(#[trigger] records@[j], items@[j]@),
        decreases n - i,
    {
        records.push(byte_array_as_struct(items[i].as_slice()));
        i += 1;
    }
    (records, n as i64)
}

/// The arguments of `GetByteArrayOfArray`, in the order in which it takes
/// them: the array of row buffers, the number of rows, and the array of row
/// lengths.
pub fn byte_array_of_array(rows: &[Vec<u8>]) -> (res: (
    Option<Vec<Option<Vec<u8>>>>,
    i32,
    Option<Vec<i32>>,
))
    requires
        fits(matrix_view(rows@)),
    ensures
        layout_view(res.0, res.2, res.1) == encoded(matrix_view(rows@)),
{
    let (table, lengths, count) = encode_rows(rows);
    (table, count, lengths)
}

/// Whether `len` elements can be read at each of the two buffers.
pub open spec fn pair_in_bounds(
    first: Option<Seq<i32>>,
    second: Option<Seq<i32>>,
    len: i32,
) -> bool {
    row_in_bounds(first, len) && row_in_bounds(second, len)
}

/// What `ReturnAnArray` hands back: two arrays of `len` integers each, each
/// copied into a vector of its own.
pub fn returned_arrays(first: &Option<Vec<i32>>, second: &Option<Vec<i32>>, len: i32) -> (res:
    Result<(Vec<i32>, Vec<i32>), BridgeError>)
    ensures
        match res {
            Ok((a, b)) => {
                &&& pair_in_bounds(buffer_view(*first), buffer_view(*second), len)
                &&& a@ == row_at(buffer_view(*first), len)
                &&& b@ == row_at(buffer_view(*second), len)
            },
            Err(e) => e == BridgeError::OutOfBounds && !pair_in_bounds(
                buffer_view(*first),
                buffer_view(*second),
                len,
            ),
        },
{
    let a = match decode_row(first, len) {
        Ok(a) => a,
        Err(e) => { return Err(e); },
    };
    let b = match decode_row(second, len) {
        Ok(b) => b,
        Err(e) => { return Err(e); },
    };
    Ok((a, b))
}

} // verus!
