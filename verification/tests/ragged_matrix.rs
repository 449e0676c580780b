use pois_bridge::c_types::{I32ArrOfArr, I64ArrOfArr};
use pois_bridge::error::BridgeError;
use pois_bridge::ragged::{copy_prefix, decode_row, decode_rows, encode_rows, rows_fit};
use pois_bridge::utils::{
    c_pointer_to_i32_array_of_array, c_ptr_to_i64_array_of_array, i64_array_of_array_to_c_ptr,
};

fn decode(native: &I64ArrOfArr) -> Result<Vec<Vec<i64>>, BridgeError> {
    c_ptr_to_i64_array_of_array(&native.main_array, &native.sub_array_lengths, native.length)
}

#[test]
fn encode_two_rows_of_three() {
    let native = i64_array_of_array_to_c_ptr(vec![vec![1, 2, 3], vec![4, 5, 6]]);
    assert_eq!(native.sub_array_lengths, Some(vec![3, 3]));
    assert_eq!(native.length, 2);
    assert_eq!(
        native.main_array,
        Some(vec![Some(vec![1, 2, 3]), Some(vec![4, 5, 6])])
    );
}

#[test]
fn ragged_rows_keep_their_lengths() {
    let native = i64_array_of_array_to_c_ptr(vec![vec![7, 8, 9], vec![10, 11, 12, 13]]);
    assert_eq!(native.sub_array_lengths, Some(vec![3, 4]));
    assert_eq!(
        decode(&native),
        Ok(vec![vec![7, 8, 9], vec![10, 11, 12, 13]])
    );
}

#[test]
fn one_empty_row_is_one_row() {
    let native = i64_array_of_array_to_c_ptr(vec![vec![]]);
    assert_eq!(native.main_array, Some(vec![None]));
    assert_eq!(native.sub_array_lengths, Some(vec![0]));
    assert_eq!(native.length, 1);
    let rows = decode(&native).unwrap();
    assert_eq!(rows.len(), 1);
    assert_eq!(rows, vec![Vec::<i64>::new()]);
}

#[test]
fn no_rows_are_two_null_arrays() {
    let native = i64_array_of_array_to_c_ptr(vec![]);
    assert_eq!(native.main_array, None);
    assert_eq!(native.sub_array_lengths, None);
    assert_eq!(native.length, 0);
    assert_eq!(decode(&native), Ok(Vec::<Vec<i64>>::new()));
}

#[test]
fn count_zero_reads_neither_array() {
    let native = I64ArrOfArr {
        main_array: Some(vec![Some(vec![1])]),
        sub_array_lengths: Some(vec![5]),
        length: 0,
    };
    assert_eq!(decode(&native), Ok(Vec::<Vec<i64>>::new()));
    assert_eq!(
        c_ptr_to_i64_array_of_array(&None, &Some(vec![1]), 0),
        Ok(Vec::<Vec<i64>>::new())
    );
}

#[test]
fn round_trip_with_empty_rows_between() {
    let rows = vec![vec![], vec![i64::MIN, -1, 0, 1, i64::MAX], vec![], vec![42], vec![]];
    let native = i64_array_of_array_to_c_ptr(rows.clone());
    assert_eq!(
        native.main_array,
        Some(vec![
            None,
            Some(vec![i64::MIN, -1, 0, 1, i64::MAX]),
            None,
            Some(vec![42]),
            None
        ])
    );
    assert_eq!(native.sub_array_lengths, Some(vec![0, 5, 0, 1, 0]));
    assert_eq!(native.length, 5);
    assert_eq!(decode(&native), Ok(rows));
}

#[test]
fn round_trip_of_bytes_and_of_32_bit_integers() {
    let bytes: Vec<Vec<u8>> = vec![vec![0, 255], vec![], vec![7]];
    let (table, lengths, count) = encode_rows(&bytes);
    assert_eq!(count, 3);
    assert_eq!(lengths, Some(vec![2, 0, 1]));
    assert_eq!(decode_rows(&table, &lengths, count), Ok(bytes));

    let ints: Vec<Vec<i32>> = vec![vec![i32::MIN, i32::MAX], vec![-5]];
    let (table, lengths, count) = encode_rows(&ints);
    let native = I32ArrOfArr { main_array: table, sub_array_length: lengths, length: count };
    assert_eq!(
        c_pointer_to_i32_array_of_array(
            &native.main_array,
            &native.sub_array_length,
            native.length
        ),
        Ok(ints)
    );
}

#[test]
fn encoded_rows_are_copies() {
    let mut rows = vec![vec![1i64, 2], vec![3]];
    let (table, _, _) = encode_rows(&rows);
    rows[0][0] = 99;
    assert_eq!(table, Some(vec![Some(vec![1, 2]), Some(vec![3])]));
}

#[test]
fn decoding_twice_gives_equal_and_separate_copies() {
    let native = i64_array_of_array_to_c_ptr(vec![vec![1, 2], vec![], vec![3]]);
    let before = native.clone();
    let mut first = decode(&native).unwrap();
    let second = decode(&native).unwrap();
    assert_eq!(first, second);
    first[0][0] = -7;
    first.push(vec![8]);
    assert_eq!(second, vec![vec![1, 2], vec![], vec![3]]);
    assert_eq!(native, before);
    assert_eq!(decode(&native), Ok(second));
}

#[test]
fn decoded_rows_stop_at_the_declared_length() {
    let native = I64ArrOfArr {
        main_array: Some(vec![Some(vec![1, 2, 3, 4]), Some(vec![5, 6]), Some(vec![9])]),
        sub_array_lengths: Some(vec![2, 0, 1, 7]),
        length: 2,
    };
    assert_eq!(decode(&native), Ok(vec![vec![1, 2], vec![]]));
}

#[test]
fn inflated_row_length_is_out_of_bounds() {
    let native = I64ArrOfArr {
        main_array: Some(vec![Some(vec![1, 2, 3]), Some(vec![4, 5, 6])]),
        sub_array_lengths: Some(vec![3, 4]),
        length: 2,
    };
    assert_eq!(decode(&native), Err(BridgeError::OutOfBounds));
}

#[test]
fn inflated_row_count_is_out_of_bounds() {
    let native = I64ArrOfArr {
        main_array: Some(vec![Some(vec![1])]),
        sub_array_lengths: Some(vec![1, 0]),
        length: 2,
    };
    assert_eq!(decode(&native), Err(BridgeError::OutOfBounds));
    let native = I64ArrOfArr {
        main_array: Some(vec![Some(vec![1]), None]),
        sub_array_lengths: Some(vec![1]),
        length: 2,
    };
    assert_eq!(decode(&native), Err(BridgeError::OutOfBounds));
}

#[test]
fn negative_count_or_length_is_out_of_bounds() {
    let native = I64ArrOfArr {
        main_array: Some(vec![Some(vec![1])]),
        sub_array_lengths: Some(vec![1]),
        length: -1,
    };
    assert_eq!(decode(&native), Err(BridgeError::OutOfBounds));
    let native = I64ArrOfArr {
        main_array: Some(vec![Some(vec![1])]),
        sub_array_lengths: Some(vec![-1]),
        length: 1,
    };
    assert_eq!(decode(&native), Err(BridgeError::OutOfBounds));
}

#[test]
fn null_where_something_is_read_is_out_of_bounds() {
    assert_eq!(
        c_ptr_to_i64_array_of_array(&None, &Some(vec![0]), 1),
        Err(BridgeError::OutOfBounds)
    );
    assert_eq!(
        c_ptr_to_i64_array_of_array(&Some(vec![None]), &None, 1),
        Err(BridgeError::OutOfBounds)
    );
    assert_eq!(
        c_ptr_to_i64_array_of_array(&Some(vec![None]), &Some(vec![1]), 1),
        Err(BridgeError::OutOfBounds)
    );
}

#[test]
fn length_zero_goes_with_any_address() {
    assert_eq!(
        c_ptr_to_i64_array_of_array(&Some(vec![None, Some(vec![5])]), &Some(vec![0, 0]), 2),
        Ok(vec![vec![], vec![]])
    );
}

#[test]
fn one_row_alone() {
    assert_eq!(decode_row(&Some(vec![1u8, 2, 3]), 2), Ok(vec![1, 2]));
    assert_eq!(decode_row(&Some(vec![1u8, 2, 3]), 3), Ok(vec![1, 2, 3]));
    assert_eq!(decode_row(&Some(vec![1u8, 2, 3]), 4), Err(BridgeError::OutOfBounds));
    assert_eq!(decode_row(&Some(vec![1u8, 2, 3]), -1), Err(BridgeError::OutOfBounds));
    assert_eq!(decode_row::<u8>(&None, 0), Ok(vec![]));
    assert_eq!(decode_row::<u8>(&None, 1), Err(BridgeError::OutOfBounds));
    assert_eq!(copy_prefix(&[4i32, 5, 6], 2), vec![4, 5]);
    assert_eq!(copy_prefix(&[4i32, 5, 6], 0), Vec::<i32>::new());
}

#[test]
fn errors_have_messages() {
    assert_eq!(BridgeError::SymbolNotFound.message(), "symbol not found in the native library");
    assert_eq!(BridgeError::MalformedInteger.message(), "malformed integer");
    assert_eq!(BridgeError::OutOfBounds.message(), "length out of bounds");
    assert_eq!(BridgeError::AllocationFailure.message(), "allocation failure");
}

#[test]
fn ordinary_matrices_fit_the_layout() {
    assert!(rows_fit::<i64>(&[]));
    assert!(rows_fit(&[vec![1u8, 2], vec![], vec![3]]));
    assert!(rows_fit(&[Vec::<i32>::new()]));
}
