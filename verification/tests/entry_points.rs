use pois_bridge::c_types::{CommitC, MyByte, ProverID};
use pois_bridge::error::BridgeError;
use pois_bridge::examples::{
    byte_array_as_struct, byte_array_as_struct_array, byte_array_of_array, returned_arrays,
};
use pois_bridge::ffi::{
    generate_commit_challenge_args, prover_id, verify_commit_and_acc_proofs_args,
};
use pois_bridge::types::Commit;
use pois_bridge::utils::c_ptr_to_i64_array_of_array;

#[test]
fn prover_is_named_by_its_bytes() {
    assert_eq!(prover_id("miner-1"), ProverID { id: Some(b"miner-1".to_vec()), length: 7 });
    assert_eq!(prover_id(""), ProverID { id: Some(vec![]), length: 0 });
    assert_eq!(prover_id("é"), ProverID { id: Some(vec![0xc3, 0xa9]), length: 2 });
}

#[test]
fn challenge_is_asked_for_with_records_and_their_number() {
    let mut commits = vec![
        Commit { file_index: 1, roots: vec![vec![1, 2, 3]] },
        Commit { file_index: 2, roots: vec![vec![4], vec![5, 6]] },
    ];
    let args = generate_commit_challenge_args(&mut commits, "test miner id");
    assert_eq!(commits[0], Commit { file_index: 1, roots: vec![vec![1, 2, 3]] });
    assert_eq!(args.commits_length, 2);
    assert_eq!(
        args.commits,
        vec![
            CommitC {
                file_index: 1,
                roots: Some(vec![Some(vec![1, 2, 3])]),
                roots_length: 1,
                sub_roots_lengths: Some(vec![3]),
            },
            CommitC {
                file_index: 2,
                roots: Some(vec![Some(vec![4]), Some(vec![5, 6])]),
                roots_length: 2,
                sub_roots_lengths: Some(vec![1, 2]),
            },
        ]
    );
    assert_eq!(args.prover_id.id, Some(b"test miner id".to_vec()));
    assert_eq!(args.prover_id.length, 13);
}

#[test]
fn proofs_are_verified_against_the_challenge() {
    let challenge = vec![vec![3, 1, 4], vec![], vec![1, 5]];
    let args = verify_commit_and_acc_proofs_args(challenge.clone(), "id");
    assert_eq!(args.challenge.length, 3);
    assert_eq!(args.challenge.sub_array_lengths, Some(vec![3, 0, 2]));
    assert_eq!(args.prover_id, ProverID { id: Some(b"id".to_vec()), length: 2 });
    assert_eq!(
        c_ptr_to_i64_array_of_array(
            &args.challenge.main_array,
            &args.challenge.sub_array_lengths,
            args.challenge.length
        ),
        Ok(challenge)
    );
}

#[test]
fn bytes_travel_with_their_number() {
    assert_eq!(
        byte_array_as_struct(&[1, 2, 3]),
        MyByte { b: Some(vec![1, 2, 3]), length: 3 }
    );
    assert_eq!(byte_array_as_struct(&[]), MyByte { b: Some(vec![]), length: 0 });
    assert_eq!(
        byte_array_as_struct_array(&[vec![1, 2, 3], vec![5, 6, 7, 8]]),
        (
            vec![
                MyByte { b: Some(vec![1, 2, 3]), length: 3 },
                MyByte { b: Some(vec![5, 6, 7, 8]), length: 4 }
            ],
            2
        )
    );
    assert_eq!(byte_array_as_struct_array(&[]), (vec![], 0));
}

#[test]
fn rows_of_bytes_travel_with_count_and_lengths() {
    assert_eq!(
        byte_array_of_array(&[vec![1, 2, 3, 4, 5], vec![4, 5, 6, 7]]),
        (
            Some(vec![Some(vec![1, 2, 3, 4, 5]), Some(vec![4, 5, 6, 7])]),
            2,
            Some(vec![5, 4])
        )
    );
    assert_eq!(byte_array_of_array(&[]), (None, 0, None));
}

#[test]
fn two_returned_arrays_are_copied() {
    let first = Some(vec![1, 2, 3, 4]);
    let second = Some(vec![5, 6, 7, 8, 9]);
    assert_eq!(
        returned_arrays(&first, &second, 4),
        Ok((vec![1, 2, 3, 4], vec![5, 6, 7, 8]))
    );
    assert_eq!(returned_arrays(&first, &second, 5), Err(BridgeError::OutOfBounds));
    assert_eq!(returned_arrays(&second, &first, 5), Err(BridgeError::OutOfBounds));
    assert_eq!(returned_arrays(&first, &None, 4), Err(BridgeError::OutOfBounds));
    assert_eq!(returned_arrays(&None, &None, 0), Ok((vec![], vec![])));
    assert_eq!(returned_arrays(&first, &second, -1), Err(BridgeError::OutOfBounds));
}
