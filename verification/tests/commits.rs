use pois_bridge::c_types::CommitC;
use pois_bridge::error::BridgeError;
use pois_bridge::types::Commit;
use pois_bridge::utils::{
    commit_c_array_to_rust_commit_array, commits_fit_layout, rust_commit_array_to_commit_c_array,
};

fn sample() -> Vec<Commit> {
    vec![
        Commit { file_index: 1, roots: vec![vec![0xaa, 0xbb], vec![], vec![0xcc]] },
        Commit { file_index: -2, roots: vec![] },
        Commit { file_index: i64::MAX, roots: vec![vec![]] },
    ]
}

#[test]
fn commits_become_flat_records() {
    let mut commits = sample();
    let records = rust_commit_array_to_commit_c_array(&mut commits);
    assert_eq!(commits, sample());
    assert_eq!(
        records,
        vec![
            CommitC {
                file_index: 1,
                roots: Some(vec![Some(vec![0xaa, 0xbb]), None, Some(vec![0xcc])]),
                roots_length: 3,
                sub_roots_lengths: Some(vec![2, 0, 1]),
            },
            CommitC { file_index: -2, roots: None, roots_length: 0, sub_roots_lengths: None },
            CommitC {
                file_index: i64::MAX,
                roots: Some(vec![None]),
                roots_length: 1,
                sub_roots_lengths: Some(vec![0]),
            },
        ]
    );
}

#[test]
fn commits_round_trip() {
    let mut commits = sample();
    let records = Some(rust_commit_array_to_commit_c_array(&mut commits));
    assert_eq!(commit_c_array_to_rust_commit_array(&records, 3), Ok(sample()));
    assert_eq!(
        commit_c_array_to_rust_commit_array(&records, 2),
        Ok(sample()[..2].to_vec())
    );
}

#[test]
fn no_commits_round_trip() {
    let records = rust_commit_array_to_commit_c_array(&mut []);
    assert_eq!(records, vec![]);
    assert_eq!(commit_c_array_to_rust_commit_array(&Some(records), 0), Ok(vec![]));
    assert_eq!(commit_c_array_to_rust_commit_array(&None, 0), Ok(vec![]));
}

#[test]
fn commit_count_past_the_array_is_out_of_bounds() {
    let mut commits = sample();
    let records = Some(rust_commit_array_to_commit_c_array(&mut commits));
    assert_eq!(
        commit_c_array_to_rust_commit_array(&records, 4),
        Err(BridgeError::OutOfBounds)
    );
    assert_eq!(
        commit_c_array_to_rust_commit_array(&records, -1),
        Err(BridgeError::OutOfBounds)
    );
    assert_eq!(
        commit_c_array_to_rust_commit_array(&records, i64::MAX),
        Err(BridgeError::OutOfBounds)
    );
    assert_eq!(commit_c_array_to_rust_commit_array(&None, 1), Err(BridgeError::OutOfBounds));
}

#[test]
fn one_bad_record_fails_the_whole_array() {
    let records = Some(vec![
        CommitC {
            file_index: 1,
            roots: Some(vec![Some(vec![1, 2])]),
            roots_length: 1,
            sub_roots_lengths: Some(vec![2]),
        },
        CommitC {
            file_index: 2,
            roots: Some(vec![Some(vec![1, 2])]),
            roots_length: 1,
            sub_roots_lengths: Some(vec![3]),
        },
    ]);
    assert_eq!(
        commit_c_array_to_rust_commit_array(&records, 2),
        Err(BridgeError::OutOfBounds)
    );
    assert_eq!(
        commit_c_array_to_rust_commit_array(&records, 1),
        Ok(vec![Commit { file_index: 1, roots: vec![vec![1, 2]] }])
    );
}

#[test]
fn ordinary_commits_fit_the_layout() {
    assert!(commits_fit_layout(&sample()));
    assert!(commits_fit_layout(&[]));
}
