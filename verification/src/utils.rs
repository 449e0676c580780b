//! Conversions between the managed records and their native layout.

use vstd::prelude::*;
use crate::c_types::{CommitC, CommitCView, I64ArrOfArr};
use crate::error::BridgeError;
use crate::ragged::{
    decode_rows,
    decoded_view,
    encode_rows,
    encoded,
    fits,
    layout_view,
    matrix_view,
    rows_fit,
};
use crate::types::{commits_view, Commit, CommitView};

verus! {

/// Reads a matrix of 64-bit integers from its three native values. Each row
/// of the result is a copy of the declared number of elements at the row's
/// address.
pub fn c_ptr_to_i64_array_of_array(
    main_array: &Option<Vec<Option<Vec<i64>>>>,
    sub_array_lengths: &Option<Vec<i32>>,
    main_array_length: i32,
) -> (res: Result<Vec<Vec<i64>>, BridgeError>)
    ensures
        decoded_view(res) == layout_view(
            *main_array,
            *sub_array_lengths,
            main_array_length,
        ).decoded(),
{
    decode_rows(main_array, sub_array_lengths, main_array_length)
}

/// Reads a matrix of 32-bit integers from its three native values.
pub fn c_pointer_to_i32_array_of_array(
    main_array: &Option<Vec<Option<Vec<i32>>>>,
    sub_array_lengths: &Option<Vec<i32>>,
    main_array_length: i32,
) -> (res: Result<Vec<Vec<i32>>, BridgeError>)
    ensures
        decoded_view(res) == layout_view(
            *main_array,
            *sub_array_lengths,
            main_array_length,
        ).decoded(),
{
    decode_rows(main_array, sub_array_lengths, main_array_length)
}

/// Writes a matrix of 64-bit integers in its native layout.
pub fn i64_array_of_array_to_c_ptr(arr: Vec<Vec<i64>>) -> (res: I64ArrOfArr)
    requires
        fits(matrix_view(arr@)),
    ensures
        res@ == encoded(matrix_view(arr@)),
        res@.in_bounds(),
{
    let (main_array, sub_array_lengths, length) = encode_rows(arr.as_slice());
    I64ArrOfArr { main_array, sub_array_lengths, length }
}

/// The native record of one commit: the index as it is, the roots in their
/// flat layout.
pub open spec fn encoded_commit(commit: CommitView) -> CommitCView {
    CommitCView { file_index: commit.file_index, roots: encoded(commit.roots) }
}

/// The native records of a sequence of commits, one beside the other.
pub open spec fn encoded_commits(commits: Seq<CommitView>) -> Seq<CommitCView> {
    commits.map_values(|c: CommitView| encoded_commit(c))
}

/// Whether the roots of every commit can be written with 32-bit lengths.
pub open spec fn commits_fit(commits: Seq<CommitView>) -> bool {
    forall|i: int| 0 <= i < commits.len() ==> fits((#[trigger] commits[i]).roots)
}

/// The native records of an array, as mathematical values.
pub open spec fn commit_array_view(commits: Option<Vec<CommitC>>) -> Option<Seq<CommitCView>> {
    match commits {
        Some(records) => Some(records@.map_values(|c: CommitC| c@)),
        None => None,
    }
}

/// Whether `length` records can be read at `commits`, each with roots that
/// stay inside their allocations. With a length of 0 nothing is read.
pub open spec fn commits_in_bounds(commits: Option<Seq<CommitCView>>, length: int) -> bool {
    length == 0 || {
        &&& length > 0
        &&& commits is Some
        &&& length <= commits.unwrap().len()
        &&& forall|i: int| 0 <= i < length ==> (#[trigger] commits.unwrap()[i]).roots.in_bounds()
    }
}

/// The commit that one native record stands for.
pub open spec fn decoded_commit(record: CommitCView) -> CommitView {
    CommitView { file_index: record.file_index, roots: record.roots.rows() }
}

/// The commits that the first `length` records at `commits` stand for, or
/// `OutOfBounds`.
pub open spec fn decoded_commits(commits: Option<Seq<CommitCView>>, length: int) -> Result<
    Seq<CommitView>,
    BridgeError,
> {
    if commits_in_bounds(commits, length) {
        Ok(
            Seq::new(
                if length > 0 {
                    length as nat
                } else {
                    0
                },
                |i: int| decoded_commit(commits.unwrap()[i]),
            ),
        )
    } else {
        Err(BridgeError::OutOfBounds)
    }
}

/// What the commit decoder hands back, over mathematical values.
pub open spec fn decoded_commits_view(res: Result<Vec<Commit>, BridgeError>) -> Result<
    Seq<CommitView>,
    BridgeError,
> {
    match res {
        Ok(commits) => Ok(commits_view(commits@)),
        Err(e) => Err(e),
    }
}

/// Tells whether the roots of every commit can be written in the flat
/// layout.
pub fn commits_fit_layout(commits: &[Commit]) -> (res: bool)
    ensures
        res == commits_fit(commits_view(commits@)),
{
    let n = commits.len();
    let mut i: usize = 0;
    while i < n
        invariant
            i <= n == commits@.len(),
            forall|j: int| 0 <= j < i ==> fits((#[trigger] commits_view(commits@)[j]).roots),
        decreases n - i,
    {
        if !rows_fit(commits[i].roots.as_slice()) {
            assert(!fits(commits_view(commits@)[i as int].roots));
            return false;
        }
        i += 1;
    }
    true
}

/// Writes each commit as a native record, in order, in one flat array. The
/// commits themselves are left as they were.
pub fn rust_commit_array_to_commit_c_array(commits: &mut [Commit]) -> (res: Vec<CommitC>)
    requires
        commits_fit(commits_view(old(commits)@)),
    ensures
        final(commits)@ == old(commits)@,
        res@.map_values(|c: CommitC| c@) == encoded_commits(commits_view(old(commits)@)),
        commits_in_bounds(Some(res@.map_values(|c: CommitC| c@)), res@.len() as int),
{
    let n = commits.len();
    let mut commits_c: Vec<CommitC> = Vec::with_capacity(n);
    let mut i: usize = 0;
    while i < n
        invariant
            i <= n == commits@.len(),
            commits@ == old(commits)@,
            commits_fit(commits_view(commits@)),
            commits_c.len() == i,
            forall|j: int| 0 <= j < i ==> (#[trigger] commits_c[j])@ == encoded_commit(commits[j]@),
        decreases n - i,
    {
        let commit = &commits[i];
        assert(commits_view(commits@)[i as int] == commit@);
        let (roots, sub_roots_lengths, roots_length) = encode_rows(commit.roots.as_slice());
        commits_c.push(
            CommitC { file_index: commit.file_index, roots, roots_length, sub_roots_lengths },
        );
        i += 1;
    }
    assert(commits_c@.map_values(|c: CommitC| c@) =~= encoded_commits(commits_view(commits@)));
    proof {
        lemma_decode_encode_commits(commits_view(commits@));
    }
    commits_c
}

/// Reads `length` commits from a flat array of native records. Every root is
/// copied. Fails with `OutOfBounds` when the length is negative or reaches
/// past the array, or when the roots of one record do not stay inside their
/// allocations.
pub fn commit_c_array_to_rust_commit_array(commits: &Option<Vec<CommitC>>, length: i64) -> (res:
    Result<Vec<Commit>, BridgeError>)
    ensures
        decoded_commits_view(res) == decoded_commits(commit_array_view(*commits), length as int),
{
    let ghost array = commit_array_view(*commits);
    if length < 0 {
        return Err(BridgeError::OutOfBounds);
    }
    if length == 0 {
        let empty: Vec<Commit> = Vec::new();
        assert(commits_view(empty@) =~= decoded_commits(array, 0).unwrap());
        return Ok(empty);
    }
    let records = match commits {
        Some(records) => records,
        None => { return Err(BridgeError::OutOfBounds); },
    };
    if (records.len() as u64) < length as u64 {
        return Err(BridgeError::OutOfBounds);
    }
    let n = length as usize;
    let mut decoded: Vec<Commit> = Vec::with_capacity(n);
    let mut i: usize = 0;
    while i < n
        invariant
            i <= n == length,
            n <= records.len(),
            *commits == Some(*records),
            array == commit_array_view(*commits),
            decoded.len() == i,
            forall|j: int| 0 <= j < i ==> (#[trigger] array.unwrap()[j]).roots.in_bounds(),
            forall|j: int|
                0 <= j < i ==> (#[trigger] decoded[j])@ == decoded_commit(array.unwrap()[j]),
        decreases n - i,
    {
        let c = &records[i];
        assert(array.unwrap()[i as int] == c@);
        match decode_rows(&c.roots, &c.sub_roots_lengths, c.roots_length) {
            Ok(roots) => {
                decoded.push(Commit { file_index: c.file_index, roots });
            },
            Err(e) => {
                return Err(e);
            },
        }
        i += 1;
    }
    assert(commits_view(decoded@) =~= decoded_commits(array, length as int).unwrap());
    Ok(decoded)
}

/// Reading the records that were written for a sequence of commits gives
/// the commits back.
pub proof fn lemma_decode_encode_commits(commits: Seq<CommitView>)
    requires
        commits_fit(commits),
    ensures
        commits_in_bounds(Some(encoded_commits(commits)), commits.len() as int),
        decoded_commits(Some(encoded_commits(commits)), commits.len() as int) == Ok::<
            Seq<CommitView>,
            BridgeError,
        >(commits),
{
    let records = encoded_commits(commits);
    assert forall|i: int| 0 <= i < commits.len() implies (#[trigger] records[i]).roots.in_bounds()
        && decoded_commit(records[i]) == commits[i] by {
        crate::ragged::lemma_decode_encode(commits[i].roots);
    }
    assert(decoded_commits(Some(records), commits.len() as int).unwrap() =~= commits);
}

} // verus!
