//! What goes into the entry points of the engine and what comes out of
//! them, as values. Loading the engine and making the call is left to the
//! caller, who lends these values to the native side for as long as the
//! call lasts.

use vstd::prelude::*;
use vstd::string::StringSliceAdditionalSpecFns;
use crate::c_types::{CommitC, I64ArrOfArr, ProverID};
use crate::ragged::{copy_prefix, encoded, fits, matrix_view};
use crate::types::{commits_view, Commit};
use crate::utils::{
    commits_fit,
    encoded_commits,
    i64_array_of_array_to_c_ptr,
    rust_commit_array_to_commit_c_array,
};

verus! {

/// What `GenerateCommitChallenge` takes beside the common parameters.
#[derive(Debug, Clone, PartialEq, Eq)]
pub struct GenerateCommitChallengeArgs {
    /// The commits, one record beside the other.
    pub commits: Vec<CommitC>,
    /// How many records there are.
    pub commits_length: i32,
    /// Who asks.
    pub prover_id: ProverID,
}

/// What `VerifyCommitAndAccProofs` takes beside the common parameters.
#[derive(Debug, Clone, PartialEq, Eq)]
pub struct VerifyCommitAndAccProofsArgs {
    /// The challenge that the proofs answer.
    pub challenge: I64ArrOfArr,
    /// Who asks.
    pub prover_id: ProverID,
}

/// Whether `record` names the prover `id`: all of its bytes, and their
/// number.
pub open spec fn names_prover(record: ProverID, id: Seq<u8>) -> bool {
    &&& record.id is Some
    &&& record.id.unwrap()@ == id
    &&& record.length == id.len()
}

/// The identity record of a prover: the bytes of its name and how many
/// they are. No byte is added to close the name.
pub fn prover_id(id: &str) -> (record: ProverID)
    requires
        id.spec_bytes().len() <= i32::MAX,
    ensures
        names_prover(record, id.spec_bytes()),
{
    let bytes = id.as_bytes();
    let len = bytes.len();
    let copy = copy_prefix(bytes, len);
    assert(copy@ =~= bytes@);
    ProverID { id: Some(copy), length: len as i32 }
}

/// The arguments of `GenerateCommitChallenge`: every commit as a native
/// record, their number, and the identity of the prover. The challenge that
/// the engine answers with is read by `c_ptr_to_i64_array_of_array`.
pub fn generate_commit_challenge_args(commits: &mut [Commit], id: &str) -> (args:
    GenerateCommitChallengeArgs)
    requires
        old(commits)@.len() <= i32::MAX,
        commits_fit(commits_view(old(commits)@)),
        id.spec_bytes().len() <= i32::MAX,
    ensures
        final(commits)@ == old(commits)@,
        args.commits@.map_values(|c: CommitC| c@) == encoded_commits(commits_view(old(commits)@)),
        args.commits_length == old(commits)@.len(),
        names_prover(args.prover_id, id.spec_bytes()),
{
    let prover_id = prover_id(id);
    let commits_c = rust_commit_array_to_commit_c_array(commits);
    assert(commits_c@.map_values(|c: CommitC| c@).len() == commits_c@.len());
    let commits_length = commits_c.len() as i32;
    GenerateCommitChallengeArgs { commits: commits_c, commits_length, prover_id }
}

/// The arguments of `VerifyCommitAndAccProofs`: the challenge in its native
/// layout and the identity of the prover.
pub fn verify_commit_and_acc_proofs_args(challenge: Vec<Vec<i64>>, id: &str) -> (args:
    VerifyCommitAndAccProofsArgs)
    requires
        fits(matrix_view(challenge@)),
        id.spec_bytes().len() <= i32::MAX,
    ensures
        args.challenge@ == encoded(matrix_view(challenge@)),
        names_prover(args.prover_id, id.spec_bytes()),
{
    let prover_id = prover_id(id);
    let challenge_c = i64_array_of_array_to_c_ptr(challenge);
    VerifyCommitAndAccProofsArgs { challenge: challenge_c, prover_id }
}

} // verus!
