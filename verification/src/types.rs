//! The records of the managed side.

use vstd::prelude::*;
use crate::bigint::BigInteger;
use crate::ragged::matrix_view;

verus! {

/// The Merkle roots of one file.
#[derive(Debug, Clone, PartialEq, Eq)]
pub struct Commit {
    /// Which file the roots belong to.
    pub file_index: i64,
    /// One root hash per row.
    pub roots: Vec<Vec<u8>>,
}

/// A commit as a mathematical value.
#[verifier::ext_equal]
pub struct CommitView {
    pub file_index: i64,
    pub roots: Seq<Seq<u8>>,
}

impl View for Commit {
    type V = CommitView;

    open spec fn view(&self) -> CommitView {
        CommitView { file_index: self.file_index, roots: matrix_view(self.roots@) }
    }
}

/// The commits of a slice, as mathematical values.
pub open spec fn commits_view(commits: Seq<Commit>) -> Seq<CommitView> {
    commits.map_values(|c: Commit| c@)
}

/// A Merkle proof for one node.
#[derive(Debug, Clone, PartialEq, Eq)]
pub struct MhtProof {
    pub index: i32,
    pub label: Vec<u8>,
    pub paths: Vec<Vec<u8>>,
    pub locs: Vec<u8>,
}

/// The proof of one commit: the node itself and its parents.
#[derive(Debug, Clone, PartialEq, Eq)]
pub struct CommitProof {
    pub node: Option<MhtProof>,
    pub parents: Vec<MhtProof>,
}

/// The public parameters of an RSA accumulator: a modulus and a generator
/// of squares below it.
#[derive(Debug, Clone, PartialEq, Eq)]
pub struct RsaKey {
    pub n: BigInteger,
    pub g: BigInteger,
}

} // verus!
