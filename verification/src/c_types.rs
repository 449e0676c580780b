//! The records of the native side, field by field as the engine lays them
//! out. A pointer field is an `Option`: `None` for the null pointer, else
//! the allocation that the pointer leads to.

use vstd::prelude::*;
use crate::decimal::parsed;
use crate::ragged::{layout_view, Layout};

verus! {

/// The tag of a node, a C `int`.
pub type NodeType = i32;

/// One commit. An array of them travels with its own length beside it.
#[derive(Debug, Clone, PartialEq, Eq)]
pub struct CommitC {
    pub file_index: i64,
    /// The root hashes, one buffer per root.
    pub roots: Option<Vec<Option<Vec<u8>>>>,
    /// How many roots there are.
    pub roots_length: i32,
    /// How many bytes each root has.
    pub sub_roots_lengths: Option<Vec<i32>>,
}

/// A native commit as a mathematical value.
#[verifier::ext_equal]
pub struct CommitCView {
    pub file_index: i64,
    pub roots: Layout<u8>,
}

impl View for CommitC {
    type V = CommitCView;

    open spec fn view(&self) -> CommitCView {
        CommitCView {
            file_index: self.file_index,
            roots: layout_view(self.roots, self.sub_roots_lengths, self.roots_length),
        }
    }
}

/// A Merkle proof for one node.
#[derive(Debug, Clone, PartialEq, Eq)]
pub struct MhtProofC {
    pub index: NodeType,
    pub label: Option<Vec<u8>>,
    pub label_length: i32,
    pub paths: Option<Vec<Option<Vec<u8>>>>,
    pub sub_paths_lengths: Option<Vec<i32>>,
    pub path_length: i32,
    pub locs: Option<Vec<u8>>,
    pub locs_length: i32,
}

/// The proof of one commit. The parents are an array of pointers in one
/// dimension, so their count is all that goes with them.
#[derive(Debug, Clone, PartialEq, Eq)]
pub struct CommitProofC {
    pub node: Option<Box<MhtProofC>>,
    pub parents: Option<Vec<Option<Box<MhtProofC>>>>,
    pub parents_length: i32,
}

/// A byte buffer with its length, a C `long`.
#[derive(Debug, Clone, PartialEq, Eq)]
pub struct MyByte {
    pub b: Option<Vec<u8>>,
    pub length: i64,
}

/// The parameters every entry point of the engine takes. The two big
/// integers are decimal text, each closed by a zero byte.
#[derive(Debug, Clone, PartialEq, Eq)]
pub struct CommonParam {
    pub key_n: Vec<u8>,
    pub key_g: Vec<u8>,
    pub k: i64,
    pub n: i64,
    pub d: i64,
}

impl CommonParam {
    /// Whether both big integers are well-formed decimal text, closed by a
    /// zero byte.
    pub open spec fn well_formed(&self) -> bool {
        &&& parsed(self.key_n@, self.key_n@.len()) is Ok
        &&& parsed(self.key_g@, self.key_g@.len()) is Ok
    }
}

/// The identity of a prover: its bytes and how many they are.
#[derive(Debug, Clone, PartialEq, Eq)]
pub struct ProverID {
    pub id: Option<Vec<u8>>,
    pub length: i32,
}

/// A ragged matrix of 64-bit integers, such as a challenge.
#[derive(Debug, Clone, PartialEq, Eq)]
pub struct I64ArrOfArr {
    pub main_array: Option<Vec<Option<Vec<i64>>>>,
    pub sub_array_lengths: Option<Vec<i32>>,
    pub length: i32,
}

impl View for I64ArrOfArr {
    type V = Layout<i64>;

    open spec fn view(&self) -> Layout<i64> {
        layout_view(self.main_array, self.sub_array_lengths, self.length)
    }
}

/// A ragged matrix of 32-bit integers.
#[derive(Debug, Clone, PartialEq, Eq)]
pub struct I32ArrOfArr {
    pub main_array: Option<Vec<Option<Vec<i32>>>>,
    pub sub_array_length: Option<Vec<i32>>,
    pub length: i32,
}

impl View for I32ArrOfArr {
    type V = Layout<i32>;

    open spec fn view(&self) -> Layout<i32> {
        layout_view(self.main_array, self.sub_array_length, self.length)
    }
}

} // verus!
