//! Marshalling between managed collections and the flat layout that a
//! Proof-of-Idle-Space engine behind a C calling convention exchanges:
//! ragged matrices of integers, commit records and big integers written as
//! decimal text.
//!
//! Native memory is held here as plain values. A pointer to a buffer is an
//! `Option<Vec<T>>`: `None` is the null pointer, and the vector is the whole
//! allocation behind a pointer that is not null.

pub mod bigint;
pub mod c_types;
pub mod decimal;
pub mod error;
pub mod examples;
pub mod ffi;
pub mod keygen;
pub mod ragged;
pub mod types;
pub mod utils;
