//! The module system of the oftb language, and the intrinsics that compute on its
//! values: loading packages, naming modules after their files, linking a binary
//! with the prelude, and the builtin functions on pairs, lists and numbers.

pub mod assoc;
pub mod compile;
pub mod error;
pub mod intrinsics;
pub mod metadata;
pub mod module;
pub mod packages;
pub mod paths;
pub mod value;
