//! An array-backed binary heap whose behaviour is stated in contracts and proved.

pub mod heap;
