//! Small building blocks with machine-checked contracts: a value cell, a
//! borrow-checking cell with read and write guards, a flattening adapter over
//! nested sequences, and a string splitter.

pub mod cell;
pub mod flatten;
pub mod occurrence;
pub mod refcell;
pub mod strsplit;
pub mod text;
