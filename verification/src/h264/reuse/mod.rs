//! Used grids are as good as new ones.

pub mod bslice;
pub mod cabac;
pub mod cavlc;
pub mod picture;
pub mod relation;
