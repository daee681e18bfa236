//! Natural, alphabet-aware ordering of file and folder names, and the small
//! pieces of state and name handling that surround it.

pub mod digits;
pub mod text;
pub mod tokens;
pub mod order;
pub mod laws;
pub mod sort;
pub mod process;
pub mod names;
pub mod hex;
pub mod batch;
