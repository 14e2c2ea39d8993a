//! What the command line shows: tree and path drawings, and the rows of the
//! summary tables.

pub mod ascii;
pub mod table;
