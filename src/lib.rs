//! Directory timestamp propagation: each directory takes the modification
//! time of its newest immediate child, processed deepest first.

pub mod cli;
pub mod decide;
pub mod order;
pub mod report;
pub mod scan;
pub mod stamp;
pub mod tree;
