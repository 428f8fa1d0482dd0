pub mod bytes;
pub mod dataset;
pub mod playlist;
pub mod populate;
pub mod rating;
pub mod records;
pub mod selector;
pub mod signal;
pub mod tree;
