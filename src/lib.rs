//! Finds the source files of a project that no other file imports and that
//! do not run as an entrypoint.
pub mod paths;
pub mod resolve;
pub mod order;
pub mod reach;
pub mod root;
pub mod printer;
pub mod cli;
pub mod idiom;
