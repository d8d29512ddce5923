//! Wire format of the MAKCU serial protocol: command building and stream parsing.

pub mod builder;
pub mod constants;
pub mod parser;
pub mod text;
