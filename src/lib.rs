//! Renders the raw bytes of a file as rows of binary, octal or hexadecimal
//! fields, each row led by its byte offset.
pub mod mode;
pub mod render;
pub mod dumper;
pub mod rows;
pub mod cli;
