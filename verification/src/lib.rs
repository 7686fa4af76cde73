//! A small embedded relational engine over tables of nullable text.
//!
//! A parsed SQL statement is lowered into a [`commands::Command`], the command's
//! parts are run against an in-memory [`entities::Table`], and the table's rows
//! are turned into and read back from a flat `;`-delimited text.
//!
//! Every executable function carries a contract over the mathematical values
//! of [`model`]; the laws that tie the operations together are proved in
//! [`laws`].

pub mod utils;
pub mod errors;
pub mod model;
pub mod traits;
pub mod statement;
pub mod commands;
pub mod entities;
pub mod file_parsing;
pub mod laws;
