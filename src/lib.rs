//! A small relational record store: named tables of constrained columns,
//! positional rows, equality-filtered selection and conditional update,
//! all owned by a single state manager; with the typed commands of its
//! interactive client and the HTML listing of its tables.

pub mod column;
pub mod command;
pub mod entry;
pub mod error;
pub mod laws;
pub mod query;
pub mod report;
pub mod request_types;
pub mod row;
pub mod state;
pub mod table;
pub mod text;
pub mod value;
