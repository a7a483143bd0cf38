//! A codec for rows of optional UTF-8 string values, framed by three
//! reserved bytes, with the wire grammar stated as spec functions and every
//! reader and writer operation proved against it.
//!
//! [`format`] states the grammar, [`writer`] and [`serializer`] write rows,
//! [`reader`] and [`deserializer`] read them back, and [`laws`] proves that
//! what is written is what is read.

pub mod utils;
pub mod error;
pub mod format;
pub mod text;
pub mod decimal;
pub mod deserializer;
pub mod writer;
pub mod serializer;
pub mod reader;
pub mod laws;
