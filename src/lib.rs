//! A verified decoder for ACPI Machine Language (AML) byte streams.
pub mod error;
pub mod handler;
pub mod name;
pub mod namespace;
pub mod parser;
pub mod stream;
pub mod value;
