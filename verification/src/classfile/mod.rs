//! Parsing and validation of Java class files.
pub mod attribute;
pub mod class;
pub mod constant_pool;
pub mod error;
pub mod member;
pub mod outcome;
pub mod reader;
