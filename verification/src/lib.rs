//! Structural decoder for the JVM class file format: a cursor-driven,
//! grammar-sequenced reader that turns a byte buffer into a typed class
//! record (header, constant pool, interfaces, fields, methods, attributes).
//!
//! Every decode routine is specified against a ghost-level grammar over the
//! byte sequence, so the exact bytes consumed, the values produced, and the
//! failure kind on malformed input are all pinned down by contract.

pub mod attributes;
pub mod class_file;
pub mod constant_pool;
pub mod cursor;
pub mod declarations;
pub mod error;
pub mod field_info;
pub mod method_info;
pub mod raw_class_reader;
