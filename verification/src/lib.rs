//! Documentation-graph builder for annotated Lua libraries.
//!
//! The crate turns a flat list of definition records (classes, enums,
//! aliases and free functions that may reference each other only by name)
//! into a cross-referenced library of containers, then renders that library
//! as a set of linked markdown documents together with a table of contents.

pub mod assemble;
pub mod closure;
pub mod export;
pub mod library;
pub mod namemap;
pub mod options;
pub mod order;
pub mod records;
pub mod render;
pub mod toc;
pub mod show;
pub mod strutil;
pub mod types;
