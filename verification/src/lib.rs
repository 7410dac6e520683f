//! A small relational storage engine: slotted pages in block-aligned heap
//! files, a buffer pool over them, and a pull-based executor.

pub mod ast;
pub mod buffer_manager;
pub mod catalog;
pub mod config;
pub mod ddl;
pub mod dml;
pub mod executor;
pub mod fs_action;
pub mod init;
pub mod off;
pub mod oid_manager;
pub mod page;
pub mod parser;
pub mod relation;
pub mod spi;
pub mod storage_manager;
pub mod text;
pub mod tuple;
pub mod ty;
