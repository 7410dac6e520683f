//! The system catalogs: line-oriented text files that name the databases,
//! the tables and the columns.

pub mod catalog;
pub mod catalog_manager;
pub mod mini_attribute;
pub mod mini_class;
pub mod mini_database;
