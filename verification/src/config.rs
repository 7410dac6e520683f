//! Where things live on disk, and the sizes the engine is built around.
//!
//! ```text
//! <root>/base/<db_oid>/<table_oid>/data    the heap file of a table
//! <root>/global/oid                        the counter of identifiers
//! <root>/global/<catalog>/data             a system catalog
//! ```

use crate::oid_manager::{oid_to_string, Oid};
use crate::text::{push_char, spec_decimal_nat, to_chars};
use vstd::prelude::*;
use vstd::string::StringExecFns;

verus! {

/// Bytes in one block of a heap file, and in one page.
pub const DEFAULT_BLOCK_SIZE: u16 = 8192;

/// The number of buffers the pool is sized for.
pub const N_BUFFERS: usize = 10;

/// The path of `name` under the directory `base`. An absolute `name`
/// stands for itself; otherwise the two are put together, with a `/`
/// between them unless `base` is empty or already ends in one.
pub open spec fn spec_path_join(base: Seq<char>, name: Seq<char>) -> Seq<char> {
    if name.len() > 0 && name[0] == '/' {
        name
    } else if base.len() > 0 && base.last() != '/' {
        base.push('/') + name
    } else {
        base + name
    }
}

/// The path of `name` under the directory `base`.
pub fn path_join(base: &str, name: &str) -> (path: String)
    ensures
        path@ == spec_path_join(base@, name@),
{
    let b = to_chars(base);
    let n = to_chars(name);
    if n.len() > 0 && n[0] == '/' {
        String::from_str(name)
    } else {
        let mut path = String::from_str(base);
        if b.len() > 0 && b[b.len() - 1] != '/' {
            push_char(&mut path, '/');
        }
        path.append(name);
        path
    }
}

/// The root directory of an installation, and its block size.
pub struct Config {
    root_dir_name: String,
    block_size: u16,
}

impl Clone for Config {
    fn clone(&self) -> (c: Config)
        ensures
            c == *self,
    {
        Config { root_dir_name: self.root_dir_name.clone(), block_size: self.block_size }
    }
}

impl Config {
    /// The root directory.
    pub closed spec fn root(&self) -> Seq<char> {
        self.root_dir_name@
    }

    /// The block size.
    pub closed spec fn spec_block_size(&self) -> u16 {
        self.block_size
    }

    /// `<root>/base`
    pub open spec fn spec_base_dir(&self) -> Seq<char> {
        spec_path_join(self.root(), "base"@)
    }

    /// `<root>/global`
    pub open spec fn spec_global_dir(&self) -> Seq<char> {
        spec_path_join(self.root(), "global"@)
    }

    /// `<root>/global/oid`
    pub open spec fn spec_oid_file(&self) -> Seq<char> {
        spec_path_join(self.spec_global_dir(), "oid"@)
    }

    /// `<root>/global/<tablename>`
    pub open spec fn spec_system_catalog_dir(&self, tablename: Seq<char>) -> Seq<char> {
        spec_path_join(self.spec_global_dir(), tablename)
    }

    /// `<root>/global/<tablename>/data`
    pub open spec fn spec_system_catalog_file(&self, tablename: Seq<char>) -> Seq<char> {
        spec_path_join(self.spec_system_catalog_dir(tablename), "data"@)
    }

    /// `<root>/base/<db_oid>`
    pub open spec fn spec_database_dir(&self, db_oid: Oid) -> Seq<char> {
        spec_path_join(self.spec_base_dir(), spec_decimal_nat(db_oid as nat))
    }

    /// `<root>/base/<db_oid>/<table_oid>`
    pub open spec fn spec_table_dir(&self, db_oid: Oid, table_oid: Oid) -> Seq<char> {
        spec_path_join(self.spec_database_dir(db_oid), spec_decimal_nat(table_oid as nat))
    }

    /// `<root>/base/<db_oid>/<table_oid>/data`
    pub open spec fn spec_data_file(&self, db_oid: Oid, table_oid: Oid) -> Seq<char> {
        spec_path_join(self.spec_table_dir(db_oid, table_oid), "data"@)
    }

    pub fn new(root_dir_name: String) -> (config: Config)
        ensures
            config.root() == root_dir_name@,
            config.spec_block_size() == DEFAULT_BLOCK_SIZE,
    {
        Config { root_dir_name: root_dir_name, block_size: DEFAULT_BLOCK_SIZE }
    }

    pub fn block_size(&self) -> (size: u16)
        ensures
            size == self.spec_block_size(),
    {
        self.block_size
    }

    /// The root directory.
    pub fn root_dir_path(&self) -> (path: String)
        ensures
            path@ == self.root(),
    {
        self.root_dir_name.clone()
    }

    /// `<root>/base`: the parent of the database directories.
    pub fn base_dir_path(&self) -> (path: String)
        ensures
            path@ == self.spec_base_dir(),
    {
        path_join(self.root_dir_path().as_str(), "base")
    }

    /// `<root>/global`: the catalogs and the counter of identifiers.
    pub fn global_dir_path(&self) -> (path: String)
        ensures
            path@ == self.spec_global_dir(),
    {
        path_join(self.root_dir_path().as_str(), "global")
    }

    /// `<root>/global/oid`: the counter of identifiers.
    pub fn oid_file_path(&self) -> (path: String)
        ensures
            path@ == self.spec_oid_file(),
    {
        path_join(self.global_dir_path().as_str(), "oid")
    }

    /// `<root>/global/<tablename>`: the directory of a system catalog.
    pub fn system_catalog_dir_path(&self, tablename: &str) -> (path: String)
        ensures
            path@ == self.spec_system_catalog_dir(tablename@),
    {
        path_join(self.global_dir_path().as_str(), tablename)
    }

    /// `<root>/global/<tablename>/data`: the file of a system catalog.
    pub fn system_catalog_file_path(&self, tablename: &str) -> (path: String)
        ensures
            path@ == self.spec_system_catalog_file(tablename@),
    {
        path_join(self.system_catalog_dir_path(tablename).as_str(), "data")
    }

    /// `<root>/base/<db_oid>`: the directory of a database.
    pub fn database_dir_path(&self, db_oid: Oid) -> (path: String)
        ensures
            path@ == self.spec_database_dir(db_oid),
    {
        path_join(self.base_dir_path().as_str(), oid_to_string(db_oid).as_str())
    }

    /// `<root>/base/<db_oid>/<table_oid>`: the directory of a table.
    pub fn table_dir_path(&self, db_oid: Oid, table_oid: Oid) -> (path: String)
        ensures
            path@ == self.spec_table_dir(db_oid, table_oid),
    {
        path_join(self.database_dir_path(db_oid).as_str(), oid_to_string(table_oid).as_str())
    }

    /// `<root>/base/<db_oid>/<table_oid>/data`: the heap file of a table.
    pub fn data_file_path(&self, db_oid: Oid, table_oid: Oid) -> (path: String)
        ensures
            path@ == self.spec_data_file(db_oid, table_oid),
    {
        path_join(self.table_dir_path(db_oid, table_oid).as_str(), "data")
    }
}

} // verus!
