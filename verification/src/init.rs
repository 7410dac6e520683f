//! Setting up an installation: the directories, the counter of identifiers
//! and the three empty catalogs.

use crate::config::Config;
use crate::fs_action::{spec_steps, FsAction, FsStep};
use crate::oid_manager::{create_oid_file, spec_initial_oid_bytes};
use vstd::prelude::*;

verus! {

/// Sets up an installation under the root directory of a configuration.
pub struct InitCommand {
    config: Config,
}

/// The two steps that make a catalog: its directory, and its empty file.
pub open spec fn spec_catalog_steps(config: &Config, tablename: Seq<char>) -> Seq<FsStep> {
    seq![
        FsStep::CreateDir { path: config.spec_system_catalog_dir(tablename) },
        FsStep::CreateFile { path: config.spec_system_catalog_file(tablename) },
    ]
}

/// The steps that set up an installation: the directory of the databases,
/// the directory of the catalogs, the counter of identifiers with the first
/// identifier in it, and the catalogs of databases, of tables and of
/// columns.
pub open spec fn spec_init_steps(config: &Config) -> Seq<FsStep> {
    seq![
        FsStep::CreateDirAll { path: config.spec_base_dir() },
        FsStep::CreateDirAll { path: config.spec_global_dir() },
        FsStep::WriteFile { path: config.spec_oid_file(), content: spec_initial_oid_bytes() },
    ] + spec_catalog_steps(config, "mini_database"@) + spec_catalog_steps(config, "mini_class"@)
        + spec_catalog_steps(config, "mini_attribute"@)
}

impl InitCommand {
    /// The configuration.
    pub closed spec fn config(&self) -> &Config {
        &self.config
    }

    pub fn new(config: Config) -> (command: InitCommand)
        ensures
            *command.config() == config,
    {
        InitCommand { config: config }
    }

    /// The steps that set up the installation, in order.
    pub fn execute(&self) -> (actions: Vec<FsAction>)
        ensures
            spec_steps(actions@) == spec_init_steps(self.config()),
    {
        let mut actions: Vec<FsAction> = Vec::new();
        actions.push(self.create_base_dir());
        actions.push(self.create_global_dir());
        actions.push(create_oid_file(&self.config));
        self.create_system_catalog_dir_and_file(&mut actions, "mini_database");
        // For tables
        self.create_system_catalog_dir_and_file(&mut actions, "mini_class");
        // For columns
        self.create_system_catalog_dir_and_file(&mut actions, "mini_attribute");
        assert(spec_steps(actions@) =~= spec_init_steps(self.config()));
        actions
    }

    fn create_base_dir(&self) -> (action: FsAction)
        ensures
            action@ == (FsStep::CreateDirAll { path: self.config().spec_base_dir() }),
    {
        FsAction::CreateDirAll { path: self.config.base_dir_path() }
    }

    fn create_global_dir(&self) -> (action: FsAction)
        ensures
            action@ == (FsStep::CreateDirAll { path: self.config().spec_global_dir() }),
    {
        FsAction::CreateDirAll { path: self.config.global_dir_path() }
    }

    fn create_system_catalog_dir_and_file(&self, actions: &mut Vec<FsAction>, tablename: &str)
        ensures
            spec_steps(final(actions)@) == spec_steps(old(actions)@) + spec_catalog_steps(
                self.config(),
                tablename@,
            ),
    {
        actions.push(FsAction::CreateDir { path: self.config.system_catalog_dir_path(tablename) });
        actions.push(
            FsAction::CreateFile { path: self.config.system_catalog_file_path(tablename) },
        );
        assert(spec_steps(actions@) =~= spec_steps(old(actions)@) + spec_catalog_steps(
            self.config(),
            tablename@,
        ));
    }
}

} // verus!
