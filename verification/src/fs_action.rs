//! What a command asks of the file system. The engine decides what is to be
//! created or written; the program around it does so.

use vstd::prelude::*;

verus! {

/// One step on the file system.
#[derive(Debug)]
pub enum FsAction {
    /// Create a directory and the directories above it, where missing.
    CreateDirAll { path: String },
    /// Create a directory whose parent exists.
    CreateDir { path: String },
    /// Create an empty file, or empty the one that is there.
    CreateFile { path: String },
    /// Create a file that holds `content`, or replace what the file holds.
    WriteFile { path: String, content: Vec<u8> },
}

/// One step on the file system, as a mathematical value.
pub enum FsStep {
    CreateDirAll { path: Seq<char> },
    CreateDir { path: Seq<char> },
    CreateFile { path: Seq<char> },
    WriteFile { path: Seq<char>, content: Seq<u8> },
}

impl View for FsAction {
    type V = FsStep;

    open spec fn view(&self) -> FsStep {
        match self {
            FsAction::CreateDirAll { path } => FsStep::CreateDirAll { path: path@ },
            FsAction::CreateDir { path } => FsStep::CreateDir { path: path@ },
            FsAction::CreateFile { path } => FsStep::CreateFile { path: path@ },
            FsAction::WriteFile { path, content } => FsStep::WriteFile {
                path: path@,
                content: content@,
            },
        }
    }
}

/// The steps that a list of actions stands for.
pub open spec fn spec_steps(actions: Seq<FsAction>) -> Seq<FsStep> {
    actions.map_values(|a: FsAction| a@)
}

} // verus!
