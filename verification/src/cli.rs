//! The command line, once its words are told apart: what to do, and to which
//! files.

use crate::action::{Action, ActionView};
use std::path::PathBuf;
use vstd::prelude::*;

verus! {

/// `std::path::PathBuf`, the path of a file. Opaque to the verifier: paths
/// are handed on as they come.
#[verifier::external_type_specification]
#[verifier::external_body]
pub struct ExPathBuf(std::path::PathBuf);

/// A command line.
#[derive(PartialEq, Debug)]
pub struct Cli {
    pub command: Commands,
}

/// The commands.
#[derive(PartialEq, Debug)]
pub enum Commands {
    /// Remove blocks from the files.
    Remove { node: Node },
    /// Read the files and replace them with a clean version.
    Clean {
        /// The files to apply the command to.
        files: Vec<PathBuf>,
    },
}

/// The kinds of block that can be removed.
#[derive(PartialEq, Debug)]
pub enum Node {
    /// Remove all instances of a part.
    Part {
        /// The part name.
        name: String,
        /// The files to apply the command to.
        files: Vec<PathBuf>,
    },
    /// Remove all instances of a module.
    Module {
        /// The module name.
        name: String,
        /// The files to apply the command to.
        files: Vec<PathBuf>,
    },
    /// Remove all instances of a resource.
    Resource {
        /// The resource name.
        name: String,
        /// The files to apply the command to.
        files: Vec<PathBuf>,
    },
}

/// The action that a command line asks for.
pub open spec fn requested_action(args: Cli) -> ActionView {
    match args.command {
        Commands::Remove { node } => match node {
            Node::Part { name, files } => ActionView::Remove("PART"@, name@),
            Node::Resource { name, files } => ActionView::Remove("RESOURCE"@, name@),
            Node::Module { name, files } => ActionView::Remove("MODULE"@, name@),
        },
        Commands::Clean { files } => ActionView::Clean,
    }
}

/// The files that a command line names.
pub open spec fn requested_files(args: Cli) -> Vec<PathBuf> {
    match args.command {
        Commands::Remove { node } => match node {
            Node::Part { name, files } => files,
            Node::Resource { name, files } => files,
            Node::Module { name, files } => files,
        },
        Commands::Clean { files } => files,
    }
}

/// What a command line asks for: the action, and the files to do it to.
pub fn parse_action(args: Cli) -> (parsed: (Action, Vec<PathBuf>))
    ensures
        parsed.0@ == requested_action(args),
        parsed.1 == requested_files(args),
{
    match args.command {
        Commands::Remove { node } => {
            match node {
                Node::Part { name, files } => (Action::Remove("PART".to_owned(), name), files),
                Node::Resource { name, files } => (
                    Action::Remove("RESOURCE".to_owned(), name),
                    files,
                ),
                Node::Module { name, files } => (Action::Remove("MODULE".to_owned(), name), files),
            }
        },
        Commands::Clean { files } => (Action::Clean, files),
    }
}

} // verus!
