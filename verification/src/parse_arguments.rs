//! Per-invocation options and the decision of which command a set of
//! command-line flags selects.  Reading the flags themselves is the
//! process's business; the precedence rule is decided and verified here.

use crate::Error;
use vstd::prelude::*;

verus! {

/// Immutable per-invocation settings.
#[derive(Clone, Copy, Debug)]
pub struct Options {
    noninteractive: bool,
    quiet: bool,
}

impl Options {
    /// Whether prompts are suppressed and every confirmation assumed yes.
    pub closed spec fn spec_noninteractive(&self) -> bool {
        self.noninteractive
    }

    /// Whether status messages are suppressed.
    pub closed spec fn spec_quiet(&self) -> bool {
        self.quiet
    }

    /// Settings for one run.
    pub fn new(noninteractive: bool, quiet: bool) -> (r: Options)
        ensures
            r.spec_noninteractive() == noninteractive,
            r.spec_quiet() == quiet,
    {
        Options { noninteractive, quiet }
    }

    /// Whether prompts are suppressed.
    pub fn noninteractive(&self) -> (r: bool)
        ensures
            r == self.spec_noninteractive(),
    {
        self.noninteractive
    }

    /// Whether status messages are suppressed.
    pub fn quiet(&self) -> (r: bool)
        ensures
            r == self.spec_quiet(),
    {
        self.quiet
    }
}

/// The command a run performs.
#[derive(Clone, Copy, Debug, PartialEq, Eq, Structural)]
pub enum Command {
    /// Empty the trash directory and the registry.
    Clean,
    /// List the trash contents.
    List,
    /// Delete the given paths permanently.
    Delete,
    /// Restore the given paths from the trash.
    Restore,
    /// Move the given paths to the trash.
    Remove,
}

/// Decides which command a set of flags selects: cleaning wins, then
/// listing; the remaining verbs need paths, and among them deleting wins
/// over restoring, with moving to trash the default.  Without paths and
/// without a path-free verb there is nothing to do.
pub fn parse_arguments(
    has_paths: bool,
    clean: bool,
    delete: bool,
    list: bool,
    restore: bool,
) -> (r: Result<Command, Error>)
    ensures
        clean ==> r == Ok::<Command, Error>(Command::Clean),
        !clean && list ==> r == Ok::<Command, Error>(Command::List),
        !clean && !list && has_paths && delete ==> r == Ok::<Command, Error>(Command::Delete),
        !clean && !list && has_paths && !delete && restore ==> r == Ok::<Command, Error>(
            Command::Restore,
        ),
        !clean && !list && has_paths && !delete && !restore ==> r == Ok::<Command, Error>(
            Command::Remove,
        ),
        !clean && !list && !has_paths ==> r == Err::<Command, Error>(Error::IncorrectArguments),
{
    if clean {
        Ok(Command::Clean)
    } else if list {
        Ok(Command::List)
    } else if has_paths {
        if delete {
            Ok(Command::Delete)
        } else if restore {
            Ok(Command::Restore)
        } else {
            Ok(Command::Remove)
        }
    } else {
        Err(Error::IncorrectArguments)
    }
}

} // verus!
