//! The command-level actions of the package manager, and the dispatch from a
//! parsed subcommand to the component that executes it.

use crate::archive::compare_str;
use crate::error::MixError;
use vstd::prelude::*;

verus! {

/// An action that can be performed by the package database.
#[derive(Debug, PartialEq)]
pub enum Action {
    /// Install packages.
    Install(Vec<String>),
    /// Uninstall packages.
    Remove(Vec<String>),
    /// Bring the cache up to date, then run the follow-up action if any.
    Synchronize(Option<Box<Action>>),
    /// Bring packages up to date; all installed packages when none are
    /// named.
    Update(Option<Vec<String>>),
    /// Download files for a package.
    Fetch(Vec<String>),
    /// List the installed packages.
    List,
}

/// Implements behaviors corresponding to an `Action`. The component driving
/// the store implements this; `Action::execute` dispatches to it.
pub trait Actionable {
    /// Install the given packages to the system.
    fn install(&mut self, packages: &Vec<String>) -> Result<(), MixError>;

    /// Remove the given packages from the system.
    fn remove(&mut self, packages: &Vec<String>) -> Result<(), MixError>;

    /// Bring the local package cache in sync with the remote cache, then run
    /// `next_action`.
    fn synchronize(&mut self, next_action: &Option<Box<Action>>) -> Result<(), MixError>;

    /// Bring the given packages to the newest version, defaulting to every
    /// installed package.
    fn update(&mut self, packages: &Option<Vec<String>>) -> Result<(), MixError>;

    /// Get the files of the given packages.
    fn fetch(&self, packages: &Vec<String>) -> Result<(), MixError>;

    /// List the packages currently installed.
    fn list(&self) -> Result<(), MixError>;
}

/// The subcommands that take no package list.
pub open spec fn bare_subcommand(sub: Seq<char>) -> bool {
    sub == "synchronize"@ || sub == "update"@ || sub == "list"@
}

/// The subcommands that take a package list.
pub open spec fn package_subcommand(sub: Seq<char>) -> bool {
    sub == "install"@ || sub == "remove"@ || sub == "update"@ || sub == "fetch"@
}

impl Action {
    /// Create a new `Action` from the command provided. The argument parser
    /// upstream only hands over known subcommands, with a package list
    /// exactly where the subcommand takes one; anything else is outside this
    /// constructor's contract.
    pub fn new(subcommand: &str, packages: &Option<Vec<String>>) -> (r: Action)
        requires
            match packages {
                None => bare_subcommand(subcommand@),
                Some(_) => package_subcommand(subcommand@),
            },
        ensures
            match packages {
                None => {
                    &&& subcommand@ == "synchronize"@ ==> r == Action::Synchronize(None)
                    &&& subcommand@ == "update"@ ==> (r matches Action::Synchronize(Some(next))
                        && *next == Action::Update(None))
                    &&& subcommand@ == "list"@ ==> r == Action::List
                },
                Some(named) => {
                    &&& subcommand@ == "install"@ ==> (r matches Action::Install(v) && v@
                        == named@)
                    &&& subcommand@ == "remove"@ ==> (r matches Action::Remove(v) && v@ == named@)
                    &&& subcommand@ == "update"@ ==> (r matches Action::Synchronize(Some(next))
                        && (*next matches Action::Update(Some(v)) && v@ == named@))
                    &&& subcommand@ == "fetch"@ ==> (r matches Action::Fetch(v) && v@ == named@)
                },
            },
    {
        proof {
            reveal_strlit("synchronize");
            reveal_strlit("update");
            reveal_strlit("list");
            reveal_strlit("install");
            reveal_strlit("remove");
            reveal_strlit("fetch");
            assert("synchronize"@.len() == 11);
            assert("update"@.len() == 6);
            assert("list"@.len() == 4);
            assert("install"@.len() == 7);
            assert("remove"@.len() == 6);
            assert("fetch"@.len() == 5);
            assert("remove"@[0] == 'r' && "update"@[0] == 'u');
            assert("remove"@ != "update"@);
        }
        match packages {
            None => {
                if compare_str(subcommand, "synchronize") {
                    Action::Synchronize(None)
                } else if compare_str(subcommand, "update") {
                    Action::Synchronize(Some(Box::new(Action::Update(None))))
                } else {
                    proof {
                        assert(subcommand@ == "list"@);
                    }
                    Action::List
                }
            },
            Some(named) => {
                let named = clone_names(named);
                if compare_str(subcommand, "install") {
                    Action::Install(named)
                } else if compare_str(subcommand, "remove") {
                    Action::Remove(named)
                } else if compare_str(subcommand, "update") {
                    Action::Synchronize(Some(Box::new(Action::Update(Some(named)))))
                } else {
                    proof {
                        assert(subcommand@ == "fetch"@);
                    }
                    Action::Fetch(named)
                }
            },
        }
    }

    /// Calls the corresponding method on the given `Actionable`; what comes
    /// back is whatever that implementation answers.
    pub fn execute<T: Actionable>(&self, executor: &mut T) -> Result<(), MixError> {
        match self {
            Action::Install(packages) => executor.install(packages),
            Action::Remove(packages) => executor.remove(packages),
            Action::Synchronize(next_action) => executor.synchronize(next_action),
            Action::Update(packages) => executor.update(packages),
            Action::Fetch(packages) => executor.fetch(packages),
            Action::List => executor.list(),
        }
    }
}

/// An exact copy of a name list.
fn clone_names(names: &Vec<String>) -> (r: Vec<String>)
    ensures
        r@ == names@,
{
    let r = names.clone();
    proof {
        assert(r@ =~= names@);
    }
    r
}

} // verus!
