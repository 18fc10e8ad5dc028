//! The commands on toolchains, and where each of them starts.

use vstd::prelude::*;
use vstd::string::*;

use crate::failure::{Failure, FailureModel};
use crate::flow::{Format, LinkPolicy, Outcome, OutcomeModel, State, StateModel};
use crate::inspect::label_model;
use crate::version_key::{parse_key, ParseError, VersionKey};

verus! {

/// The toolchain command line.
#[derive(Debug)]
pub struct Args {
    pub command: SubCommand,
}

/// The commands on toolchains.
#[derive(Debug)]
pub enum SubCommand {
    /// Fetch a toolchain: the work of the fetch pipeline.
    Fetch,
    /// List the toolchains.
    List(ListCommand),
    /// Register a local interpreter.
    Register(RegisterCommand),
    /// Remove a toolchain.
    Remove(RemoveCommand),
}

/// Registers a local interpreter as a toolchain.
#[derive(Debug)]
pub struct RegisterCommand {
    /// The path of the interpreter.
    pub path: String,
    /// The name of the toolchain; derived from the interpreter where none
    /// is given.
    pub name: Option<String>,
}

/// Removes a toolchain.
#[derive(Debug)]
pub struct RemoveCommand {
    /// The text of the toolchain's key.
    pub version: String,
}

/// Lists the toolchains.
#[derive(Debug)]
pub struct ListCommand {
    /// Whether toolchains that are obtainable and not installed are
    /// listed too.
    pub include_downloadable: bool,
    /// The format for programs, if one is asked for.
    pub format: Option<Format>,
}

/// Where a registration starts: with the inspection of the candidate.
pub open spec fn registration_start(
    path: Seq<char>,
    name: Option<Seq<char>>,
    policy: LinkPolicy,
) -> StateModel {
    StateModel::Inspecting { candidate: path, label: name, policy }
}

/// Where a removal starts: with a look at the key's target, or, where the
/// text is no key, at its end.
pub open spec fn removal_start(version: Seq<char>) -> StateModel {
    match parse_key(version) {
        Some(key) => StateModel::Locating { key },
        None => StateModel::Done(
            OutcomeModel::Failed(
                FailureModel::MalformedKey(
                    if version.contains('@') {
                        ParseError::MalformedVersion
                    } else {
                        ParseError::MissingSeparator
                    },
                ),
            ),
        ),
    }
}

/// Where a listing starts: with the reading of the toolchains.
pub open spec fn listing_start(cmd: ListCommand) -> StateModel {
    StateModel::Enumerating { include_obtainable: cmd.include_downloadable, format: cmd.format }
}

/// The name of a registration as a text.
pub open spec fn name_model(name: Option<String>) -> Option<Seq<char>> {
    match name {
        Some(n) => Some(n@),
        None => None,
    }
}

/// Where a command starts.
pub open spec fn start(cmd: Args, policy: LinkPolicy) -> StateModel {
    match cmd.command {
        SubCommand::Fetch => StateModel::Done(OutcomeModel::Delegated),
        SubCommand::List(list) => listing_start(list),
        SubCommand::Register(register) => registration_start(
            register.path@,
            name_model(register.name),
            policy,
        ),
        SubCommand::Remove(remove) => removal_start(remove.version@),
    }
}

/// Starts the registration of the interpreter at `path`, under the label
/// `name` if one is given.
pub fn register_toolchain(path: &str, name: Option<&str>, policy: LinkPolicy) -> (s: State)
    ensures
        s@ == registration_start(path@, label_model(name), policy),
{
    State::Inspecting {
        candidate: String::from_str(path),
        label: match name {
            Some(n) => Some(String::from_str(n)),
            None => None,
        },
        policy,
    }
}

/// Starts a registration.
pub fn register(cmd: RegisterCommand, policy: LinkPolicy) -> (s: State)
    ensures
        s@ == registration_start(cmd.path@, name_model(cmd.name), policy),
{
    State::Inspecting { candidate: cmd.path, label: cmd.name, policy }
}

/// Starts a removal.
pub fn remove(cmd: RemoveCommand) -> (s: State)
    ensures
        s@ == removal_start(cmd.version@),
{
    match VersionKey::parse(cmd.version.as_str()) {
        Ok(key) => State::Locating { key },
        Err(e) => State::Done(Outcome::Failed(Failure::MalformedKey(e))),
    }
}

/// Starts a listing.
pub fn list(cmd: ListCommand) -> (s: State)
    ensures
        s@ == listing_start(cmd),
{
    State::Enumerating { include_obtainable: cmd.include_downloadable, format: cmd.format }
}

/// Starts a command.
pub fn execute(cmd: Args, policy: LinkPolicy) -> (s: State)
    ensures
        s@ == start(cmd, policy),
{
    match cmd.command {
        SubCommand::Register(args) => register(args, policy),
        SubCommand::Fetch => State::Done(Outcome::Delegated),
        SubCommand::List(args) => list(args),
        SubCommand::Remove(args) => remove(args),
    }
}

} // verus!
