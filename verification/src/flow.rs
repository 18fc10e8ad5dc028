//! The decisions of the register, remove and list commands.
//!
//! A command is a state machine. In each state it asks for one action;
//! the caller performs the action and hands back the event that answers
//! it, and the machine moves on. An event that does not answer the action
//! asked for is ignored. The machine itself touches nothing: what is run,
//! probed, linked, written or deleted is the caller's work.

use vstd::prelude::*;

use crate::failure::{Failure, FailureModel};
use crate::inspect::{
    derive_key, derived_text, output_info, parse_inspection, InfoModel, InspectInfo,
};
use crate::listing::{
    listing_catalog, listing_of, merge_listing, models, EntryModel, ListEntry,
    RegisteredToolchain,
};
use crate::version_key::{parse_key, KeyModel, ParseError, VersionKey};

verus! {

/// What stands at the place of a key's target.
#[derive(Debug, PartialEq, Eq, Structural, Clone, Copy)]
pub enum TargetKind {
    /// A file: a link or a shim.
    File,
    /// A directory: a full installation.
    Directory,
    /// Nothing.
    Absent,
}

/// How a target is bound to its candidate.
#[derive(Debug, PartialEq, Eq, Structural, Clone, Copy)]
pub enum LinkPolicy {
    /// By a symbolic link only.
    LinkOnly,
    /// By a symbolic link, and where that fails by a shim: a text file
    /// that holds the candidate's path.
    LinkOrShim,
}

/// The format of a listing meant for programs.
#[derive(Debug, PartialEq, Eq, Structural, Clone, Copy)]
pub enum Format {
    Json,
}

/// How running a candidate ended.
#[derive(Debug)]
pub enum Inspection {
    /// It could not be run.
    Unrunnable,
    /// It ran; `success` tells whether it reported success, `stdout` is
    /// what it printed.
    Exited { success: bool, stdout: Vec<u8> },
}

/// The mathematical value of an [`Inspection`].
pub enum InspectionModel {
    Unrunnable,
    Exited { success: bool, stdout: Seq<u8> },
}

impl View for Inspection {
    type V = InspectionModel;

    open spec fn view(&self) -> InspectionModel {
        match self {
            Inspection::Unrunnable => InspectionModel::Unrunnable,
            Inspection::Exited { success, stdout } => InspectionModel::Exited {
                success: *success,
                stdout: stdout@,
            },
        }
    }
}

/// What an inspection yields: the report, or the failure.
pub open spec fn inspection_result(i: InspectionModel) -> Result<InfoModel, FailureModel> {
    match i {
        InspectionModel::Unrunnable => Err(FailureModel::NotRunnable),
        InspectionModel::Exited { success, stdout } => if !success {
            Err(FailureModel::InvalidInstallation)
        } else {
            match output_info(stdout) {
                Some(info) => Ok(info),
                None => Err(FailureModel::MalformedOutput),
            }
        },
    }
}

/// Reads the report of a candidate from how running it ended. A candidate
/// that reported failure is no interpreter, whatever it printed.
pub fn inspect(inspection: &Inspection) -> (r: Result<InspectInfo, Failure>)
    ensures
        match r {
            Ok(info) => inspection_result(inspection@) == Ok::<InfoModel, FailureModel>(info@),
            Err(f) => inspection_result(inspection@) == Err::<InfoModel, FailureModel>(f@),
        },
{
    match inspection {
        Inspection::Unrunnable => Err(Failure::NotRunnable),
        Inspection::Exited { success, stdout } => {
            if !*success {
                Err(Failure::InvalidInstallation)
            } else {
                parse_inspection(stdout.as_slice())
            }
        },
    }
}

/// A registration that has its key: the candidate, the key, and how the
/// two are to be bound.
#[derive(Debug)]
pub struct Pending {
    pub candidate: String,
    pub key: VersionKey,
    pub policy: LinkPolicy,
}

/// The mathematical value of a [`Pending`].
pub struct PendingModel {
    pub candidate: Seq<char>,
    pub key: KeyModel,
    pub policy: LinkPolicy,
}

impl View for Pending {
    type V = PendingModel;

    open spec fn view(&self) -> PendingModel {
        PendingModel { candidate: self.candidate@, key: self.key@, policy: self.policy }
    }
}

/// How a command ended.
#[derive(Debug)]
pub enum Outcome {
    /// The candidate is registered under the key.
    Registered { key: VersionKey, candidate: String },
    /// The file of the key's target was deleted.
    RemovedLink(VersionKey),
    /// The directory of the key's target was deleted.
    RemovedInstallation(VersionKey),
    /// Nothing stood at the key's target; nothing was deleted.
    NotInstalled,
    /// The listing, and the format asked for.
    Listed { entries: Vec<ListEntry>, format: Option<Format> },
    /// The command belongs to the fetch pipeline.
    Delegated,
    /// The command failed.
    Failed(Failure),
}

/// The mathematical value of an [`Outcome`].
pub enum OutcomeModel {
    Registered { key: KeyModel, candidate: Seq<char> },
    RemovedLink(KeyModel),
    RemovedInstallation(KeyModel),
    NotInstalled,
    Listed { entries: Seq<EntryModel>, format: Option<Format> },
    Delegated,
    Failed(FailureModel),
}

impl View for Outcome {
    type V = OutcomeModel;

    open spec fn view(&self) -> OutcomeModel {
        match self {
            Outcome::Registered { key, candidate } => OutcomeModel::Registered {
                key: key@,
                candidate: candidate@,
            },
            Outcome::RemovedLink(key) => OutcomeModel::RemovedLink(key@),
            Outcome::RemovedInstallation(key) => OutcomeModel::RemovedInstallation(key@),
            Outcome::NotInstalled => OutcomeModel::NotInstalled,
            Outcome::Listed { entries, format } => OutcomeModel::Listed {
                entries: models(entries@),
                format: *format,
            },
            Outcome::Delegated => OutcomeModel::Delegated,
            Outcome::Failed(f) => OutcomeModel::Failed(f@),
        }
    }
}

/// What the caller hands back after an action.
#[derive(Debug)]
pub enum Event {
    /// The candidate was run, or could not be.
    Inspected(Inspection),
    /// The caller's policy accepted or refused the key.
    Judged { accepted: bool },
    /// What stands at the key's target.
    Probed(TargetKind),
    /// The directory above the target was seen to; `created` tells
    /// whether it is there now.
    Prepared { created: bool },
    /// The link was attempted.
    Linked { created: bool },
    /// The shim was attempted.
    Written { written: bool },
    /// The deletion was attempted.
    Deleted { deleted: bool },
    /// The installed toolchains and the catalog of obtainable ones.
    Enumerated { installed: Vec<RegisteredToolchain>, obtainable: Vec<VersionKey> },
    /// The installed toolchains could not be read.
    Unreadable,
}

/// The mathematical value of an [`Event`].
pub enum EventModel {
    Inspected(InspectionModel),
    Judged { accepted: bool },
    Probed(TargetKind),
    Prepared { created: bool },
    Linked { created: bool },
    Written { written: bool },
    Deleted { deleted: bool },
    Enumerated { installed: Seq<RegisteredToolchain>, obtainable: Seq<VersionKey> },
    Unreadable,
}

impl View for Event {
    type V = EventModel;

    open spec fn view(&self) -> EventModel {
        match self {
            Event::Inspected(i) => EventModel::Inspected(i@),
            Event::Judged { accepted } => EventModel::Judged { accepted: *accepted },
            Event::Probed(kind) => EventModel::Probed(*kind),
            Event::Prepared { created } => EventModel::Prepared { created: *created },
            Event::Linked { created } => EventModel::Linked { created: *created },
            Event::Written { written } => EventModel::Written { written: *written },
            Event::Deleted { deleted } => EventModel::Deleted { deleted: *deleted },
            Event::Enumerated { installed, obtainable } => EventModel::Enumerated {
                installed: installed@,
                obtainable: obtainable@,
            },
            Event::Unreadable => EventModel::Unreadable,
        }
    }
}

/// What the machine asks the caller to do.
#[derive(Debug)]
pub enum Action {
    /// Run the candidate with the inspection script; answer `Inspected`.
    Inspect { candidate: String },
    /// Ask the caller's policy about the key; answer `Judged`.
    Validate(VersionKey),
    /// Look at the key's target; answer `Probed`.
    Probe(VersionKey),
    /// Make sure the directory above the key's target exists; answer
    /// `Prepared`.
    EnsureParent(VersionKey),
    /// Make the key's target a symbolic link to the candidate; answer
    /// `Linked`.
    Link { key: VersionKey, candidate: String },
    /// Write `contents` as the whole of the file at the key's target;
    /// answer `Written`.
    WriteShim { key: VersionKey, contents: String },
    /// Delete the file at the key's target; answer `Deleted`.
    DeleteFile(VersionKey),
    /// Delete the directory at the key's target and all below it; answer
    /// `Deleted`.
    DeleteTree(VersionKey),
    /// Read the installed toolchains and, where `include_obtainable` is
    /// set, the catalog of obtainable ones; answer `Enumerated` or
    /// `Unreadable`.
    Enumerate { include_obtainable: bool },
    /// Nothing is left to do: the command has its outcome.
    Finish,
}

/// The mathematical value of an [`Action`].
pub enum ActionModel {
    Inspect { candidate: Seq<char> },
    Validate(KeyModel),
    Probe(KeyModel),
    EnsureParent(KeyModel),
    Link { key: KeyModel, candidate: Seq<char> },
    WriteShim { key: KeyModel, contents: Seq<char> },
    DeleteFile(KeyModel),
    DeleteTree(KeyModel),
    Enumerate { include_obtainable: bool },
    Finish,
}

impl View for Action {
    type V = ActionModel;

    open spec fn view(&self) -> ActionModel {
        match self {
            Action::Inspect { candidate } => ActionModel::Inspect { candidate: candidate@ },
            Action::Validate(key) => ActionModel::Validate(key@),
            Action::Probe(key) => ActionModel::Probe(key@),
            Action::EnsureParent(key) => ActionModel::EnsureParent(key@),
            Action::Link { key, candidate } => ActionModel::Link {
                key: key@,
                candidate: candidate@,
            },
            Action::WriteShim { key, contents } => ActionModel::WriteShim {
                key: key@,
                contents: contents@,
            },
            Action::DeleteFile(key) => ActionModel::DeleteFile(key@),
            Action::DeleteTree(key) => ActionModel::DeleteTree(key@),
            Action::Enumerate { include_obtainable } => ActionModel::Enumerate {
                include_obtainable: *include_obtainable,
            },
            Action::Finish => ActionModel::Finish,
        }
    }
}

/// Where a command stands.
#[derive(Debug)]
pub enum State {
    /// Registration: the candidate is to be inspected.
    Inspecting { candidate: String, label: Option<String>, policy: LinkPolicy },
    /// Registration: the key is derived and awaits the caller's policy.
    Validating(Pending),
    /// Registration: the key's target is to be looked at.
    Probing(Pending),
    /// Registration: the target is free; the directory above it is to be
    /// seen to.
    Preparing(Pending),
    /// Registration: the link is to be made.
    Linking(Pending),
    /// Registration: the link failed; the shim is to be written.
    WritingShim(Pending),
    /// Removal: the key's target is to be looked at.
    Locating { key: VersionKey },
    /// Removal: the target is to be deleted; `tree` tells whether it is a
    /// directory.
    Deleting { key: VersionKey, tree: bool },
    /// Listing: the toolchains are to be read.
    Enumerating { include_obtainable: bool, format: Option<Format> },
    /// The command has ended.
    Done(Outcome),
}

/// The mathematical value of a [`State`].
pub enum StateModel {
    Inspecting { candidate: Seq<char>, label: Option<Seq<char>>, policy: LinkPolicy },
    Validating(PendingModel),
    Probing(PendingModel),
    Preparing(PendingModel),
    Linking(PendingModel),
    WritingShim(PendingModel),
    Locating { key: KeyModel },
    Deleting { key: KeyModel, tree: bool },
    Enumerating { include_obtainable: bool, format: Option<Format> },
    Done(OutcomeModel),
}

impl View for State {
    type V = StateModel;

    open spec fn view(&self) -> StateModel {
        match self {
            State::Inspecting { candidate, label, policy } => StateModel::Inspecting {
                candidate: candidate@,
                label: match label {
                    Some(l) => Some(l@),
                    None => None,
                },
                policy: *policy,
            },
            State::Validating(p) => StateModel::Validating(p@),
            State::Probing(p) => StateModel::Probing(p@),
            State::Preparing(p) => StateModel::Preparing(p@),
            State::Linking(p) => StateModel::Linking(p@),
            State::WritingShim(p) => StateModel::WritingShim(p@),
            State::Locating { key } => StateModel::Locating { key: key@ },
            State::Deleting { key, tree } => StateModel::Deleting { key: key@, tree: *tree },
            State::Enumerating { include_obtainable, format } => StateModel::Enumerating {
                include_obtainable: *include_obtainable,
                format: *format,
            },
            State::Done(outcome) => StateModel::Done(outcome@),
        }
    }
}

/// The action that a state asks for.
pub open spec fn action_of(s: StateModel) -> ActionModel {
    match s {
        StateModel::Inspecting { candidate, label, policy } => ActionModel::Inspect { candidate },
        StateModel::Validating(p) => ActionModel::Validate(p.key),
        StateModel::Probing(p) => ActionModel::Probe(p.key),
        StateModel::Preparing(p) => ActionModel::EnsureParent(p.key),
        StateModel::Linking(p) => ActionModel::Link { key: p.key, candidate: p.candidate },
        StateModel::WritingShim(p) => ActionModel::WriteShim { key: p.key, contents: p.candidate },
        StateModel::Locating { key } => ActionModel::Probe(key),
        StateModel::Deleting { key, tree } => if tree {
            ActionModel::DeleteTree(key)
        } else {
            ActionModel::DeleteFile(key)
        },
        StateModel::Enumerating { include_obtainable, format } => ActionModel::Enumerate {
            include_obtainable,
        },
        StateModel::Done(_) => ActionModel::Finish,
    }
}

/// The state after an inspection.
pub open spec fn after_inspection(
    candidate: Seq<char>,
    label: Option<Seq<char>>,
    policy: LinkPolicy,
    inspection: InspectionModel,
) -> StateModel {
    match inspection_result(inspection) {
        Err(f) => StateModel::Done(OutcomeModel::Failed(f)),
        Ok(info) => match parse_key(derived_text(info, label)) {
            Some(key) => StateModel::Validating(PendingModel { candidate, key, policy }),
            None => StateModel::Done(
                OutcomeModel::Failed(FailureModel::MalformedKey(ParseError::MalformedVersion)),
            ),
        },
    }
}

/// The state that follows `s` on event `e`.
pub open spec fn next(s: StateModel, e: EventModel) -> StateModel {
    match (s, e) {
        (
            StateModel::Inspecting { candidate, label, policy },
            EventModel::Inspected(inspection),
        ) => after_inspection(candidate, label, policy, inspection),
        (StateModel::Validating(p), EventModel::Judged { accepted }) => if accepted {
            StateModel::Probing(p)
        } else {
            StateModel::Done(OutcomeModel::Failed(FailureModel::Rejected(p.key)))
        },
        (StateModel::Probing(p), EventModel::Probed(kind)) => if kind == TargetKind::Absent {
            StateModel::Preparing(p)
        } else {
            StateModel::Done(OutcomeModel::Failed(FailureModel::Occupied(p.key)))
        },
        (StateModel::Preparing(p), EventModel::Prepared { created }) => StateModel::Linking(p),
        (StateModel::Linking(p), EventModel::Linked { created }) => if created {
            StateModel::Done(OutcomeModel::Registered { key: p.key, candidate: p.candidate })
        } else if p.policy == LinkPolicy::LinkOrShim {
            StateModel::WritingShim(p)
        } else {
            StateModel::Done(OutcomeModel::Failed(FailureModel::LinkFailed))
        },
        (StateModel::WritingShim(p), EventModel::Written { written }) => if written {
            StateModel::Done(OutcomeModel::Registered { key: p.key, candidate: p.candidate })
        } else {
            StateModel::Done(OutcomeModel::Failed(FailureModel::LinkFailed))
        },
        (StateModel::Locating { key }, EventModel::Probed(kind)) => match kind {
            TargetKind::File => StateModel::Deleting { key, tree: false },
            TargetKind::Directory => StateModel::Deleting { key, tree: true },
            TargetKind::Absent => StateModel::Done(OutcomeModel::NotInstalled),
        },
        (StateModel::Deleting { key, tree }, EventModel::Deleted { deleted }) => if !deleted {
            StateModel::Done(OutcomeModel::Failed(FailureModel::Io))
        } else if tree {
            StateModel::Done(OutcomeModel::RemovedInstallation(key))
        } else {
            StateModel::Done(OutcomeModel::RemovedLink(key))
        },
        (
            StateModel::Enumerating { include_obtainable, format },
            EventModel::Enumerated { installed, obtainable },
        ) => StateModel::Done(
            OutcomeModel::Listed {
                entries: listing_of(listing_catalog(installed, obtainable, include_obtainable)),
                format,
            },
        ),
        (StateModel::Enumerating { include_obtainable, format }, EventModel::Unreadable) => {
            StateModel::Done(OutcomeModel::Failed(FailureModel::Io))
        },
        _ => s,
    }
}

impl State {
    /// The action that this state asks for.
    pub fn action(&self) -> (a: Action)
        ensures
            a@ == action_of(self@),
    {
        match self {
            State::Inspecting { candidate, label, policy } => Action::Inspect {
                candidate: candidate.clone(),
            },
            State::Validating(p) => Action::Validate(p.key.clone()),
            State::Probing(p) => Action::Probe(p.key.clone()),
            State::Preparing(p) => Action::EnsureParent(p.key.clone()),
            State::Linking(p) => Action::Link { key: p.key.clone(), candidate: p.candidate.clone() },
            State::WritingShim(p) => Action::WriteShim {
                key: p.key.clone(),
                contents: p.candidate.clone(),
            },
            State::Locating { key } => Action::Probe(key.clone()),
            State::Deleting { key, tree } => if *tree {
                Action::DeleteTree(key.clone())
            } else {
                Action::DeleteFile(key.clone())
            },
            State::Enumerating { include_obtainable, format } => Action::Enumerate {
                include_obtainable: *include_obtainable,
            },
            State::Done(_) => Action::Finish,
        }
    }

    /// The state that follows on `event`. An event that does not answer
    /// the action of this state leaves the state as it is.
    pub fn advance(self, event: Event) -> (t: State)
        ensures
            t@ == next(self@, event@),
    {
        match (self, event) {
            (State::Inspecting { candidate, label, policy }, Event::Inspected(inspection)) => {
                match inspect(&inspection) {
                    Err(f) => State::Done(Outcome::Failed(f)),
                    Ok(info) => {
                        let derived = match &label {
                            Some(l) => derive_key(&info, Some(l.as_str())),
                            None => derive_key(&info, None),
                        };
                        match derived {
                            Ok(key) => State::Validating(Pending { candidate, key, policy }),
                            Err(e) => State::Done(Outcome::Failed(Failure::MalformedKey(e))),
                        }
                    },
                }
            },
            (State::Validating(p), Event::Judged { accepted }) => {
                if accepted {
                    State::Probing(p)
                } else {
                    State::Done(Outcome::Failed(Failure::Rejected(p.key)))
                }
            },
            (State::Probing(p), Event::Probed(kind)) => {
                match kind {
                    TargetKind::Absent => State::Preparing(p),
                    _ => State::Done(Outcome::Failed(Failure::Occupied(p.key))),
                }
            },
            (State::Preparing(p), Event::Prepared { created }) => State::Linking(p),
            (State::Linking(p), Event::Linked { created }) => {
                if created {
                    State::Done(Outcome::Registered { key: p.key, candidate: p.candidate })
                } else {
                    match p.policy {
                        LinkPolicy::LinkOrShim => State::WritingShim(p),
                        LinkPolicy::LinkOnly => State::Done(Outcome::Failed(Failure::LinkFailed)),
                    }
                }
            },
            (State::WritingShim(p), Event::Written { written }) => {
                if written {
                    State::Done(Outcome::Registered { key: p.key, candidate: p.candidate })
                } else {
                    State::Done(Outcome::Failed(Failure::LinkFailed))
                }
            },
            (State::Locating { key }, Event::Probed(kind)) => {
                match kind {
                    TargetKind::File => State::Deleting { key, tree: false },
                    TargetKind::Directory => State::Deleting { key, tree: true },
                    TargetKind::Absent => State::Done(Outcome::NotInstalled),
                }
            },
            (State::Deleting { key, tree }, Event::Deleted { deleted }) => {
                if !deleted {
                    State::Done(Outcome::Failed(Failure::Io))
                } else if tree {
                    State::Done(Outcome::RemovedInstallation(key))
                } else {
                    State::Done(Outcome::RemovedLink(key))
                }
            },
            (
                State::Enumerating { include_obtainable, format },
                Event::Enumerated { installed, obtainable },
            ) => {
                let entries = merge_listing(&installed, &obtainable, include_obtainable);
                State::Done(Outcome::Listed { entries, format })
            },
            (State::Enumerating { include_obtainable, format }, Event::Unreadable) => State::Done(
                Outcome::Failed(Failure::Io),
            ),
            (state, _) => state,
        }
    }
}

} // verus!
