use toolchain_registry::commands::{
    execute, list, register, register_toolchain, remove, Args, ListCommand, RegisterCommand,
    RemoveCommand, SubCommand,
};
use toolchain_registry::failure::{ErrorKind, Failure};
use toolchain_registry::flow::{
    Action, Event, Format, Inspection, LinkPolicy, Outcome, State, TargetKind,
};
use toolchain_registry::listing::RegisteredToolchain;
use toolchain_registry::version_key::{ParseError, VersionKey};

const CANDIDATE: &str = "/usr/local/bin/python3.11";

fn report(implementation: &str, version: &str, debug: bool) -> Event {
    let stdout = format!(
        "{{\"python_implementation\": \"{}\", \"python_version\": \"{}\", \"python_debug\": {}}}\n",
        implementation, version, debug
    );
    Event::Inspected(Inspection::Exited { success: true, stdout: stdout.into_bytes() })
}

fn mutates(action: &Action) -> bool {
    matches!(
        action,
        Action::EnsureParent(_)
            | Action::Link { .. }
            | Action::WriteShim { .. }
            | Action::DeleteFile(_)
            | Action::DeleteTree(_)
    )
}

/// Runs the machine on the events and returns the end state together with
/// the actions that were asked for on the way.
fn run(mut state: State, events: Vec<Event>) -> (State, Vec<Action>) {
    let mut asked = vec![state.action()];
    for event in events {
        state = state.advance(event);
        asked.push(state.action());
    }
    (state, asked)
}

fn failure_of(state: State) -> Failure {
    match state {
        State::Done(Outcome::Failed(f)) => f,
        other => panic!("no failure: {:?}", other),
    }
}

#[test]
fn registration_asks_for_each_step_in_turn() {
    let (end, asked) = run(
        register_toolchain(CANDIDATE, None, LinkPolicy::LinkOnly),
        vec![
            report("CPython", "3.11.4", false),
            Event::Judged { accepted: true },
            Event::Probed(TargetKind::Absent),
            Event::Prepared { created: true },
            Event::Linked { created: true },
        ],
    );
    assert!(matches!(&asked[0], Action::Inspect { candidate } if candidate == CANDIDATE));
    assert!(matches!(&asked[1], Action::Validate(k) if k.to_string() == "cpython@3.11.4"));
    assert!(matches!(&asked[2], Action::Probe(k) if k.to_string() == "cpython@3.11.4"));
    assert!(matches!(&asked[3], Action::EnsureParent(k) if k.to_string() == "cpython@3.11.4"));
    assert!(matches!(&asked[4], Action::Link { key, candidate }
        if key.to_string() == "cpython@3.11.4" && candidate == CANDIDATE));
    assert!(matches!(&asked[5], Action::Finish));
    match end {
        State::Done(Outcome::Registered { key, candidate }) => {
            assert_eq!(key.to_string(), "cpython@3.11.4");
            assert_eq!(candidate, CANDIDATE);
        }
        other => panic!("not registered: {:?}", other),
    }
}

#[test]
fn registration_under_a_label_uses_the_label() {
    let (end, _) = run(
        register_toolchain(CANDIDATE, Some("custom"), LinkPolicy::LinkOnly),
        vec![report("CPython", "3.11.4", true)],
    );
    assert!(matches!(end, State::Validating(p) if p.key.to_string() == "custom@3.11.4"));
}

#[test]
fn registration_of_a_debug_build_marks_the_name() {
    let (end, _) = run(
        register_toolchain(CANDIDATE, None, LinkPolicy::LinkOnly),
        vec![report("CPython", "3.11.4", true)],
    );
    assert!(matches!(end, State::Validating(p) if p.key.to_string() == "cpython-dbg@3.11.4"));
}

#[test]
fn occupied_target_is_a_conflict_and_nothing_is_changed() {
    for kind in [TargetKind::File, TargetKind::Directory] {
        let (end, asked) = run(
            register_toolchain(CANDIDATE, None, LinkPolicy::LinkOrShim),
            vec![
                report("CPython", "3.11.4", false),
                Event::Judged { accepted: true },
                Event::Probed(kind),
            ],
        );
        assert!(asked.iter().all(|a| !mutates(a)));
        assert!(matches!(asked.last(), Some(Action::Finish)));
        let failure = failure_of(end);
        assert_eq!(failure.kind(), ErrorKind::Conflict);
        assert!(matches!(failure, Failure::Occupied(k) if k.to_string() == "cpython@3.11.4"));
    }
}

#[test]
fn failed_link_falls_back_to_a_shim_with_the_candidate_path() {
    let (end, asked) = run(
        register_toolchain(CANDIDATE, None, LinkPolicy::LinkOrShim),
        vec![
            report("CPython", "3.11.4", false),
            Event::Judged { accepted: true },
            Event::Probed(TargetKind::Absent),
            Event::Prepared { created: true },
            Event::Linked { created: false },
            Event::Written { written: true },
        ],
    );
    assert!(matches!(&asked[5], Action::WriteShim { key, contents }
        if key.to_string() == "cpython@3.11.4" && contents == CANDIDATE));
    assert!(matches!(end, State::Done(Outcome::Registered { key, .. })
        if key.to_string() == "cpython@3.11.4"));
}

#[test]
fn failed_link_and_failed_shim_is_a_link_failure() {
    let (end, _) = run(
        register_toolchain(CANDIDATE, None, LinkPolicy::LinkOrShim),
        vec![
            report("CPython", "3.11.4", false),
            Event::Judged { accepted: true },
            Event::Probed(TargetKind::Absent),
            Event::Prepared { created: true },
            Event::Linked { created: false },
            Event::Written { written: false },
        ],
    );
    let failure = failure_of(end);
    assert!(matches!(failure, Failure::LinkFailed));
    assert_eq!(failure.kind(), ErrorKind::Link);
}

#[test]
fn failed_link_without_fallback_is_a_link_failure() {
    let (end, asked) = run(
        register_toolchain(CANDIDATE, None, LinkPolicy::LinkOnly),
        vec![
            report("CPython", "3.11.4", false),
            Event::Judged { accepted: true },
            Event::Probed(TargetKind::Absent),
            Event::Prepared { created: true },
            Event::Linked { created: false },
        ],
    );
    assert!(asked.iter().all(|a| !matches!(a, Action::WriteShim { .. })));
    assert!(matches!(failure_of(end), Failure::LinkFailed));
}

#[test]
fn failure_to_make_the_parent_directory_is_ignored() {
    let (end, asked) = run(
        register_toolchain(CANDIDATE, None, LinkPolicy::LinkOnly),
        vec![
            report("CPython", "3.11.4", false),
            Event::Judged { accepted: true },
            Event::Probed(TargetKind::Absent),
            Event::Prepared { created: false },
            Event::Linked { created: true },
        ],
    );
    assert!(matches!(&asked[4], Action::Link { .. }));
    assert!(matches!(end, State::Done(Outcome::Registered { .. })));
}

#[test]
fn candidate_that_is_no_interpreter_fails_before_any_change() {
    let inspections = vec![
        Inspection::Unrunnable,
        Inspection::Exited { success: false, stdout: Vec::new() },
        Inspection::Exited { success: false, stdout: b"{\"python_implementation\": \"CPython\", \"python_version\": \"3.11.4\", \"python_debug\": false}".to_vec() },
        Inspection::Exited { success: true, stdout: b"GNU bash, version 5.2".to_vec() },
        Inspection::Exited { success: true, stdout: Vec::new() },
    ];
    let kinds = [
        ErrorKind::Execution,
        ErrorKind::Execution,
        ErrorKind::Execution,
        ErrorKind::Parse,
        ErrorKind::Parse,
    ];
    for (inspection, kind) in inspections.into_iter().zip(kinds) {
        let (end, asked) = run(
            register_toolchain(CANDIDATE, None, LinkPolicy::LinkOrShim),
            vec![Event::Inspected(inspection)],
        );
        assert_eq!(asked.len(), 2);
        assert!(matches!(&asked[0], Action::Inspect { .. }));
        assert!(matches!(&asked[1], Action::Finish));
        assert_eq!(failure_of(end).kind(), kind);
    }
}

#[test]
fn reported_version_that_is_no_version_is_a_parse_failure() {
    let (end, asked) = run(
        register_toolchain(CANDIDATE, None, LinkPolicy::LinkOnly),
        vec![report("CPython", "3.13.0a1", false)],
    );
    assert!(asked.iter().all(|a| !mutates(a)));
    let failure = failure_of(end);
    assert!(matches!(failure, Failure::MalformedKey(ParseError::MalformedVersion)));
    assert_eq!(failure.kind(), ErrorKind::Parse);
}

#[test]
fn rejected_key_is_a_validation_failure_naming_the_key() {
    let (end, asked) = run(
        register_toolchain(CANDIDATE, None, LinkPolicy::LinkOnly),
        vec![report("PyPy", "3.9.0", false), Event::Judged { accepted: false }],
    );
    assert!(asked.iter().all(|a| !mutates(a)));
    let failure = failure_of(end);
    assert_eq!(failure.kind(), ErrorKind::Validation);
    assert!(matches!(failure, Failure::Rejected(k) if k.to_string() == "pypy@3.9.0"));
}

#[test]
fn event_that_does_not_answer_is_ignored() {
    let state = register_toolchain(CANDIDATE, None, LinkPolicy::LinkOnly);
    let state = state.advance(Event::Linked { created: true });
    assert!(matches!(&state, State::Inspecting { candidate, label: None, policy: LinkPolicy::LinkOnly }
        if candidate == CANDIDATE));
    let state = state.advance(report("CPython", "3.11.4", false));
    let state = state.advance(Event::Probed(TargetKind::Absent));
    assert!(matches!(&state, State::Validating(_)));
    let done = State::Done(Outcome::NotInstalled).advance(Event::Deleted { deleted: true });
    assert!(matches!(done, State::Done(Outcome::NotInstalled)));
}

#[test]
fn removal_of_a_link_deletes_the_file() {
    let (end, asked) = run(
        remove(RemoveCommand { version: "cpython@3.11.4".to_string() }),
        vec![Event::Probed(TargetKind::File), Event::Deleted { deleted: true }],
    );
    assert!(matches!(&asked[0], Action::Probe(k) if k.to_string() == "cpython@3.11.4"));
    assert!(matches!(&asked[1], Action::DeleteFile(k) if k.to_string() == "cpython@3.11.4"));
    assert!(matches!(end, State::Done(Outcome::RemovedLink(k)) if k.to_string() == "cpython@3.11.4"));
}

#[test]
fn removal_of_an_installation_deletes_the_tree() {
    let (end, asked) = run(
        remove(RemoveCommand { version: "cpython@3.11.4".to_string() }),
        vec![Event::Probed(TargetKind::Directory), Event::Deleted { deleted: true }],
    );
    assert!(matches!(&asked[1], Action::DeleteTree(k) if k.to_string() == "cpython@3.11.4"));
    assert!(matches!(end, State::Done(Outcome::RemovedInstallation(k))
        if k.to_string() == "cpython@3.11.4"));
}

#[test]
fn removal_of_what_is_not_installed_succeeds_and_changes_nothing() {
    let (end, asked) = run(
        remove(RemoveCommand { version: "cpython@3.11.4".to_string() }),
        vec![Event::Probed(TargetKind::Absent)],
    );
    assert!(asked.iter().all(|a| !mutates(a)));
    assert!(matches!(end, State::Done(Outcome::NotInstalled)));
}

#[test]
fn second_removal_finds_nothing_and_does_not_fail() {
    let command = || RemoveCommand { version: "pypy@3.9.0".to_string() };
    let (first, _) = run(
        remove(command()),
        vec![Event::Probed(TargetKind::File), Event::Deleted { deleted: true }],
    );
    assert!(matches!(first, State::Done(Outcome::RemovedLink(_))));
    let (second, asked) = run(remove(command()), vec![Event::Probed(TargetKind::Absent)]);
    assert!(asked.iter().all(|a| !mutates(a)));
    assert!(matches!(second, State::Done(Outcome::NotInstalled)));
}

#[test]
fn failed_deletion_is_an_io_failure() {
    for kind in [TargetKind::File, TargetKind::Directory] {
        let (end, _) = run(
            remove(RemoveCommand { version: "cpython@3.11.4".to_string() }),
            vec![Event::Probed(kind), Event::Deleted { deleted: false }],
        );
        let failure = failure_of(end);
        assert!(matches!(failure, Failure::Io));
        assert_eq!(failure.kind(), ErrorKind::Io);
    }
}

#[test]
fn removal_of_a_text_that_is_no_key_fails_at_once() {
    let state = remove(RemoveCommand { version: "cpython".to_string() });
    assert!(matches!(state.action(), Action::Finish));
    assert!(matches!(failure_of(state), Failure::MalformedKey(ParseError::MissingSeparator)));
    let state = remove(RemoveCommand { version: "cpython@3.11".to_string() });
    assert!(matches!(failure_of(state), Failure::MalformedKey(ParseError::MalformedVersion)));
}

#[test]
fn listing_reads_and_merges() {
    let state = list(ListCommand { include_downloadable: true, format: Some(Format::Json) });
    assert!(matches!(state.action(), Action::Enumerate { include_obtainable: true }));
    let key = |t: &str| VersionKey::parse(t).unwrap();
    let state = state.advance(Event::Enumerated {
        installed: vec![
            RegisteredToolchain { key: key("cpython@3.11.4"), path: "/a".to_string() },
            RegisteredToolchain { key: key("pypy@3.9.0"), path: "/b".to_string() },
        ],
        obtainable: vec![key("cpython@3.12.0")],
    });
    match state {
        State::Done(Outcome::Listed { entries, format }) => {
            assert_eq!(format, Some(Format::Json));
            let names: Vec<String> = entries.iter().map(|e| e.key.to_string()).collect();
            assert_eq!(names, vec!["cpython@3.11.4", "pypy@3.9.0", "cpython@3.12.0"]);
            assert_eq!(entries[2].path, None);
        }
        other => panic!("not listed: {:?}", other),
    }
}

#[test]
fn listing_without_obtainable_ignores_the_catalog() {
    let state = list(ListCommand { include_downloadable: false, format: None });
    assert!(matches!(state.action(), Action::Enumerate { include_obtainable: false }));
    let key = |t: &str| VersionKey::parse(t).unwrap();
    let state = state.advance(Event::Enumerated {
        installed: vec![RegisteredToolchain { key: key("pypy@3.9.0"), path: "/b".to_string() }],
        obtainable: vec![key("cpython@3.12.0")],
    });
    match state {
        State::Done(Outcome::Listed { entries, format }) => {
            assert_eq!(format, None);
            assert_eq!(entries.len(), 1);
            assert_eq!(entries[0].key.to_string(), "pypy@3.9.0");
        }
        other => panic!("not listed: {:?}", other),
    }
}

#[test]
fn listing_that_cannot_read_is_an_io_failure() {
    let state = list(ListCommand { include_downloadable: false, format: None });
    assert!(matches!(failure_of(state.advance(Event::Unreadable)), Failure::Io));
}

#[test]
fn execute_starts_each_command() {
    let policy = LinkPolicy::LinkOnly;
    let state = execute(
        Args {
            command: SubCommand::Register(RegisterCommand {
                path: CANDIDATE.to_string(),
                name: Some("custom".to_string()),
            }),
        },
        policy,
    );
    assert!(matches!(&state, State::Inspecting { candidate, label: Some(l), policy: LinkPolicy::LinkOnly }
        if candidate == CANDIDATE && l == "custom"));
    let state = execute(
        Args { command: SubCommand::Remove(RemoveCommand { version: "pypy@3.9.0".to_string() }) },
        policy,
    );
    assert!(matches!(&state, State::Locating { key } if key.to_string() == "pypy@3.9.0"));
    let state = execute(
        Args {
            command: SubCommand::List(ListCommand { include_downloadable: true, format: None }),
        },
        policy,
    );
    assert!(matches!(&state, State::Enumerating { include_obtainable: true, format: None }));
    let state = execute(Args { command: SubCommand::Fetch }, policy);
    assert!(matches!(&state, State::Done(Outcome::Delegated)));
}

#[test]
fn register_starts_with_the_inspection() {
    let state = register(
        RegisterCommand { path: CANDIDATE.to_string(), name: None },
        LinkPolicy::LinkOrShim,
    );
    assert!(matches!(state.action(), Action::Inspect { candidate } if candidate == CANDIDATE));
    assert!(matches!(&state, State::Inspecting { label: None, policy: LinkPolicy::LinkOrShim, .. }));
}
