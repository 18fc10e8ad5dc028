use toolchain_registry::failure::{ErrorKind, Failure};
use toolchain_registry::flow::{inspect, Inspection};
use toolchain_registry::inspect::{
    derive_key, parse_inspection, read_record, FieldValue, InspectInfo, RecordField, INSPECT_SCRIPT,
};
use toolchain_registry::version_key::ParseError;

fn info(implementation: &str, version: &str, debug: bool) -> InspectInfo {
    InspectInfo {
        python_implementation: implementation.to_string(),
        python_version: version.to_string(),
        python_debug: debug,
    }
}

fn field(name: &str, value: FieldValue) -> RecordField {
    RecordField { name: name.to_string(), value }
}

fn text(s: &str) -> FieldValue {
    FieldValue::Text(s.to_string())
}

#[test]
fn derived_key_is_lower_cased_implementation() {
    let key = derive_key(&info("CPython", "3.11.4", false), None).unwrap();
    assert_eq!(key.to_string(), "cpython@3.11.4");
}

#[test]
fn derived_key_of_debug_build_has_suffix() {
    let key = derive_key(&info("CPython", "3.11.4", true), None).unwrap();
    assert_eq!(key.to_string(), "cpython-dbg@3.11.4");
    assert_eq!(key.name, "cpython-dbg");
}

#[test]
fn label_replaces_implementation_and_debug_suffix() {
    for (implementation, debug) in [("CPython", false), ("CPython", true), ("PyPy", true)] {
        let key = derive_key(&info(implementation, "3.11.4", debug), Some("custom")).unwrap();
        assert_eq!(key.to_string(), "custom@3.11.4");
    }
}

#[test]
fn label_is_taken_as_written() {
    let key = derive_key(&info("CPython", "3.11.4", false), Some("MyBuild")).unwrap();
    assert_eq!(key.name, "MyBuild");
}

#[test]
fn only_ascii_capitals_are_lowered() {
    let key = derive_key(&info("PyPÝ-X_9Z", "1.2.3", false), None).unwrap();
    assert_eq!(key.name, "pypÝ-x_9z");
}

#[test]
fn derived_key_needs_a_well_formed_version() {
    for version in ["3.11", "3.11.4rc1", "", "3.11.4+", "v3.11.4", "3.11.04"] {
        assert_eq!(
            derive_key(&info("CPython", version, false), None).unwrap_err(),
            ParseError::MalformedVersion
        );
    }
}

#[test]
fn derived_key_refuses_separator_in_name() {
    assert_eq!(
        derive_key(&info("CPython", "3.11.4", false), Some("my@build")).unwrap_err(),
        ParseError::MalformedVersion
    );
    assert_eq!(
        derive_key(&info("C@Python", "3.11.4", false), None).unwrap_err(),
        ParseError::MalformedVersion
    );
}

#[test]
fn output_of_the_script_is_read() {
    let out = b"{\"python_implementation\": \"CPython\", \"python_version\": \"3.11.4\", \"python_debug\": false}\n";
    let report = parse_inspection(out).unwrap();
    assert_eq!(report.python_implementation, "CPython");
    assert_eq!(report.python_version, "3.11.4");
    assert!(!report.python_debug);
}

#[test]
fn fields_are_read_in_any_order() {
    let out = b"  {\"python_debug\": true, \"python_version\": \"3.9.0\", \"python_implementation\": \"PyPy\"}";
    let report = parse_inspection(out).unwrap();
    assert_eq!(report.python_implementation, "PyPy");
    assert_eq!(report.python_version, "3.9.0");
    assert!(report.python_debug);
}

#[test]
fn escapes_in_strings_are_decoded() {
    let out = b"{\"python_implementation\": \"C\\u0050ython\", \"python_version\": \"3.11.4\", \"python_debug\": false}";
    assert_eq!(parse_inspection(out).unwrap().python_implementation, "CPython");
}

#[test]
fn output_that_is_no_such_record_is_malformed() {
    let outputs: [&[u8]; 14] = [
        b"",
        b"Python 3.11.4",
        b"null",
        b"{}",
        b"[\"CPython\", \"3.11.4\", false]",
        b"{\"python_implementation\": \"CPython\", \"python_version\": \"3.11.4\"}",
        b"{\"python_implementation\": \"CPython\", \"python_version\": \"3.11.4\", \"python_debug\": 0}",
        b"{\"python_implementation\": \"CPython\", \"python_version\": \"3.11.4\", \"python_debug\": \"false\"}",
        b"{\"python_implementation\": \"CPython\", \"python_version\": 3.11, \"python_debug\": false}",
        b"{\"python_implementation\": null, \"python_version\": \"3.11.4\", \"python_debug\": false}",
        b"{\"python_implementation\": \"CPython\", \"python_version\": \"3.11.4\", \"python_debug\": false, \"extra\": 1}",
        b"{\"python_implementation\": \"CPython\", \"python_version\": \"3.11.4\", \"python_debug\": false} trailing",
        b"{\"python_implementation\": \"CPython\", \"python_version\": \"3.11.4\", \"python_debug\": false",
        b"{\"Python_Implementation\": \"CPython\", \"python_version\": \"3.11.4\", \"python_debug\": false}",
    ];
    for out in outputs {
        let failure = parse_inspection(out).unwrap_err();
        assert!(matches!(failure, Failure::MalformedOutput));
        assert_eq!(failure.kind(), ErrorKind::Parse);
    }
}

#[test]
fn record_of_three_right_fields_is_read() {
    let fields = vec![
        field("python_version", text("3.11.4")),
        field("python_debug", FieldValue::Flag(true)),
        field("python_implementation", text("CPython")),
    ];
    let report = read_record(&fields).unwrap();
    assert_eq!(report.python_implementation, "CPython");
    assert_eq!(report.python_version, "3.11.4");
    assert!(report.python_debug);
}

#[test]
fn record_with_other_than_three_fields_is_refused() {
    let mut fields = vec![
        field("python_implementation", text("CPython")),
        field("python_version", text("3.11.4")),
    ];
    assert!(read_record(&fields).is_none());
    fields.push(field("python_debug", FieldValue::Flag(false)));
    assert!(read_record(&fields).is_some());
    fields.push(field("more", FieldValue::Null));
    assert!(read_record(&fields).is_none());
    assert!(read_record(&Vec::new()).is_none());
}

#[test]
fn record_with_a_field_of_another_type_is_refused() {
    for wrong in [FieldValue::Null, FieldValue::Number, FieldValue::List, FieldValue::Record, FieldValue::Flag(true)] {
        let fields = vec![
            field("python_implementation", wrong),
            field("python_version", text("3.11.4")),
            field("python_debug", FieldValue::Flag(false)),
        ];
        assert!(read_record(&fields).is_none());
    }
    let fields = vec![
        field("python_implementation", text("CPython")),
        field("python_version", text("3.11.4")),
        field("python_debug", text("false")),
    ];
    assert!(read_record(&fields).is_none());
}

#[test]
fn record_with_a_repeated_field_is_refused() {
    let fields = vec![
        field("python_implementation", text("CPython")),
        field("python_implementation", text("PyPy")),
        field("python_debug", FieldValue::Flag(false)),
    ];
    assert!(read_record(&fields).is_none());
}

#[test]
fn candidate_that_could_not_run_is_an_execution_failure() {
    let failure = inspect(&Inspection::Unrunnable).unwrap_err();
    assert!(matches!(failure, Failure::NotRunnable));
    assert_eq!(failure.kind(), ErrorKind::Execution);
}

#[test]
fn candidate_that_reports_failure_is_no_interpreter() {
    let stdout = b"{\"python_implementation\": \"CPython\", \"python_version\": \"3.11.4\", \"python_debug\": false}".to_vec();
    let failure = inspect(&Inspection::Exited { success: false, stdout }).unwrap_err();
    assert!(matches!(failure, Failure::InvalidInstallation));
    assert_eq!(failure.kind(), ErrorKind::Execution);
}

#[test]
fn candidate_that_reports_success_is_read() {
    let stdout = b"{\"python_implementation\": \"CPython\", \"python_version\": \"3.11.4\", \"python_debug\": true}".to_vec();
    let report = inspect(&Inspection::Exited { success: true, stdout }).unwrap();
    assert_eq!(report.python_implementation, "CPython");
    assert!(report.python_debug);
}

#[test]
fn script_asks_for_the_three_fields() {
    for name in ["python_implementation", "python_version", "python_debug"] {
        assert!(INSPECT_SCRIPT.contains(name));
    }
    assert!(INSPECT_SCRIPT.contains("print(json.dumps({"));
}
