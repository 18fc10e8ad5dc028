//! What a candidate interpreter reports of itself.
//!
//! The candidate is run with a fixed script that prints one JSON object
//! with three fields: the implementation's name, the version, and whether
//! the build is a debug build. This module reads that object and derives
//! the key under which the candidate is registered.

use vstd::prelude::*;
use vstd::string::*;

use crate::failure::{Failure, FailureModel};
use crate::text::same_text;
use crate::version_key::{
    key_text, law_key_round_trip, law_text_round_trip, lemma_key_text_parts, lemma_numeral_shape,
    numeral, parse_key, version_text, KeyModel, ParseError, VersionKey,
};

verus! {

/// The script that a candidate is run with.
pub const INSPECT_SCRIPT: &'static str = "
import json
import platform
import sysconfig
print(json.dumps({
    \"python_implementation\": platform.python_implementation(),
    \"python_version\": platform.python_version(),
    \"python_debug\": bool(sysconfig.get_config_var('Py_DEBUG')),
}))
";

/// What a candidate reports: implementation, version and debug flag.
#[derive(Debug)]
pub struct InspectInfo {
    pub python_implementation: String,
    pub python_version: String,
    pub python_debug: bool,
}

/// The mathematical value of an [`InspectInfo`].
pub struct InfoModel {
    pub implementation: Seq<char>,
    pub version: Seq<char>,
    pub debug: bool,
}

impl View for InspectInfo {
    type V = InfoModel;

    open spec fn view(&self) -> InfoModel {
        InfoModel {
            implementation: self.python_implementation@,
            version: self.python_version@,
            debug: self.python_debug,
        }
    }
}

/// The value of one field of a JSON object, as far as this library reads
/// it: strings and booleans with what they hold, the rest by kind.
#[derive(Debug)]
pub enum FieldValue {
    Null,
    Flag(bool),
    Number,
    Text(String),
    List,
    Record,
}

/// The mathematical value of a [`FieldValue`].
pub enum FieldShape {
    Null,
    Flag(bool),
    Number,
    Text(Seq<char>),
    List,
    Record,
}

impl View for FieldValue {
    type V = FieldShape;

    open spec fn view(&self) -> FieldShape {
        match self {
            FieldValue::Null => FieldShape::Null,
            FieldValue::Flag(b) => FieldShape::Flag(*b),
            FieldValue::Number => FieldShape::Number,
            FieldValue::Text(s) => FieldShape::Text(s@),
            FieldValue::List => FieldShape::List,
            FieldValue::Record => FieldShape::Record,
        }
    }
}

/// One field of a JSON object.
#[derive(Debug)]
pub struct RecordField {
    pub name: String,
    pub value: FieldValue,
}

/// The fields of a JSON object as pairs of name and value.
pub open spec fn field_models(fields: Seq<RecordField>) -> Seq<(Seq<char>, FieldShape)> {
    fields.map_values(|f: RecordField| (f.name@, f.value@))
}

/// The value of the first field called `name`.
pub open spec fn field_named(fields: Seq<(Seq<char>, FieldShape)>, name: Seq<char>) -> Option<
    FieldShape,
>
    decreases fields.len(),
{
    if fields.len() == 0 {
        None
    } else if fields[0].0 == name {
        Some(fields[0].1)
    } else {
        field_named(fields.drop_first(), name)
    }
}

/// What a record of fields reports: it has exactly three fields, the
/// implementation and the version as strings and the debug flag as a
/// boolean.
pub open spec fn record_info(fields: Seq<(Seq<char>, FieldShape)>) -> Option<InfoModel> {
    if fields.len() == 3 {
        match (
            field_named(fields, "python_implementation"@),
            field_named(fields, "python_version"@),
            field_named(fields, "python_debug"@),
        ) {
            (
                Some(FieldShape::Text(implementation)),
                Some(FieldShape::Text(version)),
                Some(FieldShape::Flag(debug)),
            ) => Some(InfoModel { implementation, version, debug }),
            _ => None,
        }
    } else {
        None
    }
}

/// The position of the first field called `name`.
fn find_field(fields: &Vec<RecordField>, name: &str) -> (r: Option<usize>)
    ensures
        match r {
            Some(i) => i < fields.len() && field_named(field_models(fields@), name@) == Some(
                fields[i as int].value@,
            ),
            None => field_named(field_models(fields@), name@) is None,
        },
{
    let ghost all = field_models(fields@);
    assert(all.subrange(0, all.len() as int) =~= all);
    let mut i: usize = 0;
    while i < fields.len()
        invariant
            i <= fields.len(),
            all == field_models(fields@),
            field_named(all, name@) == field_named(all.subrange(i as int, all.len() as int), name@),
        decreases fields.len() - i,
    {
        let ghost rest = all.subrange(i as int, all.len() as int);
        assert(rest[0] == all[i as int]);
        if same_text(fields[i].name.as_str(), name) {
            return Some(i);
        }
        assert(rest.drop_first() =~= all.subrange(i + 1, all.len() as int));
        i += 1;
    }
    assert(all.subrange(all.len() as int, all.len() as int).len() == 0);
    None
}

/// Reads the report out of the fields of a JSON object.
pub fn read_record(fields: &Vec<RecordField>) -> (r: Option<InspectInfo>)
    ensures
        match r {
            Some(info) => record_info(field_models(fields@)) == Some(info@),
            None => record_info(field_models(fields@)) is None,
        },
{
    if fields.len() != 3 {
        return None;
    }
    let implementation = find_field(fields, "python_implementation");
    let version = find_field(fields, "python_version");
    let debug = find_field(fields, "python_debug");
    match (implementation, version, debug) {
        (Some(i), Some(v), Some(d)) => {
            match (&fields[i].value, &fields[v].value, &fields[d].value) {
                (FieldValue::Text(implementation), FieldValue::Text(version), FieldValue::Flag(debug)) => Some(
                    InspectInfo {
                        python_implementation: implementation.clone(),
                        python_version: version.clone(),
                        python_debug: *debug,
                    },
                ),
                _ => None,
            }
        },
        _ => None,
    }
}

/// The error of the JSON parser.
#[verifier::external_type_specification]
#[verifier::external_body]
pub struct ExJsonError(serde_json::Error);

/// The fields of the JSON object that `bytes` spell, in the order in which
/// the parser's map hands them out; `None` where the parser refuses `bytes`
/// as an object.
pub uninterp spec fn json_record(bytes: Seq<u8>) -> Option<Seq<(Seq<char>, FieldShape)>>;

/// Parses `bytes` as a JSON object with `serde_json::from_slice`, into a
/// `serde_json::Map`, and hands out its fields one by one. The contract
/// claims only that the outcome is a function of the bytes: `json_record`
/// is the name of that function.
#[verifier::external_body]
fn decode_record(bytes: &[u8]) -> (r: Result<Vec<RecordField>, serde_json::Error>)
    ensures
        match r {
            Ok(fields) => json_record(bytes@) == Some(field_models(fields@)),
            Err(_) => json_record(bytes@) is None,
        },
{
    let object = serde_json::from_slice::<serde_json::Map<String, serde_json::Value>>(bytes)?;
    Ok(object.into_iter().map(|(name, value)| RecordField { name, value: match value {
        serde_json::Value::Null => FieldValue::Null,
        serde_json::Value::Bool(flag) => FieldValue::Flag(flag),
        serde_json::Value::Number(_) => FieldValue::Number,
        serde_json::Value::String(text) => FieldValue::Text(text),
        serde_json::Value::Array(_) => FieldValue::List,
        serde_json::Value::Object(_) => FieldValue::Record,
    } }).collect())
}

/// What the output of a candidate reports, if it is the record asked for.
pub open spec fn output_info(stdout: Seq<u8>) -> Option<InfoModel> {
    match json_record(stdout) {
        Some(fields) => record_info(fields),
        None => None,
    }
}

/// Reads the report from what a candidate printed.
pub fn parse_inspection(stdout: &[u8]) -> (r: Result<InspectInfo, Failure>)
    ensures
        match r {
            Ok(info) => output_info(stdout@) == Some(info@),
            Err(f) => output_info(stdout@) is None && f@ == FailureModel::MalformedOutput,
        },
{
    match decode_record(stdout) {
        Ok(fields) => match read_record(&fields) {
            Some(info) => Ok(info),
            None => Err(Failure::MalformedOutput),
        },
        Err(_) => Err(Failure::MalformedOutput),
    }
}

/// The lower-case form of an ASCII capital letter; any other character
/// itself.
pub open spec fn lower_char(c: char) -> char {
    if 'A' <= c && c <= 'Z' {
        ((c as u8) + 32) as u8 as char
    } else {
        c
    }
}

/// The text with each ASCII capital letter in lower case.
pub open spec fn ascii_lowercase(s: Seq<char>) -> Seq<char> {
    s.map_values(|c: char| lower_char(c))
}

/// `str::to_ascii_lowercase` maps the letters `A` to `Z` to `a` to `z`
/// and leaves every other character as it is.
pub assume_specification[ str::to_ascii_lowercase ](s: &str) -> (r: String)
    ensures
        r@ == ascii_lowercase(s@),
;

/// The name under which a candidate is registered: the label where one is
/// given; else the implementation in lower case, with `-dbg` behind it for
/// a debug build.
pub open spec fn derived_name(info: InfoModel, label: Option<Seq<char>>) -> Seq<char> {
    match label {
        Some(l) => l,
        None => ascii_lowercase(info.implementation) + if info.debug {
            seq!['-', 'd', 'b', 'g']
        } else {
            Seq::<char>::empty()
        },
    }
}

/// The text of the key under which a candidate is registered.
pub open spec fn derived_text(info: InfoModel, label: Option<Seq<char>>) -> Seq<char> {
    derived_name(info, label) + seq!['@'] + info.version
}

/// Whether `v` is the text of a version.
pub open spec fn is_version_text(v: Seq<char>) -> bool {
    exists|major: u8, minor: u8, patch: u8| v == version_text(major, minor, patch)
}

/// The derived text denotes a key exactly where the name holds no `@` and
/// the reported version is the text of a version; the key then has that
/// name and that version.
pub proof fn law_derived_key(info: InfoModel, label: Option<Seq<char>>)
    ensures
        parse_key(derived_text(info, label)) is Some <==> !derived_name(info, label).contains('@')
            && is_version_text(info.version),
        parse_key(derived_text(info, label)) matches Some(k) ==> k.name == derived_name(info, label)
            && version_text(k.major, k.minor, k.patch) == info.version,
{
    let name = derived_name(info, label);
    let text = derived_text(info, label);
    let at = name.len() as int;
    assert(text[at] == '@');
    if !name.contains('@') && is_version_text(info.version) {
        let (major, minor, patch) = choose|major: u8, minor: u8, patch: u8|
            info.version == version_text(major, minor, patch);
        let k = KeyModel { name, major, minor, patch };
        assert(key_text(k) =~= text);
        law_key_round_trip(k);
    }
    if parse_key(text) is Some {
        let k = parse_key(text).unwrap();
        law_text_round_trip(text);
        lemma_key_text_parts(k);
        lemma_numeral_shape(k.major);
        lemma_numeral_shape(k.minor);
        lemma_numeral_shape(k.patch);
        let cut = k.name.len() as int;
        if cut < at {
            let v = version_text(k.major, k.minor, k.patch);
            assert(text.subrange(cut + 1, text.len() as int) =~= v);
            assert(v[at - cut - 1] == '@');
            let n1 = numeral(k.major).len() as int;
            let n2 = numeral(k.minor).len() as int;
            let p = at - cut - 1;
            if p < n1 {
                assert(v[p] == numeral(k.major)[p]);
            } else if p > n1 && p < n1 + 1 + n2 {
                assert(v[p] == numeral(k.minor)[p - n1 - 1]);
            } else if p > n1 + 1 + n2 {
                assert(v[p] == numeral(k.patch)[p - n1 - n2 - 2]);
            }
            assert(false);
        }
        assert(cut == at);
        assert(text.subrange(0, at) =~= name);
        assert(text.subrange(at + 1, text.len() as int) =~= info.version);
        assert(text.subrange(at + 1, text.len() as int) =~= version_text(
            k.major,
            k.minor,
            k.patch,
        ));
        assert forall|i: int| 0 <= i < name.len() implies name[i] != '@' by {
            assert(text[i] == name[i]);
        }
    }
}

/// Derives the key under which a candidate is registered from what it
/// reports and from the label, if one is given.
pub fn derive_key(info: &InspectInfo, label: Option<&str>) -> (r: Result<VersionKey, ParseError>)
    ensures
        match r {
            Ok(k) => parse_key(derived_text(info@, label_model(label))) == Some(k@) && k@.name
                == derived_name(info@, label_model(label)) && version_text(
                k.major,
                k.minor,
                k.patch,
            ) == info.python_version@,
            Err(e) => e == ParseError::MalformedVersion && parse_key(
                derived_text(info@, label_model(label)),
            ) is None,
        },
        r is Ok <==> !derived_name(info@, label_model(label)).contains('@') && is_version_text(
            info.python_version@,
        ),
{
    let mut text = match label {
        Some(l) => String::from_str(l),
        None => {
            let mut name = info.python_implementation.as_str().to_ascii_lowercase();
            if info.python_debug {
                name.append("-dbg");
            }
            name
        },
    };
    proof {
        reveal_strlit("-dbg");
        reveal_strlit("@");
        assert("-dbg"@ =~= seq!['-', 'd', 'b', 'g']);
        assert("@"@ =~= seq!['@']);
        assert(text@ =~= derived_name(info@, label_model(label)));
    }
    text.append("@");
    text.append(info.python_version.as_str());
    proof {
        law_derived_key(info@, label_model(label));
        assert(text@ == derived_text(info@, label_model(label)));
        assert(text@[derived_name(info@, label_model(label)).len() as int] == '@');
    }
    VersionKey::parse(text.as_str())
}

/// The label as a text.
pub open spec fn label_model(label: Option<&str>) -> Option<Seq<char>> {
    match label {
        Some(l) => Some(l@),
        None => None,
    }
}

} // verus!
