//! The core schema: nulls, booleans and numbers get their types.
use serde_saphyr::{DuplicateKeyPolicy, Error, Options};
use vstd::prelude::*;

use super::error::{ErrorView, ParseError};
use super::position::{
    byte_len, is_valid_range, location_range, valid_range, Location, SourceRange,
};
use super::value::{Tree, YamlValue};

verus! {

/// A JSON value of `serde_json`.
#[verifier::external_type_specification]
#[verifier::external_body]
pub struct ExJson(serde_json::Value);

/// What a JSON value holds.
pub uninterp spec fn json_tree(json: serde_json::Value) -> Tree;

/// What the deserializer objects to.
#[derive(Clone, Copy, Debug, Eq, PartialEq, Structural)]
pub enum CoreFaultKind {
    DuplicateMappingKey,
    MultipleDocuments,
    UnknownAnchor,
    Budget,
    Other,
}

/// An objection of the deserializer.
pub struct CoreFault {
    pub kind: CoreFaultKind,
    pub location: Option<Location>,
    pub message: String,
}

/// What a [`CoreFault`] says.
pub struct CoreFaultView {
    pub kind: CoreFaultKind,
    pub location: Option<Location>,
    pub message: Seq<char>,
}

impl View for CoreFault {
    type V = CoreFaultView;

    open spec fn view(&self) -> CoreFaultView {
        CoreFaultView { kind: self.kind, location: self.location, message: self.message@ }
    }
}

/// What the deserializer makes of a text.
pub uninterp spec fn core_document(input: Seq<char>) -> Result<Tree, CoreFaultView>;

/// `serde_saphyr::from_str_with_options`, which refuses duplicate keys: what it makes of a text
/// depends on the text alone. An error is taken by its kind without the snippet, the span of its
/// location, and its text as its `Display` writes it.
#[verifier::external_body]
fn deserialize(input: &str) -> (r: Result<serde_json::Value, CoreFault>)
    ensures
        core_document(input@) == match r {
            Ok(json) => Ok::<Tree, CoreFaultView>(json_tree(json)),
            Err(fault) => Err(fault@),
        },
{
    let mut options = Options::default();
    options.duplicate_keys = DuplicateKeyPolicy::Error;
    serde_saphyr::from_str_with_options(input, options).map_err(|error| {
        let kind = match error.without_snippet() {
            Error::DuplicateMappingKey { .. } => CoreFaultKind::DuplicateMappingKey,
            Error::MultipleDocuments { .. } => CoreFaultKind::MultipleDocuments,
            Error::UnknownAnchor { .. } => CoreFaultKind::UnknownAnchor,
            Error::Budget { .. } => CoreFaultKind::Budget,
            _ => CoreFaultKind::Other,
        };
        let location = error.location().map(|place| place.span()).map(|s| Location {
            byte_offset: s.byte_offset(), byte_len: s.byte_len(), offset: s.offset(), len: s.len() });
        CoreFault { kind, location, message: error.to_string() }
    })
}

/// What a JSON value is, without what lies in it.
enum JsonPart {
    Null,
    Bool(bool),
    Number(String),
    Text(String),
    List,
    Mapping,
}

/// The variant of a `serde_json::Value`. A number is taken by its text.
#[verifier::external_body]
fn json_part(json: &serde_json::Value) -> (r: JsonPart)
    ensures
        match r {
            JsonPart::Null => json_tree(*json) == Tree::Null,
            JsonPart::Bool(b) => json_tree(*json) == Tree::Bool(b),
            JsonPart::Number(text) => json_tree(*json) == Tree::Number(text@),
            JsonPart::Text(text) => json_tree(*json) == Tree::Text(text@),
            JsonPart::List => json_tree(*json) is List,
            JsonPart::Mapping => json_tree(*json) is Mapping,
        },
{
    match json {
        serde_json::Value::Null => JsonPart::Null,
        serde_json::Value::Bool(b) => JsonPart::Bool(*b),
        serde_json::Value::Number(number) => JsonPart::Number(number.to_string()),
        serde_json::Value::String(text) => JsonPart::Text(text.clone()),
        serde_json::Value::Array(_) => JsonPart::List,
        serde_json::Value::Object(_) => JsonPart::Mapping,
    }
}

/// The items of a `serde_json::Value::Array`.
#[verifier::external_body]
fn json_items(json: serde_json::Value) -> (r: Vec<serde_json::Value>)
    requires
        json_tree(json) is List,
    ensures
        r@.map_values(|item: serde_json::Value| json_tree(item)) == json_tree(json)->List_0,
{
    match json {
        serde_json::Value::Array(items) => items,
        _ => Vec::new(),
    }
}

/// The entries of a `serde_json::Value::Object`, in the order in which `serde_json::Map` walks
/// them.
#[verifier::external_body]
fn json_entries(json: serde_json::Value) -> (r: Vec<(String, serde_json::Value)>)
    requires
        json_tree(json) is Mapping,
    ensures
        r@.map_values(|entry: (String, serde_json::Value)| (entry.0@, json_tree(entry.1)))
            == json_tree(json)->Mapping_0,
{
    match json {
        serde_json::Value::Object(entries) => entries.into_iter().collect(),
        _ => Vec::new(),
    }
}

/// The value that a JSON value is.
fn from_json(json: serde_json::Value) -> (r: YamlValue)
    ensures
        r.tree() == json_tree(json),
    decreases json_tree(json),
{
    match json_part(&json) {
        JsonPart::Null => YamlValue::Null,
        JsonPart::Bool(b) => YamlValue::Bool(b),
        JsonPart::Number(text) => YamlValue::Number(text),
        JsonPart::Text(text) => YamlValue::String(text),
        JsonPart::List => {
            let ghost tree = json_tree(json);
            let items = json_items(json);
            let ghost all = tree->List_0;
            assert(decreases_to!(tree => all));
            let mut out: Vec<YamlValue> = Vec::new();
            let ghost given = items@;
            for item in it: items.into_iter()
                invariant
                    it.seq() == given,
                    given.map_values(|item: serde_json::Value| json_tree(item)) == all,
                    decreases_to!(tree => all),
                    tree == json_tree(json),
                    out@.len() == it.index(),
                    forall|k: int| 0 <= k < it.index() ==> (#[trigger] out@[k]).tree() == all[k],
            {
                assert(json_tree(item) == all[it.index() as int]);
                assert(decreases_to!(all => all[it.index() as int]));
                out.push(from_json(item));
            }
            let r = YamlValue::Array(out);
            assert(r.tree()->List_0 =~= all);
            r
        },
        JsonPart::Mapping => {
            let ghost tree = json_tree(json);
            let entries = json_entries(json);
            let ghost all = tree->Mapping_0;
            assert(decreases_to!(tree => all));
            let mut out: Vec<(String, YamlValue)> = Vec::new();
            let ghost given = entries@;
            for entry in it: entries.into_iter()
                invariant
                    it.seq() == given,
                    given.map_values(
                        |entry: (String, serde_json::Value)| (entry.0@, json_tree(entry.1)),
                    ) == all,
                    decreases_to!(tree => all),
                    tree == json_tree(json),
                    out@.len() == it.index(),
                    forall|k: int|
                        0 <= k < it.index() ==> (#[trigger] out@[k]).0@ == all[k].0
                            && out@[k].1.tree() == all[k].1,
            {
                assert((entry.0@, json_tree(entry.1)) == all[it.index() as int]);
                assert(decreases_to!(all => all[it.index() as int]));
                assert(decreases_to!(all[it.index() as int] => all[it.index() as int].1));
                let (key, value) = entry;
                out.push((key, from_json(value)));
            }
            let r = YamlValue::Object(out);
            assert(r.tree()->Mapping_0 =~= all);
            r
        },
    }
}

/// The code of an objection of the deserializer.
pub open spec fn core_code(kind: CoreFaultKind) -> Seq<char> {
    match kind {
        CoreFaultKind::DuplicateMappingKey => "DUPLICATE_KEY"@,
        CoreFaultKind::MultipleDocuments => "MULTIPLE_DOCS"@,
        CoreFaultKind::UnknownAnchor => "BAD_ALIAS"@,
        CoreFaultKind::Budget => "RESOURCE_EXHAUSTION"@,
        CoreFaultKind::Other => "UNEXPECTED_TOKEN"@,
    }
}

/// Where an objection of the deserializer stands: at its location, where that lies in the text between
/// characters; else at the end of the text.
pub open spec fn core_range(input: Seq<char>, location: Option<Location>) -> SourceRange {
    let end = SourceRange { start: byte_len(input) as usize, end: byte_len(input) as usize };
    match location {
        Some(location) => match location_range(input, location) {
            Some(range) if valid_range(input, range) => range,
            _ => end,
        },
        None => end,
    }
}

/// Where an objection of the deserializer stands.
fn place_of(input: &str, location: Option<Location>) -> (r: SourceRange)
    ensures
        r == core_range(input@, location),
{
    if let Some(location) = location {
        if let Some(range) = SourceRange::from_location(input, location) {
            if is_valid_range(input, range) {
                return range;
            }
        }
    }
    let bytes = input.as_bytes();
    let end: usize = bytes.len();
    assert(end == byte_len(input@));
    SourceRange { start: end, end }
}

/// The error of an objection of the deserializer.
pub open spec fn core_error(input: Seq<char>, fault: CoreFaultView) -> ErrorView {
    ErrorView {
        message: fault.message,
        code: core_code(fault.kind),
        range: Some(core_range(input, fault.location)),
    }
}

/// What the core schema makes of a text, given what the deserializer makes of it.
pub open spec fn core_outcome(input: Seq<char>, document: Result<Tree, CoreFaultView>) -> Result<
    Tree,
    ErrorView,
> {
    match document {
        Ok(tree) => Ok(tree),
        Err(fault) => Err(core_error(input, fault)),
    }
}

impl ParseError {
    /// The error of an objection of the deserializer.
    pub fn from_core_fault(input: &str, fault: CoreFault) -> (r: ParseError)
        ensures
            r@ == core_error(input@, fault@),
    {
        let code = match fault.kind {
            CoreFaultKind::DuplicateMappingKey => "DUPLICATE_KEY",
            CoreFaultKind::MultipleDocuments => "MULTIPLE_DOCS",
            CoreFaultKind::UnknownAnchor => "BAD_ALIAS",
            CoreFaultKind::Budget => "RESOURCE_EXHAUSTION",
            CoreFaultKind::Other => "UNEXPECTED_TOKEN",
        };
        let range = place_of(input, fault.location);
        ParseError::new(fault.message, code, range)
    }
}

/// Parses a document of the core schema.
pub fn parse_core(input: &str) -> (r: Result<YamlValue, ParseError>)
    ensures
        core_outcome(input@, core_document(input@)) == match r {
            Ok(value) => Ok::<Tree, ErrorView>(value.tree()),
            Err(error) => Err(error@),
        },
{
    match deserialize(input) {
        Ok(json) => Ok(from_json(json)),
        Err(fault) => Err(ParseError::from_core_fault(input, fault)),
    }
}

} // verus!
