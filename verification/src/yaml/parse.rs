//! Parsing a document, and telling where it is wrong.
use vstd::prelude::*;
use vstd::string::*;

use super::error::{ErrorView, ParseError};
use super::failsafe::{document_spec, significant, FailsafeParser};
use super::laws::{law_located_errors, located};
use super::position::{
    byte_len, position_after, source_position, text_before, valid_range, SourcePosition,
};
use super::scan::yaml_items;
use super::typed::{core_document, core_outcome, parse_core};
use super::value::{Tree, YamlValue};
use crate::error::{AnthelionError, AnthelionResult, ErrorSays};
use crate::text::{joined, opt_text, quoted, quoted_text, str_eq};

verus! {

/// How scalars are read.
#[derive(Clone, Copy, Debug, Eq, PartialEq, Structural)]
pub enum YamlSchema {
    /// Resolve nulls, booleans, integers, and floats to their JavaScript types.
    Core,
    /// Preserve every scalar value as a string.
    Failsafe,
}

/// The document that a text is.
pub open spec fn value_spec(input: Seq<char>, schema: Option<YamlSchema>) -> Result<Tree, ErrorView> {
    if schema == Some(YamlSchema::Failsafe) {
        document_spec(input, significant(yaml_items(input)))
    } else {
        core_outcome(input, core_document(input))
    }
}

/// Parses a single document. The core schema is the default. Whatever is wrong with a document, the
/// error says where.
pub fn parse_value(input: &str, schema: Option<YamlSchema>) -> (r: Result<YamlValue, ParseError>)
    ensures
        value_spec(input@, schema) == match r {
            Ok(value) => Ok::<Tree, ErrorView>(value.tree()),
            Err(error) => Err(error@),
        },
        r matches Err(error) ==> located(input@, error@),
{
    let bytes = input.as_bytes();
    assert(bytes.len() == byte_len(input@));
    proof {
        law_located_errors(input@, schema);
    }
    match schema {
        Some(YamlSchema::Failsafe) => FailsafeParser::new(input).parse(),
        _ => parse_core(input),
    }
}

/// Where an error starts and ends, as JavaScript counts it.
pub fn error_positions(input: &str, error: &ParseError) -> (r: Option<
    (SourcePosition, SourcePosition),
>)
    requires
        error.range matches Some(range) ==> valid_range(input@, range),
    ensures
        r == match error.range {
            Some(range) => Some(
                (
                    position_after(text_before(input@, range.start as int)),
                    position_after(text_before(input@, range.end as int)),
                ),
            ),
            None => None,
        },
{
    match error.range {
        Some(range) => Some(
            (source_position(input, range.start), source_position(input, range.end)),
        ),
        None => None,
    }
}

/// The schema that a name stands for. The core schema is the default.
pub open spec fn schema_of(name: Option<Seq<char>>) -> Result<YamlSchema, ErrorSays> {
    match name {
        None => Ok(YamlSchema::Core),
        Some(name) => if name == "core"@ {
            Ok(YamlSchema::Core)
        } else if name == "failsafe"@ {
            Ok(YamlSchema::Failsafe)
        } else {
            Err(ErrorSays::Invalid("Invalid YAML schema "@ + quoted_text(name)))
        },
    }
}

/// The schema that a name stands for.
pub fn parse_schema(name: &Option<String>) -> (r: AnthelionResult<YamlSchema>)
    ensures
        schema_of(opt_text(*name)) == match r {
            Ok(schema) => Ok::<YamlSchema, ErrorSays>(schema),
            Err(error) => Err(error@),
        },
{
    match name {
        None => Ok(YamlSchema::Core),
        Some(name) => {
            let name = name.as_str();
            if str_eq(name, "core") {
                Ok(YamlSchema::Core)
            } else if str_eq(name, "failsafe") {
                Ok(YamlSchema::Failsafe)
            } else {
                Err(AnthelionError::invalid(joined("Invalid YAML schema ", quoted(name).as_str())))
            }
        },
    }
}

} // verus!
