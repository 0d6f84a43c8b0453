//! Reading and writing documents and values, through the parsers of the formats.
use crate::text::same_text;
use crate::value::{Json, JsonNumber, JsonValue};
use vstd::prelude::*;

verus! {

/// A file format that a document can be kept in.
#[derive(Clone, Copy, Debug, PartialEq, Eq, Structural)]
pub enum DataFormat {
    Json,
    Yaml,
    Toml,
}

/// Why a document could not be read or written.
#[derive(Clone, Copy, Debug, PartialEq, Eq, Structural)]
pub enum DataError {
    /// The file's extension names no format that is supported.
    UnsupportedFormat,
    /// The text is no document of the format.
    ParseError,
    /// The format cannot hold the document.
    SerializeError,
}

impl DataError {
    /// The words in which a failure is reported.
    pub open spec fn text(self) -> Seq<char> {
        match self {
            DataError::UnsupportedFormat => "Unsupported file format"@,
            DataError::ParseError => "Failed to read the file"@,
            DataError::SerializeError => "Failed to write the file"@,
        }
    }

    /// The words in which the failure is reported.
    pub fn message(&self) -> (message: String)
        ensures
            message@ == self.text(),
    {
        match self {
            DataError::UnsupportedFormat => "Unsupported file format".to_owned(),
            DataError::ParseError => "Failed to read the file".to_owned(),
            DataError::SerializeError => "Failed to write the file".to_owned(),
        }
    }
}

/// `serde_json::Value`, the tree that the parsers hand over. Values of it are only carried
/// between the calls below; nothing is known of what they hold.
#[verifier::external_type_specification]
#[verifier::external_body]
pub struct ExSerdeJsonValue(serde_json::Value);

/// `serde_json::Number`, the number of such a tree. Nothing is known of what it holds.
#[verifier::external_type_specification]
#[verifier::external_body]
pub struct ExSerdeJsonNumber(serde_json::Number);

/// What `serde_json::from_str` reads from a text, as a tree: none where it refuses the text.
pub uninterp spec fn json_literal(text: Seq<char>) -> Option<Json>;

/// Whether `serde_json::from_str` reads a text as a `serde_json::Number`.
pub uninterp spec fn is_number_text(text: Seq<char>) -> bool;

/// What `serde_yaml::from_str` reads from a text, as a tree: none where it refuses the text
/// or where the document is no tree of this kind.
pub uninterp spec fn yaml_document(text: Seq<char>) -> Option<Json>;

/// What `toml::from_str` reads from a text, as a tree: none where it refuses the text.
pub uninterp spec fn toml_document(text: Seq<char>) -> Option<Json>;

/// The compact JSON text that `serde_json` shows a tree as.
pub uninterp spec fn json_text(value: Json) -> Seq<char>;

/// The YAML text that `serde_yaml::to_string` writes for a tree: none where it refuses.
pub uninterp spec fn yaml_text(value: Json) -> Option<Seq<char>>;

/// The TOML text that `toml::to_string` writes for a tree: none where it refuses.
pub uninterp spec fn toml_text(value: Json) -> Option<Seq<char>>;

/// The format that a file extension names.
pub open spec fn format_of_extension(extension: Seq<char>) -> Option<DataFormat> {
    if extension == "json"@ || extension == "json5"@ {
        Some(DataFormat::Json)
    } else if extension == "yaml"@ || extension == "yml"@ {
        Some(DataFormat::Yaml)
    } else if extension == "toml"@ {
        Some(DataFormat::Toml)
    } else {
        None
    }
}

/// What was read, as a tree.
pub open spec fn parsed_view(parsed: Option<JsonValue>) -> Option<Json> {
    match parsed {
        Some(value) => Some(value@),
        None => None,
    }
}

/// What is taken of what a parser read: the tree, where it is one that a document can hold.
pub open spec fn accepted(read: Option<Json>) -> Option<Json> {
    match read {
        Some(tree) => if tree.well_formed() {
            Some(tree)
        } else {
            None
        },
        None => None,
    }
}

/// Whether `outcome` can be what reading `text` as a document of `format` gives. A YAML or
/// TOML text is read to one tree, which is taken where a document can hold it. A JSON
/// document is read leniently, by a parser of which nothing is known but what it hands
/// over: any tree that a document can hold, or none.
pub open spec fn reads_as(text: Seq<char>, format: DataFormat, outcome: Option<Json>) -> bool {
    match format {
        DataFormat::Json => outcome matches Some(tree) ==> tree.well_formed(),
        DataFormat::Yaml => outcome == accepted(yaml_document(text)),
        DataFormat::Toml => outcome == accepted(toml_document(text)),
    }
}

/// The text of a tree as a document of `format`: none where the format cannot hold it.
pub open spec fn document_text(value: Json, format: DataFormat) -> Option<Seq<char>> {
    match format {
        DataFormat::Json => Some(json_text(value)),
        DataFormat::Yaml => yaml_text(value),
        DataFormat::Toml => toml_text(value),
    }
}

impl DataFormat {
    /// The format that the file extension `extension` names: `json` and `json5`, `yaml` and
    /// `yml`, `toml`; none for any other.
    pub fn from_extension(extension: &str) -> (format: Option<DataFormat>)
        ensures
            format == format_of_extension(extension@),
    {
        if same_text(extension, "json") || same_text(extension, "json5") {
            Some(DataFormat::Json)
        } else if same_text(extension, "yaml") || same_text(extension, "yml") {
            Some(DataFormat::Yaml)
        } else if same_text(extension, "toml") {
            Some(DataFormat::Toml)
        } else {
            None
        }
    }
}

/// Takes what a parser read where it is a tree that a document can hold.
pub fn accept(read: Option<JsonValue>) -> (taken: Option<JsonValue>)
    ensures
        parsed_view(taken) == accepted(parsed_view(read)),
{
    match read {
        Some(value) => if value.is_well_formed() {
            Some(value)
        } else {
            None
        },
        None => None,
    }
}

/// Reads `content` as a document of `format`. What is read is a tree that a document can
/// hold; a text that the parser refuses is a parse error.
pub fn parse_document(content: &str, format: DataFormat) -> (parsed: Result<JsonValue, DataError>)
    ensures
        reads_as(
            content@,
            format,
            match parsed {
                Ok(value) => Some(value@),
                Err(_) => None,
            },
        ),
        parsed matches Ok(value) ==> value@.well_formed(),
        parsed matches Err(e) ==> e == DataError::ParseError,
{
    let read = match format {
        DataFormat::Json => read_json5(content),
        DataFormat::Yaml => read_yaml(content),
        DataFormat::Toml => read_toml(content),
    };
    match accept(read) {
        Some(value) => Ok(value),
        None => Err(DataError::ParseError),
    }
}

/// Writes `value` as a document of `format`.
pub fn serialize_document(value: &JsonValue, format: DataFormat) -> (written: Result<
    String,
    DataError,
>)
    requires
        value@.well_formed(),
    ensures
        match written {
            Ok(text) => document_text(value@, format) == Some(text@),
            Err(e) => e == DataError::SerializeError && document_text(value@, format) is None,
        },
{
    let text = match format {
        DataFormat::Json => Some(write_json(value)),
        DataFormat::Yaml => write_yaml(value),
        DataFormat::Toml => write_toml(value),
    };
    match text {
        Some(text) => Ok(text),
        None => Err(DataError::SerializeError),
    }
}

/// Writes `value` as a document of `format`, where it is a tree that a document can hold.
pub fn serialize_checked(value: &JsonValue, format: DataFormat) -> (written: Result<
    String,
    DataError,
>)
    ensures
        match written {
            Ok(text) => value@.well_formed() && document_text(value@, format) == Some(text@),
            Err(e) => e == DataError::SerializeError && (!value@.well_formed() || document_text(
                value@,
                format,
            ) is None),
        },
{
    if value.is_well_formed() {
        serialize_document(value, format)
    } else {
        Err(DataError::SerializeError)
    }
}

/// Reads a value that an operator typed in, which is to be a JSON value.
pub fn parse_literal(text: &str) -> (parsed: Option<JsonValue>)
    ensures
        parsed_view(parsed) == accepted(json_literal(text@)),
{
    accept(read_json(text))
}

/// The compact JSON text of a value, as menus show it.
pub fn value_text(value: &JsonValue) -> (text: String)
    requires
        value@.well_formed(),
    ensures
        text@ == json_text(value@),
{
    write_json(value)
}

/// The compact JSON text of a value, where it is a tree that a document can hold.
pub fn value_text_checked(value: &JsonValue) -> (text: Option<String>)
    ensures
        match text {
            Some(shown) => value@.well_formed() && shown@ == json_text(value@),
            None => !value@.well_formed(),
        },
{
    if value.is_well_formed() {
        Some(value_text(value))
    } else {
        None
    }
}

/// Rebuilds a `serde_json::Number` as a number of the library: an integer is held as
/// `serde_json` holds it, any other number by the text that `serde_json` prints for it.
#[verifier::external_body]
fn number_from_serde(number: serde_json::Number) -> JsonNumber {
    match (number.as_u64(), number.as_i64()) {
        (Some(u), _) => JsonNumber::PosInt(u),
        (None, Some(i)) => JsonNumber::NegInt(i),
        (None, None) => JsonNumber::Float(number.to_string()),
    }
}

/// Calls `serde_json::from_str` for a `serde_json::Number` and tells whether it reads the
/// text: the result is what `is_number_text` names for the text.
#[verifier::external_body]
pub(crate) fn reads_as_number(text: &str) -> (read: bool)
    ensures
        read == is_number_text(text@),
{
    serde_json::from_str::<serde_json::Number>(text).is_ok()
}

/// Rebuilds a number of the library as a `serde_json::Value`. The text of a decimal number
/// is read by `serde_json::from_str`, which is to read it as a number.
#[verifier::external_body]
fn number_to_serde(number: &JsonNumber) -> serde_json::Value
    requires
        number matches JsonNumber::Float(text) ==> is_number_text(text@),
{
    match number {
        JsonNumber::PosInt(u) => serde_json::Value::from(*u),
        JsonNumber::NegInt(i) => serde_json::Value::from(*i),
        JsonNumber::Float(t) => serde_json::Value::Number(
            serde_json::from_str(t).expect("a text that reads as a number"),
        ),
    }
}

/// Rebuilds a `serde_json::Value` as a tree of the library, variant by variant. Nothing is
/// claimed of the result here: the wrappers that call this name what they return.
#[verifier::external_body]
fn from_serde(value: serde_json::Value) -> JsonValue {
    match value {
        serde_json::Value::Null => JsonValue::Null,
        serde_json::Value::Bool(b) => JsonValue::Bool(b),
        serde_json::Value::Number(n) => JsonValue::Number(number_from_serde(n)),
        serde_json::Value::String(s) => JsonValue::String(s),
        serde_json::Value::Array(a) => JsonValue::Array(a.into_iter().map(from_serde).collect()),
        serde_json::Value::Object(m) => JsonValue::Object(
            m.into_iter().map(|(k, v)| (k, from_serde(v))).collect(),
        ),
    }
}

/// Rebuilds a tree of the library as a `serde_json::Value`, variant by variant; the tree is
/// to be one that a document can hold. Nothing is claimed of the result here: the wrappers
/// that call this name what they return.
#[verifier::external_body]
fn to_serde(value: &JsonValue) -> serde_json::Value
    requires
        value@.well_formed(),
{
    match value {
        JsonValue::Null => serde_json::Value::Null,
        JsonValue::Bool(b) => serde_json::Value::Bool(*b),
        JsonValue::Number(n) => number_to_serde(n),
        JsonValue::String(s) => serde_json::Value::String(s.clone()),
        JsonValue::Array(a) => serde_json::Value::Array(a.iter().map(to_serde).collect()),
        JsonValue::Object(m) => serde_json::Value::Object(
            m.iter().map(|(k, v)| (k.clone(), to_serde(v))).collect(),
        ),
    }
}

/// Calls `serde_json::from_str` for a `serde_json::Value`. The result is the tree that
/// `json_literal` names for the text, and none exactly where the parser refuses the text.
#[verifier::external_body]
fn read_json(text: &str) -> (read: Option<JsonValue>)
    ensures
        match read {
            Some(value) => json_literal(text@) == Some(value@),
            None => json_literal(text@) is None,
        },
{
    match serde_json::from_str::<serde_json::Value>(text) {
        Ok(value) => Some(from_serde(value)),
        Err(_) => None,
    }
}

/// Calls `json5::from_str` for a `serde_json::Value`. Nothing is claimed of the result:
/// the parser watches the stack that is left to the thread, so that one text may be read at
/// one time and refused at another.
#[verifier::external_body]
fn read_json5(text: &str) -> Option<JsonValue> {
    match json5::from_str::<serde_json::Value>(text) {
        Ok(value) => Some(from_serde(value)),
        Err(_) => None,
    }
}

/// Calls `serde_yaml::from_str` for a `serde_yaml::Value` and turns it into a
/// `serde_json::Value` with `serde_json::to_value`. The result is the tree that
/// `yaml_document` names for the text, and none exactly where one of the two calls fails.
#[verifier::external_body]
fn read_yaml(text: &str) -> (read: Option<JsonValue>)
    ensures
        match read {
            Some(value) => yaml_document(text@) == Some(value@),
            None => yaml_document(text@) is None,
        },
{
    match serde_yaml::from_str::<serde_yaml::Value>(text).map(serde_json::to_value) {
        Ok(Ok(value)) => Some(from_serde(value)),
        _ => None,
    }
}

/// Calls `toml::from_str` for a `toml::Value` and turns it into a `serde_json::Value` with
/// `serde_json::to_value`. The result is the tree that `toml_document` names for the text,
/// and none exactly where one of the two calls fails.
#[verifier::external_body]
fn read_toml(text: &str) -> (read: Option<JsonValue>)
    ensures
        match read {
            Some(value) => toml_document(text@) == Some(value@),
            None => toml_document(text@) is None,
        },
{
    match toml::from_str::<toml::Value>(text).map(serde_json::to_value) {
        Ok(Ok(value)) => Some(from_serde(value)),
        _ => None,
    }
}

/// Shows a tree through the `Display` of `serde_json::Value`, which writes compact JSON.
/// The result is the text that `json_text` names for the tree.
#[verifier::external_body]
fn write_json(value: &JsonValue) -> (text: String)
    requires
        value@.well_formed(),
    ensures
        text@ == json_text(value@),
{
    to_serde(value).to_string()
}

/// Turns a tree into a `serde_yaml::Value` with `serde_json::from_value` and calls
/// `serde_yaml::to_string` on it. The result is the text that `yaml_text` names for the
/// tree, and none exactly where one of the two calls fails.
#[verifier::external_body]
fn write_yaml(value: &JsonValue) -> (text: Option<String>)
    requires
        value@.well_formed(),
    ensures
        match text {
            Some(written) => yaml_text(value@) == Some(written@),
            None => yaml_text(value@) is None,
        },
{
    match serde_json::from_value::<serde_yaml::Value>(to_serde(value)) {
        Ok(yaml) => serde_yaml::to_string(&yaml).ok(),
        Err(_) => None,
    }
}

/// Turns a tree into a `toml::Value` with `serde_json::from_value` and calls
/// `toml::to_string` on it. The result is the text that `toml_text` names for the tree, and
/// none exactly where one of the two calls fails.
#[verifier::external_body]
fn write_toml(value: &JsonValue) -> (text: Option<String>)
    requires
        value@.well_formed(),
    ensures
        match text {
            Some(written) => toml_text(value@) == Some(written@),
            None => toml_text(value@) is None,
        },
{
    match serde_json::from_value::<toml::Value>(to_serde(value)) {
        Ok(table) => toml::to_string(&table).ok(),
        Err(_) => None,
    }
}

} // verus!
