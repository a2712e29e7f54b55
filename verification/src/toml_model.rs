use vstd::prelude::*;

verus! {

/// A TOML value, holding as plain values what the scenario reader looks at:
/// strings, arrays, tables (as their entries, in iteration order) and, as
/// `Other`, every other kind of value (integers, floats, booleans, dates).
#[derive(Debug)]
pub enum TomlValue {
    Str(String),
    Array(Vec<TomlValue>),
    Table(Vec<(String, TomlValue)>),
    Other,
}

/// The mathematical model of a `TomlValue`.
pub enum TomlValueView {
    Str(Seq<char>),
    Array(Seq<TomlValueView>),
    Table(Seq<(Seq<char>, TomlValueView)>),
    Other,
}

pub open spec fn value_view(v: TomlValue) -> TomlValueView
    decreases v,
{
    match v {
        TomlValue::Str(s) => TomlValueView::Str(s@),
        TomlValue::Array(items) => TomlValueView::Array(
            Seq::new(
                items@.len(),
                |i: int|
                    if 0 <= i < items@.len() {
                        value_view(items@[i])
                    } else {
                        TomlValueView::Other
                    },
            ),
        ),
        TomlValue::Table(entries) => TomlValueView::Table(
            Seq::new(
                entries@.len(),
                |i: int|
                    if 0 <= i < entries@.len() {
                        (entries@[i].0@, value_view(entries@[i].1))
                    } else {
                        (Seq::empty(), TomlValueView::Other)
                    },
            ),
        ),
        TomlValue::Other => TomlValueView::Other,
    }
}

impl View for TomlValue {
    type V = TomlValueView;

    open spec fn view(&self) -> TomlValueView {
        value_view(*self)
    }
}

/// The model of a table's entries, key by key.
pub open spec fn entries_view(entries: Seq<(String, TomlValue)>) -> Seq<(Seq<char>, TomlValueView)> {
    entries.map_values(|e: (String, TomlValue)| (e.0@, e.1@))
}

/// The model of a table is the table of the models of its entries.
pub proof fn lemma_table_view(entries: Vec<(String, TomlValue)>)
    ensures
        TomlValue::Table(entries)@ == TomlValueView::Table(entries_view(entries@)),
{
    let v = value_view(TomlValue::Table(entries));
    assert(v->Table_0 =~= entries_view(entries@));
}

/// The model of an array is the array of the models of its items.
pub proof fn lemma_array_view(items: Vec<TomlValue>)
    ensures
        TomlValue::Array(items)@ == TomlValueView::Array(items@.map_values(|v: TomlValue| v@)),
{
    let v = value_view(TomlValue::Array(items));
    assert(v->Array_0 =~= items@.map_values(|v: TomlValue| v@));
}

/// `a` comes strictly before `b` in lexicographic order of characters, the
/// order in which Rust compares strings (UTF-8 byte order is code point order).
pub open spec fn text_lt(a: Seq<char>, b: Seq<char>) -> bool {
    exists|k: int|
        0 <= k <= a.len() && k <= b.len() && a.take(k) == b.take(k) && (
        (k == a.len() && k < b.len()) || (k < a.len() && k < b.len() && (a[k] as u32) < (b[k] as u32)))
}

/// The keys of the entries are strictly increasing, so in particular distinct.
pub open spec fn keys_ascending(entries: Seq<(Seq<char>, TomlValueView)>) -> bool {
    forall|i: int, j: int| 0 <= i < j < entries.len() ==> text_lt(#[trigger] entries[i].0, #[trigger] entries[j].0)
}

/// The `toml` crate's value type, carried through only by the conversion.
#[verifier::external_type_specification]
#[verifier::external_body]
pub struct ExTomlValue(toml::Value);

/// The `toml` crate's parse error, turned into a `ConfigError` by `parse_toml`.
#[verifier::external_type_specification]
#[verifier::external_body]
pub struct ExTomlError(toml::de::Error);

/// What `toml::from_str` makes of a text read as a TOML document: `None` where
/// the text is not a valid document, else the document's top-level table.
pub uninterp spec fn toml_document(text: Seq<char>) -> Option<TomlValueView>;

/// Turns a value of the `toml` crate into the library's model of it, variant
/// for variant. Nothing is claimed of it by itself: the claim is made once, for
/// the whole parse, by `read_toml_document`.
#[verifier::external_body]
fn model_of(value: toml::Value) -> TomlValue {
    match value {
        toml::Value::String(s) => TomlValue::Str(s),
        toml::Value::Array(items) => TomlValue::Array(items.into_iter().map(model_of).collect()),
        toml::Value::Table(entries) => TomlValue::Table(
            entries.into_iter().map(|(key, v)| (key, model_of(v))).collect(),
        ),
        toml::Value::Integer(_) => TomlValue::Other,
        toml::Value::Float(_) => TomlValue::Other,
        toml::Value::Boolean(_) => TomlValue::Other,
        toml::Value::Datetime(_) => TomlValue::Other,
    }
}

/// Calls `toml::from_str::<toml::Table>` on `text`. Claimed of it: it succeeds
/// exactly when `toml_document` names a document for the text, and then gives
/// that document, a table. Its entries come out of a `BTreeMap` (the `toml`
/// crate's map without its `preserve_order` feature), so in ascending key order.
#[verifier::external_body]
fn read_toml_document(text: &str) -> (res: Result<TomlValue, toml::de::Error>)
    ensures
        res is Ok <==> toml_document(text@) is Some,
        res matches Ok(doc) ==> doc@ == toml_document(text@)->0,
        res matches Ok(doc) ==> doc@ is Table && keys_ascending(doc@->Table_0),
{
    toml::from_str::<toml::Table>(text).map(|table| model_of(toml::Value::Table(table)))
}

/// Why a configuration text could not be read.
#[derive(Debug)]
pub enum ConfigError {
    /// The text is not a valid TOML document; the message is the parser's.
    InvalidToml(String),
    /// The value under this top-level key is not a table.
    SectionNotTable(String),
}

/// Reads a TOML document into its model: `Ok` with the document's top-level
/// table exactly when `toml_document` names one for the text.
pub fn parse_toml(text: &str) -> (res: Result<TomlValue, ConfigError>)
    ensures
        res is Ok <==> toml_document(text@) is Some,
        res matches Ok(doc) ==> doc@ == toml_document(text@)->0 && doc@ is Table
            && keys_ascending(doc@->Table_0),
        res matches Err(e) ==> e is InvalidToml,
{
    match read_toml_document(text) {
        Ok(doc) => Ok(doc),
        Err(error) => Err(ConfigError::InvalidToml(error.to_string())),
    }
}

} // verus!
