//! The JSON text of the stored `modifier-remap` option, read and written
//! through serde_json.
//!
//! The option is a JSON object of tables: each table is itself an object
//! from slot names to slot names. The remapping reads it two object levels
//! deep, so a parsed option is handed out as plain values at exactly those
//! levels: the root entries, each table (when it is an object) and each value
//! of a table (when it is a string).
use serde_json::Value;
use vstd::prelude::*;

verus! {

#[verifier::external_type_specification]
#[verifier::external_body]
pub struct ExValue(serde_json::Value);

/// What serde_json reads from `raw`, two object levels deep: `None` when
/// `raw` is not JSON text or not an object; otherwise the root entries in the
/// order serde_json's map yields them, each table `None` unless it is an
/// object, each table value `None` unless it is a string.
pub uninterp spec fn json_tables_of(raw: Seq<char>) -> Option<
    Seq<(Seq<char>, Option<Seq<(Seq<char>, Option<Seq<char>>)>>)>,
>;

/// The compact JSON text serde_json writes for an object of objects of
/// strings, built from the given entries.
pub uninterp spec fn json_text_of(tables: Seq<(Seq<char>, Seq<(Seq<char>, Seq<char>)>)>) -> Seq<
    char,
>;

/// No two entries share a key.
pub open spec fn distinct_keys<V>(s: Seq<(Seq<char>, V)>) -> bool {
    forall|i: int, j: int| 0 <= i < s.len() && 0 <= j < s.len() && i != j ==> s[i].0 != s[j].0
}

/// No two tables share a key, nor two entries of one table.
pub open spec fn keys_distinct_at_both_levels(t: Seq<(Seq<char>, Seq<(Seq<char>, Seq<char>)>)>) -> bool {
    &&& distinct_keys(t)
    &&& forall|i: int| 0 <= i < t.len() ==> distinct_keys(#[trigger] t[i].1)
}

/// A parsed table holds exactly the written string entries, in some order.
pub open spec fn table_read_back(
    parsed: Seq<(Seq<char>, Option<Seq<char>>)>,
    written: Seq<(Seq<char>, Seq<char>)>,
) -> bool {
    &&& parsed.len() == written.len()
    &&& distinct_keys(parsed)
    &&& forall|a: int|
        0 <= a < written.len() ==> exists|b: int|
            0 <= b < parsed.len() && #[trigger] parsed[b] == (
                #[trigger] written[a].0,
                Some(written[a].1),
            )
    &&& forall|b: int|
        0 <= b < parsed.len() ==> exists|a: int|
            0 <= a < written.len() && #[trigger] parsed[b] == (
                #[trigger] written[a].0,
                Some(written[a].1),
            )
}

/// A parsed object of tables holds exactly the written tables, in some order.
pub open spec fn tables_read_back(
    parsed: Seq<(Seq<char>, Option<Seq<(Seq<char>, Option<Seq<char>>)>>)>,
    written: Seq<(Seq<char>, Seq<(Seq<char>, Seq<char>)>)>,
) -> bool {
    &&& parsed.len() == written.len()
    &&& distinct_keys(parsed)
    &&& forall|i: int|
        0 <= i < written.len() ==> exists|j: int|
            0 <= j < parsed.len() && #[trigger] parsed[j].0 == #[trigger] written[i].0
                && (parsed[j].1 matches Some(t) && table_read_back(t, written[i].1))
    &&& forall|j: int|
        0 <= j < parsed.len() ==> exists|i: int|
            0 <= i < written.len() && #[trigger] parsed[j].0 == #[trigger] written[i].0
                && (parsed[j].1 matches Some(t) && table_read_back(t, written[i].1))
}

/// Parsed text holds exactly the written tables.
pub open spec fn reads_back_as(
    parsed: Option<Seq<(Seq<char>, Option<Seq<(Seq<char>, Option<Seq<char>>)>>)>>,
    written: Seq<(Seq<char>, Seq<(Seq<char>, Seq<char>)>)>,
) -> bool {
    parsed matches Some(p) && tables_read_back(p, written)
}

/// Parses `raw` with `serde_json::from_str` into a `serde_json::Value` and
/// hands out its object levels as plain values. Claimed of serde_json: the
/// result is the name `json_tables_of` of the text, and the empty text is not
/// JSON.
#[verifier::external_body]
pub(crate) fn parse_json_tables(raw: &str) -> (r: Option<
    Vec<(String, Option<Vec<(String, Option<String>)>>)>,
>)
    ensures
        r.deep_view() == json_tables_of(raw@),
        raw@.len() == 0 ==> r is None,
{
    match serde_json::from_str::<Value>(raw) {
        Ok(Value::Object(root)) => Some(root.into_iter().map(|(os, table)| (os, match table {
            Value::Object(t) => Some(t.into_iter().map(|(k, v)| (k, match v {
                Value::String(s) => Some(s),
                _ => None,
            })).collect()),
            _ => None,
        })).collect()),
        _ => None,
    }
}

/// Builds a `serde_json::Value` object of objects of strings from the entries
/// and writes it with `Value::to_string`. Claimed of serde_json: the result is
/// the name `json_text_of` of the entries, it is not empty, and when no two entries (nor two
/// entries of one table) share a key, `serde_json::from_str` reads back
/// exactly those entries.
#[verifier::external_body]
pub(crate) fn write_json_tables(tables: Vec<(String, Vec<(String, String)>)>) -> (r: String)
    ensures
        r@ == json_text_of(tables.deep_view()),
        r@.len() > 0,
        keys_distinct_at_both_levels(tables.deep_view()) ==> reads_back_as(
            json_tables_of(r@),
            tables.deep_view(),
        ),
{
    Value::Object(tables.into_iter().map(|(os, t)| (os, Value::Object(t.into_iter().map(|(k, v)|
        (k, Value::String(v))).collect()))).collect()).to_string()
}

/// The `serde_json::Value` object of strings serde_json builds from the
/// entries (later entries replace earlier ones with the same key).
pub uninterp spec fn json_object_of(entries: Seq<(Seq<char>, Seq<char>)>) -> serde_json::Value;

/// Builds a `serde_json::Value` object of strings from the entries (later
/// entries replace earlier ones with the same key). Claimed of serde_json:
/// the value is the name `json_object_of` of the entries, i.e. it depends on
/// them alone.
#[verifier::external_body]
pub(crate) fn json_string_object(entries: Vec<(String, String)>) -> (r: Value)
    ensures
        r == json_object_of(entries.deep_view()),
{
    Value::Object(entries.into_iter().map(|(k, v)| (k, Value::String(v))).collect())
}

} // verus!
