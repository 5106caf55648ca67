//! Trusted boundary to `serde_yaml`, used to read the YAML frontmatter of
//! sub-agent and custom-command definition files. Each accessor parses the
//! frontmatter text and extracts one field; since `serde_yaml::from_str` is
//! a function of its text alone, the results are pinned by named spec
//! functions over (text, key), so the loaders' contracts can tie parsed
//! fields to the file content.

use vstd::prelude::*;

verus! {

use crate::commands::CustomCommandArgSpec;

/// Whether `serde_yaml::from_str` accepts this document text.
pub uninterp spec fn yaml_parses(fm: Seq<char>) -> bool;

/// Whether the parsed document is a mapping holding this key.
pub uninterp spec fn yaml_has_field_of(fm: Seq<char>, key: Seq<char>) -> bool;

/// The field's string payload: `Some` exactly when the field is present and
/// is a string.
pub uninterp spec fn yaml_str_field_of(fm: Seq<char>, key: Seq<char>) -> Option<Seq<char>>;

/// The field's boolean payload: `Some` exactly when the field is present and
/// is a boolean.
pub uninterp spec fn yaml_bool_field_of(fm: Seq<char>, key: Seq<char>) -> Option<bool>;

/// The field's sequence payload: `Some` exactly when the field is present
/// and is a sequence; each element is `Some` exactly when it is a string.
pub uninterp spec fn yaml_str_list_of(fm: Seq<char>, key: Seq<char>) -> Option<
    Seq<Option<Seq<char>>>,
>;

/// The document's `args` entries as (name, required, description) triples:
/// `Some` exactly when `args` is present, is a sequence, and every entry has
/// a string `name` (`required` defaults to false when missing or not a
/// boolean; a missing or non-string `description` is `None`).
pub uninterp spec fn yaml_args_of(fm: Seq<char>) -> Option<
    Seq<(Seq<char>, bool, Option<Seq<char>>)>,
>;

/// Relies on `serde_yaml::from_str` (a function of the text alone) and the
/// `Value::get`/`as_str` accessors: one string field of the document. Errors
/// are the parser's display text.
#[verifier::external_body]
pub fn yaml_str_field(fm: &str, key: &str) -> (r: Result<Option<String>, String>)
    ensures
        r is Ok <==> yaml_parses(fm@),
        (r matches Ok(f) ==> (match f {
            Some(s) => yaml_str_field_of(fm@, key@) == Some(s@),
            None => yaml_str_field_of(fm@, key@) is None,
        })),
{
    match serde_yaml::from_str::<serde_yaml::Value>(fm) {
        Ok(v) => Ok(v.get(key).and_then(|x| x.as_str()).map(|s| s.to_string())),
        Err(e) => Err(e.to_string()),
    }
}

/// Relies on `serde_yaml::from_str` and `Value::get`: whether the document
/// holds this field.
#[verifier::external_body]
pub fn yaml_has_field(fm: &str, key: &str) -> (r: Result<bool, String>)
    ensures
        r is Ok <==> yaml_parses(fm@),
        (r matches Ok(b) ==> b == yaml_has_field_of(fm@, key@)),
{
    match serde_yaml::from_str::<serde_yaml::Value>(fm) {
        Ok(v) => Ok(v.get(key).is_some()),
        Err(e) => Err(e.to_string()),
    }
}

/// Relies on `serde_yaml::from_str` and `Value::get`/`as_bool`: one boolean
/// field of the document.
#[verifier::external_body]
pub fn yaml_bool_field(fm: &str, key: &str) -> (r: Result<Option<bool>, String>)
    ensures
        r is Ok <==> yaml_parses(fm@),
        (r matches Ok(f) ==> (match f {
            Some(b) => yaml_bool_field_of(fm@, key@) == Some(b),
            None => yaml_bool_field_of(fm@, key@) is None,
        })),
{
    match serde_yaml::from_str::<serde_yaml::Value>(fm) {
        Ok(v) => Ok(v.get(key).and_then(|x| x.as_bool())),
        Err(e) => Err(e.to_string()),
    }
}

/// Relies on `serde_yaml::from_str` and `Value::get`/`as_sequence`/`as_str`:
/// one sequence field, each element mapped to its string payload.
#[verifier::external_body]
pub fn yaml_str_list_field(fm: &str, key: &str) -> (r: Result<Option<Vec<Option<String>>>, String>)
    ensures
        r is Ok <==> yaml_parses(fm@),
        (r matches Ok(f) ==> (match f {
            Some(v) => yaml_str_list_of(fm@, key@) == Some(v.deep_view()),
            None => yaml_str_list_of(fm@, key@) is None,
        })),
{
    match serde_yaml::from_str::<serde_yaml::Value>(fm) {
        Ok(v) => Ok(v.get(key).and_then(|x| x.as_sequence()).map(
            |xs| xs.iter().map(|x| x.as_str().map(|s| s.to_string())).collect(),
        )),
        Err(e) => Err(e.to_string()),
    }
}

/// Relies on `serde_yaml::from_str` and the `Value` accessors: the `args`
/// entries, each needing a string `name`; `required` defaults to false and
/// `description` to absent.
#[verifier::external_body]
pub fn yaml_args_field(fm: &str) -> (r: Result<Option<Vec<CustomCommandArgSpec>>, String>)
    ensures
        r is Ok <==> yaml_parses(fm@),
        (r matches Ok(f) ==> (match f {
            Some(v) => yaml_args_of(fm@) matches Some(es) && es.len() == v@.len() && (forall|
                k: int,
            |
                0 <= k < v@.len() ==> #[trigger] es[k] == (
                    v@[k].name@,
                    v@[k].required,
                    (match v@[k].description {
                        Some(d) => Some(d@),
                        None => None::<Seq<char>>,
                    }),
                )),
            None => yaml_args_of(fm@) is None,
        })),
{
    let parsed = match serde_yaml::from_str::<serde_yaml::Value>(fm) {
        Ok(v) => v,
        Err(e) => return Err(e.to_string()),
    };
    Ok(parsed.get("args").and_then(|x| x.as_sequence()).and_then(|xs| {
        xs.iter().map(|e| {
            e.get("name").and_then(|n| n.as_str()).map(|name| CustomCommandArgSpec {
                name: name.to_string(),
                required: e.get("required").and_then(|b| b.as_bool()).unwrap_or(false),
                description: e.get("description").and_then(|d| d.as_str()).map(|s| s.to_string()),
            })
        }).collect()
    }))
}

} // verus!
