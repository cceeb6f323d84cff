//! The layout: a document that lists build actions, and its decoding.

use vstd::prelude::*;
use vstd::string::*;
use crate::actions::{
    Action, BuildAction, BuildMultiplePages, Multi, actions_of, led_by, mappings_of, multis_of,
};
use crate::io::{ReadsFiles, Traced, World, consistent, extends};
use crate::pipes::optional_text;
use crate::semantics::{Outcome, ended};
use crate::text::{concat2, concat3, concat5, decimal, decimal_text, same_text, texts};
use crate::yaml::{
    Document, Mapping, YamlFileError, YamlFileFailure, YamlMap, YamlValue, documents,
    lemma_array_view, load_yaml_document, mapping_get_str, new_yaml_map,
    yaml_documents,
};
use yaml_rust2::scanner::ScanError;

verus! {

/// What can be wrong with a layout.
#[derive(Debug, PartialEq, Eq)]
pub enum LayoutError {
    AtEntry(Box<LayoutError>, usize),
    YamlParsing(ScanError),
    YamlFileError(YamlFileError),
    UnexpectedType(String),
    MissingKey(String),
    KeyNotString(String),
    KeyNotArray(String),
    KeyNotMap(String),
    EntryNotHash(String, usize),
    EntryNotString(String, usize),
}

/// A [`LayoutError`] as a mathematical value.
pub enum LayoutFailure {
    AtEntry(Box<LayoutFailure>, usize),
    YamlParsing(ScanError),
    YamlFileError(YamlFileFailure),
    UnexpectedType(Seq<char>),
    MissingKey(Seq<char>),
    KeyNotString(Seq<char>),
    KeyNotArray(Seq<char>),
    KeyNotMap(Seq<char>),
    EntryNotHash(Seq<char>, usize),
    EntryNotString(Seq<char>, usize),
}

impl LayoutError {
    /// The failure that `self` stands for.
    pub open spec fn failure(&self) -> LayoutFailure
        decreases self,
    {
        match self {
            LayoutError::AtEntry(e, n) => LayoutFailure::AtEntry(Box::new(e.failure()), *n),
            LayoutError::YamlParsing(e) => LayoutFailure::YamlParsing(*e),
            LayoutError::YamlFileError(e) => LayoutFailure::YamlFileError(e@),
            LayoutError::UnexpectedType(s) => LayoutFailure::UnexpectedType(s@),
            LayoutError::MissingKey(s) => LayoutFailure::MissingKey(s@),
            LayoutError::KeyNotString(s) => LayoutFailure::KeyNotString(s@),
            LayoutError::KeyNotArray(s) => LayoutFailure::KeyNotArray(s@),
            LayoutError::KeyNotMap(s) => LayoutFailure::KeyNotMap(s@),
            LayoutError::EntryNotHash(s, n) => LayoutFailure::EntryNotHash(s@, *n),
            LayoutError::EntryNotString(s, n) => LayoutFailure::EntryNotString(s@, *n),
        }
    }
}

impl View for LayoutError {
    type V = LayoutFailure;

    open spec fn view(&self) -> LayoutFailure {
        self.failure()
    }
}

impl LayoutFailure {
    /// The message that names the failure, where no part of it is the
    /// YAML scanner's own.
    pub open spec fn message(self) -> Option<Seq<char>>
        decreases self,
    {
        match self {
            LayoutFailure::AtEntry(e, n) => led_by(
                "At action "@ + decimal(n as nat) + ": "@,
                e.message(),
            ),
            LayoutFailure::YamlParsing(_) => None,
            LayoutFailure::YamlFileError(e) => e.message(),
            LayoutFailure::UnexpectedType(s) => Some(
                "\""@ + s + "\" is not a valid type of build action"@,
            ),
            LayoutFailure::MissingKey(s) => Some("The key \""@ + s + "\" is missing"@),
            LayoutFailure::KeyNotString(s) => Some("The key \""@ + s + "\" is not a string"@),
            LayoutFailure::KeyNotArray(s) => Some("The key \""@ + s + "\" is not an array"@),
            LayoutFailure::KeyNotMap(s) => Some("The key \""@ + s + "\" is not a map"@),
            LayoutFailure::EntryNotHash(s, n) => Some(
                "Entry "@ + decimal(n as nat) + " within the array at \""@ + s
                    + "\" is not a map"@,
            ),
            LayoutFailure::EntryNotString(s, n) => Some(
                "Entry "@ + decimal(n as nat) + " within the array at \""@ + s
                    + "\" is not a string"@,
            ),
        }
    }
}

impl LayoutError {
    /// The message that names the error; for a scan error, what the
    /// scanner says of it.
    pub fn to_string(&self) -> (r: String)
        ensures
            self@.message() matches Some(m) ==> r@ == m,
        decreases self,
    {
        match self {
            LayoutError::AtEntry(ee, ind) => {
                let head = concat3("At action ", decimal_text(*ind as u128).as_str(), ": ");
                concat2(head.as_str(), ee.to_string().as_str())
            },
            LayoutError::YamlParsing(ee) => crate::yaml::scan_error_text(ee),
            LayoutError::YamlFileError(ee) => ee.to_string(),
            LayoutError::UnexpectedType(ee) => concat3(
                "\"",
                ee.as_str(),
                "\" is not a valid type of build action",
            ),
            LayoutError::MissingKey(ee) => concat3("The key \"", ee.as_str(), "\" is missing"),
            LayoutError::KeyNotString(ee) => concat3(
                "The key \"",
                ee.as_str(),
                "\" is not a string",
            ),
            LayoutError::KeyNotArray(ee) => concat3(
                "The key \"",
                ee.as_str(),
                "\" is not an array",
            ),
            LayoutError::KeyNotMap(ee) => concat3("The key \"", ee.as_str(), "\" is not a map"),
            LayoutError::EntryNotHash(ee, pos) => concat5(
                "Entry ",
                decimal_text(*pos as u128).as_str(),
                " within the array at \"",
                ee.as_str(),
                "\" is not a map",
            ),
            LayoutError::EntryNotString(ee, pos) => concat5(
                "Entry ",
                decimal_text(*pos as u128).as_str(),
                " within the array at \"",
                ee.as_str(),
                "\" is not a string",
            ),
        }
    }
}

/// The value that `m` holds under `key`, or that the key is missing.
pub open spec fn field(key: Seq<char>, m: Mapping) -> Result<Document, LayoutFailure> {
    match mapping_get_str(m, key) {
        None => Err(LayoutFailure::MissingKey(key)),
        Some(v) => Ok(v),
    }
}

/// The string that `m` holds under `key`; a value of another kind counts
/// as missing.
pub open spec fn str_field(key: Seq<char>, m: Mapping) -> Result<Seq<char>, LayoutFailure> {
    match mapping_get_str(m, key) {
        Some(Document::String(s)) => Ok(s),
        _ => Err(LayoutFailure::MissingKey(key)),
    }
}

/// The mapping that `m` holds under `key`; a value of another kind
/// counts as missing.
pub open spec fn hash_field(key: Seq<char>, m: Mapping) -> Result<Mapping, LayoutFailure> {
    match mapping_get_str(m, key) {
        Some(Document::Hash(h)) => Ok(h),
        _ => Err(LayoutFailure::MissingKey(key)),
    }
}

/// The sequence that `m` holds under `key`; a value of another kind
/// counts as missing.
pub open spec fn array_field(key: Seq<char>, m: Mapping) -> Result<Seq<Document>, LayoutFailure> {
    match mapping_get_str(m, key) {
        Some(Document::Array(a)) => Ok(a),
        _ => Err(LayoutFailure::MissingKey(key)),
    }
}

/// The string that `m` holds under `key`, if it holds one.
pub open spec fn optional_field(key: Seq<char>, m: Mapping) -> Option<Seq<char>> {
    match mapping_get_str(m, key) {
        Some(Document::String(s)) => Some(s),
        _ => None,
    }
}

/// The mappings that the elements from index `i` on add to `acc`: each
/// must be a mapping.
pub open spec fn hashes_from(elements: Seq<Document>, key: Seq<char>, i: int, acc: Seq<Mapping>) -> Result<
    Seq<Mapping>,
    LayoutFailure,
>
    decreases elements.len() - i,
{
    if i < 0 || i >= elements.len() {
        Ok(acc)
    } else {
        match elements[i] {
            Document::Hash(h) => hashes_from(elements, key, i + 1, acc.push(h)),
            _ => Err(LayoutFailure::EntryNotHash(key, i as usize)),
        }
    }
}

/// The strings that the elements from index `i` on add to `acc`: each
/// must be a string.
pub open spec fn strings_from(elements: Seq<Document>, key: Seq<char>, i: int, acc: Seq<Seq<char>>) -> Result<
    Seq<Seq<char>>,
    LayoutFailure,
>
    decreases elements.len() - i,
{
    if i < 0 || i >= elements.len() {
        Ok(acc)
    } else {
        match elements[i] {
            Document::String(s) => strings_from(elements, key, i + 1, acc.push(s)),
            _ => Err(LayoutFailure::EntryNotString(key, i as usize)),
        }
    }
}

/// The mappings of a sequence of mappings that was looked up under
/// `key`: none where the key is missing.
pub open spec fn array_of_hash(value: Result<Document, LayoutFailure>, key: Seq<char>) -> Result<
    Seq<Mapping>,
    LayoutFailure,
> {
    match value {
        Ok(Document::Array(a)) => hashes_from(a, key, 0, Seq::empty()),
        Err(LayoutFailure::MissingKey(_)) => Ok(Seq::empty()),
        _ => Err(LayoutFailure::KeyNotArray(key)),
    }
}

/// The strings of a sequence of strings that was looked up under `key`:
/// none where the key is missing.
pub open spec fn array_of_string(value: Result<Document, LayoutFailure>, key: Seq<char>) -> Result<
    Seq<Seq<char>>,
    LayoutFailure,
> {
    match value {
        Ok(Document::Array(a)) => strings_from(a, key, 0, Seq::empty()),
        Err(LayoutFailure::MissingKey(_)) => Ok(Seq::empty()),
        _ => Err(LayoutFailure::KeyNotArray(key)),
    }
}

/// The grouping that the mapping `m` describes.
pub open spec fn grouping_of(m: Mapping) -> Result<Multi, LayoutFailure> {
    match array_of_string(field("files"@, m), "files"@) {
        Err(e) => Err(e),
        Ok(files) => match array_of_hash(field("params"@, m), "params"@) {
            Err(e) => Err(e),
            Ok(params) => Ok(
                Multi {
                    files,
                    params,
                    mapping: match hash_field("mapping"@, m) {
                        Ok(h) => h,
                        Err(_) => Seq::empty(),
                    },
                    flatten: optional_field("flatten"@, m),
                },
            ),
        },
    }
}

/// The groupings that the mappings from index `i` on add to `acc`.
pub open spec fn groupings_from(withs: Seq<Mapping>, i: int, acc: Seq<Multi>) -> Result<
    Seq<Multi>,
    LayoutFailure,
>
    decreases withs.len() - i,
{
    if i < 0 || i >= withs.len() {
        Ok(acc)
    } else {
        match grouping_of(withs[i]) {
            Err(e) => Err(e),
            Ok(g) => groupings_from(withs, i + 1, acc.push(g)),
        }
    }
}

/// The action that the mapping `m` describes, by its `type`: `copy`,
/// `build` or `build-multiple`.
pub open spec fn action_of(m: Mapping) -> Result<Action, LayoutFailure> {
    match str_field("type"@, m) {
        Err(e) => Err(e),
        Ok(kind) => if kind == "copy"@ {
            match str_field("from"@, m) {
                Err(e) => Err(e),
                Ok(from) => match str_field("to"@, m) {
                    Err(e) => Err(e),
                    Ok(to) => Ok(Action::CopyFiles { from, to }),
                },
            }
        } else if kind == "build"@ {
            match str_field("input"@, m) {
                Err(e) => Err(e),
                Ok(input) => match str_field("output"@, m) {
                    Err(e) => Err(e),
                    Ok(output) => match hash_field("params"@, m) {
                        Err(e) => Err(e),
                        Ok(params) => Ok(Action::BuildPage { input, output, params }),
                    },
                },
            }
        } else if kind == "build-multiple"@ {
            match str_field("description"@, m) {
                Err(e) => Err(e),
                Ok(descriptor) => match hash_field("default"@, m) {
                    Err(e) => Err(e),
                    Ok(default_params) => match array_of_hash(field("with"@, m), "with"@) {
                        Err(e) => Err(e),
                        Ok(withs) => match groupings_from(withs, 0, Seq::empty()) {
                            Err(e) => Err(e),
                            Ok(on) => Ok(
                                Action::BuildMultiplePages {
                                    descriptor,
                                    default_params,
                                    on,
                                    include_key: optional_field("include"@, m),
                                    exclude_key: optional_field("exclude"@, m),
                                },
                            ),
                        },
                    },
                },
            }
        } else {
            Err(LayoutFailure::UnexpectedType(kind))
        },
    }
}

/// The actions that the mappings from index `i` on add to `acc`; an
/// error names the index of its mapping.
pub open spec fn actions_from(maps: Seq<Mapping>, i: int, acc: Seq<Action>) -> Result<
    Seq<Action>,
    LayoutFailure,
>
    decreases maps.len() - i,
{
    if i < 0 || i >= maps.len() {
        Ok(acc)
    } else {
        match action_of(maps[i]) {
            Err(e) => Err(LayoutFailure::AtEntry(Box::new(e), i as usize)),
            Ok(a) => actions_from(maps, i + 1, acc.push(a)),
        }
    }
}

/// The actions that the layout document `d` lists: it must be a sequence
/// of mappings.
pub open spec fn layout_of(d: Document) -> Result<Seq<Action>, LayoutFailure> {
    match array_of_hash(Ok(d), "(base value)"@) {
        Err(e) => Err(e),
        Ok(maps) => actions_from(maps, 0, Seq::empty()),
    }
}

/// The view of a looked-up value or an error.
pub open spec fn field_found(r: Result<&YamlValue, LayoutError>) -> Result<Document, LayoutFailure> {
    match r {
        Ok(v) => Ok(v@),
        Err(e) => Err(e@),
    }
}

/// The view of a looked-up string or an error.
pub open spec fn str_found(r: Result<&str, LayoutError>) -> Result<Seq<char>, LayoutFailure> {
    match r {
        Ok(v) => Ok(v@),
        Err(e) => Err(e@),
    }
}

/// The view of a looked-up mapping or an error.
pub open spec fn hash_found(r: Result<&YamlMap, LayoutError>) -> Result<Mapping, LayoutFailure> {
    match r {
        Ok(v) => Ok(v@),
        Err(e) => Err(e@),
    }
}

/// The view of a looked-up sequence or an error.
pub open spec fn array_found(r: Result<&Vec<YamlValue>, LayoutError>) -> Result<
    Seq<Document>,
    LayoutFailure,
> {
    match r {
        Ok(v) => Ok(documents(v@)),
        Err(e) => Err(e@),
    }
}

/// The value that `mapping` holds under `key`.
pub fn lookup_yaml<'a>(key: &str, mapping: &'a YamlMap) -> (r: Result<&'a YamlValue, LayoutError>)
    ensures
        field_found(r) == field(key@, mapping@),
{
    match mapping.get(key) {
        None => Err(LayoutError::MissingKey(key.to_owned())),
        Some(value) => Ok(value),
    }
}

/// The string that `mapping` holds under `key`.
pub fn lookup_yaml_str<'a>(key: &str, mapping: &'a YamlMap) -> (r: Result<&'a str, LayoutError>)
    ensures
        str_found(r) == str_field(key@, mapping@),
{
    match mapping.get(key) {
        Some(YamlValue::String(ss)) => Ok(ss.as_str()),
        _ => Err(LayoutError::MissingKey(key.to_owned())),
    }
}

/// The mapping that `mapping` holds under `key`.
pub fn lookup_yaml_hash<'a>(key: &str, mapping: &'a YamlMap) -> (r: Result<&'a YamlMap, LayoutError>)
    ensures
        hash_found(r) == hash_field(key@, mapping@),
{
    match mapping.get(key) {
        Some(YamlValue::Hash(hh)) => {
            Ok(hh)
        },
        _ => Err(LayoutError::MissingKey(key.to_owned())),
    }
}

/// The sequence that `mapping` holds under `key`.
pub fn lookup_yaml_array<'a>(key: &str, mapping: &'a YamlMap) -> (r: Result<
    &'a Vec<YamlValue>,
    LayoutError,
>)
    ensures
        array_found(r) == array_field(key@, mapping@),
{
    match mapping.get(key) {
        Some(YamlValue::Array(aa)) => {
            proof {
                lemma_array_view(*aa);
            }
            Ok(aa)
        },
        _ => Err(LayoutError::MissingKey(key.to_owned())),
    }
}

/// The string that `mapping` holds under `key`, if it holds one.
fn optional_str(key: &str, mapping: &YamlMap) -> (r: Option<String>)
    ensures
        optional_text(r) == optional_field(key@, mapping@),
{
    match mapping.get(key) {
        Some(YamlValue::String(ss)) => Some(ss.clone()),
        _ => None,
    }
}

/// The mappings that `maps` refer to, element by element.
pub open spec fn mappings_at(maps: Seq<&YamlMap>) -> Seq<Mapping> {
    Seq::new(maps.len(), |i: int| maps[i]@)
}

/// The view of mappings or an error.
pub open spec fn hashes_found(r: Result<Vec<&YamlMap>, LayoutError>) -> Result<
    Seq<Mapping>,
    LayoutFailure,
> {
    match r {
        Ok(v) => Ok(mappings_at(v@)),
        Err(e) => Err(e@),
    }
}

/// The view of strings or an error.
pub open spec fn strings_found(r: Result<Vec<String>, LayoutError>) -> Result<
    Seq<Seq<char>>,
    LayoutFailure,
> {
    match r {
        Ok(v) => Ok(texts(v@)),
        Err(e) => Err(e@),
    }
}

/// The mappings of a sequence of mappings that was looked up under
/// `key`.
#[verifier::loop_isolation(false)]
pub fn ensure_array_of_hash<'a>(value: Result<&'a YamlValue, LayoutError>, key: &str) -> (r: Result<
    Vec<&'a YamlMap>,
    LayoutError,
>)
    ensures
        hashes_found(r) == array_of_hash(field_found(value), key@),
{
    match value {
        Ok(YamlValue::Array(aa)) => {
            proof {
                lemma_array_view(*aa);
            }
            let mut result: Vec<&'a YamlMap> = Vec::new();
            let ghost elements = documents(aa@);
            assert(mappings_at(result@) =~= Seq::<Mapping>::empty());
            let mut ind: usize = 0;
            while ind < aa.len()
                invariant
                    ind <= aa.len(),
                    elements == documents(aa@),
                    hashes_from(elements, key@, 0, Seq::empty()) == hashes_from(
                        elements,
                        key@,
                        ind as int,
                        mappings_at(result@),
                    ),
                decreases aa.len() - ind,
            {
                assert(elements[ind as int] == aa@[ind as int]@);
                match &aa[ind] {
                    YamlValue::Hash(hh) => {
                        let ghost before = mappings_at(result@);
                        result.push(hh);
                        assert(mappings_at(result@) =~= before.push(hh@));
                    },
                    _ => {
                        return Err(LayoutError::EntryNotHash(key.to_owned(), ind));
                    },
                }
                ind += 1;
            }
            Ok(result)
        },
        Err(LayoutError::MissingKey(_)) => {
            let result: Vec<&'a YamlMap> = Vec::new();
            assert(mappings_at(result@) =~= Seq::<Mapping>::empty());
            Ok(result)
        },
        _ => Err(LayoutError::KeyNotArray(key.to_owned())),
    }
}

/// The strings of a sequence of strings that was looked up under `key`.
#[verifier::loop_isolation(false)]
pub fn ensure_array_of_string(value: Result<&YamlValue, LayoutError>, key: &str) -> (r: Result<
    Vec<String>,
    LayoutError,
>)
    ensures
        strings_found(r) == array_of_string(field_found(value), key@),
{
    match value {
        Ok(YamlValue::Array(aa)) => {
            proof {
                lemma_array_view(*aa);
            }
            let mut result: Vec<String> = Vec::new();
            let ghost elements = documents(aa@);
            assert(texts(result@) =~= Seq::<Seq<char>>::empty());
            let mut ind: usize = 0;
            while ind < aa.len()
                invariant
                    ind <= aa.len(),
                    elements == documents(aa@),
                    strings_from(elements, key@, 0, Seq::empty()) == strings_from(
                        elements,
                        key@,
                        ind as int,
                        texts(result@),
                    ),
                decreases aa.len() - ind,
            {
                assert(elements[ind as int] == aa@[ind as int]@);
                match &aa[ind] {
                    YamlValue::String(hh) => {
                        let ghost before = texts(result@);
                        result.push(hh.clone());
                        assert(texts(result@) =~= before.push(hh@));
                    },
                    _ => {
                        return Err(LayoutError::EntryNotString(key.to_owned(), ind));
                    },
                }
                ind += 1;
            }
            Ok(result)
        },
        Err(LayoutError::MissingKey(_)) => {
            let result: Vec<String> = Vec::new();
            assert(texts(result@) =~= Seq::<Seq<char>>::empty());
            Ok(result)
        },
        _ => Err(LayoutError::KeyNotArray(key.to_owned())),
    }
}

/// The view of a grouping or an error.
pub open spec fn grouping_found(r: Result<BuildMultiplePages, LayoutError>) -> Result<
    Multi,
    LayoutFailure,
> {
    match r {
        Ok(v) => Ok(v@),
        Err(e) => Err(e@),
    }
}

/// The grouping that `ii` describes.
fn yaml_map_to_grouping(ii: &YamlMap) -> (r: Result<BuildMultiplePages, LayoutError>)
    ensures
        grouping_found(r) == grouping_of(ii@),
{
    let files = match ensure_array_of_string(lookup_yaml("files", ii), "files") {
        Ok(files) => files,
        Err(ee) => {
            return Err(ee);
        },
    };
    let found = match ensure_array_of_hash(lookup_yaml("params", ii), "params") {
        Ok(found) => found,
        Err(ee) => {
            return Err(ee);
        },
    };
    let mut params: Vec<YamlMap> = Vec::new();
    let mut k: usize = 0;
    while k < found.len()
        invariant
            k <= found.len(),
            params.len() == k,
            forall|j: int| 0 <= j < k ==> params@[j]@ == found@[j]@,
        decreases found.len() - k,
    {
        params.push(found[k].copy());
        k += 1;
    }
    assert(mappings_of(params@) =~= mappings_at(found@));
    let mapping_map: YamlMap = match lookup_yaml_hash("mapping", ii) {
        Ok(aa) => aa.copy(),
        Err(_) => new_yaml_map(),
    };
    let flatten = optional_str("flatten", ii);
    Ok(BuildMultiplePages { files, params, mapping: mapping_map, flatten })
}

/// The view of an action or an error.
pub open spec fn action_found(r: Result<BuildAction, LayoutError>) -> Result<Action, LayoutFailure> {
    match r {
        Ok(v) => Ok(v@),
        Err(e) => Err(e@),
    }
}

/// The action that `mapping` describes, by its `type`.
#[verifier::loop_isolation(false)]
pub fn yaml_map_to_buildaction(mapping: &YamlMap) -> (r: Result<BuildAction, LayoutError>)
    ensures
        action_found(r) == action_of(mapping@),
{
    let actiontype = match lookup_yaml_str("type", mapping) {
        Ok(actiontype) => actiontype,
        Err(ee) => {
            return Err(ee);
        },
    };
    if same_text(actiontype, "copy") {
        let from = match lookup_yaml_str("from", mapping) {
            Ok(from) => from,
            Err(ee) => {
                return Err(ee);
            },
        };
        let to = match lookup_yaml_str("to", mapping) {
            Ok(to) => to,
            Err(ee) => {
                return Err(ee);
            },
        };
        Ok(BuildAction::CopyFiles { from: from.to_owned(), to: to.to_owned() })
    } else if same_text(actiontype, "build") {
        let input = match lookup_yaml_str("input", mapping) {
            Ok(input) => input,
            Err(ee) => {
                return Err(ee);
            },
        };
        let output = match lookup_yaml_str("output", mapping) {
            Ok(output) => output,
            Err(ee) => {
                return Err(ee);
            },
        };
        let params = match lookup_yaml_hash("params", mapping) {
            Ok(params) => params,
            Err(ee) => {
                return Err(ee);
            },
        };
        Ok(
            BuildAction::BuildPage {
                input: input.to_owned(),
                output: output.to_owned(),
                params: params.copy(),
            },
        )
    } else if same_text(actiontype, "build-multiple") {
        let descriptor = match lookup_yaml_str("description", mapping) {
            Ok(descriptor) => descriptor,
            Err(ee) => {
                return Err(ee);
            },
        };
        let default = match lookup_yaml_hash("default", mapping) {
            Ok(default) => default,
            Err(ee) => {
                return Err(ee);
            },
        };
        let with_value = match ensure_array_of_hash(lookup_yaml("with", mapping), "with") {
            Ok(with_value) => with_value,
            Err(ee) => {
                return Err(ee);
            },
        };
        let include_key = optional_str("include", mapping);
        let exclude_key = optional_str("exclude", mapping);
        let mut withs: Vec<BuildMultiplePages> = Vec::new();
        let ghost maps = mappings_at(with_value@);
        assert(multis_of(withs@) =~= Seq::<Multi>::empty());
        let mut k: usize = 0;
        while k < with_value.len()
            invariant
                k <= with_value.len(),
                maps == mappings_at(with_value@),
                groupings_from(maps, 0, Seq::empty()) == groupings_from(
                    maps,
                    k as int,
                    multis_of(withs@),
                ),
            decreases with_value.len() - k,
        {
            assert(maps[k as int] == with_value@[k as int]@);
            match yaml_map_to_grouping(with_value[k]) {
                Err(ee) => {
                    return Err(ee);
                },
                Ok(group) => {
                    let ghost before = multis_of(withs@);
                    withs.push(group);
                    assert(multis_of(withs@) =~= before.push(group@));
                },
            }
            k += 1;
        }
        Ok(
            BuildAction::BuildMultiplePages {
                on: withs,
                include_key,
                exclude_key,
                default_params: default.copy(),
                descriptor: descriptor.to_owned(),
            },
        )
    } else {
        Err(LayoutError::UnexpectedType(actiontype.to_owned()))
    }
}

/// The view of actions or an error.
pub open spec fn actions_found(r: Result<Vec<BuildAction>, LayoutError>) -> Result<
    Seq<Action>,
    LayoutFailure,
> {
    match r {
        Ok(v) => Ok(actions_of(v@)),
        Err(e) => Err(e@),
    }
}

/// The actions that the layout document `actions` lists.
pub fn layout_file_parsed_to_buildactions(actions: &YamlValue) -> (r: Result<
    Vec<BuildAction>,
    LayoutError,
>)
    ensures
        actions_found(r) == layout_of(actions@),
{
    let arr = match ensure_array_of_hash(Ok(actions), "(base value)") {
        Ok(arr) => arr,
        Err(ee) => {
            return Err(ee);
        },
    };
    let mut out: Vec<BuildAction> = Vec::new();
    let ghost maps = mappings_at(arr@);
    assert(actions_of(out@) =~= Seq::<Action>::empty());
    let mut ind: usize = 0;
    while ind < arr.len()
        invariant
            ind <= arr.len(),
            maps == mappings_at(arr@),
            layout_of(actions@) == actions_from(maps, 0, Seq::empty()),
            actions_from(maps, 0, Seq::empty()) == actions_from(maps, ind as int, actions_of(out@)),
        decreases arr.len() - ind,
    {
        assert(maps[ind as int] == arr@[ind as int]@);
        match yaml_map_to_buildaction(arr[ind]) {
            Err(ee) => {
                return Err(LayoutError::AtEntry(Box::new(ee), ind));
            },
            Ok(action) => {
                let ghost before = actions_of(out@);
                out.push(action);
                assert(actions_of(out@) =~= before.push(action@));
            },
        }
        ind += 1;
    }
    Ok(out)
}

/// The actions that the layout written as `contents` lists. A text that
/// holds no document is no sequence.
pub fn layout_string_to_buildactions(contents: &str) -> (r: Result<Vec<BuildAction>, LayoutError>)
    ensures
        match yaml_documents(contents@) {
            None => r matches Err(LayoutError::YamlParsing(_)),
            Some(docs) => actions_found(r) == if docs.len() == 0 {
                Err(LayoutFailure::KeyNotArray("(base value)"@))
            } else {
                layout_of(docs[0])
            },
        },
{
    match load_yaml_document(contents) {
        Err(ee) => Err(LayoutError::YamlParsing(ee)),
        Ok(None) => Err(LayoutError::KeyNotArray("(base value)".to_owned())),
        Ok(Some(file)) => layout_file_parsed_to_buildactions(&file),
    }
}

/// The actions that the layout file `filename` lists, after it is read.
pub open spec fn layout_read(filename: Seq<char>, world: World, at: nat) -> Outcome<
    Seq<Action>,
    LayoutFailure,
> {
    Outcome {
        result: match (world.read_yaml)(at, filename) {
            Err(e) => Err(LayoutFailure::YamlFileError(e)),
            Ok(d) => layout_of(d),
        },
        at: at + 1,
    }
}

/// The actions that the layout file `filename` lists.
pub fn layout_file_to_buildactions<R: ReadsFiles>(filename: &str, io: &mut Traced<R>) -> (r: Result<
    Vec<BuildAction>,
    LayoutError,
>)
    ensures
        extends(final(io).log(), old(io).log()),
        forall|w: World| #[trigger]
            consistent(final(io).log(), w) ==> layout_read(filename@, w, old(io).log().len())
                == ended(actions_found(r), final(io).log()),
{
    match io.read_yaml(filename) {
        Err(ee) => Err(LayoutError::YamlFileError(ee)),
        Ok(file) => layout_file_parsed_to_buildactions(&file),
    }
}

} // verus!
