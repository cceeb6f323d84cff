//! The document model: scalars, sequences and ordered mappings, with the
//! operations the engine needs on them, and the bridge to the YAML reader
//! and writer.

use vstd::prelude::*;
use vstd::string::*;
use crate::text::{same_text, signed_decimal, signed_decimal_text};
use crate::io::{FileError, FileFailure};
use crate::template::{
    Access, Failure, ForIterationType, TemplateError, TemplateValue, TemplateValueAccess, ValuePath,
    accesses_of, lemma_access_view, lemma_path_view,
};
use crate::text::{decimal, decimal_text};
use crate::utils::MaybeRef;
use hashlink::LinkedHashMap;
use yaml_rust2::scanner::ScanError;
use yaml_rust2::yaml::Yaml;
use yaml_rust2::{YamlLoader, YamlEmitter};

verus! {

/// A document as a mathematical value.
pub enum Document {
    Real(Seq<char>),
    Integer(i64),
    String(Seq<char>),
    Boolean(bool),
    Array(Seq<Document>),
    Hash(Seq<(Document, Document)>),
    Alias(usize),
    Null,
    BadValue,
}

/// An ordered mapping as a mathematical value: its entries in order.
pub type Mapping = Seq<(Document, Document)>;

/// A document value.
#[derive(Debug, PartialEq, Eq, Hash)]
pub enum YamlValue {
    /// A real number, kept as written.
    Real(String),
    Integer(i64),
    String(String),
    Boolean(bool),
    Array(Vec<YamlValue>),
    Hash(YamlMap),
    Alias(usize),
    Null,
    BadValue,
}

/// An ordered mapping from documents to documents: a linked hash map,
/// whose entries keep the order in which their keys were last inserted.
///
/// The map is opaque to the verifier. What it holds is [`map_entries`],
/// and the contracts of the functions that call its methods are believed,
/// not proved.
#[derive(Debug, PartialEq, Eq, Hash)]
#[verifier::external_body]
pub struct YamlMap {
    map: LinkedHashMap<YamlValue, YamlValue>,
}

/// The entries that a mapping holds, in the order in which it walks
/// them.
pub uninterp spec fn map_entries(m: YamlMap) -> Seq<(Document, Document)>;

impl YamlValue {
    /// The document that `self` stands for.
    pub open spec fn document(&self) -> Document
        decreases self,
    {
        match self {
            YamlValue::Real(s) => Document::Real(s@),
            YamlValue::Integer(i) => Document::Integer(*i),
            YamlValue::String(s) => Document::String(s@),
            YamlValue::Boolean(b) => Document::Boolean(*b),
            YamlValue::Array(a) => Document::Array(
                Seq::new(
                    a@.len(),
                    |i: int|
                        if 0 <= i < a@.len() {
                            a@[i].document()
                        } else {
                            Document::Null
                        },
                ),
            ),
            YamlValue::Hash(m) => Document::Hash(map_entries(*m)),
            YamlValue::Alias(n) => Document::Alias(*n),
            YamlValue::Null => Document::Null,
            YamlValue::BadValue => Document::BadValue,
        }
    }
}

impl View for YamlValue {
    type V = Document;

    open spec fn view(&self) -> Document {
        self.document()
    }
}

impl View for YamlMap {
    type V = Mapping;

    open spec fn view(&self) -> Mapping {
        map_entries(*self)
    }
}

/// The documents that `values` stand for, element by element.
pub open spec fn documents(values: Seq<YamlValue>) -> Seq<Document> {
    Seq::new(values.len(), |i: int| values[i]@)
}

/// The value of the first entry of `m`, at or after index `from`, whose
/// key is `key`.
pub open spec fn mapping_find(m: Mapping, key: Document, from: int) -> Option<Document>
    decreases m.len() - from,
{
    if from < 0 || from >= m.len() {
        None
    } else if m[from].0 == key {
        Some(m[from].1)
    } else {
        mapping_find(m, key, from + 1)
    }
}

/// The value that `m` holds for `key`.
pub open spec fn mapping_get(m: Mapping, key: Document) -> Option<Document> {
    mapping_find(m, key, 0)
}

/// The value that `m` holds for the string key `name`.
pub open spec fn mapping_get_str(m: Mapping, name: Seq<char>) -> Option<Document> {
    mapping_get(m, Document::String(name))
}

/// The entries among the first `n` of `m` whose key is not `key`, in order.
pub open spec fn mapping_without(m: Mapping, key: Document, n: int) -> Mapping
    decreases n,
{
    if n <= 0 {
        Seq::empty()
    } else if m[n - 1].0 == key {
        mapping_without(m, key, n - 1)
    } else {
        mapping_without(m, key, n - 1).push(m[n - 1])
    }
}

/// `m` without the entries whose key is `key`.
pub open spec fn mapping_remove(m: Mapping, key: Document) -> Mapping {
    mapping_without(m, key, m.len() as int)
}

/// `m` after inserting `value` under `key`: an entry with that key leaves
/// its place, and the new entry stands last.
pub open spec fn mapping_insert(m: Mapping, key: Document, value: Document) -> Mapping {
    mapping_remove(m, key).push((key, value))
}

/// `m` after inserting the first `n` entries of `other`, in order.
pub open spec fn mapping_extend_first(m: Mapping, other: Mapping, n: int) -> Mapping
    decreases n,
{
    if n <= 0 {
        m
    } else {
        mapping_insert(mapping_extend_first(m, other, n - 1), other[n - 1].0, other[n - 1].1)
    }
}

/// `m` after inserting every entry of `other`, in order.
pub open spec fn mapping_extend(m: Mapping, other: Mapping) -> Mapping {
    mapping_extend_first(m, other, other.len() as int)
}

/// What an array document holds is the documents of its elements.
pub proof fn lemma_array_view(a: Vec<YamlValue>)
    ensures
        YamlValue::Array(a)@ == Document::Array(documents(a@)),
{
    reveal_with_fuel(YamlValue::document, 2);
    assert(YamlValue::Array(a)@->Array_0 =~= documents(a@));
}

/// What can go wrong when a file is read as a document.
#[derive(Debug, PartialEq, Eq)]
pub enum YamlFileError {
    File(FileError),
    Yaml(ScanError),
}

/// A [`YamlFileError`] as a mathematical value.
pub enum YamlFileFailure {
    File(FileFailure),
    Yaml(ScanError),
}

impl View for YamlFileError {
    type V = YamlFileFailure;

    open spec fn view(&self) -> YamlFileFailure {
        match self {
            YamlFileError::File(e) => YamlFileFailure::File(e@),
            YamlFileError::Yaml(e) => YamlFileFailure::Yaml(*e),
        }
    }
}

impl YamlFileFailure {
    /// The message that names the failure, where it is not the
    /// scanner's own.
    pub open spec fn message(self) -> Option<Seq<char>> {
        match self {
            YamlFileFailure::File(e) => Some(e.message()),
            YamlFileFailure::Yaml(_) => None,
        }
    }
}

/// Calls `to_string` of the scanner's error, which gives what the scanner
/// says of it. Nothing is claimed of the text.
#[verifier::external_body]
pub(crate) fn scan_error_text(e: &ScanError) -> String {
    e.to_string()
}

impl YamlFileError {
    /// The message that names the error; for a scan error, what the
    /// scanner says of it.
    pub fn to_string(&self) -> (r: String)
        ensures
            self@.message() matches Some(m) ==> r@ == m,
    {
        match self {
            YamlFileError::File(err) => err.to_string(),
            YamlFileError::Yaml(err) => scan_error_text(err),
        }
    }
}

#[verifier::external_type_specification]
#[verifier::external_body]
pub struct ExScanError(ScanError);

#[verifier::external_type_specification]
#[verifier::external_body]
pub struct ExYaml(Yaml);

impl YamlValue {
    /// A copy of `self`.
    pub fn copy(&self) -> (r: YamlValue)
        ensures
            r@ == self@,
        decreases self,
    {
        match self {
            YamlValue::Real(s) => YamlValue::Real(s.clone()),
            YamlValue::Integer(i) => YamlValue::Integer(*i),
            YamlValue::String(s) => YamlValue::String(s.clone()),
            YamlValue::Boolean(b) => YamlValue::Boolean(*b),
            YamlValue::Array(a) => {
                let mut out: Vec<YamlValue> = Vec::new();
                let mut i: usize = 0;
                while i < a.len()
                    invariant
                        i <= a.len(),
                        out@.len() == i,
                        forall|j: int| 0 <= j < a.len() ==> decreases_to!(self => #[trigger] a@[j]),
                        forall|j: int| 0 <= j < i ==> out@[j]@ == a@[j]@,
                    decreases a.len() - i,
                {
                    out.push(a[i].copy());
                    i += 1;
                }
                proof {
                    lemma_array_view(out);
                    lemma_array_view(*a);
                    assert(documents(out@) =~= documents(a@));
                }
                YamlValue::Array(out)
            },
            YamlValue::Hash(m) => YamlValue::Hash(m.copy()),
            YamlValue::Alias(n) => YamlValue::Alias(*n),
            YamlValue::Null => YamlValue::Null,
            YamlValue::BadValue => YamlValue::BadValue,
        }
    }
}

/// What is left when a key is removed does not hold the key.
pub proof fn lemma_without_key(m: Mapping, key: Document, n: int)
    requires
        0 <= n <= m.len(),
    ensures
        mapping_without(m, key, n).len() <= n,
        forall|j: int|
            0 <= j < mapping_without(m, key, n).len() ==> (#[trigger] mapping_without(
                m,
                key,
                n,
            )[j]).0 != key,
    decreases n,
{
    if n > 0 {
        lemma_without_key(m, key, n - 1);
    }
}

/// A search that starts among entries with other keys goes on behind
/// them.
pub proof fn lemma_find_skips(m: Mapping, key: Document, from: int, to: int)
    requires
        0 <= from <= to <= m.len(),
        forall|j: int| from <= j < to ==> (#[trigger] m[j]).0 != key,
    ensures
        mapping_find(m, key, from) == mapping_find(m, key, to),
    decreases to - from,
{
    if from < to {
        lemma_find_skips(m, key, from + 1, to);
    }
}

/// A mapping holds under a key the value that was last inserted under
/// it.
pub proof fn lemma_insert_get(m: Mapping, key: Document, value: Document)
    ensures
        mapping_get(mapping_insert(m, key, value), key) == Some(value),
{
    let kept = mapping_remove(m, key);
    let after = mapping_insert(m, key, value);
    lemma_without_key(m, key, m.len() as int);
    assert forall|j: int| 0 <= j < kept.len() implies (#[trigger] after[j]).0 != key by {
        assert(after[j] == kept[j]);
    }
    lemma_find_skips(after, key, 0, kept.len() as int);
    assert(after[kept.len() as int] == (key, value));
}

/// Calls `LinkedHashMap::new`: the new map holds no entry.
#[verifier::external_body]
fn map_new() -> (r: YamlMap)
    ensures
        map_entries(r) == Seq::<(Document, Document)>::empty(),
{
    YamlMap { map: LinkedHashMap::new() }
}

/// Calls `LinkedHashMap::len`: the number of entries.
#[verifier::external_body]
fn map_len(m: &YamlMap) -> (r: usize)
    ensures
        r == map_entries(*m).len(),
{
    m.map.len()
}

/// Calls `LinkedHashMap::get`: the value of the entry whose key is alike
/// `key`, if there is one. Keys are alike by the `==` that is derived for
/// `YamlValue`, which goes variant by variant and field by field, as the
/// equality of documents does.
#[verifier::external_body]
fn map_get<'a>(m: &'a YamlMap, key: &YamlValue) -> (r: Option<&'a YamlValue>)
    ensures
        match r {
            Some(v) => mapping_get(map_entries(*m), key@) == Some(v@),
            None => mapping_get(map_entries(*m), key@) is None,
        },
{
    m.map.get(key)
}

/// Calls `LinkedHashMap::insert`: an entry whose key is alike `key` gets
/// the new value and goes to the back; else a new entry stands at the
/// back.
#[verifier::external_body]
fn map_insert(m: &mut YamlMap, key: YamlValue, value: YamlValue)
    ensures
        map_entries(*final(m)) == mapping_insert(map_entries(*old(m)), key@, value@),
{
    m.map.insert(key, value);
}

/// Calls `LinkedHashMap::extend` with copies of the entries of `other`,
/// in their order: each is inserted as `LinkedHashMap::insert` does.
#[verifier::external_body]
fn map_extend(m: &mut YamlMap, other: &YamlMap)
    ensures
        map_entries(*final(m)) == mapping_extend(map_entries(*old(m)), map_entries(*other)),
{
    m.map.extend(other.map.iter().map(|(k, v)| (k.clone(), v.clone())));
}

/// Calls `LinkedHashMap::clone`: the copy holds the same entries in the
/// same order.
#[verifier::external_body]
fn map_clone(m: &YamlMap) -> (r: YamlMap)
    ensures
        map_entries(r) == map_entries(*m),
{
    YamlMap { map: m.map.clone() }
}

/// Calls `LinkedHashMap::iter`: references to the keys and values of the
/// entries, in their order.
#[verifier::external_body]
pub(crate) fn map_pairs<'a>(m: &'a YamlMap) -> (r: Vec<(&'a YamlValue, &'a YamlValue)>)
    ensures
        r@.len() == map_entries(*m).len(),
        forall|i: int|
            0 <= i < r@.len() ==> (#[trigger] r@[i]).0@ == map_entries(*m)[i].0 && r@[i].1@
                == map_entries(*m)[i].1,
{
    m.map.iter().collect()
}

impl YamlMap {
    /// A mapping without entries.
    pub fn new() -> (r: YamlMap)
        ensures
            r@ == Seq::<(Document, Document)>::empty(),
    {
        map_new()
    }

    /// The number of entries.
    pub fn len(&self) -> (r: usize)
        ensures
            r == self@.len(),
    {
        map_len(self)
    }

    /// The value held for `key`.
    pub fn get_value(&self, key: &YamlValue) -> (r: Option<&YamlValue>)
        ensures
            match r {
                Some(v) => mapping_get(self@, key@) == Some(v@),
                None => mapping_get(self@, key@) is None,
            },
    {
        map_get(self, key)
    }

    /// The value held for the string key `key`.
    pub fn get(&self, key: &str) -> (r: Option<&YamlValue>)
        ensures
            match r {
                Some(v) => mapping_get_str(self@, key@) == Some(v@),
                None => mapping_get_str(self@, key@) is None,
            },
    {
        let wanted = YamlValue::String(key.to_owned());
        map_get(self, &wanted)
    }

    /// Whether an entry has the string key `key`.
    pub fn contains_key(&self, key: &str) -> (r: bool)
        ensures
            r == mapping_get_str(self@, key@).is_some(),
    {
        self.get(key).is_some()
    }

    /// Inserts `value` under `key`: an entry with that key leaves its
    /// place, and the new entry stands last.
    pub fn insert(&mut self, key: YamlValue, value: YamlValue)
        ensures
            final(self)@ == mapping_insert(old(self)@, key@, value@),
    {
        map_insert(self, key, value);
    }

    /// A copy of `self`.
    pub fn copy(&self) -> (r: YamlMap)
        ensures
            r@ == self@,
    {
        map_clone(self)
    }

    /// Inserts a copy of every entry of `other`, in order.
    pub fn extend(&mut self, other: &YamlMap)
        ensures
            final(self)@ == mapping_extend(old(self)@, other@),
    {
        map_extend(self, other);
    }

    /// Copies of the entries, in order.
    pub fn entries(&self) -> (r: Vec<(YamlValue, YamlValue)>)
        ensures
            r@.len() == self@.len(),
            forall|i: int| 0 <= i < r@.len() ==> (#[trigger] r@[i]).0@ == self@[i].0 && r@[i].1@
                == self@[i].1,
    {
        let pairs = map_pairs(self);
        let mut out: Vec<(YamlValue, YamlValue)> = Vec::new();
        let mut i: usize = 0;
        while i < pairs.len()
            invariant
                i <= pairs.len(),
                out@.len() == i,
                pairs@.len() == self@.len(),
                forall|j: int|
                    0 <= j < pairs@.len() ==> (#[trigger] pairs@[j]).0@ == self@[j].0
                        && pairs@[j].1@ == self@[j].1,
                forall|j: int| 0 <= j < i ==> (#[trigger] out@[j]).0@ == self@[j].0 && out@[j].1@
                    == self@[j].1,
            decreases pairs.len() - i,
        {
            out.push((pairs[i].0.copy(), pairs[i].1.copy()));
            i += 1;
        }
        out
    }
}

impl Clone for YamlMap {
    fn clone(&self) -> (r: YamlMap)
        ensures
            r@ == self@,
    {
        self.copy()
    }
}

/// A mapping without entries.
pub fn new_yaml_map() -> (r: YamlMap)
    ensures
        r@ == Seq::<(Document, Document)>::empty(),
{
    YamlMap::new()
}

/// Inserts `value` under the string key `key`.
pub fn insert_value(map: &mut YamlMap, key: &str, value: YamlValue)
    ensures
        final(map)@ == mapping_insert(old(map)@, Document::String(key@), value@),
{
    map.insert(YamlValue::String(key.to_owned()), value);
}

/// The string that `map` holds under `key`.
pub fn unsafe_get_as_string<'a>(map: &'a YamlMap, key: &str) -> (r: &'a str)
    requires
        mapping_get_str(map@, key@) matches Some(Document::String(_)),
    ensures
        mapping_get_str(map@, key@) == Some(Document::String(r@)),
{
    match map.get(key) {
        Some(YamlValue::String(ss)) => ss.as_str(),
        _ => {
            proof {
                assert(false);
            }
            ""
        },
    }
}

/// The documents that the YAML reader finds in a text, or `None` where it
/// reports a scan error.
pub uninterp spec fn yaml_documents(text: Seq<char>) -> Option<Seq<Document>>;

/// The text that the YAML writer gives for a document.
pub uninterp spec fn yaml_text(document: Document) -> Seq<char>;

/// Gives each variant of the reader's `Yaml` as the same variant of
/// [`YamlValue`], with the same fields; the entries of a hash are
/// inserted in the order in which the hash walks them.
#[verifier::external_body]
fn from_outside(y: &Yaml) -> YamlValue {
    match y {
        Yaml::Real(s) => YamlValue::Real(s.clone()),
        Yaml::Integer(i) => YamlValue::Integer(*i),
        Yaml::String(s) => YamlValue::String(s.clone()),
        Yaml::Boolean(b) => YamlValue::Boolean(*b),
        Yaml::Array(a) => YamlValue::Array(a.iter().map(from_outside).collect()),
        Yaml::Hash(h) => YamlValue::Hash(
            YamlMap { map: h.iter().map(|(k, v)| (from_outside(k), from_outside(v))).collect() },
        ),
        Yaml::Alias(n) => YamlValue::Alias(*n),
        Yaml::Null => YamlValue::Null,
        Yaml::BadValue => YamlValue::BadValue,
    }
}

/// Gives each variant of [`YamlValue`] as the same variant of the writer's
/// `Yaml`, with the same fields; the entries of a mapping are inserted in
/// order.
#[verifier::external_body]
fn to_outside(v: &YamlValue) -> Yaml {
    match v {
        YamlValue::Real(s) => Yaml::Real(s.clone()),
        YamlValue::Integer(i) => Yaml::Integer(*i),
        YamlValue::String(s) => Yaml::String(s.clone()),
        YamlValue::Boolean(b) => Yaml::Boolean(*b),
        YamlValue::Array(a) => Yaml::Array(a.iter().map(to_outside).collect()),
        YamlValue::Hash(m) => Yaml::Hash(
            m.map.iter().map(|(k, v)| (to_outside(k), to_outside(v))).collect(),
        ),
        YamlValue::Alias(n) => Yaml::Alias(*n),
        YamlValue::Null => Yaml::Null,
        YamlValue::BadValue => Yaml::BadValue,
    }
}

/// Calls `YamlLoader::load_from_str`. The contract names what it returns:
/// on success the documents are `yaml_documents` of the text, and a scan
/// error comes exactly where `yaml_documents` is `None`.
#[verifier::external_body]
pub(crate) fn parse_documents(text: &str) -> (r: Result<Vec<YamlValue>, ScanError>)
    ensures
        match r {
            Ok(docs) => yaml_documents(text@) == Some(documents(docs@)),
            Err(_) => yaml_documents(text@) is None,
        },
{
    match YamlLoader::load_from_str(text) {
        Ok(docs) => Ok(docs.iter().map(from_outside).collect()),
        Err(e) => Err(e),
    }
}

/// Calls `YamlEmitter::dump` on an empty string. The writer fails only
/// where what it writes into fails, and a string never does: the result
/// is `Ok`. The contract names what is written: `yaml_text` of the
/// document.
#[verifier::external_body]
pub(crate) fn emit_document(value: &YamlValue) -> (r: Result<String, String>)
    ensures
        r is Ok,
        r matches Ok(s) ==> s@ == yaml_text(value@),
{
    let mut out = String::new();
    let y = to_outside(value);
    match YamlEmitter::new(&mut out).dump(&y) {
        Ok(()) => Ok(out),
        Err(e) => Err(e.to_string()),
    }
}

/// The first document of `strr`.
pub fn load_yaml(strr: &str) -> (r: Result<YamlValue, ScanError>)
    requires
        yaml_documents(strr@) matches Some(docs) ==> docs.len() > 0,
    ensures
        match r {
            Ok(v) => yaml_documents(strr@) matches Some(docs) && docs.len() > 0 && docs[0] == v@,
            Err(_) => yaml_documents(strr@) is None,
        },
{
    match parse_documents(strr) {
        Err(ee) => Err(ee),
        Ok(ss) => {
            assert(documents(ss@)[0] == ss@[0]@);
            Ok(ss[0].copy())
        },
    }
}

/// The first document of `strr`, or `None` where the text holds no
/// document. The text is read to see whether it holds a document, and
/// then `load_yaml` reads it.
pub fn load_yaml_document(strr: &str) -> (r: Result<Option<YamlValue>, ScanError>)
    ensures
        match r {
            Ok(Some(v)) => yaml_documents(strr@) matches Some(docs) && docs.len() > 0 && docs[0]
                == v@,
            Ok(None) => yaml_documents(strr@) == Some(Seq::<Document>::empty()),
            Err(_) => yaml_documents(strr@) is None,
        },
{
    match parse_documents(strr) {
        Err(ee) => Err(ee),
        Ok(ss) => {
            if ss.len() == 0 {
                assert(documents(ss@) =~= Seq::<Document>::empty());
                Ok(None)
            } else {
                match load_yaml(strr) {
                    Ok(v) => Ok(Some(v)),
                    Err(ee) => Err(ee),
                }
            }
        },
    }
}

/// The view of a lookup's outcome.
pub open spec fn looked_up(r: Result<YamlValue, TemplateError>) -> Result<Document, Failure> {
    match r {
        Ok(v) => Ok(v@),
        Err(e) => Err(e@),
    }
}

/// The value that `mapping` holds under the string key `key`.
pub fn lookup_yaml<'a>(key: &str, mapping: &'a YamlMap) -> (r: Result<&'a YamlValue, TemplateError>)
    ensures
        match r {
            Ok(v) => mapping_get_str(mapping@, key@) == Some(v@),
            Err(e) => mapping_get_str(mapping@, key@) is None && e@ == Failure::KeyNotPresent(key@),
        },
{
    match mapping.get(key) {
        None => Err(TemplateError::KeyNotPresent(key.to_owned())),
        Some(value) => Ok(value),
    }
}

/// The string that `mapping` holds under the string key `key`.
pub fn lookup_str_from_yaml_map<'a>(key: &str, mapping: &'a YamlMap) -> (r: Result<
    &'a str,
    TemplateError,
>)
    ensures
        match r {
            Ok(s) => mapping_get_str(mapping@, key@) == Some(Document::String(s@)),
            Err(e) => match mapping_get_str(mapping@, key@) {
                None => e@ == Failure::KeyNotPresent(key@),
                Some(d) => !(d is String) && e@ == Failure::KeyNotString(key@),
            },
        },
{
    match mapping.get(key) {
        None => Err(TemplateError::KeyNotPresent(key.to_owned())),
        Some(value) => match value {
            YamlValue::String(ss) => Ok(ss.as_str()),
            _ => Err(TemplateError::KeyNotString(key.to_owned())),
        },
    }
}

/// What the field `key` of a sequence is: `first` and `last` are its
/// first and last element, or null where it is empty; `count` is its
/// length; no other field is present.
pub open spec fn array_property(key: Seq<char>, arr: Seq<Document>, path: Seq<char>) -> Result<
    Document,
    Failure,
> {
    if key == "last"@ {
        Ok(
            if arr.len() == 0 {
                Document::Null
            } else {
                arr[arr.len() - 1]
            },
        )
    } else if key == "first"@ {
        Ok(
            if arr.len() == 0 {
                Document::Null
            } else {
                arr[0]
            },
        )
    } else if key == "count"@ {
        Ok(Document::Integer(arr.len() as i64))
    } else {
        Err(Failure::FieldNotPresent(path, key))
    }
}

/// The element `n` of `current`, and the path that leads to it.
pub open spec fn index_into(current: Document, path: Seq<char>, n: usize) -> Result<
    (Document, Seq<char>),
    Failure,
> {
    match current {
        Document::Array(a) => if n >= a.len() {
            Err(Failure::IndexOOB(path, n))
        } else {
            Ok((a[n as int], path + "["@ + decimal(n as nat) + "]"@))
        },
        _ => Err(Failure::IndexOnUnindexable(path, n)),
    }
}

/// The field `f` of `current`, and the path that leads to it.
pub open spec fn field_of(current: Document, path: Seq<char>, f: Seq<char>) -> Result<
    (Document, Seq<char>),
    Failure,
> {
    match current {
        Document::Hash(m) => match mapping_get_str(m, f) {
            None => Err(Failure::FieldNotPresent(path, f)),
            Some(v) => Ok((v, path + "."@ + f)),
        },
        Document::Array(a) => match array_property(f, a, path) {
            Err(e) => Err(e),
            Ok(v) => Ok((v, path + "."@ + f)),
        },
        _ => Err(Failure::FieldOnUnfieldable(path, f)),
    }
}

/// The value that the path `value` leads to in `params`.
pub open spec fn lookup(value: ValuePath, params: Mapping) -> Result<Document, Failure>
    decreases value, 0int,
{
    match mapping_get_str(params, value.base) {
        None => Err(Failure::KeyNotPresent(value.base)),
        Some(d) => walk(d, value.base, value.accesses, 0, params),
    }
}

/// The value that the accesses from index `i` on lead to, starting at
/// `current`, which the path `path` has led to.
pub open spec fn walk(
    current: Document,
    path: Seq<char>,
    accesses: Seq<Access>,
    i: int,
    params: Mapping,
) -> Result<Document, Failure>
    decreases accesses, accesses.len() - i,
{
    if i < 0 || i >= accesses.len() {
        Ok(current)
    } else {
        let stepped = match accesses[i] {
            Access::Field(f) => field_of(current, path, f),
            Access::Index(n) => index_into(current, path, n),
            Access::IndexAt(inner) => match lookup(inner, params) {
                Err(e) => Err(e),
                Ok(Document::Integer(k)) => if 0 <= k <= usize::MAX {
                    index_into(current, path, k as usize)
                } else {
                    Err(Failure::IndexWithNonIntegerValue(path, inner))
                },
                Ok(_) => Err(Failure::IndexWithNonIntegerValue(path, inner)),
            },
        };
        match stepped {
            Err(e) => Err(e),
            Ok((next, next_path)) => walk(next, next_path, accesses, i + 1, params),
        }
    }
}

/// The view of what a field of a sequence is found to be.
pub open spec fn property_found(r: Result<MaybeRef<YamlValue>, TemplateError>) -> Result<
    Document,
    Failure,
> {
    match r {
        Ok(v) => Ok(v.value()@),
        Err(e) => Err(e@),
    }
}

/// The field `key` of the sequence `arr`, which `path` has led to.
pub fn lookup_array_property<'a>(key: &str, arr: &'a Vec<YamlValue>, path: String) -> (r: Result<
    MaybeRef<'a, YamlValue>,
    TemplateError,
>)
    ensures
        property_found(r) == array_property(key@, documents(arr@), path@),
{
    if same_text(key, "last") {
        if arr.len() == 0 {
            Ok(MaybeRef::Owned(YamlValue::Null))
        } else {
            Ok(MaybeRef::Ref(&arr[arr.len() - 1]))
        }
    } else if same_text(key, "first") {
        if arr.len() == 0 {
            Ok(MaybeRef::Owned(YamlValue::Null))
        } else {
            Ok(MaybeRef::Ref(&arr[0]))
        }
    } else if same_text(key, "count") {
        Ok(MaybeRef::Owned(YamlValue::Integer(arr.len() as i64)))
    } else {
        Err(TemplateError::FieldNotPresent(path, key.to_owned()))
    }
}

/// The path `path` followed by `[n]`.
fn path_with_index(path: &String, n: usize) -> (r: String)
    ensures
        r@ == path@ + "["@ + decimal(n as nat) + "]"@,
{
    let mut r: String = path.clone();
    r.append("[");
    let digits = decimal_text(n as u128);
    r.append(digits.as_str());
    r.append("]");
    r
}

/// The path `path` followed by `.f`.
fn path_with_field(path: &String, f: &str) -> (r: String)
    ensures
        r@ == path@ + "."@ + f@,
{
    let mut r: String = path.clone();
    r.append(".");
    r.append(f);
    r
}

/// Follows the accesses from index `i` on, starting at `current`.
fn walk_value(
    current: &YamlValue,
    path: String,
    accesses: &Vec<TemplateValueAccess>,
    i: usize,
    params: &YamlMap,
) -> (r: Result<YamlValue, TemplateError>)
    ensures
        looked_up(r) == walk(current@, path@, accesses_of(accesses@), i as int, params@),
    decreases accesses, accesses.len() - i,
{
    if i >= accesses.len() {
        return Ok(current.copy());
    }
    proof {
        lemma_access_view(accesses@[i as int]);
    }
    let index: usize = match &accesses[i] {
        TemplateValueAccess::Field(ff) => {
            match current {
                YamlValue::Hash(hash) => {
                    match hash.get(ff.as_str()) {
                        None => {
                            return Err(TemplateError::FieldNotPresent(path, ff.clone()));
                        },
                        Some(val) => {
                            let next_path = path_with_field(&path, ff.as_str());
                            return walk_value(val, next_path, accesses, i + 1, params);
                        },
                    }
                },
                YamlValue::Array(aa) => {
                    proof {
                        lemma_array_view(*aa);
                    }
                    let next_path = path_with_field(&path, ff.as_str());
                    match lookup_array_property(ff.as_str(), aa, path) {
                        Err(ee) => {
                            return Err(ee);
                        },
                        Ok(val) => {
                            return walk_value(val.get(), next_path, accesses, i + 1, params);
                        },
                    }
                },
                _ => {
                    return Err(TemplateError::FieldOnUnfieldable(path, ff.clone()));
                },
            }
        },
        TemplateValueAccess::Index(ii) => *ii,
        TemplateValueAccess::IndexAt(inner) => {
            match lookup_value(inner, params) {
                Err(ee) => {
                    return Err(ee);
                },
                Ok(YamlValue::Integer(k)) => {
                    if 0 <= k && (k as u128) <= (usize::MAX as u128) {
                        k as usize
                    } else {
                        return Err(TemplateError::IndexWithNonIntegerValue(path, inner.copy()));
                    }
                },
                Ok(_) => {
                    return Err(TemplateError::IndexWithNonIntegerValue(path, inner.copy()));
                },
            }
        },
    };
    match current {
        YamlValue::Array(array) => {
            proof {
                lemma_array_view(*array);
            }
            if index >= array.len() {
                Err(TemplateError::IndexOOB(path, index))
            } else {
                let next_path = path_with_index(&path, index);
                walk_value(&array[index], next_path, accesses, i + 1, params)
            }
        },
        _ => Err(TemplateError::IndexOnUnindexable(path, index)),
    }
}

/// The value that the path `value` leads to in `params`.
pub fn lookup_value(value: &TemplateValue, params: &YamlMap) -> (r: Result<
    YamlValue,
    TemplateError,
>)
    ensures
        looked_up(r) == lookup(value@, params@),
    decreases value, 0int,
{
    proof {
        lemma_path_view(*value);
    }
    match lookup_yaml(value.base.as_str(), params) {
        Err(ee) => Err(ee),
        Ok(base) => walk_value(base, value.base.clone(), &value.accesses, 0, params),
    }
}

/// The text of a document: a string or a real as it is, an integer in
/// decimal notation, anything else as the YAML writer gives it.
pub open spec fn document_text(d: Document) -> Seq<char> {
    match d {
        Document::String(s) => s,
        Document::Real(s) => s,
        Document::Integer(i) => signed_decimal(i as int),
        _ => yaml_text(d),
    }
}

/// The text of a document, as the outcome of giving it: every document
/// has a text.
pub open spec fn to_text(d: Document) -> Result<Seq<char>, Failure> {
    Ok(document_text(d))
}

/// The text of `value`. Every value has one.
pub fn tostr(value: &YamlValue) -> (r: Result<String, TemplateError>)
    ensures
        r is Ok,
        crate::template::rendered(r) == to_text(value@),
{
    match value {
        YamlValue::String(ss) => Ok(ss.clone()),
        YamlValue::Real(ss) => Ok(ss.clone()),
        YamlValue::Integer(ii) => Ok(signed_decimal_text(*ii)),
        _ => match emit_document(value) {
            Ok(outstr) => Ok(outstr),
            Err(ee) => Err(TemplateError::SerialisationError(ee)),
        },
    }
}

/// The elements of a sequence; any other document cannot be run over,
/// and the error names `location`.
pub open spec fn iterable(location: Seq<char>, d: Document) -> Result<Seq<Document>, Failure> {
    match d {
        Document::Array(a) => Ok(a),
        _ => Err(Failure::ForOnUnindexable(location)),
    }
}

/// The view of a list of documents or an error.
pub open spec fn listed(r: Result<Vec<YamlValue>, TemplateError>) -> Result<
    Seq<Document>,
    Failure,
> {
    match r {
        Ok(v) => Ok(documents(v@)),
        Err(e) => Err(e@),
    }
}

/// A copy of `values`.
pub fn copy_values(values: &Vec<YamlValue>) -> (r: Vec<YamlValue>)
    ensures
        documents(r@) == documents(values@),
{
    let mut out: Vec<YamlValue> = Vec::new();
    let mut i: usize = 0;
    while i < values.len()
        invariant
            i <= values.len(),
            out@.len() == i,
            forall|j: int| 0 <= j < i ==> out@[j]@ == values@[j]@,
        decreases values.len() - i,
    {
        out.push(values[i].copy());
        i += 1;
    }
    assert(documents(out@) =~= documents(values@));
    out
}

/// The elements of `value`, to run a loop over.
pub fn to_iterable(location: &ForIterationType, value: &YamlValue) -> (r: Result<
    Vec<YamlValue>,
    TemplateError,
>)
    ensures
        listed(r) == iterable(location@.text(), value@),
{
    match value {
        YamlValue::Array(aa) => {
            proof {
                lemma_array_view(*aa);
            }
            Ok(copy_values(aa))
        },
        _ => Err(TemplateError::ForOnUnindexable(location.to_string())),
    }
}

impl Clone for YamlValue {
    fn clone(&self) -> (r: YamlValue)
        ensures
            r@ == self@,
    {
        self.copy()
    }
}

} // verus!
