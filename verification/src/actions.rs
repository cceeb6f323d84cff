//! Build actions: a page to render, pages to render for each entry of a
//! parameter matrix, or files to copy; the expansion of a matrix into its
//! pages; and the building of a page.

use vstd::prelude::*;
use vstd::string::*;
use crate::io::{
    Event, FileError, FileFailure, ReadsFiles, Traced, World, consistent, extends,
    lemma_consistent_earlier, lemma_extends_trans,
};
use crate::parsers::{p_template, parse_message, parse_template_string};
use crate::pipes::{HostPipe, PipeMap, optional_text};
use crate::semantics::{MAX_PIPE_DEPTH, Env, Outcome, ended, env_of, render_all, render_text};
use crate::template::{
    Context, Failure, TemplateContext, TemplateError, render, render_elements, rendered,
};
use crate::text::{
    chars_of, concat2, concat3, concat4, concat5, concat6, decimal, decimal_text, followed,
    indent, indented, replace_char, replace_char_text, text_of, texts,
};
use crate::yaml::{
    Document, Mapping, YamlFileError, YamlFileFailure, YamlMap, YamlValue, copy_values,
    document_text, documents,
    insert_value, lemma_array_view, map_pairs, mapping_extend, mapping_get_str,
    mapping_insert, tostr,
};
use pathdiff::diff_paths;
use std::path::PathBuf;

verus! {

/// Where the parameters of a page come from.
#[derive(Debug, PartialEq, Eq)]
pub struct ParamsSource {
    pub grouping: usize,
    pub index: usize,
    pub flatten_index: Option<usize>,
    pub file: Option<String>,
}

/// A [`ParamsSource`] as a mathematical value.
pub struct Source {
    pub grouping: usize,
    pub index: usize,
    pub flatten_index: Option<usize>,
    pub file: Option<Seq<char>>,
}

impl View for ParamsSource {
    type V = Source;

    open spec fn view(&self) -> Source {
        Source {
            grouping: self.grouping,
            index: self.index,
            flatten_index: self.flatten_index,
            file: optional_text(self.file),
        }
    }
}

impl Clone for ParamsSource {
    fn clone(&self) -> (r: ParamsSource)
        ensures
            r@ == self@,
    {
        ParamsSource {
            grouping: self.grouping,
            index: self.index,
            flatten_index: self.flatten_index,
            file: match &self.file {
                Some(f) => Some(f.clone()),
                None => None,
            },
        }
    }
}

/// The parameters of one entry of a matrix, with where they come from and
/// what is still to be done to them.
#[derive(Debug, PartialEq, Eq)]
pub struct SourcedParams {
    pub params: YamlMap,
    pub source: ParamsSource,
    pub mapping: YamlMap,
    pub flatten: Option<String>,
}

/// A [`SourcedParams`] as a mathematical value.
pub struct Sourced {
    pub params: Mapping,
    pub source: Source,
    pub mapping: Mapping,
    pub flatten: Option<Seq<char>>,
}

impl View for SourcedParams {
    type V = Sourced;

    open spec fn view(&self) -> Sourced {
        Sourced {
            params: self.params@,
            source: self.source@,
            mapping: self.mapping@,
            flatten: optional_text(self.flatten),
        }
    }
}

/// The entries that `entries` stand for, element by element.
pub open spec fn sourced_of(entries: Seq<SourcedParams>) -> Seq<Sourced> {
    Seq::new(entries.len(), |i: int| entries[i]@)
}

/// One grouping of a matrix: document files that list parameters,
/// parameters given in place, assignments to make to each entry, and a
/// key to flatten each entry by.
#[derive(Debug, PartialEq, Eq)]
pub struct BuildMultiplePages {
    pub files: Vec<String>,
    pub params: Vec<YamlMap>,
    pub mapping: YamlMap,
    pub flatten: Option<String>,
}

/// A [`BuildMultiplePages`] as a mathematical value.
pub struct Multi {
    pub files: Seq<Seq<char>>,
    pub params: Seq<Mapping>,
    pub mapping: Mapping,
    pub flatten: Option<Seq<char>>,
}

/// The mappings that `maps` stand for, element by element.
pub open spec fn mappings_of(maps: Seq<YamlMap>) -> Seq<Mapping> {
    Seq::new(maps.len(), |i: int| maps[i]@)
}

impl View for BuildMultiplePages {
    type V = Multi;

    open spec fn view(&self) -> Multi {
        Multi {
            files: texts(self.files@),
            params: mappings_of(self.params@),
            mapping: self.mapping@,
            flatten: optional_text(self.flatten),
        }
    }
}

/// A copy of `maps`.
fn copy_maps(maps: &Vec<YamlMap>) -> (r: Vec<YamlMap>)
    ensures
        mappings_of(r@) == mappings_of(maps@),
{
    let mut out: Vec<YamlMap> = Vec::new();
    let mut i: usize = 0;
    while i < maps.len()
        invariant
            i <= maps.len(),
            out.len() == i,
            forall|j: int| 0 <= j < i ==> out@[j]@ == maps@[j]@,
        decreases maps.len() - i,
    {
        out.push(maps[i].copy());
        i += 1;
    }
    assert(mappings_of(out@) =~= mappings_of(maps@));
    out
}

impl Clone for BuildMultiplePages {
    fn clone(&self) -> (r: BuildMultiplePages)
        ensures
            r@ == self@,
    {
        BuildMultiplePages {
            files: crate::pipes::copy_texts(&self.files),
            params: copy_maps(&self.params),
            mapping: self.mapping.copy(),
            flatten: match &self.flatten {
                Some(f) => Some(f.clone()),
                None => None,
            },
        }
    }
}

/// The groupings that `on` stand for, element by element.
pub open spec fn multis_of(on: Seq<BuildMultiplePages>) -> Seq<Multi> {
    Seq::new(on.len(), |i: int| on[i]@)
}

/// A unit of work of a layout.
#[derive(Debug, PartialEq, Eq)]
pub enum BuildAction {
    BuildPage { output: String, input: String, params: YamlMap },
    BuildMultiplePages {
        descriptor: String,
        default_params: YamlMap,
        on: Vec<BuildMultiplePages>,
        include_key: Option<String>,
        exclude_key: Option<String>,
    },
    CopyFiles { to: String, from: String },
}

/// A [`BuildAction`] as a mathematical value.
pub enum Action {
    BuildPage { output: Seq<char>, input: Seq<char>, params: Mapping },
    BuildMultiplePages {
        descriptor: Seq<char>,
        default_params: Mapping,
        on: Seq<Multi>,
        include_key: Option<Seq<char>>,
        exclude_key: Option<Seq<char>>,
    },
    CopyFiles { to: Seq<char>, from: Seq<char> },
}

impl View for BuildAction {
    type V = Action;

    open spec fn view(&self) -> Action {
        match self {
            BuildAction::BuildPage { output, input, params } => Action::BuildPage {
                output: output@,
                input: input@,
                params: params@,
            },
            BuildAction::BuildMultiplePages {
                descriptor,
                default_params,
                on,
                include_key,
                exclude_key,
            } => Action::BuildMultiplePages {
                descriptor: descriptor@,
                default_params: default_params@,
                on: multis_of(on@),
                include_key: optional_text(*include_key),
                exclude_key: optional_text(*exclude_key),
            },
            BuildAction::CopyFiles { to, from } => Action::CopyFiles { to: to@, from: from@ },
        }
    }
}

impl Clone for BuildAction {
    fn clone(&self) -> (r: BuildAction)
        ensures
            r@ == self@,
    {
        match self {
            BuildAction::BuildPage { output, input, params } => BuildAction::BuildPage {
                output: output.clone(),
                input: input.clone(),
                params: params.copy(),
            },
            BuildAction::BuildMultiplePages {
                descriptor,
                default_params,
                on,
                include_key,
                exclude_key,
            } => {
                let mut groups: Vec<BuildMultiplePages> = Vec::new();
                let mut i: usize = 0;
                while i < on.len()
                    invariant
                        i <= on.len(),
                        groups.len() == i,
                        forall|j: int| 0 <= j < i ==> groups@[j]@ == on@[j]@,
                    decreases on.len() - i,
                {
                    groups.push(on[i].clone());
                    i += 1;
                }
                assert(multis_of(groups@) =~= multis_of(on@));
                BuildAction::BuildMultiplePages {
                    descriptor: descriptor.clone(),
                    default_params: default_params.copy(),
                    on: groups,
                    include_key: match include_key {
                        Some(k) => Some(k.clone()),
                        None => None,
                    },
                    exclude_key: match exclude_key {
                        Some(k) => Some(k.clone()),
                        None => None,
                    },
                }
            },
            BuildAction::CopyFiles { to, from } => BuildAction::CopyFiles {
                to: to.clone(),
                from: from.clone(),
            },
        }
    }
}

/// The actions that `actions` stand for, element by element.
pub open spec fn actions_of(actions: Seq<BuildAction>) -> Seq<Action> {
    Seq::new(actions.len(), |i: int| actions[i]@)
}

/// A page to render or files to copy: what a build action expands to.
#[derive(Debug, PartialEq, Eq)]
pub enum BuildActionExpanded {
    BuildPage { output: String, input: String, params: YamlMap, source: Option<ParamsSource> },
    CopyFiles { to: String, from: String },
}

/// A [`BuildActionExpanded`] as a mathematical value.
pub enum Expanded {
    BuildPage { output: Seq<char>, input: Seq<char>, params: Mapping, source: Option<Source> },
    CopyFiles { to: Seq<char>, from: Seq<char> },
}

/// The view of an optional source.
pub open spec fn optional_source(source: Option<ParamsSource>) -> Option<Source> {
    match source {
        Some(s) => Some(s@),
        None => None,
    }
}

impl View for BuildActionExpanded {
    type V = Expanded;

    open spec fn view(&self) -> Expanded {
        match self {
            BuildActionExpanded::BuildPage { output, input, params, source } => Expanded::BuildPage {
                output: output@,
                input: input@,
                params: params@,
                source: optional_source(*source),
            },
            BuildActionExpanded::CopyFiles { to, from } => Expanded::CopyFiles {
                to: to@,
                from: from@,
            },
        }
    }
}

impl Clone for BuildActionExpanded {
    fn clone(&self) -> (r: BuildActionExpanded)
        ensures
            r@ == self@,
    {
        match self {
            BuildActionExpanded::BuildPage {
                output,
                input,
                params,
                source,
            } => BuildActionExpanded::BuildPage {
                output: output.clone(),
                input: input.clone(),
                params: params.copy(),
                source: match source {
                    Some(s) => Some(s.clone()),
                    None => None,
                },
            },
            BuildActionExpanded::CopyFiles { to, from } => BuildActionExpanded::CopyFiles {
                to: to.clone(),
                from: from.clone(),
            },
        }
    }
}

/// The expanded actions that `actions` stand for, element by element.
pub open spec fn expanded_of(actions: Seq<BuildActionExpanded>) -> Seq<Expanded> {
    Seq::new(actions.len(), |i: int| actions[i]@)
}

/// What can go wrong when an action is expanded or run.
#[derive(Debug, PartialEq, Eq)]
pub enum BuildError {
    BMSourced(ParamsSource, Box<BuildError>),
    FileError(FileError),
    YamlFileError(YamlFileError),
    TemplateError(TemplateError),
    BMFIsntArray(String),
    BMFContainsNonMap(String, usize),
    BMInputNotSpecified(String, ParamsSource),
    BMOutputNotSpecified(ParamsSource),
    BMMappingParseError(String, String, ParamsSource),
    BMMappingTemplateError(TemplateError, String, ParamsSource),
    BMMappingIsntString(String, ParamsSource),
    FlattenOnNonArray(String, ParamsSource),
    FlattenKeyNotFound(String, ParamsSource),
}

/// A [`BuildError`] as a mathematical value.
pub enum BuildFailure {
    BMSourced(Source, Box<BuildFailure>),
    FileError(FileFailure),
    YamlFileError(YamlFileFailure),
    TemplateError(Failure),
    BMFIsntArray(Seq<char>),
    BMFContainsNonMap(Seq<char>, usize),
    BMInputNotSpecified(Seq<char>, Source),
    BMOutputNotSpecified(Source),
    BMMappingParseError(Seq<char>, Seq<char>, Source),
    BMMappingTemplateError(Failure, Seq<char>, Source),
    BMMappingIsntString(Seq<char>, Source),
    FlattenOnNonArray(Seq<char>, Source),
    FlattenKeyNotFound(Seq<char>, Source),
}

impl BuildError {
    /// The failure that `self` stands for.
    pub open spec fn failure(&self) -> BuildFailure
        decreases self,
    {
        match self {
            BuildError::BMSourced(s, e) => BuildFailure::BMSourced(s@, Box::new(e.failure())),
            BuildError::FileError(e) => BuildFailure::FileError(e@),
            BuildError::YamlFileError(e) => BuildFailure::YamlFileError(e@),
            BuildError::TemplateError(e) => BuildFailure::TemplateError(e@),
            BuildError::BMFIsntArray(f) => BuildFailure::BMFIsntArray(f@),
            BuildError::BMFContainsNonMap(f, n) => BuildFailure::BMFContainsNonMap(f@, *n),
            BuildError::BMInputNotSpecified(o, s) => BuildFailure::BMInputNotSpecified(o@, s@),
            BuildError::BMOutputNotSpecified(s) => BuildFailure::BMOutputNotSpecified(s@),
            BuildError::BMMappingParseError(m, k, s) => BuildFailure::BMMappingParseError(
                m@,
                k@,
                s@,
            ),
            BuildError::BMMappingTemplateError(e, k, s) => BuildFailure::BMMappingTemplateError(
                e@,
                k@,
                s@,
            ),
            BuildError::BMMappingIsntString(k, s) => BuildFailure::BMMappingIsntString(k@, s@),
            BuildError::FlattenOnNonArray(k, s) => BuildFailure::FlattenOnNonArray(k@, s@),
            BuildError::FlattenKeyNotFound(k, s) => BuildFailure::FlattenKeyNotFound(k@, s@),
        }
    }
}

impl View for BuildError {
    type V = BuildFailure;

    open spec fn view(&self) -> BuildFailure {
        self.failure()
    }
}

/// The entries that the elements of the document file `file`, from index
/// `i` on, add to `acc`: each element must be a mapping.
pub open spec fn file_entries(
    file: Seq<char>,
    elements: Seq<Document>,
    i: int,
    acc: Seq<Sourced>,
    group: Multi,
    group_index: usize,
) -> Result<Seq<Sourced>, BuildFailure>
    decreases elements.len() - i,
{
    if i < 0 || i >= elements.len() {
        Ok(acc)
    } else {
        match elements[i] {
            Document::Hash(h) => file_entries(
                file,
                elements,
                i + 1,
                acc.push(
                    Sourced {
                        params: h,
                        source: Source {
                            grouping: group_index,
                            index: i as usize,
                            file: Some(file),
                            flatten_index: None,
                        },
                        mapping: group.mapping,
                        flatten: group.flatten,
                    },
                ),
                group,
                group_index,
            ),
            _ => Err(BuildFailure::BMFContainsNonMap(file, i as usize)),
        }
    }
}

/// The entries that the document files of `group`, from index `i` on,
/// add to `acc`: each file must hold a sequence of mappings.
pub open spec fn files_entries(
    i: int,
    acc: Seq<Sourced>,
    group: Multi,
    group_index: usize,
    world: World,
    at: nat,
) -> Outcome<Seq<Sourced>, BuildFailure>
    decreases group.files.len() - i,
{
    if i < 0 || i >= group.files.len() {
        Outcome { result: Ok(acc), at }
    } else {
        match (world.read_yaml)(at, group.files[i]) {
            Err(e) => Outcome { result: Err(BuildFailure::YamlFileError(e)), at: at + 1 },
            Ok(Document::Array(a)) => match file_entries(
                group.files[i],
                a,
                0,
                acc,
                group,
                group_index,
            ) {
                Err(e) => Outcome { result: Err(e), at: at + 1 },
                Ok(b) => files_entries(i + 1, b, group, group_index, world, at + 1),
            },
            Ok(_) => Outcome { result: Err(BuildFailure::BMFIsntArray(group.files[i])), at: at + 1 },
        }
    }
}

/// `acc` followed by an entry for each of the parameters that `group`
/// gives in place, from index `i` on.
pub open spec fn inline_entries(i: int, acc: Seq<Sourced>, group: Multi, group_index: usize) -> Seq<
    Sourced,
>
    decreases group.params.len() - i,
{
    if i < 0 || i >= group.params.len() {
        acc
    } else {
        inline_entries(
            i + 1,
            acc.push(
                Sourced {
                    params: group.params[i],
                    source: Source {
                        grouping: group_index,
                        index: i as usize,
                        file: None,
                        flatten_index: None,
                    },
                    mapping: group.mapping,
                    flatten: group.flatten,
                },
            ),
            group,
            group_index,
        )
    }
}

/// The entries of `group`: those of its files, then those given in place.
pub open spec fn group_entries(group: Multi, group_index: usize, world: World, at: nat) -> Outcome<
    Seq<Sourced>,
    BuildFailure,
> {
    let read = files_entries(0, Seq::empty(), group, group_index, world, at);
    match read.result {
        Err(e) => read,
        Ok(a) => Outcome { result: Ok(inline_entries(0, a, group, group_index)), at: read.at },
    }
}

/// The entries that the groupings from index `i` on add to `acc`.
pub open spec fn all_entries(on: Seq<Multi>, i: int, acc: Seq<Sourced>, world: World, at: nat) -> Outcome<
    Seq<Sourced>,
    BuildFailure,
>
    decreases on.len() - i,
{
    if i < 0 || i >= on.len() {
        Outcome { result: Ok(acc), at }
    } else {
        let found = group_entries(on[i], i as usize, world, at);
        match found.result {
            Err(e) => found,
            Ok(g) => all_entries(on, i + 1, acc + g, world, found.at),
        }
    }
}

/// Parameters with where they come from.
pub struct Child {
    pub params: Mapping,
    pub source: Source,
}

/// The child that flattening makes of element `i` of `array`: the array
/// under `_flatten_array`, the index under `_flatten_index`, and the
/// element under the flatten key.
pub open spec fn flatten_child(merged: Mapping, flat: Seq<char>, array: Seq<Document>, source: Source, i: int) -> Child {
    Child {
        params: mapping_insert(
            mapping_insert(
                mapping_insert(
                    merged,
                    Document::String("_flatten_array"@),
                    Document::Array(array),
                ),
                Document::String("_flatten_index"@),
                Document::Integer(i as i64),
            ),
            Document::String(flat),
            array[i],
        ),
        source: Source { flatten_index: Some(i as usize), ..source },
    }
}

/// What flattening makes of an entry with the parameters `merged`: one
/// child for each element of the sequence under its flatten key, or the
/// entry itself where it has no flatten key.
pub open spec fn flattened(merged: Mapping, flatten: Option<Seq<char>>, source: Source) -> Result<
    Seq<Child>,
    BuildFailure,
> {
    match flatten {
        None => Ok(seq![Child { params: merged, source }]),
        Some(flat) => match mapping_get_str(merged, flat) {
            Some(Document::Array(a)) => Ok(
                Seq::new(a.len(), |i: int| flatten_child(merged, flat, a, source, i)),
            ),
            Some(_) => Err(BuildFailure::FlattenOnNonArray(flat, source)),
            None => Err(BuildFailure::FlattenKeyNotFound(flat, source)),
        },
    }
}

/// The name of a key of a mapping in messages: the key where it is a
/// string, else its text.
pub open spec fn key_label(key: Document) -> Seq<char> {
    match key {
        Document::String(s) => s,
        _ => document_text(key),
    }
}

/// The parameters after the assignments of `mapping` from index `i` on:
/// each value is rendered as a template with the parameters so far, and
/// the text is inserted under its key.
pub open spec fn apply_mapping_from(
    mapping: Mapping,
    i: int,
    current: Mapping,
    source: Source,
    env: Env,
    at: nat,
) -> Outcome<Mapping, BuildFailure>
    decreases mapping.len() - i,
{
    if i < 0 || i >= mapping.len() {
        Outcome { result: Ok(current), at }
    } else {
        let label = key_label(mapping[i].0);
        match mapping[i].1 {
            Document::String(ss) => match p_template(ss) {
                Err(place) => Outcome {
                    result: Err(
                        BuildFailure::BMMappingParseError(parse_message(place), label, source),
                    ),
                    at,
                },
                Ok(nodes) => {
                    let made = render_all(nodes, current, env, MAX_PIPE_DEPTH as nat, at);
                    match made.result {
                        Err(e) => Outcome {
                            result: Err(BuildFailure::BMMappingTemplateError(e, label, source)),
                            at: made.at,
                        },
                        Ok(text) => apply_mapping_from(
                            mapping,
                            i + 1,
                            mapping_insert(current, mapping[i].0, Document::String(text)),
                            source,
                            env,
                            made.at,
                        ),
                    }
                },
            },
            _ => Outcome { result: Err(BuildFailure::BMMappingIsntString(label, source)), at },
        }
    }
}

/// The children from index `i` on after the assignments of `mapping`,
/// behind `acc`.
pub open spec fn mapped_children(
    children: Seq<Child>,
    i: int,
    acc: Seq<Child>,
    mapping: Mapping,
    env: Env,
    at: nat,
) -> Outcome<Seq<Child>, BuildFailure>
    decreases children.len() - i,
{
    if i < 0 || i >= children.len() {
        Outcome { result: Ok(acc), at }
    } else {
        let applied = apply_mapping_from(mapping, 0, children[i].params, children[i].source, env, at);
        match applied.result {
            Err(e) => Outcome { result: Err(e), at: applied.at },
            Ok(params) => mapped_children(
                children,
                i + 1,
                acc.push(Child { params, source: children[i].source }),
                mapping,
                env,
                applied.at,
            ),
        }
    }
}

/// Whether parameters are selected: they hold the key to be present,
/// where one is set, and do not hold the key to be absent, where one is
/// set.
pub open spec fn is_selected(params: Mapping, include_key: Option<Seq<char>>, exclude_key: Option<Seq<char>>) -> bool {
    (match include_key {
        Some(k) => mapping_get_str(params, k) is Some,
        None => true,
    }) && (match exclude_key {
        Some(k) => mapping_get_str(params, k) is None,
        None => true,
    })
}

/// The pages that the children from index `i` on add to `acc`: each
/// child must name its output and its input as strings, and is kept where
/// it is selected.
pub open spec fn resolved(
    children: Seq<Child>,
    i: int,
    acc: Seq<Expanded>,
    include_key: Option<Seq<char>>,
    exclude_key: Option<Seq<char>>,
) -> Result<Seq<Expanded>, BuildFailure>
    decreases children.len() - i,
{
    if i < 0 || i >= children.len() {
        Ok(acc)
    } else {
        let params = children[i].params;
        let source = children[i].source;
        match mapping_get_str(params, "output"@) {
            Some(Document::String(output)) => match mapping_get_str(params, "input"@) {
                Some(Document::String(input)) => resolved(
                    children,
                    i + 1,
                    if is_selected(params, include_key, exclude_key) {
                        acc.push(
                            Expanded::BuildPage { output, input, params, source: Some(source) },
                        )
                    } else {
                        acc
                    },
                    include_key,
                    exclude_key,
                ),
                _ => Err(BuildFailure::BMInputNotSpecified(output, source)),
            },
            _ => Err(BuildFailure::BMOutputNotSpecified(source)),
        }
    }
}

/// The pages that one entry adds to `acc`: its parameters over the
/// defaults, flattened, with its assignments made, and resolved.
pub open spec fn entry_pages(
    entry: Sourced,
    acc: Seq<Expanded>,
    default_params: Mapping,
    include_key: Option<Seq<char>>,
    exclude_key: Option<Seq<char>>,
    env: Env,
    at: nat,
) -> Outcome<Seq<Expanded>, BuildFailure> {
    match flattened(mapping_extend(default_params, entry.params), entry.flatten, entry.source) {
        Err(e) => Outcome { result: Err(e), at },
        Ok(children) => {
            let mapped = mapped_children(children, 0, Seq::empty(), entry.mapping, env, at);
            match mapped.result {
                Err(e) => Outcome { result: Err(e), at: mapped.at },
                Ok(done) => Outcome {
                    result: resolved(done, 0, acc, include_key, exclude_key),
                    at: mapped.at,
                },
            }
        },
    }
}

/// The pages that the entries from index `i` on add to `acc`.
pub open spec fn entries_pages(
    entries: Seq<Sourced>,
    i: int,
    acc: Seq<Expanded>,
    default_params: Mapping,
    include_key: Option<Seq<char>>,
    exclude_key: Option<Seq<char>>,
    env: Env,
    at: nat,
) -> Outcome<Seq<Expanded>, BuildFailure>
    decreases entries.len() - i,
{
    if i < 0 || i >= entries.len() {
        Outcome { result: Ok(acc), at }
    } else {
        let first = entry_pages(entries[i], acc, default_params, include_key, exclude_key, env, at);
        match first.result {
            Err(e) => first,
            Ok(next) => entries_pages(
                entries,
                i + 1,
                next,
                default_params,
                include_key,
                exclude_key,
                env,
                first.at,
            ),
        }
    }
}

/// What an action expands to: itself for a page or a copy, and for a
/// matrix the pages of its entries.
pub open spec fn expansion(action: Action, env: Env, at: nat) -> Outcome<Seq<Expanded>, BuildFailure> {
    match action {
        Action::BuildPage { output, input, params } => Outcome {
            result: Ok(seq![Expanded::BuildPage { output, input, params, source: None }]),
            at,
        },
        Action::CopyFiles { to, from } => Outcome {
            result: Ok(seq![Expanded::CopyFiles { to, from }]),
            at,
        },
        Action::BuildMultiplePages { descriptor, default_params, on, include_key, exclude_key } => {
            let entries = all_entries(on, 0, Seq::empty(), env.world, at);
            match entries.result {
                Err(e) => Outcome { result: Err(e), at: entries.at },
                Ok(found) => entries_pages(
                    found,
                    0,
                    Seq::empty(),
                    default_params,
                    include_key,
                    exclude_key,
                    env,
                    entries.at,
                ),
            }
        },
    }
}

/// The view of entries or an error.
pub open spec fn sourced_found(r: Result<Vec<SourcedParams>, BuildError>) -> Result<
    Seq<Sourced>,
    BuildFailure,
> {
    match r {
        Ok(v) => Ok(sourced_of(v@)),
        Err(e) => Err(e@),
    }
}

/// A copy of an optional text.
fn copy_optional(text: &Option<String>) -> (r: Option<String>)
    ensures
        optional_text(r) == optional_text(*text),
{
    match text {
        Some(t) => Some(t.clone()),
        None => None,
    }
}

/// The entries that the elements of the document file `file` add to
/// `acc`.
fn file_params(
    file: &String,
    elements: &Vec<YamlValue>,
    acc: Vec<SourcedParams>,
    on: &BuildMultiplePages,
    group_index: usize,
) -> (r: Result<Vec<SourcedParams>, BuildError>)
    ensures
        sourced_found(r) == file_entries(
            file@,
            documents(elements@),
            0,
            sourced_of(acc@),
            on@,
            group_index,
        ),
{
    let mut entries = acc;
    let mut idx: usize = 0;
    let ghost start = sourced_of(acc@);
    let ghost all = documents(elements@);
    while idx < elements.len()
        invariant
            idx <= elements.len(),
            all == documents(elements@),
            start == sourced_of(acc@),
            file_entries(file@, all, 0, start, on@, group_index) == file_entries(
                file@,
                all,
                idx as int,
                sourced_of(entries@),
                on@,
                group_index,
            ),
        decreases elements.len() - idx,
    {
        assert(all[idx as int] == elements@[idx as int]@);
        match &elements[idx] {
            YamlValue::Hash(hh) => {
                let ghost before = sourced_of(entries@);
                let entry = SourcedParams {
                    params: hh.copy(),
                    source: ParamsSource {
                        grouping: group_index,
                        index: idx,
                        file: Some(file.clone()),
                        flatten_index: None,
                    },
                    mapping: on.mapping.copy(),
                    flatten: copy_optional(&on.flatten),
                };
                entries.push(entry);
                assert(sourced_of(entries@) =~= before.push(entry@));
            },
            _ => {
                return Err(BuildError::BMFContainsNonMap(file.clone(), idx));
            },
        }
        idx += 1;
    }
    Ok(entries)
}

/// The entries of the grouping `on`, which is grouping number
/// `group_index`: those of its files, then those given in place.
pub fn build_multiple_pages_files<R: ReadsFiles>(
    on: &BuildMultiplePages,
    group_index: usize,
    io: &mut Traced<R>,
) -> (r: Result<Vec<SourcedParams>, BuildError>)
    ensures
        extends(final(io).log(), old(io).log()),
        forall|w: World| #[trigger]
            consistent(final(io).log(), w) ==> group_entries(
                on@,
                group_index,
                w,
                old(io).log().len(),
            ) == ended(sourced_found(r), final(io).log()),
{
    let mut entries: Vec<SourcedParams> = Vec::new();
    let ghost log0 = io.log();
    let ghost group = on@;
    assert(sourced_of(entries@) =~= Seq::<Sourced>::empty());
    let mut i: usize = 0;
    while i < on.files.len()
        invariant
            i <= on.files.len(),
            group == on@,
            log0 == old(io).log(),
            extends(io.log(), log0),
            forall|w: World| #[trigger]
                consistent(io.log(), w) ==> files_entries(
                    0,
                    Seq::empty(),
                    group,
                    group_index,
                    w,
                    log0.len(),
                ) == files_entries(i as int, sourced_of(entries@), group, group_index, w, io.log().len()),
        decreases on.files.len() - i,
    {
        let ghost log1 = io.log();
        let file = &on.files[i];
        assert(group.files[i as int] == file@);
        let read = io.read_yaml(file.as_str());
        proof {
            lemma_extends_trans(log0, log1, io.log());
            assert forall|w: World| #[trigger] consistent(io.log(), w) implies consistent(
                log1,
                w,
            ) by {
                lemma_consistent_earlier(io.log(), log1, w);
            }
        }
        let contents = match read {
            Ok(aa) => aa,
            Err(ee) => {
                return Err(BuildError::YamlFileError(ee));
            },
        };
        match contents {
            YamlValue::Array(aa) => {
                proof {
                    lemma_array_view(aa);
                }
                entries = match file_params(file, &aa, entries, on, group_index) {
                    Ok(next) => next,
                    Err(ee) => {
                        return Err(ee);
                    },
                };
            },
            _ => {
                return Err(BuildError::BMFIsntArray(file.clone()));
            },
        }
        i += 1;
    }
    let ghost from_files = sourced_of(entries@);
    let mut idx: usize = 0;
    while idx < on.params.len()
        invariant
            idx <= on.params.len(),
            group == on@,
            inline_entries(0, from_files, group, group_index) == inline_entries(
                idx as int,
                sourced_of(entries@),
                group,
                group_index,
            ),
        decreases on.params.len() - idx,
    {
        let ghost before = sourced_of(entries@);
        assert(group.params[idx as int] == on.params@[idx as int]@);
        let entry = SourcedParams {
            params: on.params[idx].copy(),
            source: ParamsSource {
                grouping: group_index,
                index: idx,
                file: None,
                flatten_index: None,
            },
            mapping: on.mapping.copy(),
            flatten: copy_optional(&on.flatten),
        };
        entries.push(entry);
        assert(sourced_of(entries@) =~= before.push(entry@));
        idx += 1;
    }
    Ok(entries)
}

/// Parameters with where they come from.
pub struct SourcedChild {
    pub params: YamlMap,
    pub source: ParamsSource,
}

impl View for SourcedChild {
    type V = Child;

    open spec fn view(&self) -> Child {
        Child { params: self.params@, source: self.source@ }
    }
}

/// The children that `children` stand for, element by element.
pub open spec fn children_of(children: Seq<SourcedChild>) -> Seq<Child> {
    Seq::new(children.len(), |i: int| children[i]@)
}

/// The view of children or an error.
pub open spec fn children_found(r: Result<Vec<SourcedChild>, BuildError>) -> Result<
    Seq<Child>,
    BuildFailure,
> {
    match r {
        Ok(v) => Ok(children_of(v@)),
        Err(e) => Err(e@),
    }
}

/// Flattens an entry with the parameters `merged` by its flatten key.
pub fn flatten_params(merged: YamlMap, flatten: &Option<String>, source: &ParamsSource) -> (r: Result<
    Vec<SourcedChild>,
    BuildError,
>)
    ensures
        children_found(r) == flattened(merged@, optional_text(*flatten), source@),
{
    match flatten {
        None => {
            let mut out: Vec<SourcedChild> = Vec::new();
            let child = SourcedChild { params: merged, source: source.clone() };
            out.push(child);
            assert(children_of(out@) =~= seq![child@]);
            Ok(out)
        },
        Some(flat) => {
            match merged.get(flat.as_str()) {
                Some(YamlValue::Array(aa)) => {
                    proof {
                        lemma_array_view(*aa);
                    }
                    let mut out: Vec<SourcedChild> = Vec::new();
                    let mut ind: usize = 0;
                    let ghost array = documents(aa@);
                    while ind < aa.len()
                        invariant
                            ind <= aa.len(),
                            array == documents(aa@),
                            out.len() == ind,
                            forall|j: int|
                                0 <= j < ind ==> (#[trigger] out@[j])@ == flatten_child(
                                    merged@,
                                    flat@,
                                    array,
                                    source@,
                                    j,
                                ),
                        decreases aa.len() - ind,
                    {
                        let mut newparams = merged.copy();
                        let full = YamlValue::Array(copy_values(aa));
                        proof {
                            lemma_array_view(full->Array_0);
                        }
                        insert_value(&mut newparams, "_flatten_array", full);
                        insert_value(&mut newparams, "_flatten_index", YamlValue::Integer(ind as i64));
                        insert_value(&mut newparams, flat.as_str(), aa[ind].copy());
                        let mut new_source = source.clone();
                        new_source.flatten_index = Some(ind);
                        assert(array[ind as int] == aa@[ind as int]@);
                        out.push(SourcedChild { params: newparams, source: new_source });
                        ind += 1;
                    }
                    assert(children_of(out@) =~= Seq::new(
                        array.len(),
                        |i: int| flatten_child(merged@, flat@, array, source@, i),
                    ));
                    Ok(out)
                },
                Some(_) => Err(BuildError::FlattenOnNonArray(flat.clone(), source.clone())),
                None => Err(BuildError::FlattenKeyNotFound(flat.clone(), source.clone())),
            }
        },
    }
}

/// The name of `key` in messages.
fn key_label_of(key: &YamlValue) -> (r: String)
    ensures
        r@ == key_label(key@),
{
    match key {
        YamlValue::String(s) => s.clone(),
        _ => match tostr(key) {
            Ok(t) => t,
            Err(_) => String::new(),
        },
    }
}

/// The view of parameters or an error.
pub open spec fn params_found(r: Result<YamlMap, BuildError>) -> Result<Mapping, BuildFailure> {
    match r {
        Ok(m) => Ok(m@),
        Err(e) => Err(e@),
    }
}

/// Makes the assignments of `mapping` to `params`: each value is rendered
/// as a template with the parameters so far, and the text is inserted
/// under its key.
pub fn apply_mapping<H: HostPipe, R: ReadsFiles>(
    params: &YamlMap,
    mapping: &YamlMap,
    source: &ParamsSource,
    pipes: &PipeMap<H>,
    io: &mut Traced<R>,
    context: &TemplateContext,
) -> (r: Result<YamlMap, BuildError>)
    ensures
        extends(final(io).log(), old(io).log()),
        forall|w: World| #[trigger]
            consistent(final(io).log(), w) ==> apply_mapping_from(
                mapping@,
                0,
                params@,
                source@,
                env_of(pipes@, context@, w),
                old(io).log().len(),
            ) == ended(params_found(r), final(io).log()),
{
    let mut mapp = params.copy();
    let ghost log0 = io.log();
    let pairs = map_pairs(mapping);
    let mut i: usize = 0;
    while i < pairs.len()
        invariant
            i <= pairs.len(),
            mapping@.len() == pairs@.len(),
            forall|j: int|
                0 <= j < pairs@.len() ==> (#[trigger] pairs@[j]).0@ == mapping@[j].0
                    && pairs@[j].1@ == mapping@[j].1,
            log0 == old(io).log(),
            extends(io.log(), log0),
            forall|w: World| #[trigger]
                consistent(io.log(), w) ==> apply_mapping_from(
                    mapping@,
                    0,
                    params@,
                    source@,
                    env_of(pipes@, context@, w),
                    log0.len(),
                ) == apply_mapping_from(
                    mapping@,
                    i as int,
                    mapp@,
                    source@,
                    env_of(pipes@, context@, w),
                    io.log().len(),
                ),
        decreases pairs.len() - i,
    {
        let ghost log1 = io.log();
        let key = pairs[i].0;
        let value = pairs[i].1;
        assert(mapping@[i as int] == (key@, value@));
        match value {
            YamlValue::String(ss) => {
                match parse_template_string(ss.as_str()) {
                    Err(ee) => {
                        return Err(
                            BuildError::BMMappingParseError(
                                ee.to_string(),
                                key_label_of(key),
                                source.clone(),
                            ),
                        );
                    },
                    Ok(elements) => {
                        let made = render_elements(&elements, &mapp, pipes, io, context);
                        proof {
                            lemma_extends_trans(log0, log1, io.log());
                            assert forall|w: World| #[trigger]
                                consistent(io.log(), w) implies consistent(log1, w) by {
                                lemma_consistent_earlier(io.log(), log1, w);
                            }
                        }
                        match made {
                            Err(xx) => {
                                return Err(
                                    BuildError::BMMappingTemplateError(
                                        xx,
                                        key_label_of(key),
                                        source.clone(),
                                    ),
                                );
                            },
                            Ok(text) => {
                                mapp.insert(key.copy(), YamlValue::String(text));
                            },
                        }
                    },
                }
            },
            _ => {
                return Err(BuildError::BMMappingIsntString(key_label_of(key), source.clone()));
            },
        }
        i += 1;
    }
    Ok(mapp)
}

/// The view of expanded actions or an error.
pub open spec fn expanded_found(r: Result<Vec<BuildActionExpanded>, BuildError>) -> Result<
    Seq<Expanded>,
    BuildFailure,
> {
    match r {
        Ok(v) => Ok(expanded_of(v@)),
        Err(e) => Err(e@),
    }
}

/// Whether `params` are selected.
fn selected(params: &YamlMap, include_key: &Option<String>, exclude_key: &Option<String>) -> (r: bool)
    ensures
        r == is_selected(params@, optional_text(*include_key), optional_text(*exclude_key)),
{
    let included = match include_key {
        Some(ss) => params.contains_key(ss.as_str()),
        None => true,
    };
    let excluded = match exclude_key {
        Some(ss) => !params.contains_key(ss.as_str()),
        None => true,
    };
    included && excluded
}

/// The pages that `children` add to `acc`.
fn resolve_children(
    children: &Vec<SourcedChild>,
    acc: Vec<BuildActionExpanded>,
    include_key: &Option<String>,
    exclude_key: &Option<String>,
) -> (r: Result<Vec<BuildActionExpanded>, BuildError>)
    ensures
        expanded_found(r) == resolved(
            children_of(children@),
            0,
            expanded_of(acc@),
            optional_text(*include_key),
            optional_text(*exclude_key),
        ),
{
    let mut result = acc;
    let ghost start = expanded_of(acc@);
    let ghost all = children_of(children@);
    let mut i: usize = 0;
    while i < children.len()
        invariant
            i <= children.len(),
            all == children_of(children@),
            start == expanded_of(acc@),
            resolved(
                all,
                0,
                start,
                optional_text(*include_key),
                optional_text(*exclude_key),
            ) == resolved(
                all,
                i as int,
                expanded_of(result@),
                optional_text(*include_key),
                optional_text(*exclude_key),
            ),
        decreases children.len() - i,
    {
        assert(all[i as int] == children@[i as int]@);
        let ff = &children[i];
        let output: &str = match ff.params.get("output") {
            Some(YamlValue::String(o)) => o.as_str(),
            _ => {
                return Err(BuildError::BMOutputNotSpecified(ff.source.clone()));
            },
        };
        let input: &str = match ff.params.get("input") {
            Some(YamlValue::String(o)) => o.as_str(),
            _ => {
                return Err(
                    BuildError::BMInputNotSpecified(output.to_owned(), ff.source.clone()),
                );
            },
        };
        if selected(&ff.params, include_key, exclude_key) {
            let ghost before = expanded_of(result@);
            let page = BuildActionExpanded::BuildPage {
                input: input.to_owned(),
                output: output.to_owned(),
                params: ff.params.copy(),
                source: Some(ff.source.clone()),
            };
            result.push(page);
            assert(expanded_of(result@) =~= before.push(page@));
        }
        i += 1;
    }
    Ok(result)
}

/// Makes the assignments of `mapping` to each of `children`.
fn map_children<H: HostPipe, R: ReadsFiles>(
    flattened: &Vec<SourcedChild>,
    mapping: &YamlMap,
    pipes: &PipeMap<H>,
    io: &mut Traced<R>,
    context: &TemplateContext,
) -> (r: Result<Vec<SourcedChild>, BuildError>)
    ensures
        extends(final(io).log(), old(io).log()),
        forall|w: World| #[trigger]
            consistent(final(io).log(), w) ==> mapped_children(
                children_of(flattened@),
                0,
                Seq::empty(),
                mapping@,
                env_of(pipes@, context@, w),
                old(io).log().len(),
            ) == ended(children_found(r), final(io).log()),
{
    let mut mapped: Vec<SourcedChild> = Vec::new();
    let ghost log0 = io.log();
    let ghost children = children_of(flattened@);
    assert(children_of(mapped@) =~= Seq::<Child>::empty());
    let mut k: usize = 0;
    while k < flattened.len()
        invariant
            k <= flattened.len(),
            children == children_of(flattened@),
            log0 == old(io).log(),
            extends(io.log(), log0),
            forall|w: World| #[trigger]
                consistent(io.log(), w) ==> mapped_children(
                    children,
                    0,
                    Seq::empty(),
                    mapping@,
                    env_of(pipes@, context@, w),
                    log0.len(),
                ) == mapped_children(
                    children,
                    k as int,
                    children_of(mapped@),
                    mapping@,
                    env_of(pipes@, context@, w),
                    io.log().len(),
                ),
        decreases flattened.len() - k,
    {
        let ghost log1 = io.log();
        let ff = &flattened[k];
        assert(children[k as int] == ff@);
        let applied = apply_mapping(&ff.params, mapping, &ff.source, pipes, io, context);
        proof {
            lemma_extends_trans(log0, log1, io.log());
            assert forall|w: World| #[trigger] consistent(io.log(), w) implies consistent(
                log1,
                w,
            ) by {
                lemma_consistent_earlier(io.log(), log1, w);
            }
        }
        match applied {
            Err(ee) => {
                return Err(ee);
            },
            Ok(done) => {
                let ghost before = children_of(mapped@);
                let child = SourcedChild { params: done, source: ff.source.clone() };
                mapped.push(child);
                assert(children_of(mapped@) =~= before.push(child@));
            },
        }
        k += 1;
    }
    Ok(mapped)
}

/// The entries of the groupings `on`, in order.
fn collect_entries<R: ReadsFiles>(on: &Vec<BuildMultiplePages>, io: &mut Traced<R>) -> (r: Result<
    Vec<SourcedParams>,
    BuildError,
>)
    ensures
        extends(final(io).log(), old(io).log()),
        forall|w: World| #[trigger]
            consistent(final(io).log(), w) ==> all_entries(
                multis_of(on@),
                0,
                Seq::empty(),
                w,
                old(io).log().len(),
            ) == ended(sourced_found(r), final(io).log()),
{
    let mut entries: Vec<SourcedParams> = Vec::new();
    let ghost log0 = io.log();
    let ghost groups = multis_of(on@);
    assert(sourced_of(entries@) =~= Seq::<Sourced>::empty());
    let mut idx: usize = 0;
    while idx < on.len()
        invariant
            idx <= on.len(),
            groups == multis_of(on@),
            log0 == old(io).log(),
            extends(io.log(), log0),
            forall|w: World| #[trigger]
                consistent(io.log(), w) ==> all_entries(groups, 0, Seq::empty(), w, log0.len()) == all_entries(
                    groups,
                    idx as int,
                    sourced_of(entries@),
                    w,
                    io.log().len(),
                ),
        decreases on.len() - idx,
    {
        let ghost log1 = io.log();
        assert(groups[idx as int] == on@[idx as int]@);
        let found = build_multiple_pages_files(&on[idx], idx, io);
        proof {
            lemma_extends_trans(log0, log1, io.log());
            assert forall|w: World| #[trigger] consistent(io.log(), w) implies consistent(
                log1,
                w,
            ) by {
                lemma_consistent_earlier(io.log(), log1, w);
            }
        }
        match found {
            Err(ee) => {
                return Err(ee);
            },
            Ok(mut source) => {
                let ghost before = sourced_of(entries@);
                let ghost added = sourced_of(source@);
                entries.append(&mut source);
                assert(sourced_of(entries@) =~= before + added);
            },
        }
        idx += 1;
    }
    Ok(entries)
}

/// The pages of the entries `values` of a matrix with the defaults
/// `default_params`, selected by `include_key` and `exclude_key`.
pub fn build_multiple_pages_map_params<H: HostPipe, R: ReadsFiles>(
    default_params: &YamlMap,
    values: &Vec<SourcedParams>,
    include_key: &Option<String>,
    exclude_key: &Option<String>,
    pipes: &PipeMap<H>,
    io: &mut Traced<R>,
    context: &TemplateContext,
) -> (r: Result<Vec<BuildActionExpanded>, BuildError>)
    ensures
        extends(final(io).log(), old(io).log()),
        forall|w: World| #[trigger]
            consistent(final(io).log(), w) ==> entries_pages(
                sourced_of(values@),
                0,
                Seq::empty(),
                default_params@,
                optional_text(*include_key),
                optional_text(*exclude_key),
                env_of(pipes@, context@, w),
                old(io).log().len(),
            ) == ended(expanded_found(r), final(io).log()),
{
    let mut result: Vec<BuildActionExpanded> = Vec::new();
    let ghost log0 = io.log();
    let ghost entries = sourced_of(values@);
    assert(expanded_of(result@) =~= Seq::<Expanded>::empty());
    let mut i: usize = 0;
    while i < values.len()
        invariant
            i <= values.len(),
            entries == sourced_of(values@),
            log0 == old(io).log(),
            extends(io.log(), log0),
            forall|w: World| #[trigger]
                consistent(io.log(), w) ==> entries_pages(
                    entries,
                    0,
                    Seq::empty(),
                    default_params@,
                    optional_text(*include_key),
                    optional_text(*exclude_key),
                    env_of(pipes@, context@, w),
                    log0.len(),
                ) == entries_pages(
                    entries,
                    i as int,
                    expanded_of(result@),
                    default_params@,
                    optional_text(*include_key),
                    optional_text(*exclude_key),
                    env_of(pipes@, context@, w),
                    io.log().len(),
                ),
        decreases values.len() - i,
    {
        let ghost log1 = io.log();
        let ii = &values[i];
        assert(entries[i as int] == ii@);
        let mut params: YamlMap = default_params.copy();
        params.extend(&ii.params);
        let flattened = match flatten_params(params, &ii.flatten, &ii.source) {
            Ok(children) => children,
            Err(ee) => {
                return Err(ee);
            },
        };
        let mapped = map_children(&flattened, &ii.mapping, pipes, io, context);
        proof {
            lemma_extends_trans(log0, log1, io.log());
            assert forall|w: World| #[trigger] consistent(io.log(), w) implies consistent(
                log1,
                w,
            ) by {
                lemma_consistent_earlier(io.log(), log1, w);
            }
        }
        let mapped = match mapped {
            Ok(mapped) => mapped,
            Err(ee) => {
                return Err(ee);
            },
        };
        result = match resolve_children(&mapped, result, include_key, exclude_key) {
            Ok(next) => next,
            Err(ee) => {
                return Err(ee);
            },
        };
        i += 1;
    }
    Ok(result)
}

impl BuildAction {
    /// What this action expands to: itself for a page or a copy, and for
    /// a matrix the pages of its entries.
    pub fn expand<H: HostPipe, R: ReadsFiles>(
        &self,
        pipes: &PipeMap<H>,
        io: &mut Traced<R>,
        context: &TemplateContext,
    ) -> (r: Result<Vec<BuildActionExpanded>, BuildError>)
        ensures
            extends(final(io).log(), old(io).log()),
            forall|w: World| #[trigger]
                consistent(final(io).log(), w) ==> expansion(
                    self@,
                    env_of(pipes@, context@, w),
                    old(io).log().len(),
                ) == ended(expanded_found(r), final(io).log()),
            !(self is BuildMultiplePages) ==> final(io).log() == old(io).log(),
    {
        match self {
            BuildAction::BuildPage { output, input, params } => {
                let mut out: Vec<BuildActionExpanded> = Vec::new();
                let page = BuildActionExpanded::BuildPage {
                    input: input.clone(),
                    output: output.clone(),
                    params: params.copy(),
                    source: None,
                };
                out.push(page);
                assert(expanded_of(out@) =~= seq![page@]);
                Ok(out)
            },
            BuildAction::CopyFiles { to, from } => {
                let mut out: Vec<BuildActionExpanded> = Vec::new();
                let copy = BuildActionExpanded::CopyFiles { to: to.clone(), from: from.clone() };
                out.push(copy);
                assert(expanded_of(out@) =~= seq![copy@]);
                Ok(out)
            },
            BuildAction::BuildMultiplePages { default_params, on, include_key, exclude_key, .. } => {
                let ghost log0 = io.log();
                let entries = match collect_entries(on, io) {
                    Ok(entries) => entries,
                    Err(ee) => {
                        return Err(ee);
                    },
                };
                let ghost log2 = io.log();
                let r = build_multiple_pages_map_params(
                    default_params,
                    &entries,
                    include_key,
                    exclude_key,
                    pipes,
                    io,
                    context,
                );
                proof {
                    lemma_extends_trans(log0, log2, io.log());
                    assert forall|w: World| #[trigger] consistent(io.log(), w) implies consistent(
                        log2,
                        w,
                    ) by {
                        lemma_consistent_earlier(io.log(), log2, w);
                    }
                }
                r
            },
        }
    }
}

/// The path that `PathBuf::pop` leaves of a path: its parent, in the
/// path syntax of the platform.
pub uninterp spec fn parent_text(path: Seq<char>) -> Seq<char>;

/// The relative path that `pathdiff::diff_paths` gives from a base to a
/// path, or `None` where it gives none.
pub uninterp spec fn relative_text(path: Seq<char>, base: Seq<char>) -> Option<Seq<char>>;

/// Calls `PathBuf::pop` on the path `path`. The contract names what is
/// left: `parent_text` of the path.
#[verifier::external_body]
fn parent_of(path: &str) -> (r: String)
    ensures
        r@ == parent_text(path@),
{
    let mut outpath: PathBuf = path.into();
    outpath.pop();
    outpath.to_string_lossy().into_owned()
}

/// Calls `pathdiff::diff_paths`. The contract names what it returns:
/// `relative_text` of the path and the base.
#[verifier::external_body]
fn relative_path(path: &str, base: &str) -> (r: Option<String>)
    ensures
        optional_text(r) == relative_text(path@, base@),
{
    diff_paths(path, base).map(|dots| dots.to_string_lossy().into_owned())
}

/// The path that collecting two paths into a `PathBuf` gives: the second
/// under the first, or the second alone where it starts at the root, in
/// the path syntax of the platform.
pub uninterp spec fn joined_text(folder: Seq<char>, output: Seq<char>) -> Seq<char>;

/// Calls `PathBuf::from_iter` on `folder` and `output`. The contract names
/// what it gives: `joined_text` of the two.
#[verifier::external_body]
fn joined_path(folder: &str, output: &str) -> (r: String)
    ensures
        r@ == joined_text(folder@, output@),
{
    let fullpath: PathBuf = [folder, output].iter().collect();
    fullpath.to_string_lossy().into_owned()
}

/// The way back to the root, made of a relative path: with `/` for each
/// `\`, and without its last character.
pub open spec fn dots_of(relative: Seq<char>) -> Seq<char> {
    let slashed = replace_char(relative, '\\', '/');
    if slashed.len() == 0 {
        slashed
    } else {
        slashed.subrange(0, slashed.len() - 1)
    }
}

/// The way back to the root, made of the relative path `relative`.
pub fn dots_from(relative: &str) -> (r: String)
    ensures
        r@ == dots_of(relative@),
{
    let slashed = replace_char_text(relative, '\\', '/');
    let chars = chars_of(slashed.as_str());
    if chars.len() == 0 {
        slashed
    } else {
        text_of(&chars, 0, chars.len() - 1)
    }
}

/// The parameters that the page `output` made from `input` is rendered
/// with: `params`, and then `_input`, `_output`, `_outputfolder`,
/// `_outputfull`, which is `output` under the output folder, and `_dots`.
/// `None` where there is no way back from the folder of `output` to the
/// root.
pub open spec fn page_params(params: Mapping, input: Seq<char>, output: Seq<char>, context: Context) -> Option<
    Mapping,
> {
    match relative_text("."@, parent_text(output)) {
        None => None,
        Some(relative) => Some(
            mapping_insert(
                mapping_insert(
                    mapping_insert(
                        mapping_insert(
                            mapping_insert(
                                params,
                                Document::String("_input"@),
                                Document::String(input),
                            ),
                            Document::String("_output"@),
                            Document::String(output),
                        ),
                        Document::String("_outputfolder"@),
                        Document::String(context.output_folder),
                    ),
                    Document::String("_outputfull"@),
                    Document::String(joined_text(context.output_folder, output)),
                ),
                Document::String("_dots"@),
                Document::String(dots_of(relative)),
            ),
        ),
    }
}

/// The view of optional parameters.
pub open spec fn optional_mapping(r: Option<YamlMap>) -> Option<Mapping> {
    match r {
        Some(m) => Some(m@),
        None => None,
    }
}

/// The parameters that the page `output` made from `input` is rendered
/// with.
pub fn page_parameters(params: &YamlMap, input: &str, output: &str, context: &TemplateContext) -> (r:
    Option<YamlMap>)
    ensures
        optional_mapping(r) == page_params(params@, input@, output@, context@),
{
    let parent = parent_of(output);
    match relative_path(".", parent.as_str()) {
        None => None,
        Some(relative) => {
            let mut full_params = params.copy();
            insert_value(&mut full_params, "_input", YamlValue::String(input.to_owned()));
            insert_value(&mut full_params, "_output", YamlValue::String(output.to_owned()));
            insert_value(
                &mut full_params,
                "_outputfolder",
                YamlValue::String(context.output_folder.clone()),
            );
            insert_value(
                &mut full_params,
                "_outputfull",
                YamlValue::String(joined_path(context.output_folder.as_str(), output)),
            );
            insert_value(
                &mut full_params,
                "_dots",
                YamlValue::String(dots_from(relative.as_str())),
            );
            Some(full_params)
        },
    }
}

/// What building the page `output` from `input` comes to: the input is
/// read, rendered with the page's parameters, and written under the
/// output folder.
pub open spec fn page_built(
    input: Seq<char>,
    output: Seq<char>,
    params: Mapping,
    env: Env,
    at: nat,
) -> Outcome<(), BuildFailure> {
    match (env.world.read)(at, input) {
        Err(e) => Outcome { result: Err(BuildFailure::FileError(e)), at: at + 1 },
        Ok(contents) => match page_params(params, input, output, env.context) {
            None => Outcome {
                result: Err(BuildFailure::FileError(FileFailure::FileCantBeWritten(output))),
                at: at + 1,
            },
            Some(full) => {
                let made = render_text(contents, full, env, MAX_PIPE_DEPTH as nat, at + 1);
                match made.result {
                    Err(e) => Outcome { result: Err(BuildFailure::TemplateError(e)), at: made.at },
                    Ok(text) => Outcome {
                        result: match (env.world.write)(
                            made.at,
                            joined_text(env.context.output_folder, output),
                            text,
                        ) {
                            Err(e) => Err(BuildFailure::FileError(e)),
                            Ok(_) => Ok(()),
                        },
                        at: made.at + 1,
                    },
                }
            },
        },
    }
}

/// The view of an outcome without a value.
pub open spec fn done(r: Result<(), BuildError>) -> Result<(), BuildFailure> {
    match r {
        Ok(_) => Ok(()),
        Err(e) => Err(e@),
    }
}

/// Whether the last call noted in `log` is a write to `path` that went
/// well.
pub open spec fn wrote_last(log: Seq<Event>, path: Seq<char>) -> bool {
    log.len() > 0 && match log[log.len() - 1] {
        Event::Write { path: to, contents, answer } => to == path && answer is Ok,
        _ => false,
    }
}

/// Builds the page `output` from the template file `input`: reads the
/// input, renders it with the page's parameters, and writes the text
/// under the output folder. Where there is no way back from the folder of
/// `output` to the root, as for an output that starts at the root or goes
/// through `..`, the page cannot be built: the answer is
/// `FileCantBeWritten(output)` although no write was tried.
pub fn build_page<H: HostPipe, R: ReadsFiles>(
    input: &str,
    output: &str,
    params: &YamlMap,
    pipes: &PipeMap<H>,
    io: &mut Traced<R>,
    context: &TemplateContext,
) -> (r: Result<(), BuildError>)
    ensures
        extends(final(io).log(), old(io).log()),
        forall|w: World| #[trigger]
            consistent(final(io).log(), w) ==> page_built(
                input@,
                output@,
                params@,
                env_of(pipes@, context@, w),
                old(io).log().len(),
            ) == ended(done(r), final(io).log()),
        r is Ok ==> wrote_last(final(io).log(), joined_text(context@.output_folder, output@)),
{
    let ghost log0 = io.log();
    let contents = match io.read(input) {
        Ok(ss) => ss,
        Err(ee) => {
            return Err(BuildError::FileError(ee));
        },
    };
    let ghost log1 = io.log();
    let full_params = match page_parameters(params, input, output, context) {
        Some(full_params) => full_params,
        None => {
            return Err(BuildError::FileError(FileError::FileCantBeWritten(output.to_owned())));
        },
    };
    let fullpath = joined_path(context.output_folder.as_str(), output);
    let made = render(contents.as_str(), &full_params, pipes, io, context);
    let ghost log2 = io.log();
    proof {
        lemma_extends_trans(log0, log1, log2);
        assert forall|w: World| #[trigger] consistent(log2, w) implies consistent(log1, w) by {
            lemma_consistent_earlier(log2, log1, w);
        }
    }
    let text = match made {
        Ok(text) => text,
        Err(xx) => {
            return Err(BuildError::TemplateError(xx));
        },
    };
    let written = io.write(fullpath.as_str(), text.as_str());
    proof {
        lemma_extends_trans(log0, log2, io.log());
        assert forall|w: World| #[trigger] consistent(io.log(), w) implies consistent(log1, w)
            && consistent(log2, w) by {
            lemma_consistent_earlier(io.log(), log2, w);
            lemma_consistent_earlier(log2, log1, w);
        }
    }
    match written {
        Ok(_) => Ok(()),
        Err(xx) => Err(BuildError::FileError(xx)),
    }
}

/// What running an expanded action comes to: a page is built, with an
/// error wrapped with the page's source; files are copied.
pub open spec fn ran(action: Expanded, env: Env, at: nat) -> Outcome<(), BuildFailure> {
    match action {
        Expanded::BuildPage { output, input, params, source } => {
            let built = page_built(input, output, params, env, at);
            match built.result {
                Ok(_) => built,
                Err(e) => Outcome {
                    result: Err(
                        match source {
                            Some(s) => BuildFailure::BMSourced(s, Box::new(e)),
                            None => e,
                        },
                    ),
                    at: built.at,
                },
            }
        },
        Expanded::CopyFiles { to, from } => Outcome {
            result: match (env.world.copy)(at, from, to) {
                Ok(_) => Ok(()),
                Err(e) => Err(BuildFailure::FileError(e)),
            },
            at: at + 1,
        },
    }
}

impl BuildActionExpanded {
    /// Runs this action: builds the page, or copies the files.
    pub fn run<H: HostPipe, R: ReadsFiles>(
        &self,
        pipes: &PipeMap<H>,
        io: &mut Traced<R>,
        context: &TemplateContext,
    ) -> (r: Result<(), BuildError>)
        ensures
            extends(final(io).log(), old(io).log()),
            forall|w: World| #[trigger]
                consistent(final(io).log(), w) ==> ran(
                    self@,
                    env_of(pipes@, context@, w),
                    old(io).log().len(),
                ) == ended(done(r), final(io).log()),
    {
        match self {
            BuildActionExpanded::BuildPage { output, input, params, source } => {
                match build_page(input.as_str(), output.as_str(), params, pipes, io, context) {
                    Ok(_) => Ok(()),
                    Err(ee) => match source {
                        Some(ss) => Err(BuildError::BMSourced(ss.clone(), Box::new(ee))),
                        None => Err(ee),
                    },
                }
            },
            BuildActionExpanded::CopyFiles { to, from } => {
                match io.copy_files(from.as_str(), to.as_str()) {
                    Ok(_) => Ok(()),
                    Err(ee) => Err(BuildError::FileError(ee)),
                }
            },
        }
    }
}

/// The number of document files that the first `n` of `on` name.
pub open spec fn files_before(on: Seq<Multi>, n: int) -> nat
    decreases n,
{
    if n <= 0 {
        0
    } else {
        files_before(on, n - 1) + on[n - 1].files.len()
    }
}

/// Whether `on` has no entries in the course `world` from `at` calls on:
/// no grouping gives parameters in place, and each document file, read
/// in its turn, holds the empty sequence.
pub open spec fn without_entries(on: Seq<Multi>, world: World, at: nat) -> bool {
    &&& forall|g: int| 0 <= g < on.len() ==> (#[trigger] on[g]).params.len() == 0
    &&& forall|g: int, j: int|
        0 <= g < on.len() && 0 <= j < on[g].files.len() ==> (world.read_yaml)(
            (at + files_before(on, g) + j) as nat,
            #[trigger] on[g].files[j],
        ) == Ok::<Document, YamlFileFailure>(Document::Array(Seq::empty()))
}

/// Document files that each hold the empty sequence add no entries.
proof fn lemma_empty_files(
    group: Multi,
    group_index: usize,
    world: World,
    i: int,
    acc: Seq<Sourced>,
    at: nat,
)
    requires
        0 <= i <= group.files.len(),
        forall|j: int|
            i <= j < group.files.len() ==> (world.read_yaml)(
                (at + (j - i)) as nat,
                #[trigger] group.files[j],
            ) == Ok::<Document, YamlFileFailure>(Document::Array(Seq::empty())),
    ensures
        files_entries(i, acc, group, group_index, world, at) == (Outcome::<
            Seq<Sourced>,
            BuildFailure,
        > { result: Ok(acc), at: (at + (group.files.len() - i)) as nat }),
    decreases group.files.len() - i,
{
    if i < group.files.len() {
        assert((world.read_yaml)(at, group.files[i]) == Ok::<Document, YamlFileFailure>(
            Document::Array(Seq::empty()),
        ));
        assert(file_entries(group.files[i], Seq::empty(), 0, acc, group, group_index) == Ok::<
            Seq<Sourced>,
            BuildFailure,
        >(acc));
        assert forall|j: int| i + 1 <= j < group.files.len() implies (world.read_yaml)(
            (at + 1 + (j - (i + 1))) as nat,
            #[trigger] group.files[j],
        ) == Ok::<Document, YamlFileFailure>(Document::Array(Seq::empty())) by {
            assert(at + 1 + (j - (i + 1)) == at + (j - i));
        }
        lemma_empty_files(group, group_index, world, i + 1, acc, at + 1);
    }
}

/// Groupings without entries add none, and only their files are read.
proof fn lemma_no_entries(on: Seq<Multi>, i: int, acc: Seq<Sourced>, world: World, at: nat)
    requires
        0 <= i <= on.len(),
        without_entries(on, world, at),
    ensures
        all_entries(on, i, acc, world, at + files_before(on, i)) == (Outcome::<
            Seq<Sourced>,
            BuildFailure,
        > { result: Ok(acc), at: at + files_before(on, on.len() as int) }),
    decreases on.len() - i,
{
    if i < on.len() {
        let now = at + files_before(on, i);
        assert(on[i].params.len() == 0);
        assert forall|j: int| 0 <= j < on[i].files.len() implies (world.read_yaml)(
            (now + (j - 0)) as nat,
            #[trigger] on[i].files[j],
        ) == Ok::<Document, YamlFileFailure>(Document::Array(Seq::empty())) by {
            assert(now + (j - 0) == at + files_before(on, i) + j);
        }
        lemma_empty_files(on[i], i as usize, world, 0, Seq::empty(), now);
        assert(now + (on[i].files.len() - 0) == at + files_before(on, i + 1));
        assert(group_entries(on[i], i as usize, world, now) == (Outcome::<
            Seq<Sourced>,
            BuildFailure,
        > { result: Ok(Seq::empty()), at: at + files_before(on, i + 1) }));
        assert(acc + Seq::<Sourced>::empty() =~= acc);
        lemma_no_entries(on, i + 1, acc, world, at);
    }
}

/// A matrix without entries expands to no page, so that nothing is left
/// to build: that is a matrix whose groupings give no parameters in
/// place and whose document files, if it names any, each hold the empty
/// sequence. Only those files are read.
pub proof fn law_empty_matrix(
    descriptor: Seq<char>,
    default_params: Mapping,
    on: Seq<Multi>,
    include_key: Option<Seq<char>>,
    exclude_key: Option<Seq<char>>,
    env: Env,
    at: nat,
)
    requires
        without_entries(on, env.world, at),
    ensures
        expansion(
            Action::BuildMultiplePages { descriptor, default_params, on, include_key, exclude_key },
            env,
            at,
        ) == (Outcome::<Seq<Expanded>, BuildFailure> {
            result: Ok(Seq::empty()),
            at: at + files_before(on, on.len() as int),
        }),
{
    lemma_no_entries(on, 0, Seq::empty(), env.world, at);
}

impl Source {
    /// The source as it is named in messages.
    pub open spec fn text(self) -> Seq<char> {
        (match self.file {
            Some(f) => f,
            None => "(specified params)"@,
        }) + ":"@ + decimal(self.index as nat) + (match self.flatten_index {
            Some(n) => " (flatten result "@ + decimal(n as nat) + ")"@,
            None => Seq::empty(),
        }) + " in grouping "@ + decimal(self.grouping as nat)
    }
}

impl ParamsSource {
    /// The source as it is named in messages.
    pub fn to_string(&self) -> (r: String)
        ensures
            r@ == self@.text(),
    {
        let mut r: String = match &self.file {
            Some(ss) => ss.clone(),
            None => "(specified params)".to_owned(),
        };
        r.append(":");
        r.append(decimal_text(self.index as u128).as_str());
        let ghost head = r@;
        let flat: String = match self.flatten_index {
            Some(ss) => concat3(" (flatten result ", decimal_text(ss as u128).as_str(), ")"),
            None => String::new(),
        };
        r.append(flat.as_str());
        r.append(" in grouping ");
        r.append(decimal_text(self.grouping as u128).as_str());
        r
    }
}

impl BuildFailure {
    /// The message that names the failure, where no part of it is the
    /// YAML scanner's own.
    pub open spec fn message(self) -> Option<Seq<char>>
        decreases self,
    {
        match self {
            BuildFailure::FileError(e) => Some(e.message()),
            BuildFailure::YamlFileError(e) => e.message(),
            BuildFailure::TemplateError(e) => e.message(),
            BuildFailure::BMFIsntArray(f) => Some(
                "Can't build multiple files using \""@ + f
                    + "\" as params as it doesn't contain a yaml array"@,
            ),
            BuildFailure::BMFContainsNonMap(f, n) => Some(
                "Can't build multiple files using \""@ + f + "\" as params because entry "@
                    + decimal(n as nat) + " isn't a map"@,
            ),
            BuildFailure::BMOutputNotSpecified(s) => Some(
                "Can't build the file at "@ + s.text() + " because it has no output specified"@,
            ),
            BuildFailure::BMInputNotSpecified(f, s) => Some(
                "Can't build \""@ + f + "\" (at "@ + s.text()
                    + ") because it has no base input specified"@,
            ),
            BuildFailure::BMMappingParseError(e, k, s) => Some(
                "Can't parse mapping \""@ + k + "\" (at "@ + s.text() + "): "@ + e,
            ),
            BuildFailure::BMMappingTemplateError(e, k, s) => led_by(
                "Can't parse mapping \""@ + k + "\" (at "@ + s.text() + "): "@,
                e.message(),
            ),
            BuildFailure::BMMappingIsntString(k, s) => Some(
                "Mapping \""@ + k + "\" (at "@ + s.text() + ") isn't a string"@,
            ),
            BuildFailure::FlattenOnNonArray(k, s) => Some(
                "Can't flatten with \""@ + k + "\" (on "@ + s.text() + ") as it isn't an array"@,
            ),
            BuildFailure::FlattenKeyNotFound(k, s) => Some(
                "Can't flatten with \""@ + k + "\" (on "@ + s.text()
                    + ") as the value to flatten with wasn't found"@,
            ),
            BuildFailure::BMSourced(s, e) => followed(followed(e.message(), "\nat "@), s.text()),
        }
    }
}

/// `head` followed by `inner`, where there is an inner text.
pub open spec fn led_by(head: Seq<char>, inner: Option<Seq<char>>) -> Option<Seq<char>> {
    match inner {
        Some(m) => Some(head + m),
        None => None,
    }
}

impl BuildError {
    /// The message that names the error.
    pub fn to_string(&self) -> (r: String)
        ensures
            self@.message() matches Some(m) ==> r@ == m,
        decreases self,
    {
        match self {
            BuildError::FileError(ee) => ee.to_string(),
            BuildError::YamlFileError(ee) => ee.to_string(),
            BuildError::TemplateError(ee) => ee.to_string(),
            BuildError::BMFIsntArray(filename) => concat3(
                "Can't build multiple files using \"",
                filename.as_str(),
                "\" as params as it doesn't contain a yaml array",
            ),
            BuildError::BMFContainsNonMap(filename, idx) => concat5(
                "Can't build multiple files using \"",
                filename.as_str(),
                "\" as params because entry ",
                decimal_text(*idx as u128).as_str(),
                " isn't a map",
            ),
            BuildError::BMOutputNotSpecified(source) => concat3(
                "Can't build the file at ",
                source.to_string().as_str(),
                " because it has no output specified",
            ),
            BuildError::BMInputNotSpecified(filename, source) => concat5(
                "Can't build \"",
                filename.as_str(),
                "\" (at ",
                source.to_string().as_str(),
                ") because it has no base input specified",
            ),
            BuildError::BMMappingParseError(err, key, source) => concat6(
                "Can't parse mapping \"",
                key.as_str(),
                "\" (at ",
                source.to_string().as_str(),
                "): ",
                err.as_str(),
            ),
            BuildError::BMMappingTemplateError(err, key, source) => {
                let head = concat5(
                    "Can't parse mapping \"",
                    key.as_str(),
                    "\" (at ",
                    source.to_string().as_str(),
                    "): ",
                );
                concat2(head.as_str(), err.to_string().as_str())
            },
            BuildError::BMMappingIsntString(key, source) => concat5(
                "Mapping \"",
                key.as_str(),
                "\" (at ",
                source.to_string().as_str(),
                ") isn't a string",
            ),
            BuildError::FlattenOnNonArray(key, source) => concat5(
                "Can't flatten with \"",
                key.as_str(),
                "\" (on ",
                source.to_string().as_str(),
                ") as it isn't an array",
            ),
            BuildError::FlattenKeyNotFound(key, source) => concat5(
                "Can't flatten with \"",
                key.as_str(),
                "\" (on ",
                source.to_string().as_str(),
                ") as the value to flatten with wasn't found",
            ),
            BuildError::BMSourced(source, err) => concat3(
                err.to_string().as_str(),
                "\nat ",
                source.to_string().as_str(),
            ),
        }
    }
}

/// What is said when expanding the matrix `descriptor` failed after
/// `time` milliseconds with the message `error`.
pub open spec fn expansion_failed_text(descriptor: Seq<char>, time: u128, error: Seq<char>) -> Seq<char> {
    "Expanding "@ + descriptor + " failed after "@ + decimal(time as nat) + "ms:\n    "@
        + indented(error)
}

/// What is said when running `action` went well after `time`
/// milliseconds.
pub open spec fn run_succeeded_text(action: Expanded, time: u128) -> Seq<char> {
    match action {
        Expanded::BuildPage { output, input, params, source } => "Successfully built "@ + output
            + " in "@ + decimal(time as nat) + "ms"@,
        Expanded::CopyFiles { to, from } => "Successfully copied "@ + from + " to "@ + to + " in "@
            + decimal(time as nat) + "ms"@,
    }
}

/// What is said when running `action` failed after `time` milliseconds
/// with the message `error`.
pub open spec fn run_failed_text(action: Expanded, time: u128, error: Seq<char>) -> Seq<char> {
    match action {
        Expanded::BuildPage { output, input, params, source } => "Building "@ + output
            + " failed after "@ + decimal(time as nat) + "ms:\n    "@ + indented(error),
        Expanded::CopyFiles { to, from } => "Copying "@ + from + " to "@ + to + " failed after "@
            + decimal(time as nat) + "ms:\n    "@ + indented(error),
    }
}

impl BuildAction {
    /// What to say when expanding this matrix failed after `time`
    /// milliseconds with `error`.
    pub fn message_expansion_failed(&self, time: u128, error: BuildError) -> (r: String)
        requires
            self is BuildMultiplePages,
        ensures
            error@.message() matches Some(m) ==> r@ == expansion_failed_text(
                self@->BuildMultiplePages_descriptor,
                time,
                m,
            ),
    {
        match self {
            BuildAction::BuildMultiplePages { descriptor, .. } => concat6(
                "Expanding ",
                descriptor.as_str(),
                " failed after ",
                decimal_text(time).as_str(),
                "ms:\n    ",
                indent(error.to_string().as_str()).as_str(),
            ),
            _ => String::new(),
        }
    }
}

impl BuildActionExpanded {
    /// What to say when running this action went well after `time`
    /// milliseconds.
    pub fn message_run_succeeded(&self, time: u128) -> (r: String)
        ensures
            r@ == run_succeeded_text(self@, time),
    {
        match self {
            BuildActionExpanded::BuildPage { output, .. } => concat5(
                "Successfully built ",
                output.as_str(),
                " in ",
                decimal_text(time).as_str(),
                "ms",
            ),
            BuildActionExpanded::CopyFiles { to, from } => {
                let head = concat4("Successfully copied ", from.as_str(), " to ", to.as_str());
                concat4(head.as_str(), " in ", decimal_text(time).as_str(), "ms")
            },
        }
    }

    /// What to say when running this action failed after `time`
    /// milliseconds with `error`.
    pub fn message_run_failed(&self, time: u128, error: BuildError) -> (r: String)
        ensures
            error@.message() matches Some(m) ==> r@ == run_failed_text(self@, time, m),
    {
        match self {
            BuildActionExpanded::BuildPage { output, .. } => concat6(
                "Building ",
                output.as_str(),
                " failed after ",
                decimal_text(time).as_str(),
                "ms:\n    ",
                indent(error.to_string().as_str()).as_str(),
            ),
            BuildActionExpanded::CopyFiles { to, from } => {
                let head = concat4("Copying ", from.as_str(), " to ", to.as_str());
                concat5(
                    head.as_str(),
                    " failed after ",
                    decimal_text(time).as_str(),
                    "ms:\n    ",
                    indent(error.to_string().as_str()).as_str(),
                )
            },
        }
    }
}

} // verus!
