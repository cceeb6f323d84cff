//! Templates: the syntax tree, the errors of rendering, and the renderer.

use vstd::prelude::*;
use vstd::string::*;
use crate::io::{
    FileError, FileFailure, ReadsFiles, Traced, World, consistent, extends,
    law_every_log_has_a_world, lemma_consistent_earlier, lemma_extends_trans, only_reads,
    world_of,
};
use crate::parsers::parse_template_string;
use crate::pipes::{
    CacheStatus, HostPipe, Pipe, PipeCall, PipeInputSource, PipeMap, copy_pipes,
    execute_pipes_in, pipe_cache_check, pipe_calls,
};
use crate::semantics::{
    MAX_PIPE_DEPTH, Entry, Item, arranged, cache_status, cached_text, catch, ended,
    entries_of_files,
    entries_of_files_at, entries_of_groupings, entries_of_values, env_of, filter_keeps,
    for_items, get_file_fresh, keys_of, refreshed, render_all, render_node, render_nodes,
    render_text,
    sort_key_of, sorted_order, sorted_place, texts_of, with_entries,
};
use crate::text::{
    bool_text, chars_of, concat2, concat3, concat4, concat5, concat6, decimal, decimal_text,
    followed, join_texts, lex_le_chars, texts,
};
use crate::yaml::{
    YamlFileError, YamlFileFailure, YamlMap, YamlValue, documents, insert_value,
    lookup_value, to_iterable, tostr,
};

verus! {

/// Where snippets are found and where output goes: two path prefixes.
pub struct TemplateContext {
    pub snippet_folder: String,
    pub output_folder: String,
}

/// A [`TemplateContext`] as a mathematical value.
pub struct Context {
    pub snippet_folder: Seq<char>,
    pub output_folder: Seq<char>,
}

impl View for TemplateContext {
    type V = Context;

    open spec fn view(&self) -> Context {
        Context { snippet_folder: self.snippet_folder@, output_folder: self.output_folder@ }
    }
}

/// The context with the default folders.
pub fn default_template_context() -> (r: TemplateContext)
    ensures
        r@ == (Context {
            snippet_folder: "resources/snippets/"@,
            output_folder: "build/"@,
        }),
{
    TemplateContext {
        snippet_folder: "resources/snippets/".to_owned(),
        output_folder: "build/".to_owned(),
    }
}

/// One step into a value.
#[derive(Debug, PartialEq, Eq)]
pub enum TemplateValueAccess {
    Field(String),
    Index(usize),
    IndexAt(TemplateValue),
}

/// A path to a value: a key of the parameters and steps into its value.
#[derive(Debug, PartialEq, Eq)]
pub struct TemplateValue {
    pub base: String,
    pub accesses: Vec<TemplateValueAccess>,
}

/// A [`TemplateValueAccess`] as a mathematical value.
pub enum Access {
    Field(Seq<char>),
    Index(usize),
    IndexAt(ValuePath),
}

/// A [`TemplateValue`] as a mathematical value.
pub struct ValuePath {
    pub base: Seq<char>,
    pub accesses: Seq<Access>,
}

impl TemplateValueAccess {
    /// The access that `self` stands for.
    pub open spec fn access(&self) -> Access
        decreases self,
    {
        match self {
            TemplateValueAccess::Field(name) => Access::Field(name@),
            TemplateValueAccess::Index(n) => Access::Index(*n),
            TemplateValueAccess::IndexAt(value) => Access::IndexAt(value.path()),
        }
    }
}

impl TemplateValue {
    /// The value path that `self` stands for.
    pub open spec fn path(&self) -> ValuePath
        decreases self,
    {
        ValuePath {
            base: self.base@,
            accesses: Seq::new(
                self.accesses@.len(),
                |i: int|
                    if 0 <= i < self.accesses@.len() {
                        self.accesses@[i].access()
                    } else {
                        Access::Index(0)
                    },
            ),
        }
    }
}

impl View for TemplateValueAccess {
    type V = Access;

    open spec fn view(&self) -> Access {
        self.access()
    }
}

impl View for TemplateValue {
    type V = ValuePath;

    open spec fn view(&self) -> ValuePath {
        self.path()
    }
}

/// The accesses that `accesses` stand for, element by element.
pub open spec fn accesses_of(accesses: Seq<TemplateValueAccess>) -> Seq<Access> {
    Seq::new(accesses.len(), |i: int| accesses[i]@)
}

/// The value paths that `values` stand for, element by element.
pub open spec fn paths_of(values: Seq<TemplateValue>) -> Seq<ValuePath> {
    Seq::new(values.len(), |i: int| values[i]@)
}

/// What a value path holds is the views of its parts.
pub proof fn lemma_path_view(value: TemplateValue)
    ensures
        value@ == (ValuePath { base: value.base@, accesses: accesses_of(value.accesses@) }),
{
    reveal_with_fuel(TemplateValue::path, 2);
    reveal_with_fuel(TemplateValueAccess::access, 2);
    assert(value@.accesses =~= accesses_of(value.accesses@));
}

/// What an access holds is the views of its parts.
pub proof fn lemma_access_view(access: TemplateValueAccess)
    ensures
        access@ == match access {
            TemplateValueAccess::Field(name) => Access::Field(name@),
            TemplateValueAccess::Index(n) => Access::Index(n),
            TemplateValueAccess::IndexAt(value) => Access::IndexAt(value@),
        },
{
    reveal_with_fuel(TemplateValue::path, 2);
    reveal_with_fuel(TemplateValueAccess::access, 2);
}

/// A value path as it is written: `base.f[3].g[i.x]`.
pub open spec fn path_text(p: ValuePath) -> Seq<char>
    decreases p, 0int,
{
    p.base + accesses_text(p.accesses, p.accesses.len() as int)
}

/// The first `n` of `accesses` as they are written, one after the other.
pub open spec fn accesses_text(accesses: Seq<Access>, n: int) -> Seq<char>
    decreases accesses, n,
{
    if n <= 0 || n > accesses.len() {
        Seq::empty()
    } else {
        accesses_text(accesses, n - 1) + access_text(accesses[n - 1])
    }
}

/// An access as it is written: `.f`, `[3]` or `[i.x]`.
pub open spec fn access_text(a: Access) -> Seq<char>
    decreases a, 0int,
{
    match a {
        Access::Field(f) => "."@ + f,
        Access::Index(n) => "["@ + crate::text::decimal(n as nat) + "]"@,
        Access::IndexAt(p) => "["@ + path_text(p) + "]"@,
    }
}

impl TemplateValueAccess {
    /// The access as it is written.
    pub fn to_string(&self) -> (r: String)
        ensures
            r@ == access_text(self@),
        decreases self,
    {
        proof {
            lemma_access_view(*self);
        }
        match self {
            TemplateValueAccess::Field(name) => concat2(".", name.as_str()),
            TemplateValueAccess::Index(n) => concat3(
                "[",
                crate::text::decimal_text(*n as u128).as_str(),
                "]",
            ),
            TemplateValueAccess::IndexAt(value) => concat3("[", value.to_string().as_str(), "]"),
        }
    }
}

impl TemplateValue {
    /// The path as it is written.
    pub fn to_string(&self) -> (r: String)
        ensures
            r@ == path_text(self@),
        decreases self,
    {
        let mut r: String = self.base.clone();
        let mut i: usize = 0;
        proof {
            lemma_path_view(*self);
        }
        while i < self.accesses.len()
            invariant
                i <= self.accesses.len(),
                self@ == (ValuePath { base: self.base@, accesses: accesses_of(self.accesses@) }),
                forall|j: int|
                    0 <= j < self.accesses.len() ==> decreases_to!(self => #[trigger] self.accesses@[j]),
                r@ == self.base@ + accesses_text(self@.accesses, i as int),
            decreases self.accesses.len() - i,
        {
            proof {
                lemma_access_view(self.accesses@[i as int]);
            }
            let ghost before = r@;
            let step = self.accesses[i].to_string();
            r.append(step.as_str());
            assert(r@ =~= self.base@ + accesses_text(self@.accesses, i as int + 1));
            i += 1;
        }
        r
    }

    /// A copy of `self`.
    pub fn copy(&self) -> (r: TemplateValue)
        ensures
            r@ == self@,
        decreases self,
    {
        let mut out: Vec<TemplateValueAccess> = Vec::new();
        let mut i: usize = 0;
        while i < self.accesses.len()
            invariant
                i <= self.accesses.len(),
                out@.len() == i,
                forall|j: int|
                    0 <= j < self.accesses.len() ==> decreases_to!(self => #[trigger] self.accesses@[j]),
                forall|j: int| 0 <= j < i ==> out@[j]@ == self.accesses@[j]@,
            decreases self.accesses.len() - i,
        {
            let step = match &self.accesses[i] {
                TemplateValueAccess::Field(name) => TemplateValueAccess::Field(name.clone()),
                TemplateValueAccess::Index(n) => TemplateValueAccess::Index(*n),
                TemplateValueAccess::IndexAt(value) => TemplateValueAccess::IndexAt(value.copy()),
            };
            proof {
                lemma_access_view(step);
                lemma_access_view(self.accesses@[i as int]);
            }
            out.push(step);
            i += 1;
        }
        let r = TemplateValue { base: self.base.clone(), accesses: out };
        proof {
            lemma_path_view(r);
            lemma_path_view(*self);
            assert(accesses_of(r.accesses@) =~= accesses_of(self.accesses@));
        }
        r
    }
}

impl Clone for TemplateValue {
    fn clone(&self) -> (r: TemplateValue)
        ensures
            r@ == self@,
    {
        self.copy()
    }
}

/// A value path with the pipes that its value goes through.
#[derive(Debug, PartialEq, Eq)]
pub struct TemplateValueWithPipe {
    pub value: TemplateValue,
    pub pipes: Vec<Pipe>,
}

/// A [`TemplateValueWithPipe`] as a mathematical value.
pub struct PipedPath {
    pub value: ValuePath,
    pub pipes: Seq<PipeCall>,
}

impl View for TemplateValueWithPipe {
    type V = PipedPath;

    open spec fn view(&self) -> PipedPath {
        PipedPath { value: self.value@, pipes: pipe_calls(self.pipes@) }
    }
}

/// The piped paths that `values` stand for, element by element.
pub open spec fn piped_paths_of(values: Seq<TemplateValueWithPipe>) -> Seq<PipedPath> {
    Seq::new(values.len(), |i: int| values[i]@)
}

/// What a loop runs over: values of the parameters, document files named
/// in the template, and document files named by values.
#[derive(Debug, PartialEq, Eq)]
pub struct ForGrouping {
    pub values: Vec<TemplateValueWithPipe>,
    pub filenames: Vec<String>,
    pub files_at: Vec<TemplateValue>,
}

/// A [`ForGrouping`] as a mathematical value.
pub struct Grouping {
    pub values: Seq<PipedPath>,
    pub filenames: Seq<Seq<char>>,
    pub files_at: Seq<ValuePath>,
}

impl View for ForGrouping {
    type V = Grouping;

    open spec fn view(&self) -> Grouping {
        Grouping {
            values: piped_paths_of(self.values@),
            filenames: crate::text::texts(self.filenames@),
            files_at: paths_of(self.files_at@),
        }
    }
}

/// The groupings that `groupings` stand for, element by element.
pub open spec fn groupings_of(groupings: Seq<ForGrouping>) -> Seq<Grouping> {
    Seq::new(groupings.len(), |i: int| groupings[i]@)
}

/// How a loop orders its entries and which of them it keeps.
#[derive(Debug, PartialEq, Eq)]
pub struct ForSortAndFilter {
    pub sort_key: Option<TemplateValue>,
    pub is_sort_ascending: bool,
    pub filter_includes: Option<TemplateValue>,
    pub filter_excludes: Option<TemplateValue>,
}

/// A [`ForSortAndFilter`] as a mathematical value.
pub struct SortFilter {
    pub sort_key: Option<ValuePath>,
    pub is_sort_ascending: bool,
    pub filter_includes: Option<ValuePath>,
    pub filter_excludes: Option<ValuePath>,
}

/// The view of an optional value path.
pub open spec fn optional_path(value: Option<TemplateValue>) -> Option<ValuePath> {
    match value {
        Some(v) => Some(v@),
        None => None,
    }
}

impl View for ForSortAndFilter {
    type V = SortFilter;

    open spec fn view(&self) -> SortFilter {
        SortFilter {
            sort_key: optional_path(self.sort_key),
            is_sort_ascending: self.is_sort_ascending,
            filter_includes: optional_path(self.filter_includes),
            filter_excludes: optional_path(self.filter_excludes),
        }
    }
}

/// A node of a template.
#[derive(Debug, PartialEq, Eq)]
pub enum TemplateElement {
    PlainText(String),
    Replace { value: TemplateValue, pipe: Vec<Pipe> },
    File { snippet: bool, filename: String, pipe: Vec<Pipe> },
    FileAt { snippet: bool, value: TemplateValue, value_pipe: Vec<Pipe>, contents_pipe: Vec<Pipe> },
    IfExists { value: TemplateValue, when_true: Vec<TemplateElement>, when_false: Vec<TemplateElement> },
    For {
        name: String,
        main: Vec<TemplateElement>,
        groupings: Vec<ForGrouping>,
        separator: Vec<TemplateElement>,
        sort_and_filter: ForSortAndFilter,
    },
    Into { value: TemplateValue, ast: Vec<TemplateElement> },
    LookupCatcher(Vec<Vec<TemplateElement>>),
}

/// A [`TemplateElement`] as a mathematical value.
pub enum Node {
    PlainText(Seq<char>),
    Replace { value: ValuePath, pipe: Seq<PipeCall> },
    File { snippet: bool, filename: Seq<char>, pipe: Seq<PipeCall> },
    FileAt { snippet: bool, value: ValuePath, value_pipe: Seq<PipeCall>, contents_pipe: Seq<PipeCall> },
    IfExists { value: ValuePath, when_true: Seq<Node>, when_false: Seq<Node> },
    For {
        name: Seq<char>,
        main: Seq<Node>,
        groupings: Seq<Grouping>,
        separator: Seq<Node>,
        sort_and_filter: SortFilter,
    },
    Into { value: ValuePath, ast: Seq<Node> },
    LookupCatcher(Seq<Seq<Node>>),
}

impl TemplateElement {
    /// The node that `self` stands for.
    pub open spec fn node(&self) -> Node
        decreases self,
    {
        match self {
            TemplateElement::PlainText(text) => Node::PlainText(text@),
            TemplateElement::Replace { value, pipe } => Node::Replace {
                value: value@,
                pipe: pipe_calls(pipe@),
            },
            TemplateElement::File { snippet, filename, pipe } => Node::File {
                snippet: *snippet,
                filename: filename@,
                pipe: pipe_calls(pipe@),
            },
            TemplateElement::FileAt { snippet, value, value_pipe, contents_pipe } => Node::FileAt {
                snippet: *snippet,
                value: value@,
                value_pipe: pipe_calls(value_pipe@),
                contents_pipe: pipe_calls(contents_pipe@),
            },
            TemplateElement::IfExists { value, when_true, when_false } => Node::IfExists {
                value: value@,
                when_true: Seq::new(
                    when_true@.len(),
                    |i: int|
                        if 0 <= i < when_true@.len() {
                            when_true@[i].node()
                        } else {
                            Node::PlainText(Seq::empty())
                        },
                ),
                when_false: Seq::new(
                    when_false@.len(),
                    |i: int|
                        if 0 <= i < when_false@.len() {
                            when_false@[i].node()
                        } else {
                            Node::PlainText(Seq::empty())
                        },
                ),
            },
            TemplateElement::For { name, main, groupings, separator, sort_and_filter } => Node::For {
                name: name@,
                main: Seq::new(
                    main@.len(),
                    |i: int|
                        if 0 <= i < main@.len() {
                            main@[i].node()
                        } else {
                            Node::PlainText(Seq::empty())
                        },
                ),
                groupings: groupings_of(groupings@),
                separator: Seq::new(
                    separator@.len(),
                    |i: int|
                        if 0 <= i < separator@.len() {
                            separator@[i].node()
                        } else {
                            Node::PlainText(Seq::empty())
                        },
                ),
                sort_and_filter: sort_and_filter@,
            },
            TemplateElement::Into { value, ast } => Node::Into {
                value: value@,
                ast: Seq::new(
                    ast@.len(),
                    |i: int|
                        if 0 <= i < ast@.len() {
                            ast@[i].node()
                        } else {
                            Node::PlainText(Seq::empty())
                        },
                ),
            },
            TemplateElement::LookupCatcher(alternatives) => Node::LookupCatcher(
                Seq::new(
                    alternatives@.len(),
                    |i: int|
                        if 0 <= i < alternatives@.len() {
                            Seq::new(
                                alternatives@[i]@.len(),
                                |j: int|
                                    if 0 <= j < alternatives@[i]@.len() {
                                        alternatives@[i]@[j].node()
                                    } else {
                                        Node::PlainText(Seq::empty())
                                    },
                            )
                        } else {
                            Seq::empty()
                        },
                ),
            ),
        }
    }
}

impl View for TemplateElement {
    type V = Node;

    open spec fn view(&self) -> Node {
        self.node()
    }
}

/// The nodes that `elements` stand for, element by element.
pub open spec fn nodes_of(elements: Seq<TemplateElement>) -> Seq<Node> {
    Seq::new(elements.len(), |i: int| elements[i]@)
}

/// The node sequences that `alternatives` stand for, element by element.
pub open spec fn alternatives_of(alternatives: Seq<Vec<TemplateElement>>) -> Seq<Seq<Node>> {
    Seq::new(alternatives.len(), |i: int| nodes_of(alternatives[i]@))
}

/// What a node holds is the views of its parts.
pub proof fn lemma_node_view(element: TemplateElement)
    ensures
        element@ == match element {
            TemplateElement::PlainText(text) => Node::PlainText(text@),
            TemplateElement::Replace { value, pipe } => Node::Replace {
                value: value@,
                pipe: pipe_calls(pipe@),
            },
            TemplateElement::File { snippet, filename, pipe } => Node::File {
                snippet,
                filename: filename@,
                pipe: pipe_calls(pipe@),
            },
            TemplateElement::FileAt { snippet, value, value_pipe, contents_pipe } => Node::FileAt {
                snippet,
                value: value@,
                value_pipe: pipe_calls(value_pipe@),
                contents_pipe: pipe_calls(contents_pipe@),
            },
            TemplateElement::IfExists { value, when_true, when_false } => Node::IfExists {
                value: value@,
                when_true: nodes_of(when_true@),
                when_false: nodes_of(when_false@),
            },
            TemplateElement::For { name, main, groupings, separator, sort_and_filter } => Node::For {
                name: name@,
                main: nodes_of(main@),
                groupings: groupings_of(groupings@),
                separator: nodes_of(separator@),
                sort_and_filter: sort_and_filter@,
            },
            TemplateElement::Into { value, ast } => Node::Into { value: value@, ast: nodes_of(ast@) },
            TemplateElement::LookupCatcher(alternatives) => Node::LookupCatcher(
                alternatives_of(alternatives@),
            ),
        },
{
    reveal_with_fuel(TemplateElement::node, 2);
    match element {
        TemplateElement::IfExists { value, when_true, when_false } => {
            assert(element@->IfExists_when_true =~= nodes_of(when_true@));
            assert(element@->IfExists_when_false =~= nodes_of(when_false@));
        },
        TemplateElement::For { name, main, groupings, separator, sort_and_filter } => {
            assert(element@->For_main =~= nodes_of(main@));
            assert(element@->For_separator =~= nodes_of(separator@));
        },
        TemplateElement::Into { value, ast } => {
            assert(element@->Into_ast =~= nodes_of(ast@));
        },
        TemplateElement::LookupCatcher(alternatives) => {
            assert forall|i: int| 0 <= i < alternatives@.len() implies element@->LookupCatcher_0[i]
                == alternatives_of(alternatives@)[i] by {
                assert(element@->LookupCatcher_0[i] =~= nodes_of(alternatives@[i]@));
            }
            assert(element@->LookupCatcher_0 =~= alternatives_of(alternatives@));
        },
        _ => {},
    }
}

impl Clone for TemplateValueAccess {
    fn clone(&self) -> (r: TemplateValueAccess)
        ensures
            r@ == self@,
    {
        proof {
            lemma_access_view(*self);
        }
        let r = match self {
            TemplateValueAccess::Field(name) => TemplateValueAccess::Field(name.clone()),
            TemplateValueAccess::Index(n) => TemplateValueAccess::Index(*n),
            TemplateValueAccess::IndexAt(value) => TemplateValueAccess::IndexAt(value.copy()),
        };
        proof {
            lemma_access_view(r);
        }
        r
    }
}

impl Clone for TemplateValueWithPipe {
    fn clone(&self) -> (r: TemplateValueWithPipe)
        ensures
            r@ == self@,
    {
        TemplateValueWithPipe { value: self.value.copy(), pipes: copy_pipes(&self.pipes) }
    }
}

/// A copy of an optional value path.
fn copy_optional_path(value: &Option<TemplateValue>) -> (r: Option<TemplateValue>)
    ensures
        optional_path(r) == optional_path(*value),
{
    match value {
        Some(v) => Some(v.copy()),
        None => None,
    }
}

impl Clone for ForSortAndFilter {
    fn clone(&self) -> (r: ForSortAndFilter)
        ensures
            r@ == self@,
    {
        ForSortAndFilter {
            sort_key: copy_optional_path(&self.sort_key),
            is_sort_ascending: self.is_sort_ascending,
            filter_includes: copy_optional_path(&self.filter_includes),
            filter_excludes: copy_optional_path(&self.filter_excludes),
        }
    }
}

impl Clone for ForGrouping {
    fn clone(&self) -> (r: ForGrouping)
        ensures
            r@ == self@,
    {
        let mut values: Vec<TemplateValueWithPipe> = Vec::new();
        let mut i: usize = 0;
        while i < self.values.len()
            invariant
                i <= self.values.len(),
                values.len() == i,
                forall|j: int| 0 <= j < i ==> values@[j]@ == self.values@[j]@,
            decreases self.values.len() - i,
        {
            values.push(self.values[i].clone());
            i += 1;
        }
        let mut files_at: Vec<TemplateValue> = Vec::new();
        let mut i: usize = 0;
        while i < self.files_at.len()
            invariant
                i <= self.files_at.len(),
                files_at.len() == i,
                forall|j: int| 0 <= j < i ==> files_at@[j]@ == self.files_at@[j]@,
            decreases self.files_at.len() - i,
        {
            files_at.push(self.files_at[i].copy());
            i += 1;
        }
        let r = ForGrouping {
            values,
            filenames: crate::pipes::copy_texts(&self.filenames),
            files_at,
        };
        assert(piped_paths_of(r.values@) =~= piped_paths_of(self.values@));
        assert(paths_of(r.files_at@) =~= paths_of(self.files_at@));
        r
    }
}

/// A copy of `elements`.
pub fn copy_elements(elements: &Vec<TemplateElement>) -> (r: Vec<TemplateElement>)
    ensures
        nodes_of(r@) == nodes_of(elements@),
    decreases elements,
{
    let mut out: Vec<TemplateElement> = Vec::new();
    let mut i: usize = 0;
    while i < elements.len()
        invariant
            i <= elements.len(),
            out.len() == i,
            forall|j: int| 0 <= j < i ==> out@[j]@ == elements@[j]@,
        decreases elements.len() - i,
    {
        out.push(elements[i].copy());
        i += 1;
    }
    assert(nodes_of(out@) =~= nodes_of(elements@));
    out
}

impl TemplateElement {
    /// A copy of `self`.
    pub fn copy(&self) -> (r: TemplateElement)
        ensures
            r@ == self@,
        decreases self,
    {
        proof {
            lemma_node_view(*self);
        }
        let r = match self {
            TemplateElement::PlainText(text) => TemplateElement::PlainText(text.clone()),
            TemplateElement::Replace { value, pipe } => TemplateElement::Replace {
                value: value.copy(),
                pipe: copy_pipes(pipe),
            },
            TemplateElement::File { snippet, filename, pipe } => TemplateElement::File {
                snippet: *snippet,
                filename: filename.clone(),
                pipe: copy_pipes(pipe),
            },
            TemplateElement::FileAt {
                snippet,
                value,
                value_pipe,
                contents_pipe,
            } => TemplateElement::FileAt {
                snippet: *snippet,
                value: value.copy(),
                value_pipe: copy_pipes(value_pipe),
                contents_pipe: copy_pipes(contents_pipe),
            },
            TemplateElement::IfExists { value, when_true, when_false } => TemplateElement::IfExists {
                value: value.copy(),
                when_true: copy_elements(when_true),
                when_false: copy_elements(when_false),
            },
            TemplateElement::For { name, main, groupings, separator, sort_and_filter } => {
                let mut groups: Vec<ForGrouping> = Vec::new();
                let mut i: usize = 0;
                while i < groupings.len()
                    invariant
                        i <= groupings.len(),
                        groups.len() == i,
                        forall|j: int| 0 <= j < i ==> groups@[j]@ == groupings@[j]@,
                    decreases groupings.len() - i,
                {
                    groups.push(groupings[i].clone());
                    i += 1;
                }
                assert(groupings_of(groups@) =~= groupings_of(groupings@));
                TemplateElement::For {
                    name: name.clone(),
                    main: copy_elements(main),
                    groupings: groups,
                    separator: copy_elements(separator),
                    sort_and_filter: sort_and_filter.clone(),
                }
            },
            TemplateElement::Into { value, ast } => TemplateElement::Into {
                value: value.copy(),
                ast: copy_elements(ast),
            },
            TemplateElement::LookupCatcher(alternatives) => {
                let mut out: Vec<Vec<TemplateElement>> = Vec::new();
                let mut i: usize = 0;
                while i < alternatives.len()
                    invariant
                        i <= alternatives.len(),
                        out.len() == i,
                        forall|j: int|
                            0 <= j < alternatives.len() ==> decreases_to!(self => #[trigger] alternatives@[j]),
                        forall|j: int|
                            0 <= j < i ==> nodes_of(out@[j]@) == nodes_of(alternatives@[j]@),
                    decreases alternatives.len() - i,
                {
                    out.push(copy_elements(&alternatives[i]));
                    i += 1;
                }
                assert(alternatives_of(out@) =~= alternatives_of(alternatives@));
                TemplateElement::LookupCatcher(out)
            },
        };
        proof {
            lemma_node_view(r);
        }
        r
    }
}

impl Clone for TemplateElement {
    fn clone(&self) -> (r: TemplateElement)
        ensures
            r@ == self@,
    {
        self.copy()
    }
}

/// What can go wrong when a template is rendered.
#[derive(Debug, PartialEq, Eq)]
pub enum TemplateError {
    FileError(FileError),
    FileErrorDerivedFrom(FileError, TemplateValue),
    YamlFileError(YamlFileError),
    OnForLoopIteration(Box<TemplateError>, String),
    OnForLoopIterationSortKey(Box<TemplateError>, String),
    OnForLoopIterationIncludeKey(Box<TemplateError>, String),
    OnForLoopIterationExcludeKey(Box<TemplateError>, String),
    InIfExistsLoop(Box<TemplateError>, TemplateValue, bool),
    InIntoStatement(Box<TemplateError>, TemplateValue),
    IntoValueNotHash(TemplateValue),
    KeyNotPresent(String),
    KeyNotString(String),
    ParseError(String),
    SerialisationError(String),
    IndexOOB(String, usize),
    IndexWithNonIntegerValue(String, TemplateValue),
    FieldNotPresent(String, String),
    IndexOnUnindexable(String, usize),
    FieldOnUnfieldable(String, String),
    ForOnUnindexable(String),
    PipeMissing(String),
    PipeExecutionError(String, String, usize, String),
    WithinTemplatePipe(Box<TemplateError>, usize, String),
    WithinTemplateNamedPipe(Box<TemplateError>, String, usize, String),
    /// Templates called templates through pipes more deeply than the
    /// engine follows.
    PipesNestedTooDeep,
    UnknownError,
}

/// A [`TemplateError`] as a mathematical value.
pub enum Failure {
    FileError(FileFailure),
    FileErrorDerivedFrom(FileFailure, ValuePath),
    YamlFileError(YamlFileFailure),
    OnForLoopIteration(Box<Failure>, Seq<char>),
    OnForLoopIterationSortKey(Box<Failure>, Seq<char>),
    OnForLoopIterationIncludeKey(Box<Failure>, Seq<char>),
    OnForLoopIterationExcludeKey(Box<Failure>, Seq<char>),
    InIfExistsLoop(Box<Failure>, ValuePath, bool),
    InIntoStatement(Box<Failure>, ValuePath),
    IntoValueNotHash(ValuePath),
    KeyNotPresent(Seq<char>),
    KeyNotString(Seq<char>),
    ParseError(Seq<char>),
    SerialisationError(Seq<char>),
    IndexOOB(Seq<char>, usize),
    IndexWithNonIntegerValue(Seq<char>, ValuePath),
    FieldNotPresent(Seq<char>, Seq<char>),
    IndexOnUnindexable(Seq<char>, usize),
    FieldOnUnfieldable(Seq<char>, Seq<char>),
    ForOnUnindexable(Seq<char>),
    PipeMissing(Seq<char>),
    PipeExecutionError(Seq<char>, Seq<char>, usize, Seq<char>),
    WithinTemplatePipe(Box<Failure>, usize, Seq<char>),
    WithinTemplateNamedPipe(Box<Failure>, Seq<char>, usize, Seq<char>),
    PipesNestedTooDeep,
    UnknownError,
}

impl TemplateError {
    /// The failure that `self` stands for.
    pub open spec fn failure(&self) -> Failure
        decreases self,
    {
        match self {
            TemplateError::FileError(e) => Failure::FileError(e@),
            TemplateError::FileErrorDerivedFrom(e, v) => Failure::FileErrorDerivedFrom(e@, v@),
            TemplateError::YamlFileError(e) => Failure::YamlFileError(e@),
            TemplateError::OnForLoopIteration(e, s) => Failure::OnForLoopIteration(
                Box::new(e.failure()),
                s@,
            ),
            TemplateError::OnForLoopIterationSortKey(e, s) => Failure::OnForLoopIterationSortKey(
                Box::new(e.failure()),
                s@,
            ),
            TemplateError::OnForLoopIterationIncludeKey(
                e,
                s,
            ) => Failure::OnForLoopIterationIncludeKey(Box::new(e.failure()), s@),
            TemplateError::OnForLoopIterationExcludeKey(
                e,
                s,
            ) => Failure::OnForLoopIterationExcludeKey(Box::new(e.failure()), s@),
            TemplateError::InIfExistsLoop(e, v, b) => Failure::InIfExistsLoop(
                Box::new(e.failure()),
                v@,
                *b,
            ),
            TemplateError::InIntoStatement(e, v) => Failure::InIntoStatement(
                Box::new(e.failure()),
                v@,
            ),
            TemplateError::IntoValueNotHash(v) => Failure::IntoValueNotHash(v@),
            TemplateError::KeyNotPresent(s) => Failure::KeyNotPresent(s@),
            TemplateError::KeyNotString(s) => Failure::KeyNotString(s@),
            TemplateError::ParseError(s) => Failure::ParseError(s@),
            TemplateError::SerialisationError(s) => Failure::SerialisationError(s@),
            TemplateError::IndexOOB(s, n) => Failure::IndexOOB(s@, *n),
            TemplateError::IndexWithNonIntegerValue(s, v) => Failure::IndexWithNonIntegerValue(
                s@,
                v@,
            ),
            TemplateError::FieldNotPresent(s, f) => Failure::FieldNotPresent(s@, f@),
            TemplateError::IndexOnUnindexable(s, n) => Failure::IndexOnUnindexable(s@, *n),
            TemplateError::FieldOnUnfieldable(s, f) => Failure::FieldOnUnfieldable(s@, f@),
            TemplateError::ForOnUnindexable(s) => Failure::ForOnUnindexable(s@),
            TemplateError::PipeMissing(s) => Failure::PipeMissing(s@),
            TemplateError::PipeExecutionError(e, name, n, on) => Failure::PipeExecutionError(
                e@,
                name@,
                *n,
                on@,
            ),
            TemplateError::WithinTemplatePipe(e, n, on) => Failure::WithinTemplatePipe(
                Box::new(e.failure()),
                *n,
                on@,
            ),
            TemplateError::WithinTemplateNamedPipe(
                e,
                name,
                n,
                on,
            ) => Failure::WithinTemplateNamedPipe(Box::new(e.failure()), name@, *n, on@),
            TemplateError::PipesNestedTooDeep => Failure::PipesNestedTooDeep,
            TemplateError::UnknownError => Failure::UnknownError,
        }
    }
}

impl View for TemplateError {
    type V = Failure;

    open spec fn view(&self) -> Failure {
        self.failure()
    }
}

impl Failure {
    /// The message that names the failure, where no part of it is the
    /// YAML scanner's own: what went wrong, and then line by line where.
    pub open spec fn message(self) -> Option<Seq<char>>
        decreases self,
    {
        match self {
            Failure::UnknownError => Some("An unknown error occured."@),
            Failure::PipesNestedTooDeep => Some(
                "Templates call templates through pipes too deeply."@,
            ),
            Failure::FileError(e) => Some(e.message()),
            Failure::FileErrorDerivedFrom(e, v) => Some(
                e.message() + " (derived from \""@ + path_text(v) + "\")"@,
            ),
            Failure::YamlFileError(e) => e.message(),
            Failure::OnForLoopIteration(e, v) => followed(
                followed(e.message(), "\nwithin for loop entry "@),
                v,
            ),
            Failure::OnForLoopIterationSortKey(e, v) => followed(
                followed(e.message(), "\nwhen getting the sorting key for loop entry "@),
                v,
            ),
            Failure::OnForLoopIterationIncludeKey(e, v) => followed(
                followed(e.message(), "\nwhen getting the include key for loop entry "@),
                v,
            ),
            Failure::OnForLoopIterationExcludeKey(e, v) => followed(
                followed(e.message(), "\nwhen getting the exclude key for loop entry "@),
                v,
            ),
            Failure::InIfExistsLoop(e, v, b) => followed(
                followed(
                    followed(
                        followed(followed(e.message(), "\nwithin the "@), bool_text(b)),
                        " branch of checking if "@,
                    ),
                    path_text(v),
                ),
                " exists"@,
            ),
            Failure::InIntoStatement(e, v) => followed(
                followed(e.message(), "\nwhen params are derived from "@),
                path_text(v),
            ),
            Failure::IntoValueNotHash(v) => Some(
                "Can't use "@ + path_text(v) + " with an into statement as it's not an object"@,
            ),
            Failure::KeyNotPresent(s) => Some(
                "The key \""@ + s + "\" was not present in the parameters."@,
            ),
            Failure::KeyNotString(s) => Some(
                "The key \""@ + s + "\" in the parameters was not a string."@,
            ),
            Failure::ParseError(s) => Some("Parsing the templating text failed: "@ + s),
            Failure::SerialisationError(s) => Some("Failed to serialise a value: "@ + s),
            Failure::IndexOOB(s, n) => Some(
                "Index "@ + decimal(n as nat) + " of "@ + s + " is out of bounds"@,
            ),
            Failure::IndexWithNonIntegerValue(s, v) => Some(
                path_text(v) + " isn't an integer, so it can't index "@ + s,
            ),
            Failure::IndexOnUnindexable(s, n) => Some(
                s + " isn't indexable, so can't be indexed at "@ + decimal(n as nat),
            ),
            Failure::FieldNotPresent(s, f) => Some(s + " has no property named "@ + f),
            Failure::FieldOnUnfieldable(s, f) => Some(
                s + " has no properties, so field "@ + f + " can't be accessed"@,
            ),
            Failure::ForOnUnindexable(s) => Some(
                "Can't do a for loop on "@ + s + " as it's not indexable"@,
            ),
            Failure::PipeMissing(s) => Some("Can't use pipe "@ + s + " as it doesn't exist"@),
            Failure::PipeExecutionError(e, name, n, on) => Some(
                "Error running pipe \""@ + name + "\" as pipe "@ + decimal(n as nat) + " on "@ + on
                    + ": "@ + e,
            ),
            Failure::WithinTemplatePipe(e, n, on) => followed(
                followed(
                    followed(
                        followed(
                            e.message(),
                            "\nwhen running the default templating pipe as pipe "@,
                        ),
                        decimal(n as nat),
                    ),
                    " on "@,
                ),
                on,
            ),
            Failure::WithinTemplateNamedPipe(e, name, n, on) => followed(
                followed(
                    followed(
                        followed(
                            followed(
                                followed(e.message(), "\nwhen running templating pipe \""@),
                                name,
                            ),
                            "\" as pipe "@,
                        ),
                        decimal(n as nat),
                    ),
                    " on "@,
                ),
                on,
            ),
        }
    }
}

impl TemplateError {
    /// The message that names the error: what went wrong, and then line
    /// by line where.
    pub fn to_string(&self) -> (r: String)
        ensures
            self@.message() matches Some(m) ==> r@ == m,
        decreases self,
    {
        match self {
            TemplateError::UnknownError => "An unknown error occured.".to_owned(),
            TemplateError::PipesNestedTooDeep => "Templates call templates through pipes too deeply.".to_owned(),
            TemplateError::FileError(err) => err.to_string(),
            TemplateError::FileErrorDerivedFrom(err, value) => concat4(
                err.to_string().as_str(),
                " (derived from \"",
                value.to_string().as_str(),
                "\")",
            ),
            TemplateError::YamlFileError(err) => err.to_string(),
            TemplateError::OnForLoopIteration(err, value) => concat3(
                err.to_string().as_str(),
                "\nwithin for loop entry ",
                value.as_str(),
            ),
            TemplateError::OnForLoopIterationSortKey(err, value) => concat3(
                err.to_string().as_str(),
                "\nwhen getting the sorting key for loop entry ",
                value.as_str(),
            ),
            TemplateError::OnForLoopIterationIncludeKey(err, value) => concat3(
                err.to_string().as_str(),
                "\nwhen getting the include key for loop entry ",
                value.as_str(),
            ),
            TemplateError::OnForLoopIterationExcludeKey(err, value) => concat3(
                err.to_string().as_str(),
                "\nwhen getting the exclude key for loop entry ",
                value.as_str(),
            ),
            TemplateError::InIfExistsLoop(err, value, truthiness) => concat6(
                err.to_string().as_str(),
                "\nwithin the ",
                if *truthiness {
                    "true"
                } else {
                    "false"
                },
                " branch of checking if ",
                value.to_string().as_str(),
                " exists",
            ),
            TemplateError::InIntoStatement(err, value) => concat3(
                err.to_string().as_str(),
                "\nwhen params are derived from ",
                value.to_string().as_str(),
            ),
            TemplateError::IntoValueNotHash(value) => concat3(
                "Can't use ",
                value.to_string().as_str(),
                " with an into statement as it's not an object",
            ),
            TemplateError::KeyNotPresent(strr) => concat3(
                "The key \"",
                strr.as_str(),
                "\" was not present in the parameters.",
            ),
            TemplateError::KeyNotString(strr) => concat3(
                "The key \"",
                strr.as_str(),
                "\" in the parameters was not a string.",
            ),
            TemplateError::ParseError(strr) => concat2(
                "Parsing the templating text failed: ",
                strr.as_str(),
            ),
            TemplateError::SerialisationError(strr) => concat2(
                "Failed to serialise a value: ",
                strr.as_str(),
            ),
            TemplateError::IndexOOB(strr, idx) => concat5(
                "Index ",
                decimal_text(*idx as u128).as_str(),
                " of ",
                strr.as_str(),
                " is out of bounds",
            ),
            TemplateError::IndexWithNonIntegerValue(strr, idx) => concat3(
                idx.to_string().as_str(),
                " isn't an integer, so it can't index ",
                strr.as_str(),
            ),
            TemplateError::IndexOnUnindexable(strr, idx) => concat3(
                strr.as_str(),
                " isn't indexable, so can't be indexed at ",
                decimal_text(*idx as u128).as_str(),
            ),
            TemplateError::FieldNotPresent(strr, idx) => concat3(
                strr.as_str(),
                " has no property named ",
                idx.as_str(),
            ),
            TemplateError::FieldOnUnfieldable(strr, idx) => concat4(
                strr.as_str(),
                " has no properties, so field ",
                idx.as_str(),
                " can't be accessed",
            ),
            TemplateError::ForOnUnindexable(strr) => concat3(
                "Can't do a for loop on ",
                strr.as_str(),
                " as it's not indexable",
            ),
            TemplateError::PipeMissing(strr) => concat3(
                "Can't use pipe ",
                strr.as_str(),
                " as it doesn't exist",
            ),
            TemplateError::PipeExecutionError(error, pipename, pipeindex, path) => {
                let head = concat6(
                    "Error running pipe \"",
                    pipename.as_str(),
                    "\" as pipe ",
                    decimal_text(*pipeindex as u128).as_str(),
                    " on ",
                    path.as_str(),
                );
                concat3(head.as_str(), ": ", error.as_str())
            },
            TemplateError::WithinTemplatePipe(error, pipeindex, path) => concat5(
                error.to_string().as_str(),
                "\nwhen running the default templating pipe as pipe ",
                decimal_text(*pipeindex as u128).as_str(),
                " on ",
                path.as_str(),
            ),
            TemplateError::WithinTemplateNamedPipe(error, pipename, pipeindex, path) => {
                let head = concat6(
                    error.to_string().as_str(),
                    "\nwhen running templating pipe \"",
                    pipename.as_str(),
                    "\" as pipe ",
                    decimal_text(*pipeindex as u128).as_str(),
                    " on ",
                );
                concat2(head.as_str(), path.as_str())
            },
        }
    }
}

/// The view of a rendering's outcome.
pub open spec fn rendered(r: Result<String, TemplateError>) -> Result<Seq<char>, Failure> {
    match r {
        Ok(s) => Ok(s@),
        Err(e) => Err(e@),
    }
}

/// Whether `f` says that a looked-up value is absent: a missing key, a
/// missing field, or an index out of bounds.
pub open spec fn is_absence(f: Failure) -> bool {
    f is KeyNotPresent || f is FieldNotPresent || f is IndexOOB
}

/// Where the entries of a loop come from.
#[derive(Debug, PartialEq, Eq)]
pub enum ForIterationType<'a> {
    Values(&'a TemplateValue),
    Filenames(&'a str),
    FileAt(&'a TemplateValue, String),
}

/// A [`ForIterationType`] as a mathematical value.
pub enum IterationSource {
    Values(ValuePath),
    Filenames(Seq<char>),
    FileAt(ValuePath, Seq<char>),
}

impl<'a> View for ForIterationType<'a> {
    type V = IterationSource;

    open spec fn view(&self) -> IterationSource {
        match self {
            ForIterationType::Values(v) => IterationSource::Values(v@),
            ForIterationType::Filenames(f) => IterationSource::Filenames(f@),
            ForIterationType::FileAt(v, f) => IterationSource::FileAt(v@, f@),
        }
    }
}

impl IterationSource {
    /// The source as it is named in messages.
    pub open spec fn text(self) -> Seq<char> {
        match self {
            IterationSource::FileAt(value, filename) => "file \""@ + filename
                + "\" derived from \""@ + path_text(value) + "\""@,
            IterationSource::Filenames(filename) => "file \""@ + filename + "\""@,
            IterationSource::Values(value) => "\""@ + path_text(value) + "\""@,
        }
    }
}

impl<'a> ForIterationType<'a> {
    /// The source as it is named in messages.
    pub fn to_string(&self) -> (r: String)
        ensures
            r@ == self@.text(),
    {
        match self {
            ForIterationType::FileAt(value, filename) => {
                let mut r: String = "file \"".to_owned();
                r.append(filename.as_str());
                r.append("\" derived from \"");
                let v = value.to_string();
                r.append(v.as_str());
                r.append("\"");
                r
            },
            ForIterationType::Filenames(filename) => {
                let mut r: String = "file \"".to_owned();
                r.append(filename);
                r.append("\"");
                r
            },
            ForIterationType::Values(value) => {
                let mut r: String = "\"".to_owned();
                let v = value.to_string();
                r.append(v.as_str());
                r.append("\"");
                r
            },
        }
    }
}

impl TemplateError {
    /// Whether `self` says that a looked-up value is absent.
    pub fn is_lookup_error(&self) -> (r: bool)
        ensures
            r == is_absence(self@),
    {
        match self {
            TemplateError::KeyNotPresent(_) => true,
            TemplateError::FieldNotPresent(_, _) => true,
            TemplateError::IndexOOB(_, _) => true,
            _ => false,
        }
    }
}

/// Reads the file `filename`, sends its text through `pipes`, and gives
/// the text of what comes out.
pub fn get_file2<H: HostPipe, R: ReadsFiles>(
    filename: &str,
    pipes: &Vec<Pipe>,
    params: &YamlMap,
    pipemap: &PipeMap<H>,
    io: &mut Traced<R>,
    context: &TemplateContext,
    depth: usize,
) -> (r: Result<String, TemplateError>)
    ensures
        extends(final(io).log(), old(io).log()),
        forall|w: World| #[trigger]
            consistent(final(io).log(), w) ==> get_file_fresh(
                filename@,
                pipe_calls(pipes@),
                params@,
                env_of(pipemap@, context@, w),
                depth as nat,
                old(io).log().len(),
            ) == ended(rendered(r), final(io).log()),
    decreases depth, 2int, Seq::<Node>::empty(), 0int,
{
    let ghost log0 = io.log();
    match io.read(filename) {
        Ok(strr) => {
            let ghost log1 = io.log();
            let piped = execute_pipes_in(
                &YamlValue::String(strr),
                pipes,
                params,
                &PipeInputSource::File(filename),
                pipemap,
                io,
                context,
                depth,
            );
            let r = match piped {
                Err(ee) => Err(ee),
                Ok(value) => tostr(&value),
            };
            proof {
                lemma_extends_trans(log0, log1, io.log());
                assert forall|w: World| #[trigger] consistent(io.log(), w) implies get_file_fresh(
                    filename@,
                    pipe_calls(pipes@),
                    params@,
                    env_of(pipemap@, context@, w),
                    depth as nat,
                    log0.len(),
                ) == ended(rendered(r), io.log()) by {
                    lemma_consistent_earlier(io.log(), log1, w);
                }
            }
            r
        },
        Err(ee) => Err(TemplateError::FileError(ee)),
    }
}

/// Reads the cache file `full` of a piped file.
fn read_cached<R: ReadsFiles>(full: &str, io: &mut Traced<R>) -> (r: Result<String, TemplateError>)
    ensures
        extends(final(io).log(), old(io).log()),
        forall|w: World| #[trigger]
            consistent(final(io).log(), w) ==> cached_text(full@, w, old(io).log().len())
                == ended(rendered(r), final(io).log()),
        final(io).log().len() == old(io).log().len() + 1,
        final(io).log()[old(io).log().len() as int] is Read,
{
    match io.read(full) {
        Ok(text) => Ok(text),
        Err(ee) => Err(TemplateError::FileError(ee)),
    }
}

/// Makes the text of the file `filename` after `pipes` afresh and writes
/// it to the cache file `full`.
fn refresh_cache<H: HostPipe, R: ReadsFiles>(
    full: &str,
    filename: &str,
    pipes: &Vec<Pipe>,
    params: &YamlMap,
    pipemap: &PipeMap<H>,
    io: &mut Traced<R>,
    context: &TemplateContext,
    depth: usize,
) -> (r: Result<String, TemplateError>)
    ensures
        extends(final(io).log(), old(io).log()),
        forall|w: World| #[trigger]
            consistent(final(io).log(), w) ==> refreshed(
                full@,
                filename@,
                pipe_calls(pipes@),
                params@,
                env_of(pipemap@, context@, w),
                depth as nat,
                old(io).log().len(),
            ) == ended(rendered(r), final(io).log()),
    decreases depth, 2int, Seq::<Node>::empty(), 1int,
{
    let ghost log0 = io.log();
    match get_file2(filename, pipes, params, pipemap, io, context, depth) {
        Err(ee) => Err(ee),
        Ok(result) => {
            let ghost log1 = io.log();
            let written = io.write(full, result.as_str());
            proof {
                lemma_extends_trans(log0, log1, io.log());
                assert forall|w: World| #[trigger] consistent(io.log(), w) implies consistent(
                    log1,
                    w,
                ) by {
                    lemma_consistent_earlier(io.log(), log1, w);
                }
            }
            match written {
                Err(ee) => Err(TemplateError::FileError(ee)),
                Ok(_) => Ok(result),
            }
        },
    }
}

/// The text of the file `filename` after `pipes`: from the cache where
/// that is up to date, and else made afresh and written to the cache
/// where it can be cached. Where the cache is up to date, the file system
/// is only asked for times and read.
pub fn get_file<H: HostPipe, R: ReadsFiles>(
    filename: &str,
    pipes: &Vec<Pipe>,
    params: &YamlMap,
    pipemap: &PipeMap<H>,
    io: &mut Traced<R>,
    context: &TemplateContext,
    depth: usize,
) -> (r: Result<String, TemplateError>)
    ensures
        extends(final(io).log(), old(io).log()),
        forall|w: World| #[trigger]
            consistent(final(io).log(), w) ==> crate::semantics::get_file(
                filename@,
                pipe_calls(pipes@),
                params@,
                env_of(pipemap@, context@, w),
                depth as nat,
                old(io).log().len(),
            ) == ended(rendered(r), final(io).log()),
        forall|w: World| #[trigger]
            consistent(final(io).log(), w) ==> (cache_status(
                filename@,
                pipe_calls(pipes@),
                pipemap@,
                w,
                old(io).log().len(),
            ).0 is UpToDate ==> only_reads(final(io).log(), old(io).log().len() as int)),
    decreases depth, 2int, Seq::<Node>::empty(), 2int,
{
    let ghost log0 = io.log();
    let status = pipe_cache_check(filename, pipes, pipemap, io);
    let ghost log1 = io.log();
    let ghost hit = status@ is UpToDate;
    let r = match status {
        CacheStatus::UpToDate(strr) => {
            let found = read_cached(strr.as_str(), io);
            proof {
                assert forall|i: int| log0.len() <= i < io.log().len() implies #[trigger] io.log()[i]
                    is ModifyTime || io.log()[i] is Read by {
                    if i < log1.len() {
                        assert(io.log()[i] == log1[i]);
                    }
                }
            }
            found
        },
        CacheStatus::NeedsUpdate(strr) => refresh_cache(
            strr.as_str(),
            filename,
            pipes,
            params,
            pipemap,
            io,
            context,
            depth,
        ),
        CacheStatus::Uncachable => get_file2(filename, pipes, params, pipemap, io, context, depth),
    };
    proof {
        lemma_extends_trans(log0, log1, io.log());
        assert(hit ==> only_reads(io.log(), log0.len() as int));
        assert forall|w: World| #[trigger] consistent(io.log(), w) implies consistent(log1, w) by {
            lemma_consistent_earlier(io.log(), log1, w);
        }
    }
    r
}

/// Renders `elements`, one after the other, with templates calling
/// templates at most `depth` deep.
pub fn render_elements_in<H: HostPipe, R: ReadsFiles>(
    elements: &Vec<TemplateElement>,
    params: &YamlMap,
    pipes: &PipeMap<H>,
    io: &mut Traced<R>,
    context: &TemplateContext,
    depth: usize,
) -> (r: Result<String, TemplateError>)
    ensures
        extends(final(io).log(), old(io).log()),
        forall|w: World| #[trigger]
            consistent(final(io).log(), w) ==> render_all(
                nodes_of(elements@),
                params@,
                env_of(pipes@, context@, w),
                depth as nat,
                old(io).log().len(),
            ) == ended(rendered(r), final(io).log()),
    decreases depth, 3int, elements, 0int,
{
    let mut acc: String = String::new();
    let mut i: usize = 0;
    let ghost log0 = io.log();
    let ghost nodes = nodes_of(elements@);
    while i < elements.len()
        invariant
            i <= elements.len(),
            nodes == nodes_of(elements@),
            log0 == old(io).log(),
            extends(io.log(), log0),
            forall|w: World| #[trigger]
                consistent(io.log(), w) ==> render_all(
                    nodes,
                    params@,
                    env_of(pipes@, context@, w),
                    depth as nat,
                    log0.len(),
                ) == render_nodes(
                    nodes,
                    i as int,
                    acc@,
                    params@,
                    env_of(pipes@, context@, w),
                    depth as nat,
                    io.log().len(),
                ),
        decreases elements.len() - i,
    {
        let ghost log1 = io.log();
        let ghost before = acc@;
        assert(nodes[i as int] == elements@[i as int]@);
        match elements[i].render(params, pipes, io, context, depth) {
            Err(ee) => {
                proof {
                    lemma_extends_trans(log0, log1, io.log());
                    assert forall|w: World| #[trigger] consistent(io.log(), w) implies render_all(
                        nodes,
                        params@,
                        env_of(pipes@, context@, w),
                        depth as nat,
                        log0.len(),
                    ) == ended(rendered(
                        Err::<String, TemplateError>(ee),
                    ), io.log()) by {
                        lemma_consistent_earlier(io.log(), log1, w);
                    }
                }
                return Err(ee);
            },
            Ok(result) => {
                acc.append(result.as_str());
                proof {
                    lemma_extends_trans(log0, log1, io.log());
                    assert forall|w: World| #[trigger]
                        consistent(io.log(), w) implies render_all(
                        nodes,
                        params@,
                        env_of(pipes@, context@, w),
                        depth as nat,
                        log0.len(),
                    ) == render_nodes(
                        nodes,
                        i as int + 1,
                        acc@,
                        params@,
                        env_of(pipes@, context@, w),
                        depth as nat,
                        io.log().len(),
                    ) by {
                        lemma_consistent_earlier(io.log(), log1, w);
                    }
                }
            },
        }
        i += 1;
    }
    Ok(acc)
}

/// Renders `elements`, one after the other. The result is what the nodes
/// mean in every course of the outside that gives the answers that were
/// given, and so in the course that the log notes. Templates may call
/// templates through pipes `MAX_PIPE_DEPTH` deep; beyond that the
/// rendering ends with `PipesNestedTooDeep`, so that it always ends.
pub fn render_elements<H: HostPipe, R: ReadsFiles>(
    elements: &Vec<TemplateElement>,
    params: &YamlMap,
    pipes: &PipeMap<H>,
    io: &mut Traced<R>,
    context: &TemplateContext,
) -> (r: Result<String, TemplateError>)
    ensures
        extends(final(io).log(), old(io).log()),
        forall|w: World| #[trigger]
            consistent(final(io).log(), w) ==> render_all(
                nodes_of(elements@),
                params@,
                env_of(pipes@, context@, w),
                MAX_PIPE_DEPTH as nat,
                old(io).log().len(),
            ) == ended(rendered(r), final(io).log()),
        render_all(
            nodes_of(elements@),
            params@,
            env_of(pipes@, context@, world_of(final(io).log())),
            MAX_PIPE_DEPTH as nat,
            old(io).log().len(),
        ) == ended(rendered(r), final(io).log()),
{
    let r = render_elements_in(elements, params, pipes, io, context, MAX_PIPE_DEPTH);
    proof {
        law_every_log_has_a_world(io.log());
    }
    r
}

/// Reads `input` as a template and renders it, with templates calling
/// templates at most `depth` deep.
pub fn render_in<H: HostPipe, R: ReadsFiles>(
    input: &str,
    params: &YamlMap,
    pipes: &PipeMap<H>,
    io: &mut Traced<R>,
    context: &TemplateContext,
    depth: usize,
) -> (r: Result<String, TemplateError>)
    ensures
        extends(final(io).log(), old(io).log()),
        forall|w: World| #[trigger]
            consistent(final(io).log(), w) ==> render_text(
                input@,
                params@,
                env_of(pipes@, context@, w),
                depth as nat,
                old(io).log().len(),
            ) == ended(rendered(r), final(io).log()),
    decreases depth, 4int, Seq::<Node>::empty(), 0int,
{
    match parse_template_string(input) {
        Err(ee) => Err(TemplateError::ParseError(ee.to_string())),
        Ok(elements) => render_elements_in(&elements, params, pipes, io, context, depth),
    }
}

/// Reads `input` as a template and renders it. The result is what the
/// template means in every course of the outside that gives the answers
/// that were given, and so in the course that the log notes. Templates
/// may call templates through pipes `MAX_PIPE_DEPTH` deep; beyond that
/// the rendering ends with `PipesNestedTooDeep`, so that it always ends.
pub fn render<H: HostPipe, R: ReadsFiles>(
    input: &str,
    params: &YamlMap,
    pipes: &PipeMap<H>,
    io: &mut Traced<R>,
    context: &TemplateContext,
) -> (r: Result<String, TemplateError>)
    ensures
        extends(final(io).log(), old(io).log()),
        forall|w: World| #[trigger]
            consistent(final(io).log(), w) ==> render_text(
                input@,
                params@,
                env_of(pipes@, context@, w),
                MAX_PIPE_DEPTH as nat,
                old(io).log().len(),
            ) == ended(rendered(r), final(io).log()),
        render_text(
            input@,
            params@,
            env_of(pipes@, context@, world_of(final(io).log())),
            MAX_PIPE_DEPTH as nat,
            old(io).log().len(),
        ) == ended(rendered(r), final(io).log()),
{
    let r = render_in(input, params, pipes, io, context, MAX_PIPE_DEPTH);
    proof {
        law_every_log_has_a_world(io.log());
    }
    r
}

/// What a rendering gives and leaves behind: the log has only grown, and
/// in every world that agrees with it the outcome is what the node means.
pub open spec fn renders_node<H, R: ReadsFiles>(
    element: TemplateElement,
    params: YamlMap,
    pipes: PipeMap<H>,
    before: Traced<R>,
    after: Traced<R>,
    context: TemplateContext,
    depth: usize,
    r: Result<String, TemplateError>,
) -> bool {
    &&& extends(after.log(), before.log())
    &&& forall|w: World| #[trigger]
        consistent(after.log(), w) ==> render_node(
            element@,
            params@,
            env_of(pipes@, context@, w),
            depth as nat,
            before.log().len(),
        ) == ended(rendered(r), after.log())
}

fn render_replace<H: HostPipe, R: ReadsFiles>(
    element: &TemplateElement,
    params: &YamlMap,
    pipes: &PipeMap<H>,
    io: &mut Traced<R>,
    context: &TemplateContext,
    depth: usize,
) -> (r: Result<String, TemplateError>)
    requires
        element is Replace,
    ensures
        renders_node(*element, *params, *pipes, *old(io), *final(io), *context, depth, r),
    decreases depth, 3int, element, 0int,
{
    proof {
        lemma_node_view(*element);
    }
    match element {
        TemplateElement::Replace { value, pipe } => {
            match lookup_value(value, params) {
                Err(ee) => Err(ee),
                Ok(found) => {
                    match execute_pipes_in(
                        &found,
                        pipe,
                        params,
                        &PipeInputSource::Value(value),
                        pipes,
                        io,
                        context,
                        depth,
                    ) {
                        Err(ee) => Err(ee),
                        Ok(piped) => tostr(&piped),
                    }
                },
            }
        },
        _ => Err(TemplateError::UnknownError),
    }
}

fn render_file<H: HostPipe, R: ReadsFiles>(
    element: &TemplateElement,
    params: &YamlMap,
    pipes: &PipeMap<H>,
    io: &mut Traced<R>,
    context: &TemplateContext,
    depth: usize,
) -> (r: Result<String, TemplateError>)
    requires
        element is File,
    ensures
        renders_node(*element, *params, *pipes, *old(io), *final(io), *context, depth, r),
    decreases depth, 3int, element, 0int,
{
    proof {
        lemma_node_view(*element);
    }
    match element {
        TemplateElement::File { snippet, filename, pipe } => {
            let actual = if *snippet {
                concat2(context.snippet_folder.as_str(), filename.as_str())
            } else {
                filename.clone()
            };
            get_file(actual.as_str(), pipe, params, pipes, io, context, depth)
        },
        _ => Err(TemplateError::UnknownError),
    }
}

fn render_file_at<H: HostPipe, R: ReadsFiles>(
    element: &TemplateElement,
    params: &YamlMap,
    pipes: &PipeMap<H>,
    io: &mut Traced<R>,
    context: &TemplateContext,
    depth: usize,
) -> (r: Result<String, TemplateError>)
    requires
        element is FileAt,
    ensures
        renders_node(*element, *params, *pipes, *old(io), *final(io), *context, depth, r),
    decreases depth, 3int, element, 0int,
{
    proof {
        lemma_node_view(*element);
    }
    let ghost log0 = io.log();
    match element {
        TemplateElement::FileAt { snippet, value, value_pipe, contents_pipe } => {
            match lookup_value(value, params) {
                Err(ee) => Err(ee),
                Ok(found) => {
                    match execute_pipes_in(
                        &found,
                        value_pipe,
                        params,
                        &PipeInputSource::Value(value),
                        pipes,
                        io,
                        context,
                        depth,
                    ) {
                        Err(ee) => Err(ee),
                        Ok(piped) => match tostr(&piped) {
                            Err(ee) => Err(ee),
                            Ok(name) => {
                                let ghost log1 = io.log();
                                let actual = if *snippet {
                                    concat2(context.snippet_folder.as_str(), name.as_str())
                                } else {
                                    name
                                };
                                let r = get_file(
                                    actual.as_str(),
                                    contents_pipe,
                                    params,
                                    pipes,
                                    io,
                                    context,
                                    depth,
                                );
                                proof {
                                    lemma_extends_trans(log0, log1, io.log());
                                    assert forall|w: World| #[trigger]
                                        consistent(io.log(), w) implies consistent(log1, w) by {
                                        lemma_consistent_earlier(io.log(), log1, w);
                                    }
                                }
                                r
                            },
                        },
                    }
                },
            }
        },
        _ => Err(TemplateError::UnknownError),
    }
}

fn render_if_exists<H: HostPipe, R: ReadsFiles>(
    element: &TemplateElement,
    params: &YamlMap,
    pipes: &PipeMap<H>,
    io: &mut Traced<R>,
    context: &TemplateContext,
    depth: usize,
) -> (r: Result<String, TemplateError>)
    requires
        element is IfExists,
    ensures
        renders_node(*element, *params, *pipes, *old(io), *final(io), *context, depth, r),
    decreases depth, 3int, element, 0int,
{
    proof {
        lemma_node_view(*element);
    }
    match element {
        TemplateElement::IfExists { value, when_true, when_false } => {
            match lookup_value(value, params) {
                Ok(_) => match render_elements_in(when_true, params, pipes, io, context, depth) {
                    Ok(s) => Ok(s),
                    Err(ee) => Err(TemplateError::InIfExistsLoop(Box::new(ee), value.copy(), true)),
                },
                Err(ee) => if ee.is_lookup_error() {
                    match render_elements_in(when_false, params, pipes, io, context, depth) {
                        Ok(s) => Ok(s),
                        Err(ee) => Err(
                            TemplateError::InIfExistsLoop(Box::new(ee), value.copy(), false),
                        ),
                    }
                } else {
                    Err(ee)
                },
            }
        },
        _ => Err(TemplateError::UnknownError),
    }
}

fn render_into<H: HostPipe, R: ReadsFiles>(
    element: &TemplateElement,
    params: &YamlMap,
    pipes: &PipeMap<H>,
    io: &mut Traced<R>,
    context: &TemplateContext,
    depth: usize,
) -> (r: Result<String, TemplateError>)
    requires
        element is Into,
    ensures
        renders_node(*element, *params, *pipes, *old(io), *final(io), *context, depth, r),
    decreases depth, 3int, element, 0int,
{
    proof {
        lemma_node_view(*element);
    }
    match element {
        TemplateElement::Into { value, ast } => {
            match lookup_value(value, params) {
                Ok(YamlValue::Hash(hh)) => {
                    match render_elements_in(ast, &hh, pipes, io, context, depth) {
                        Ok(s) => Ok(s),
                        Err(ee) => Err(TemplateError::InIntoStatement(Box::new(ee), value.copy())),
                    }
                },
                Ok(_) => Err(TemplateError::IntoValueNotHash(value.copy())),
                Err(ee) => Err(TemplateError::InIntoStatement(Box::new(ee), value.copy())),
            }
        },
        _ => Err(TemplateError::UnknownError),
    }
}

fn render_catcher<H: HostPipe, R: ReadsFiles>(
    element: &TemplateElement,
    params: &YamlMap,
    pipes: &PipeMap<H>,
    io: &mut Traced<R>,
    context: &TemplateContext,
    depth: usize,
) -> (r: Result<String, TemplateError>)
    requires
        element is LookupCatcher,
    ensures
        renders_node(*element, *params, *pipes, *old(io), *final(io), *context, depth, r),
    decreases depth, 3int, element, 0int,
{
    proof {
        lemma_node_view(*element);
    }
    let ghost log0 = io.log();
    match element {
        TemplateElement::LookupCatcher(values) => {
            let mut last = TemplateError::UnknownError;
            let mut i: usize = 0;
            let ghost alternatives = alternatives_of(values@);
            while i < values.len()
                invariant
                    i <= values.len(),
                    alternatives == alternatives_of(values@),
                    element@ == Node::LookupCatcher(alternatives),
                    log0 == old(io).log(),
                    forall|j: int|
                        0 <= j < values.len() ==> decreases_to!(element => #[trigger] values@[j]),
                    extends(io.log(), log0),
                    forall|w: World| #[trigger]
                        consistent(io.log(), w) ==> catch(
                            alternatives,
                            0,
                            Failure::UnknownError,
                            params@,
                            env_of(pipes@, context@, w),
                            depth as nat,
                            log0.len(),
                        ) == catch(
                            alternatives,
                            i as int,
                            last@,
                            params@,
                            env_of(pipes@, context@, w),
                            depth as nat,
                            io.log().len(),
                        ),
                decreases values.len() - i,
            {
                let ghost log1 = io.log();
                assert(alternatives[i as int] == nodes_of(values@[i as int]@));
                let attempt = render_elements_in(&values[i], params, pipes, io, context, depth);
                proof {
                    lemma_extends_trans(log0, log1, io.log());
                    assert forall|w: World| #[trigger] consistent(io.log(), w) implies consistent(
                        log1,
                        w,
                    ) by {
                        lemma_consistent_earlier(io.log(), log1, w);
                    }
                }
                match attempt {
                    Ok(s) => {
                        return Ok(s);
                    },
                    Err(ee) => {
                        if ee.is_lookup_error() {
                            last = ee;
                        } else {
                            return Err(ee);
                        }
                    },
                }
                i += 1;
            }
            Err(last)
        },
        _ => Err(TemplateError::UnknownError),
    }
}

/// An entry of a loop: its value, where it comes from as messages name
/// it, and its place among the entries of its source.
pub struct ForIteration {
    pub value: YamlValue,
    pub location: String,
    pub index: usize,
}

impl View for ForIteration {
    type V = Entry;

    open spec fn view(&self) -> Entry {
        Entry { value: self.value@, location: self.location@, index: self.index as nat }
    }
}

/// The entries that `entries` stand for, element by element.
pub open spec fn entries_of(entries: Seq<ForIteration>) -> Seq<Entry> {
    Seq::new(entries.len(), |i: int| entries[i]@)
}

/// The view of entries or an error.
pub open spec fn entries_found(r: Result<Vec<ForIteration>, TemplateError>) -> Result<
    Seq<Entry>,
    Failure,
> {
    match r {
        Ok(v) => Ok(entries_of(v@)),
        Err(e) => Err(e@),
    }
}

/// `acc` followed by an entry for each of `elements`, all from
/// `location`, each with its place among them.
fn push_entries(acc: Vec<ForIteration>, elements: &Vec<YamlValue>, location: &String) -> (r: Vec<
    ForIteration,
>)
    ensures
        entries_of(r@) == with_entries(entries_of(acc@), documents(elements@), location@),
{
    let mut out = acc;
    let ghost start = entries_of(acc@);
    let mut ind: usize = 0;
    while ind < elements.len()
        invariant
            ind <= elements.len(),
            out@.len() == start.len() + ind,
            forall|j: int| 0 <= j < start.len() ==> out@[j]@ == start[j],
            forall|j: int|
                0 <= j < ind ==> (#[trigger] out@[start.len() + j])@ == (Entry {
                    value: elements@[j]@,
                    location: location@,
                    index: j as nat,
                }),
        decreases elements.len() - ind,
    {
        out.push(ForIteration { value: elements[ind].copy(), location: location.clone(), index: ind });
        ind += 1;
    }
    proof {
        let target = with_entries(start, documents(elements@), location@);
        assert(entries_of(out@).len() == target.len());
        assert forall|j: int| 0 <= j < target.len() implies entries_of(out@)[j] == target[j] by {
            if j >= start.len() {
                let k = j - start.len();
                assert(out@[start.len() + k]@ == (Entry {
                    value: elements@[k]@,
                    location: location@,
                    index: k as nat,
                }));
            }
        }
        assert(entries_of(out@) =~= target);
    }
    out
}

/// The entries that the values of a grouping add to `acc`.
fn values_entries<H: HostPipe, R: ReadsFiles>(
    values: &Vec<TemplateValueWithPipe>,
    acc: Vec<ForIteration>,
    params: &YamlMap,
    pipes: &PipeMap<H>,
    io: &mut Traced<R>,
    context: &TemplateContext,
    depth: usize,
) -> (r: Result<Vec<ForIteration>, TemplateError>)
    ensures
        extends(final(io).log(), old(io).log()),
        forall|w: World| #[trigger]
            consistent(final(io).log(), w) ==> entries_of_values(
                piped_paths_of(values@),
                0,
                entries_of(acc@),
                params@,
                env_of(pipes@, context@, w),
                depth as nat,
                old(io).log().len(),
            ) == ended(entries_found(r), final(io).log()),
    decreases depth, 2int, Seq::<Node>::empty(), 2int,
{
    let mut entries = acc;
    let mut i: usize = 0;
    let ghost log0 = io.log();
    let ghost paths = piped_paths_of(values@);
    let ghost start = entries_of(acc@);
    while i < values.len()
        invariant
            i <= values.len(),
            paths == piped_paths_of(values@),
            start == entries_of(acc@),
            log0 == old(io).log(),
            extends(io.log(), log0),
            forall|w: World| #[trigger]
                consistent(io.log(), w) ==> entries_of_values(
                    paths,
                    0,
                    start,
                    params@,
                    env_of(pipes@, context@, w),
                    depth as nat,
                    log0.len(),
                ) == entries_of_values(
                    paths,
                    i as int,
                    entries_of(entries@),
                    params@,
                    env_of(pipes@, context@, w),
                    depth as nat,
                    io.log().len(),
                ),
        decreases values.len() - i,
    {
        let ghost log1 = io.log();
        assert(paths[i as int] == values@[i as int]@);
        let vv = &values[i];
        let found = match lookup_value(&vv.value, params) {
            Err(ee) => {
                return Err(ee);
            },
            Ok(found) => found,
        };
        let piped = execute_pipes_in(
            &found,
            &vv.pipes,
            params,
            &PipeInputSource::Value(&vv.value),
            pipes,
            io,
            context,
            depth,
        );
        proof {
            lemma_extends_trans(log0, log1, io.log());
            assert forall|w: World| #[trigger] consistent(io.log(), w) implies consistent(
                log1,
                w,
            ) by {
                lemma_consistent_earlier(io.log(), log1, w);
            }
        }
        let piped = match piped {
            Err(ee) => {
                return Err(ee);
            },
            Ok(piped) => piped,
        };
        let location = ForIterationType::Values(&vv.value);
        let as_vec = match to_iterable(&location, &piped) {
            Err(ee) => {
                return Err(ee);
            },
            Ok(as_vec) => as_vec,
        };
        let named = location.to_string();
        entries = push_entries(entries, &as_vec, &named);
        i += 1;
    }
    Ok(entries)
}

/// The entries that the document files of a grouping add to `acc`.
fn files_entries<H: HostPipe, R: ReadsFiles>(
    filenames: &Vec<String>,
    acc: Vec<ForIteration>,
    pipes: &PipeMap<H>,
    io: &mut Traced<R>,
    context: &TemplateContext,
) -> (r: Result<Vec<ForIteration>, TemplateError>)
    ensures
        extends(final(io).log(), old(io).log()),
        forall|w: World| #[trigger]
            consistent(final(io).log(), w) ==> entries_of_files(
                texts(filenames@),
                0,
                entries_of(acc@),
                env_of(pipes@, context@, w),
                old(io).log().len(),
            ) == ended(entries_found(r), final(io).log()),
{
    let mut entries = acc;
    let mut i: usize = 0;
    let ghost log0 = io.log();
    let ghost names = texts(filenames@);
    let ghost start = entries_of(acc@);
    while i < filenames.len()
        invariant
            i <= filenames.len(),
            names == texts(filenames@),
            start == entries_of(acc@),
            log0 == old(io).log(),
            extends(io.log(), log0),
            forall|w: World| #[trigger]
                consistent(io.log(), w) ==> entries_of_files(
                    names,
                    0,
                    start,
                    env_of(pipes@, context@, w),
                    log0.len(),
                ) == entries_of_files(
                    names,
                    i as int,
                    entries_of(entries@),
                    env_of(pipes@, context@, w),
                    io.log().len(),
                ),
        decreases filenames.len() - i,
    {
        let ghost log1 = io.log();
        assert(names[i as int] == filenames@[i as int]@);
        let filename = &filenames[i];
        let read = io.read_yaml(filename.as_str());
        proof {
            lemma_extends_trans(log0, log1, io.log());
            assert forall|w: World| #[trigger] consistent(io.log(), w) implies consistent(
                log1,
                w,
            ) by {
                lemma_consistent_earlier(io.log(), log1, w);
            }
        }
        let found = match read {
            Err(xx) => {
                return Err(TemplateError::YamlFileError(xx));
            },
            Ok(found) => found,
        };
        let location = ForIterationType::Filenames(filename.as_str());
        let as_vec = match to_iterable(&location, &found) {
            Err(ee) => {
                return Err(ee);
            },
            Ok(as_vec) => as_vec,
        };
        let named = location.to_string();
        entries = push_entries(entries, &as_vec, &named);
        i += 1;
    }
    Ok(entries)
}

/// The entries that the document files named by values add to `acc`.
fn files_at_entries<H: HostPipe, R: ReadsFiles>(
    files_at: &Vec<TemplateValue>,
    acc: Vec<ForIteration>,
    params: &YamlMap,
    pipes: &PipeMap<H>,
    io: &mut Traced<R>,
    context: &TemplateContext,
) -> (r: Result<Vec<ForIteration>, TemplateError>)
    ensures
        extends(final(io).log(), old(io).log()),
        forall|w: World| #[trigger]
            consistent(final(io).log(), w) ==> entries_of_files_at(
                paths_of(files_at@),
                0,
                entries_of(acc@),
                params@,
                env_of(pipes@, context@, w),
                old(io).log().len(),
            ) == ended(entries_found(r), final(io).log()),
{
    let mut entries = acc;
    let mut i: usize = 0;
    let ghost log0 = io.log();
    let ghost paths = paths_of(files_at@);
    let ghost start = entries_of(acc@);
    while i < files_at.len()
        invariant
            i <= files_at.len(),
            paths == paths_of(files_at@),
            start == entries_of(acc@),
            log0 == old(io).log(),
            extends(io.log(), log0),
            forall|w: World| #[trigger]
                consistent(io.log(), w) ==> entries_of_files_at(
                    paths,
                    0,
                    start,
                    params@,
                    env_of(pipes@, context@, w),
                    log0.len(),
                ) == entries_of_files_at(
                    paths,
                    i as int,
                    entries_of(entries@),
                    params@,
                    env_of(pipes@, context@, w),
                    io.log().len(),
                ),
        decreases files_at.len() - i,
    {
        let ghost log1 = io.log();
        assert(paths[i as int] == files_at@[i as int]@);
        let fileat = &files_at[i];
        let found = match lookup_value(fileat, params) {
            Err(ee) => {
                return Err(ee);
            },
            Ok(found) => found,
        };
        let filename = match tostr(&found) {
            Err(ee) => {
                return Err(ee);
            },
            Ok(filename) => filename,
        };
        let read = io.read_yaml(filename.as_str());
        proof {
            lemma_extends_trans(log0, log1, io.log());
            assert forall|w: World| #[trigger] consistent(io.log(), w) implies consistent(
                log1,
                w,
            ) by {
                lemma_consistent_earlier(io.log(), log1, w);
            }
        }
        let file = match read {
            Err(xx) => {
                return Err(TemplateError::YamlFileError(xx));
            },
            Ok(file) => file,
        };
        let location = ForIterationType::FileAt(fileat, filename);
        let as_vec = match to_iterable(&location, &file) {
            Err(ee) => {
                return Err(ee);
            },
            Ok(as_vec) => as_vec,
        };
        let named = location.to_string();
        entries = push_entries(entries, &as_vec, &named);
        i += 1;
    }
    Ok(entries)
}

/// The entries that a loop runs over: for each grouping its values, its
/// document files and its document files named by values, with templates
/// calling templates at most `depth` deep.
pub fn for_make_iterable<H: HostPipe, R: ReadsFiles>(
    params: &YamlMap,
    groupings: &Vec<ForGrouping>,
    pipes: &PipeMap<H>,
    io: &mut Traced<R>,
    context: &TemplateContext,
    depth: usize,
) -> (r: Result<Vec<ForIteration>, TemplateError>)
    ensures
        extends(final(io).log(), old(io).log()),
        forall|w: World| #[trigger]
            consistent(final(io).log(), w) ==> entries_of_groupings(
                groupings_of(groupings@),
                0,
                Seq::empty(),
                params@,
                env_of(pipes@, context@, w),
                depth as nat,
                old(io).log().len(),
            ) == ended(entries_found(r), final(io).log()),
    decreases depth, 2int, Seq::<Node>::empty(), 3int,
{
    let mut entries: Vec<ForIteration> = Vec::new();
    let mut i: usize = 0;
    let ghost log0 = io.log();
    let ghost groups = groupings_of(groupings@);
    assert(entries_of(entries@) =~= Seq::<Entry>::empty());
    while i < groupings.len()
        invariant
            i <= groupings.len(),
            groups == groupings_of(groupings@),
            log0 == old(io).log(),
            extends(io.log(), log0),
            forall|w: World| #[trigger]
                consistent(io.log(), w) ==> entries_of_groupings(
                    groups,
                    0,
                    Seq::empty(),
                    params@,
                    env_of(pipes@, context@, w),
                    depth as nat,
                    log0.len(),
                ) == entries_of_groupings(
                    groups,
                    i as int,
                    entries_of(entries@),
                    params@,
                    env_of(pipes@, context@, w),
                    depth as nat,
                    io.log().len(),
                ),
        decreases groupings.len() - i,
    {
        let ghost log1 = io.log();
        assert(groups[i as int] == groupings@[i as int]@);
        let gg = &groupings[i];
        let first = values_entries(&gg.values, entries, params, pipes, io, context, depth);
        let ghost log2 = io.log();
        let first = match first {
            Err(ee) => {
                proof {
                    lemma_extends_trans(log0, log1, io.log());
                    assert forall|w: World| #[trigger] consistent(io.log(), w) implies consistent(
                        log1,
                        w,
                    ) by {
                        lemma_consistent_earlier(io.log(), log1, w);
                    }
                }
                return Err(ee);
            },
            Ok(first) => first,
        };
        let second = files_entries(&gg.filenames, first, pipes, io, context);
        let ghost log3 = io.log();
        let second = match second {
            Err(ee) => {
                proof {
                    lemma_extends_trans(log1, log2, io.log());
                    lemma_extends_trans(log0, log1, io.log());
                    assert forall|w: World| #[trigger] consistent(io.log(), w) implies consistent(
                        log1,
                        w,
                    ) && consistent(log2, w) by {
                        lemma_consistent_earlier(io.log(), log1, w);
                        lemma_consistent_earlier(io.log(), log2, w);
                    }
                }
                return Err(ee);
            },
            Ok(second) => second,
        };
        let third = files_at_entries(&gg.files_at, second, params, pipes, io, context);
        proof {
            lemma_extends_trans(log2, log3, io.log());
            lemma_extends_trans(log1, log2, io.log());
            lemma_extends_trans(log0, log1, io.log());
            assert forall|w: World| #[trigger] consistent(io.log(), w) implies consistent(log1, w)
                && consistent(log2, w) && consistent(log3, w) by {
                lemma_consistent_earlier(io.log(), log1, w);
                lemma_consistent_earlier(io.log(), log2, w);
                lemma_consistent_earlier(io.log(), log3, w);
            }
        }
        entries = match third {
            Err(ee) => {
                return Err(ee);
            },
            Ok(third) => third,
        };
        i += 1;
    }
    Ok(entries)
}

/// The view of a filter's verdict or an error.
pub open spec fn kept(r: Result<bool, TemplateError>) -> Result<bool, Failure> {
    match r {
        Ok(b) => Ok(b),
        Err(e) => Err(e@),
    }
}

/// Whether the filter `key` keeps an entry with the parameters `bound`.
fn keeps(key: &Option<TemplateValue>, bound: &YamlMap, present: bool) -> (r: Result<
    bool,
    TemplateError,
>)
    ensures
        kept(r) == filter_keeps(optional_path(*key), bound@, present),
{
    match key {
        None => Ok(true),
        Some(ss) => match lookup_value(ss, bound) {
            Ok(_) => Ok(present),
            Err(ee) => if ee.is_lookup_error() {
                Ok(!present)
            } else {
                Err(ee)
            },
        },
    }
}

/// The sort key of an entry with the parameters `bound`.
fn sort_key_for(key: &Option<TemplateValue>, bound: &YamlMap) -> (r: Result<String, TemplateError>)
    ensures
        rendered(r) == sort_key_of(optional_path(*key), bound@),
{
    match key {
        None => Ok(String::new()),
        Some(ss) => match lookup_value(ss, bound) {
            Err(ee) => Err(ee),
            Ok(found) => tostr(&found),
        },
    }
}

/// An entry of a loop after rendering: its sort key and its text.
pub struct RenderedEntry {
    pub key: String,
    pub text: String,
}

impl View for RenderedEntry {
    type V = Item;

    open spec fn view(&self) -> Item {
        Item { key: self.key@, text: self.text@ }
    }
}

/// The items that `items` stand for, element by element.
pub open spec fn items_of(items: Seq<RenderedEntry>) -> Seq<Item> {
    Seq::new(items.len(), |i: int| items[i]@)
}

/// The view of items or an error.
pub open spec fn items_found(r: Result<Vec<RenderedEntry>, TemplateError>) -> Result<
    Seq<Item>,
    Failure,
> {
    match r {
        Ok(v) => Ok(items_of(v@)),
        Err(e) => Err(e@),
    }
}

/// Renders the body of a loop for each entry that the filters keep.
fn render_entries<H: HostPipe, R: ReadsFiles>(
    entries: &Vec<ForIteration>,
    name: &str,
    body: &Vec<TemplateElement>,
    sort_and_filter: &ForSortAndFilter,
    params: &YamlMap,
    pipes: &PipeMap<H>,
    io: &mut Traced<R>,
    context: &TemplateContext,
    depth: usize,
) -> (r: Result<Vec<RenderedEntry>, TemplateError>)
    ensures
        extends(final(io).log(), old(io).log()),
        forall|w: World| #[trigger]
            consistent(final(io).log(), w) ==> for_items(
                entries_of(entries@),
                0,
                Seq::empty(),
                name@,
                nodes_of(body@),
                sort_and_filter@,
                params@,
                env_of(pipes@, context@, w),
                depth as nat,
                old(io).log().len(),
            ) == ended(items_found(r), final(io).log()),
    decreases depth, 3int, body, 1int,
{
    let mut mapped: Vec<RenderedEntry> = Vec::new();
    let mut i: usize = 0;
    let ghost log0 = io.log();
    let ghost all = entries_of(entries@);
    assert(items_of(mapped@) =~= Seq::<Item>::empty());
    while i < entries.len()
        invariant
            i <= entries.len(),
            all == entries_of(entries@),
            log0 == old(io).log(),
            extends(io.log(), log0),
            forall|w: World| #[trigger]
                consistent(io.log(), w) ==> for_items(
                    all,
                    0,
                    Seq::empty(),
                    name@,
                    nodes_of(body@),
                    sort_and_filter@,
                    params@,
                    env_of(pipes@, context@, w),
                    depth as nat,
                    log0.len(),
                ) == for_items(
                    all,
                    i as int,
                    items_of(mapped@),
                    name@,
                    nodes_of(body@),
                    sort_and_filter@,
                    params@,
                    env_of(pipes@, context@, w),
                    depth as nat,
                    io.log().len(),
                ),
        decreases entries.len() - i,
    {
        let ghost log1 = io.log();
        assert(all[i as int] == entries@[i as int]@);
        let ii = &entries[i];
        let mut new_params = params.copy();
        insert_value(&mut new_params, name, ii.value.copy());
        let included = match keeps(&sort_and_filter.filter_includes, &new_params, true) {
            Ok(b) => b,
            Err(ee) => {
                return Err(
                    TemplateError::OnForLoopIterationIncludeKey(Box::new(ee), ii.location.clone()),
                );
            },
        };
        let excluded = match keeps(&sort_and_filter.filter_excludes, &new_params, false) {
            Ok(b) => b,
            Err(ee) => {
                return Err(
                    TemplateError::OnForLoopIterationExcludeKey(Box::new(ee), ii.location.clone()),
                );
            },
        };
        if included && excluded {
            let key = match sort_key_for(&sort_and_filter.sort_key, &new_params) {
                Ok(key) => key,
                Err(ee) => {
                    return Err(
                        TemplateError::OnForLoopIterationSortKey(
                            Box::new(ee),
                            ii.location.clone(),
                        ),
                    );
                },
            };
            let value = render_elements_in(body, &new_params, pipes, io, context, depth);
            proof {
                lemma_extends_trans(log0, log1, io.log());
                assert forall|w: World| #[trigger] consistent(io.log(), w) implies consistent(
                    log1,
                    w,
                ) by {
                    lemma_consistent_earlier(io.log(), log1, w);
                }
            }
            let value = match value {
                Ok(value) => value,
                Err(ee) => {
                    return Err(
                        TemplateError::OnForLoopIteration(Box::new(ee), ii.location.clone()),
                    );
                },
            };
            let ghost before = items_of(mapped@);
            let item = RenderedEntry { key, text: value };
            mapped.push(item);
            assert(items_of(mapped@) =~= before.push(item@));
        }
        i += 1;
    }
    Ok(mapped)
}

/// The texts that `keys` stand for, element by element.
pub open spec fn key_texts(keys: Seq<Vec<char>>) -> Seq<Seq<char>> {
    Seq::new(keys.len(), |i: int| keys[i]@)
}

/// The indices that `order` holds, element by element.
pub open spec fn indices_of(order: Seq<usize>) -> Seq<int> {
    Seq::new(order.len(), |i: int| order[i] as int)
}

/// The indices of `keys`, sorted by key in the given order; indices of
/// equal keys stay in order.
pub fn sorted_indices(keys: &Vec<Vec<char>>, ascending: bool) -> (order: Vec<usize>)
    ensures
        indices_of(order@) == sorted_order(key_texts(keys@), keys.len() as int, ascending),
        order.len() == keys.len(),
        forall|j: int| 0 <= j < order.len() ==> order@[j] < keys.len(),
{
    let mut order: Vec<usize> = Vec::new();
    let mut n: usize = 0;
    let ghost all = key_texts(keys@);
    assert(indices_of(order@) =~= Seq::<int>::empty());
    while n < keys.len()
        invariant
            n <= keys.len(),
            all == key_texts(keys@),
            order.len() == n,
            forall|j: int| 0 <= j < order.len() ==> order@[j] < n,
            indices_of(order@) == sorted_order(all, n as int, ascending),
        decreases keys.len() - n,
    {
        let ghost before = indices_of(order@);
        let mut j: usize = 0;
        loop
            invariant
                j <= order.len(),
                n < keys.len(),
                all == key_texts(keys@),
                before == indices_of(order@),
                forall|k: int| 0 <= k < order.len() ==> order@[k] < n,
                sorted_place(all, before, n as int, ascending, 0) == sorted_place(
                    all,
                    before,
                    n as int,
                    ascending,
                    j as int,
                ),
            ensures
                j <= order.len(),
                j as int == sorted_place(all, before, n as int, ascending, 0),
            decreases order.len() - j,
        {
            if j >= order.len() {
                break;
            }
            let at: usize = order[j];
            assert(before[j as int] == at as int);
            assert(all[at as int] == keys@[at as int]@);
            assert(all[n as int] == keys@[n as int]@);
            let first = if ascending {
                lex_le_chars(&keys[at], &keys[n])
            } else {
                lex_le_chars(&keys[n], &keys[at])
            };
            if !first {
                break;
            }
            j += 1;
        }
        order.insert(j, n);
        assert(indices_of(order@) =~= before.insert(j as int, n as int));
        n += 1;
    }
    order
}

fn render_for<H: HostPipe, R: ReadsFiles>(
    element: &TemplateElement,
    params: &YamlMap,
    pipes: &PipeMap<H>,
    io: &mut Traced<R>,
    context: &TemplateContext,
    depth: usize,
) -> (r: Result<String, TemplateError>)
    requires
        element is For,
    ensures
        renders_node(*element, *params, *pipes, *old(io), *final(io), *context, depth, r),
    decreases depth, 3int, element, 0int,
{
    proof {
        lemma_node_view(*element);
    }
    let ghost log0 = io.log();
    match element {
        TemplateElement::For { name, groupings, main, separator, sort_and_filter } => {
            let over = for_make_iterable(params, groupings, pipes, io, context, depth);
            let ghost log1 = io.log();
            let over = match over {
                Err(ee) => {
                    return Err(ee);
                },
                Ok(over) => over,
            };
            let mapped = render_entries(
                &over,
                name.as_str(),
                main,
                sort_and_filter,
                params,
                pipes,
                io,
                context,
                depth,
            );
            let ghost log2 = io.log();
            proof {
                lemma_extends_trans(log0, log1, log2);
                assert forall|w: World| #[trigger] consistent(log2, w) implies consistent(
                    log1,
                    w,
                ) by {
                    lemma_consistent_earlier(log2, log1, w);
                }
            }
            let mapped = match mapped {
                Err(ee) => {
                    return Err(ee);
                },
                Ok(mapped) => mapped,
            };
            let mut finalelems: Vec<String> = Vec::new();
            let ghost items = items_of(mapped@);
            if sort_and_filter.sort_key.is_some() {
                let mut keys: Vec<Vec<char>> = Vec::new();
                let mut k: usize = 0;
                while k < mapped.len()
                    invariant
                        k <= mapped.len(),
                        keys.len() == k,
                        forall|j: int| 0 <= j < k ==> keys@[j]@ == mapped@[j].key@,
                    decreases mapped.len() - k,
                {
                    keys.push(chars_of(mapped[k].key.as_str()));
                    k += 1;
                }
                assert(key_texts(keys@) =~= keys_of(items));
                let order = sorted_indices(&keys, sort_and_filter.is_sort_ascending);
                let mut k: usize = 0;
                while k < order.len()
                    invariant
                        k <= order.len(),
                        order.len() == mapped.len(),
                        forall|j: int| 0 <= j < order.len() ==> order@[j] < mapped.len(),
                        finalelems.len() == k,
                        forall|j: int|
                            0 <= j < k ==> finalelems@[j]@ == mapped@[order@[j] as int].text@,
                    decreases order.len() - k,
                {
                    finalelems.push(mapped[order[k]].text.clone());
                    k += 1;
                }
                assert(texts(finalelems@) =~= arranged(items, indices_of(order@)));
            } else {
                let mut k: usize = 0;
                while k < mapped.len()
                    invariant
                        k <= mapped.len(),
                        finalelems.len() == k,
                        forall|j: int| 0 <= j < k ==> finalelems@[j]@ == mapped@[j].text@,
                    decreases mapped.len() - k,
                {
                    finalelems.push(mapped[k].text.clone());
                    k += 1;
                }
                assert(texts(finalelems@) =~= texts_of(items));
            }
            let sep = render_elements_in(separator, params, pipes, io, context, depth);
            proof {
                lemma_extends_trans(log0, log2, io.log());
                assert forall|w: World| #[trigger] consistent(io.log(), w) implies consistent(
                    log1,
                    w,
                ) && consistent(log2, w) by {
                    lemma_consistent_earlier(io.log(), log2, w);
                    lemma_consistent_earlier(log2, log1, w);
                }
            }
            match sep {
                Err(ee) => Err(ee),
                Ok(sep) => Ok(join_texts(&finalelems, sep.as_str())),
            }
        },
        _ => Err(TemplateError::UnknownError),
    }
}

impl TemplateElement {
    /// Renders this node, with templates calling templates at most
    /// `depth` deep.
    pub fn render<H: HostPipe, R: ReadsFiles>(
        &self,
        params: &YamlMap,
        pipes: &PipeMap<H>,
        io: &mut Traced<R>,
        context: &TemplateContext,
        depth: usize,
    ) -> (r: Result<String, TemplateError>)
        ensures
            renders_node(*self, *params, *pipes, *old(io), *final(io), *context, depth, r),
        decreases depth, 3int, self, 1int,
    {
        match self {
            TemplateElement::PlainText(text) => {
                proof {
                    lemma_node_view(*self);
                }
                Ok(text.clone())
            },
            TemplateElement::Replace { .. } => render_replace(
                self,
                params,
                pipes,
                io,
                context,
                depth,
            ),
            TemplateElement::File { .. } => render_file(self, params, pipes, io, context, depth),
            TemplateElement::FileAt { .. } => render_file_at(
                self,
                params,
                pipes,
                io,
                context,
                depth,
            ),
            TemplateElement::IfExists { .. } => render_if_exists(
                self,
                params,
                pipes,
                io,
                context,
                depth,
            ),
            TemplateElement::Into { .. } => render_into(self, params, pipes, io, context, depth),
            TemplateElement::LookupCatcher(_) => render_catcher(
                self,
                params,
                pipes,
                io,
                context,
                depth,
            ),
            TemplateElement::For { .. } => render_for(self, params, pipes, io, context, depth),
        }
    }
}

} // verus!
