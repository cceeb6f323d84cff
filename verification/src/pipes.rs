//! Pipes: named transformations of a document, and the cache of piped files.

use vstd::prelude::*;
use vstd::string::*;
use crate::io::{
    ReadsFiles, ReadsFilesImpl, Traced, World, consistent, extends, lemma_consistent_earlier,
    lemma_extends_trans, only_asks_times,
};
use crate::semantics::{
    MAX_PIPE_DEPTH, cache_status, ended, env_of, named_pipe, pipe_params, run_pipes,
};
use crate::template::{
    Node, TemplateContext, TemplateElement, TemplateError, TemplateValue, ValuePath, nodes_of,
    path_text, render_elements_in, render_in,
};
use crate::text::{concat2, replace_char, replace_char_text, texts};
use crate::yaml::{
    Document, YamlMap, YamlValue, documents, lemma_array_view, looked_up, tostr,
};

verus! {

/// A step of a pipe chain.
#[derive(Debug, PartialEq, Eq)]
pub enum Pipe {
    /// The pipe registered under `name`, with literal parameters.
    Named { name: String, params: Vec<String> },
    /// The default pipe: the value's text, rendered as a template.
    Template,
}

/// A [`Pipe`] as a mathematical value.
pub enum PipeCall {
    Named { name: Seq<char>, params: Seq<Seq<char>> },
    Template,
}

impl View for Pipe {
    type V = PipeCall;

    open spec fn view(&self) -> PipeCall {
        match self {
            Pipe::Named { name, params } => PipeCall::Named {
                name: name@,
                params: crate::text::texts(params@),
            },
            Pipe::Template => PipeCall::Template,
        }
    }
}

/// The pipe calls that `pipes` stand for, element by element.
pub open spec fn pipe_calls(pipes: Seq<Pipe>) -> Seq<PipeCall> {
    Seq::new(pipes.len(), |i: int| pipes[i]@)
}

/// A copy of `texts`.
pub fn copy_texts(texts: &Vec<String>) -> (r: Vec<String>)
    ensures
        crate::text::texts(r@) == crate::text::texts(texts@),
{
    let mut out: Vec<String> = Vec::new();
    let mut i: usize = 0;
    while i < texts.len()
        invariant
            i <= texts.len(),
            out@.len() == i,
            forall|j: int| 0 <= j < i ==> out@[j]@ == texts@[j]@,
        decreases texts.len() - i,
    {
        out.push(texts[i].clone());
        i += 1;
    }
    assert(crate::text::texts(out@) =~= crate::text::texts(texts@));
    out
}

impl Clone for Pipe {
    fn clone(&self) -> (r: Pipe)
        ensures
            r@ == self@,
    {
        match self {
            Pipe::Named { name, params } => Pipe::Named {
                name: name.clone(),
                params: copy_texts(params),
            },
            Pipe::Template => Pipe::Template,
        }
    }
}

/// A copy of `pipes`.
pub fn copy_pipes(pipes: &Vec<Pipe>) -> (r: Vec<Pipe>)
    ensures
        pipe_calls(r@) == pipe_calls(pipes@),
{
    let mut out: Vec<Pipe> = Vec::new();
    let mut i: usize = 0;
    while i < pipes.len()
        invariant
            i <= pipes.len(),
            out@.len() == i,
            forall|j: int| 0 <= j < i ==> out@[j]@ == pipes@[j]@,
        decreases pipes.len() - i,
    {
        out.push(pipes[i].clone());
        i += 1;
    }
    assert(pipe_calls(out@) =~= pipe_calls(pipes@));
    out
}

/// A pipe that the host provides: a function of a value and literal
/// parameters, with the pipes and a read-only handle on the files at hand.
pub trait HostPipe: Sized {
    /// The value that the pipe makes of `value`, or a message.
    fn run<R: ReadsFiles>(
        &self,
        value: &YamlValue,
        params: &Vec<String>,
        pipes: &PipeMap<Self>,
        io: &mut ReadsFilesImpl<R>,
    ) -> Result<YamlValue, String>;
}

/// What a pipe is: a template, or a function of the host. The time says
/// when the definition last changed; without it, what goes through the
/// pipe is never cached.
pub enum PipeDefinition<H> {
    Template(Vec<TemplateElement>, Option<u128>),
    Fn(H, Option<u128>),
}

/// A [`PipeDefinition`] as a mathematical value. What a host pipe returns
/// is no part of it.
pub enum PipeModel {
    Template(Seq<Node>, Option<u128>),
    Fn(Option<u128>),
}

impl<H> View for PipeDefinition<H> {
    type V = PipeModel;

    open spec fn view(&self) -> PipeModel {
        match self {
            PipeDefinition::Template(ast, time) => PipeModel::Template(nodes_of(ast@), *time),
            PipeDefinition::Fn(_, time) => PipeModel::Fn(*time),
        }
    }
}

/// The pipes by name, as a mathematical value: names with definitions.
pub type Registry = Seq<(Seq<char>, PipeModel)>;

/// The definition of the first entry of `registry`, at or after `from`,
/// whose name is `name`.
pub open spec fn registry_find(registry: Registry, name: Seq<char>, from: int) -> Option<PipeModel>
    decreases registry.len() - from,
{
    if from < 0 || from >= registry.len() {
        None
    } else if registry[from].0 == name {
        Some(registry[from].1)
    } else {
        registry_find(registry, name, from + 1)
    }
}

/// The definition that `registry` holds for `name`.
pub open spec fn registry_get(registry: Registry, name: Seq<char>) -> Option<PipeModel> {
    registry_find(registry, name, 0)
}

/// The index of the first entry of `registry`, at or after `from`, whose
/// name is `name`.
pub open spec fn registry_index(registry: Registry, name: Seq<char>, from: int) -> Option<int>
    decreases registry.len() - from,
{
    if from < 0 || from >= registry.len() {
        None
    } else if registry[from].0 == name {
        Some(from)
    } else {
        registry_index(registry, name, from + 1)
    }
}

/// `registry` after `definition` is registered under `name`: it takes
/// the place of an earlier definition of that name, or else stands last.
pub open spec fn registry_insert(registry: Registry, name: Seq<char>, definition: PipeModel) -> Registry {
    match registry_index(registry, name, 0) {
        Some(i) => registry.update(i, (name, definition)),
        None => registry.push((name, definition)),
    }
}

/// The pipes by name.
pub struct PipeMap<H> {
    pub entries: Vec<(String, PipeDefinition<H>)>,
}

impl<H> View for PipeMap<H> {
    type V = Registry;

    open spec fn view(&self) -> Registry {
        Seq::new(self.entries@.len(), |i: int| (self.entries@[i].0@, self.entries@[i].1@))
    }
}

impl<H> PipeMap<H> {
    /// No pipes.
    pub fn new() -> (r: Self)
        ensures
            r@ == Seq::<(Seq<char>, PipeModel)>::empty(),
    {
        let r = PipeMap { entries: Vec::new() };
        assert(r@ =~= Seq::<(Seq<char>, PipeModel)>::empty());
        r
    }

    /// The place of the pipe registered under `name`.
    fn position(&self, name: &str) -> (r: Option<usize>)
        ensures
            match r {
                Some(i) => i < self.entries.len() && registry_index(self@, name@, 0) == Some(
                    i as int,
                ) && registry_get(self@, name@) == Some(self.entries@[i as int].1@),
                None => registry_index(self@, name@, 0) is None && registry_get(self@, name@)
                    is None,
            },
    {
        let wanted: String = name.to_owned();
        let mut i: usize = 0;
        while i < self.entries.len()
            invariant
                i <= self.entries.len(),
                wanted@ == name@,
                registry_index(self@, name@, 0) == registry_index(self@, name@, i as int),
                registry_get(self@, name@) == registry_find(self@, name@, i as int),
            decreases self.entries.len() - i,
        {
            if self.entries[i].0 == wanted {
                return Some(i);
            }
            i += 1;
        }
        None
    }

    /// The pipe registered under `name`.
    pub fn get(&self, name: &str) -> (r: Option<&PipeDefinition<H>>)
        ensures
            match r {
                Some(d) => registry_get(self@, name@) == Some(d@),
                None => registry_get(self@, name@) is None,
            },
    {
        match self.position(name) {
            Some(i) => Some(&self.entries[i].1),
            None => None,
        }
    }

    /// Registers `definition` under `name`, in place of an earlier
    /// definition of that name.
    pub fn insert(&mut self, name: String, definition: PipeDefinition<H>)
        ensures
            final(self)@ == registry_insert(old(self)@, name@, definition@),
    {
        let ghost before = self@;
        match self.position(name.as_str()) {
            Some(i) => {
                self.entries.set(i, (name, definition));
                assert(self@ =~= before.update(i as int, (name@, definition@)));
            },
            None => {
                self.entries.push((name, definition));
                assert(self@ =~= before.push((name@, definition@)));
            },
        }
    }
}

/// No pipes.
pub fn new_pipe_map<H>() -> (r: PipeMap<H>)
    ensures
        r@ == Seq::<(Seq<char>, PipeModel)>::empty(),
{
    PipeMap::new()
}

/// Where a value that goes through pipes comes from.
pub enum PipeInputSource<'a> {
    Value(&'a TemplateValue),
    File(&'a str),
    FileFrom(&'a str, &'a TemplateValue),
}

/// A [`PipeInputSource`] as a mathematical value.
pub enum Origin {
    Value(ValuePath),
    File(Seq<char>),
    FileFrom(Seq<char>, ValuePath),
}

impl<'a> View for PipeInputSource<'a> {
    type V = Origin;

    open spec fn view(&self) -> Origin {
        match self {
            PipeInputSource::Value(v) => Origin::Value(v@),
            PipeInputSource::File(f) => Origin::File(f@),
            PipeInputSource::FileFrom(f, v) => Origin::FileFrom(f@, v@),
        }
    }
}

impl Origin {
    /// The origin as it is named in messages.
    pub open spec fn text(self) -> Seq<char> {
        match self {
            Origin::Value(v) => "\""@ + path_text(v) + "\""@,
            Origin::File(f) => "the file \""@ + f + "\""@,
            Origin::FileFrom(f, v) => "the file \""@ + f + "\" from \""@ + path_text(v) + "\""@,
        }
    }
}

impl<'a> PipeInputSource<'a> {
    /// The origin as it is named in messages.
    pub fn to_string(&self) -> (r: String)
        ensures
            r@ == self@.text(),
    {
        match self {
            PipeInputSource::Value(v) => {
                let mut r: String = "\"".to_owned();
                let path = v.to_string();
                r.append(path.as_str());
                r.append("\"");
                r
            },
            PipeInputSource::File(f) => {
                let mut r: String = "the file \"".to_owned();
                r.append(f);
                r.append("\"");
                r
            },
            PipeInputSource::FileFrom(f, v) => {
                let mut r: String = "the file \"".to_owned();
                r.append(f);
                r.append("\" from \"");
                let path = v.to_string();
                r.append(path.as_str());
                r.append("\"");
                r
            },
        }
    }
}

/// What a character of a pipe's name or parameter is written as in a
/// cache name: `%5F` for `_`, `%25` for `%`, and else the character.
pub open spec fn escaped_char(c: char) -> Seq<char> {
    if c == '_' {
        seq!['%', '5', 'F']
    } else if c == '%' {
        seq!['%', '2', '5']
    } else {
        seq![c]
    }
}

/// The characters of `s` from index `i` on as they are written in a
/// cache name.
pub open spec fn escaped_from(s: Seq<char>, i: int) -> Seq<char>
    decreases s.len() - i,
{
    if i < 0 || i >= s.len() {
        Seq::empty()
    } else {
        escaped_char(s[i]) + escaped_from(s, i + 1)
    }
}

/// A pipe's name or parameter as it is written in a cache name: without
/// `_`, so that `_` only sets names and parameters apart. The empty text
/// is written `%`.
pub open spec fn escaped(s: Seq<char>) -> Seq<char> {
    if s.len() == 0 {
        seq!['%']
    } else {
        escaped_from(s, 0)
    }
}

/// The first `n` of `params` as they stand in a cache name: each behind
/// `_`.
pub open spec fn params_suffix(params: Seq<Seq<char>>, n: int) -> Seq<char>
    decreases n,
{
    if n <= 0 {
        Seq::empty()
    } else {
        params_suffix(params, n - 1) + seq!['_'] + escaped(params[n - 1])
    }
}

/// The first `n` pipes of `chain` as they stand in a cache name: each
/// behind `__`, with its parameters. `None` where one of them is the
/// default pipe.
pub open spec fn chain_suffix(chain: Seq<PipeCall>, n: int) -> Option<Seq<char>>
    decreases n,
{
    if n <= 0 {
        Some(Seq::empty())
    } else {
        match (chain_suffix(chain, n - 1), chain[n - 1]) {
            (Some(before), PipeCall::Named { name, params }) => Some(
                before + seq!['_', '_'] + escaped(name) + params_suffix(
                    params,
                    params.len() as int,
                ),
            ),
            _ => None,
        }
    }
}

/// The name of the file that caches `filename` piped through `chain`:
/// `cache/`, the file name with `-` for each `/`, and the chain. `None`
/// where the chain holds the default pipe.
pub open spec fn cache_filename(filename: Seq<char>, chain: Seq<PipeCall>) -> Option<Seq<char>> {
    match chain_suffix(chain, chain.len() as int) {
        Some(suffix) => Some("cache/"@ + replace_char(filename, '/', '-') + suffix),
        None => None,
    }
}

/// What is written for a name or parameter holds no `_`, and is as long
/// as what is left of the text at least.
pub proof fn lemma_escaped_from_clean(s: Seq<char>, i: int)
    requires
        0 <= i <= s.len(),
    ensures
        escaped_from(s, i).len() >= s.len() - i,
        forall|k: int| 0 <= k < escaped_from(s, i).len() ==> escaped_from(s, i)[k] != '_',
    decreases s.len() - i,
{
    if i < s.len() {
        lemma_escaped_from_clean(s, i + 1);
    }
}

/// What is written for a name or parameter is not empty and holds no
/// `_`.
pub proof fn lemma_escaped_clean(s: Seq<char>)
    ensures
        escaped(s).len() > 0,
        forall|k: int| 0 <= k < escaped(s).len() ==> escaped(s)[k] != '_',
{
    lemma_escaped_from_clean(s, 0);
}

/// Texts that are written alike from some place on are alike from there
/// on.
pub proof fn lemma_escaped_from_injective(a: Seq<char>, i: int, b: Seq<char>, j: int)
    requires
        0 <= i <= a.len(),
        0 <= j <= b.len(),
        escaped_from(a, i) == escaped_from(b, j),
    ensures
        a.skip(i) == b.skip(j),
    decreases a.len() - i,
{
    lemma_escaped_from_clean(a, i);
    lemma_escaped_from_clean(b, j);
    if i >= a.len() || j >= b.len() {
        assert(a.skip(i) =~= b.skip(j));
    } else {
        let x = a[i];
        let y = b[j];
        let ta = escaped_from(a, i + 1);
        let tb = escaped_from(b, j + 1);
        let ea = escaped_from(a, i);
        let eb = escaped_from(b, j);
        assert(ea == escaped_char(x) + ta);
        assert(eb == escaped_char(y) + tb);
        assert(ea[0] == escaped_char(x)[0]);
        assert(eb[0] == escaped_char(y)[0]);
        if x == '_' || x == '%' {
            assert(y == '_' || y == '%');
            assert(ea[1] == escaped_char(x)[1]);
            assert(eb[1] == escaped_char(y)[1]);
            assert(x == y);
            assert(ta =~= ea.subrange(3, ea.len() as int));
            assert(tb =~= eb.subrange(3, eb.len() as int));
        } else {
            assert(y != '_' && y != '%');
            assert(x == y);
            assert(ta =~= ea.subrange(1, ea.len() as int));
            assert(tb =~= eb.subrange(1, eb.len() as int));
        }
        lemma_escaped_from_injective(a, i + 1, b, j + 1);
        assert(a.skip(i) =~= seq![x] + a.skip(i + 1));
        assert(b.skip(j) =~= seq![y] + b.skip(j + 1));
    }
}

/// Names and parameters that are written alike are alike.
pub proof fn lemma_escaped_injective(a: Seq<char>, b: Seq<char>)
    requires
        escaped(a) == escaped(b),
    ensures
        a == b,
{
    lemma_escaped_from_clean(a, 0);
    lemma_escaped_from_clean(b, 0);
    if a.len() == 0 || b.len() == 0 {
        if a.len() > 0 {
            assert(escaped_from(a, 0) == escaped_char(a[0]) + escaped_from(a, 1));
            assert(escaped_from(a, 0)[0] == escaped_char(a[0])[0]);
        }
        if b.len() > 0 {
            assert(escaped_from(b, 0) == escaped_char(b[0]) + escaped_from(b, 1));
            assert(escaped_from(b, 0)[0] == escaped_char(b[0])[0]);
        }
        assert(a =~= b);
    } else {
        lemma_escaped_from_injective(a, 0, b, 0);
        assert(a =~= a.skip(0));
        assert(b =~= b.skip(0));
    }
}

/// A text without `_` and `%` from some place on is written as it is
/// from there on.
proof fn lemma_escaped_plain(s: Seq<char>, i: int)
    requires
        0 <= i <= s.len(),
        forall|k: int| i <= k < s.len() ==> s[k] != '_' && s[k] != '%',
    ensures
        escaped_from(s, i) == s.skip(i),
    decreases s.len() - i,
{
    if i < s.len() {
        lemma_escaped_plain(s, i + 1);
        assert(s.skip(i) =~= seq![s[i]] + s.skip(i + 1));
    } else {
        assert(s.skip(i) =~= Seq::<char>::empty());
    }
}

/// A name or parameter that is not empty and holds neither `_` nor `%`
/// is written in a cache name as it is.
pub proof fn law_plain_names_are_kept(s: Seq<char>)
    requires
        s.len() > 0,
        forall|k: int| 0 <= k < s.len() ==> s[k] != '_' && s[k] != '%',
    ensures
        escaped(s) == s,
{
    lemma_escaped_plain(s, 0);
    assert(s.skip(0) =~= s);
}

/// Texts that end alike behind their last `_` are alike before it and
/// behind it.
pub proof fn lemma_split_last(a: Seq<char>, u: Seq<char>, b: Seq<char>, v: Seq<char>)
    requires
        forall|k: int| 0 <= k < u.len() ==> u[k] != '_',
        forall|k: int| 0 <= k < v.len() ==> v[k] != '_',
        a + seq!['_'] + u == b + seq!['_'] + v,
    ensures
        a == b,
        u == v,
{
    let left = a + seq!['_'] + u;
    let right = b + seq!['_'] + v;
    assert(left.len() == a.len() + 1 + u.len());
    assert(right.len() == b.len() + 1 + v.len());
    assert(left[a.len() as int] == '_');
    assert(right[b.len() as int] == '_');
    if a.len() < b.len() {
        assert(right[b.len() as int] == left[b.len() as int]);
        assert(left[b.len() as int] == u[b.len() - a.len() - 1]);
        assert(false);
    }
    if b.len() < a.len() {
        assert(left[a.len() as int] == right[a.len() as int]);
        assert(right[a.len() as int] == v[a.len() - b.len() - 1]);
        assert(false);
    }
    assert forall|k: int| 0 <= k < a.len() implies a[k] == b[k] by {
        assert(left[k] == a[k]);
        assert(right[k] == b[k]);
    }
    assert(a =~= b);
    assert forall|k: int| 0 <= k < u.len() implies u[k] == v[k] by {
        assert(left[a.len() + 1 + k] == u[k]);
        assert(right[b.len() + 1 + k] == v[k]);
    }
    assert(u =~= v);
}

/// The cache name of the first `n` pipes of `chain`, of pipe `n`'s name,
/// and of its first `m` parameters.
pub open spec fn built(chain: Seq<PipeCall>, n: int, m: int) -> Seq<char> {
    chain_suffix(chain, n)->0 + seq!['_', '_'] + escaped(chain[n]->name) + params_suffix(
        chain[n]->params,
        m,
    )
}

/// What is built of a chain is not empty and does not end in `_`.
proof fn lemma_built_ends(chain: Seq<PipeCall>, n: int, m: int)
    requires
        0 <= m,
    ensures
        built(chain, n, m).len() > 0,
        built(chain, n, m)[built(chain, n, m).len() - 1] != '_',
{
    let params = chain[n]->params;
    if m == 0 {
        lemma_escaped_clean(chain[n]->name);
        assert(params_suffix(params, 0) =~= Seq::<char>::empty());
        let e = escaped(chain[n]->name);
        assert(built(chain, n, 0) =~= chain_suffix(chain, n)->0 + seq!['_', '_'] + e);
        assert(built(chain, n, 0)[built(chain, n, 0).len() - 1] == e[e.len() - 1]);
    } else {
        lemma_escaped_clean(params[m - 1]);
        let e = escaped(params[m - 1]);
        assert(built(chain, n, m) =~= built(chain, n, m - 1) + seq!['_'] + e);
        assert(built(chain, n, m)[built(chain, n, m).len() - 1] == e[e.len() - 1]);
    }
}

/// A chain with a cache name holds named pipes only, and each of its
/// starts has a cache name.
proof fn lemma_suffix_some(chain: Seq<PipeCall>, k: int, n: int)
    requires
        0 <= k <= n,
        chain_suffix(chain, n) is Some,
    ensures
        chain_suffix(chain, k) is Some,
        k < n ==> chain[k] is Named && chain_suffix(chain, k + 1) == Some(
            built(chain, k, chain[k]->params.len() as int),
        ),
    decreases n - k,
{
    if k < n {
        lemma_suffix_some(chain, k + 1, n);
    }
}

/// Chains that are built alike up to a parameter are alike up to it.
proof fn lemma_built_alike(
    c1: Seq<PipeCall>,
    n1: int,
    m1: int,
    c2: Seq<PipeCall>,
    n2: int,
    m2: int,
)
    requires
        0 <= n1,
        0 <= n2,
        chain_suffix(c1, n1 + 1) is Some,
        chain_suffix(c2, n2 + 1) is Some,
        0 <= m1 <= c1[n1]->params.len(),
        0 <= m2 <= c2[n2]->params.len(),
        built(c1, n1, m1) == built(c2, n2, m2),
    ensures
        n1 == n2,
        m1 == m2,
        forall|k: int| 0 <= k < n1 ==> c1[k] == c2[k],
        c1[n1]->name == c2[n2]->name,
        forall|k: int| 0 <= k < m1 ==> c1[n1]->params[k] == c2[n2]->params[k],
    decreases n1, 1int, m1,
{
    lemma_suffix_some(c1, n1, n1 + 1);
    lemma_suffix_some(c2, n2, n2 + 1);
    let p1 = c1[n1]->params;
    let p2 = c2[n2]->params;
    let s1 = chain_suffix(c1, n1)->0;
    let s2 = chain_suffix(c2, n2)->0;
    let e1 = escaped(c1[n1]->name);
    let e2 = escaped(c2[n2]->name);
    lemma_escaped_clean(c1[n1]->name);
    lemma_escaped_clean(c2[n2]->name);
    assert(params_suffix(p1, 0) =~= Seq::<char>::empty());
    assert(params_suffix(p2, 0) =~= Seq::<char>::empty());
    assert(built(c1, n1, 0) =~= (s1 + seq!['_']) + seq!['_'] + e1);
    assert(built(c2, n2, 0) =~= (s2 + seq!['_']) + seq!['_'] + e2);
    if m1 > 0 {
        let x1 = escaped(p1[m1 - 1]);
        lemma_escaped_clean(p1[m1 - 1]);
        assert(built(c1, n1, m1) =~= built(c1, n1, m1 - 1) + seq!['_'] + x1);
        if m2 > 0 {
            let x2 = escaped(p2[m2 - 1]);
            lemma_escaped_clean(p2[m2 - 1]);
            assert(built(c2, n2, m2) =~= built(c2, n2, m2 - 1) + seq!['_'] + x2);
            lemma_split_last(built(c1, n1, m1 - 1), x1, built(c2, n2, m2 - 1), x2);
            lemma_escaped_injective(p1[m1 - 1], p2[m2 - 1]);
            lemma_built_alike(c1, n1, m1 - 1, c2, n2, m2 - 1);
        } else {
            lemma_split_last(built(c1, n1, m1 - 1), x1, s2 + seq!['_'], e2);
            lemma_built_ends(c1, n1, m1 - 1);
            assert((s2 + seq!['_'])[s2.len() as int] == '_');
            assert(false);
        }
    } else {
        if m2 > 0 {
            let x2 = escaped(p2[m2 - 1]);
            lemma_escaped_clean(p2[m2 - 1]);
            assert(built(c2, n2, m2) =~= built(c2, n2, m2 - 1) + seq!['_'] + x2);
            lemma_split_last(s1 + seq!['_'], e1, built(c2, n2, m2 - 1), x2);
            lemma_built_ends(c2, n2, m2 - 1);
            assert((s1 + seq!['_'])[s1.len() as int] == '_');
            assert(false);
        } else {
            lemma_split_last(s1 + seq!['_'], e1, s2 + seq!['_'], e2);
            lemma_escaped_injective(c1[n1]->name, c2[n2]->name);
            assert(s1 =~= (s1 + seq!['_']).subrange(0, s1.len() as int));
            assert(s2 =~= (s2 + seq!['_']).subrange(0, s2.len() as int));
            lemma_chains_alike(c1, n1, c2, n2);
        }
    }
}

/// Starts of chains that have the same cache name are alike.
proof fn lemma_chains_alike(c1: Seq<PipeCall>, n1: int, c2: Seq<PipeCall>, n2: int)
    requires
        0 <= n1,
        0 <= n2,
        chain_suffix(c1, n1) is Some,
        chain_suffix(c2, n2) is Some,
        chain_suffix(c1, n1)->0 == chain_suffix(c2, n2)->0,
    ensures
        n1 == n2,
        forall|k: int| 0 <= k < n1 ==> c1[k] == c2[k],
    decreases n1, 0int, 0int,
{
    if n1 == 0 || n2 == 0 {
        if n1 > 0 {
            lemma_suffix_some(c1, n1 - 1, n1);
            lemma_built_ends(c1, n1 - 1, c1[n1 - 1]->params.len() as int);
        }
        if n2 > 0 {
            lemma_suffix_some(c2, n2 - 1, n2);
            lemma_built_ends(c2, n2 - 1, c2[n2 - 1]->params.len() as int);
        }
    } else {
        lemma_suffix_some(c1, n1 - 1, n1);
        lemma_suffix_some(c2, n2 - 1, n2);
        let l1 = c1[n1 - 1]->params.len() as int;
        let l2 = c2[n2 - 1]->params.len() as int;
        lemma_built_alike(c1, n1 - 1, l1, c2, n2 - 1, l2);
        assert(c1[n1 - 1]->params =~= c2[n2 - 1]->params);
        assert(c1[n1 - 1] == c2[n2 - 1]);
    }
}

/// Distinct chains never share a cache name: for one file, chains
/// without the default pipe that have the same cache name are the same
/// chain.
pub proof fn law_cache_names_tell_chains_apart(
    filename: Seq<char>,
    c1: Seq<PipeCall>,
    c2: Seq<PipeCall>,
)
    requires
        cache_filename(filename, c1) is Some,
        cache_filename(filename, c1) == cache_filename(filename, c2),
    ensures
        c1 == c2,
{
    let head = "cache/"@ + replace_char(filename, '/', '-');
    let s1 = chain_suffix(c1, c1.len() as int)->0;
    let s2 = chain_suffix(c2, c2.len() as int)->0;
    assert(s1 =~= (head + s1).subrange(head.len() as int, (head + s1).len() as int));
    assert(s2 =~= (head + s2).subrange(head.len() as int, (head + s2).len() as int));
    lemma_chains_alike(c1, c1.len() as int, c2, c2.len() as int);
    assert(c1 =~= c2);
}

/// A pipe's name or parameter as it is written in a cache name.
pub fn escaped_text(s: &str) -> (r: String)
    ensures
        r@ == escaped(s@),
{
    let chars = crate::text::chars_of(s);
    let mut out: Vec<char> = Vec::new();
    if chars.len() == 0 {
        out.push('%');
        assert(out@ =~= escaped(s@));
        return crate::text::text_of_all(&out);
    }
    let mut i: usize = 0;
    while i < chars.len()
        invariant
            i <= chars.len(),
            chars@ == s@,
            out@ + escaped_from(s@, i as int) == escaped_from(s@, 0),
        decreases chars.len() - i,
    {
        let c: char = chars[i];
        let ghost before = out@;
        if c == '_' {
            out.push('%');
            out.push('5');
            out.push('F');
        } else if c == '%' {
            out.push('%');
            out.push('2');
            out.push('5');
        } else {
            out.push(c);
        }
        proof {
            assert(out@ =~= before + escaped_char(c));
            assert(out@ + escaped_from(s@, i as int + 1) =~= before + escaped_from(s@, i as int));
        }
        i += 1;
    }
    assert(out@ =~= escaped_from(s@, 0));
    crate::text::text_of_all(&out)
}

/// The view of an optional text.
pub open spec fn optional_text(r: Option<String>) -> Option<Seq<char>> {
    match r {
        Some(s) => Some(s@),
        None => None,
    }
}

/// The name of the file that caches `filename` piped through `pipes`.
pub fn pipe_cache_check_filename(filename: &str, pipes: &Vec<Pipe>) -> (r: Option<String>)
    ensures
        optional_text(r) == cache_filename(filename@, pipe_calls(pipes@)),
{
    let rep = replace_char_text(filename, '/', '-');
    let mut path: String = concat2("cache/", rep.as_str());
    let ghost chain = pipe_calls(pipes@);
    let ghost head = path@;
    let mut i: usize = 0;
    while i < pipes.len()
        invariant
            i <= pipes.len(),
            chain == pipe_calls(pipes@),
            head == "cache/"@ + replace_char(filename@, '/', '-'),
            chain_suffix(chain, i as int) is Some,
            path@ == head + chain_suffix(chain, i as int)->0,
        decreases pipes.len() - i,
    {
        assert(chain[i as int] == pipes@[i as int]@);
        match &pipes[i] {
            Pipe::Named { name, params } => {
                let ghost start = path@;
                proof {
                    reveal_strlit("__");
                    reveal_strlit("_");
                    assert("__"@ =~= seq!['_', '_']);
                    assert("_"@ =~= seq!['_']);
                }
                path.append("__");
                path.append(escaped_text(name.as_str()).as_str());
                let ghost named = path@;
                let mut j: usize = 0;
                while j < params.len()
                    invariant
                        j <= params.len(),
                        "_"@ == seq!['_'],
                        path@ == named + params_suffix(texts(params@), j as int),
                    decreases params.len() - j,
                {
                    let ghost was = path@;
                    path.append("_");
                    path.append(escaped_text(params[j].as_str()).as_str());
                    assert(texts(params@)[j as int] == params@[j as int]@);
                    assert(path@ =~= named + params_suffix(texts(params@), j as int + 1));
                    j += 1;
                }
                assert(path@ =~= head + chain_suffix(chain, i as int + 1)->0);
            },
            Pipe::Template => {
                proof {
                    lemma_suffix_none(chain, i as int + 1, chain.len() as int);
                }
                return None;
            },
        }
        i += 1;
    }
    Some(path)
}

/// A chain whose start has no cache name has none.
pub proof fn lemma_suffix_none(chain: Seq<PipeCall>, m: int, n: int)
    requires
        0 <= m <= n,
        chain_suffix(chain, m) is None,
    ensures
        chain_suffix(chain, n) is None,
    decreases n - m,
{
    if m < n {
        lemma_suffix_none(chain, m, n - 1);
    }
}

/// Whether a cached file can be used.
pub enum CacheStatus {
    /// What the pipes give is not cached.
    Uncachable,
    /// The cache file of this name is as new as what it was made from.
    UpToDate(String),
    /// The cache file of this name is missing or older than what it is
    /// made from.
    NeedsUpdate(String),
}

/// A [`CacheStatus`] as a mathematical value.
pub enum CacheState {
    Uncachable,
    UpToDate(Seq<char>),
    NeedsUpdate(Seq<char>),
}

impl View for CacheStatus {
    type V = CacheState;

    open spec fn view(&self) -> CacheState {
        match self {
            CacheStatus::Uncachable => CacheState::Uncachable,
            CacheStatus::UpToDate(s) => CacheState::UpToDate(s@),
            CacheStatus::NeedsUpdate(s) => CacheState::NeedsUpdate(s@),
        }
    }
}

/// The newest of `newest` and the times of the definitions of the pipes
/// of `chain` from index `i` on. `None` where a pipe is the default pipe,
/// is not registered, or has no time.
pub open spec fn newest_input(chain: Seq<PipeCall>, registry: Registry, i: int, newest: u128) -> Option<u128>
    decreases chain.len() - i,
{
    if i < 0 || i >= chain.len() {
        Some(newest)
    } else {
        match chain[i] {
            PipeCall::Template => None,
            PipeCall::Named { name, params } => match registry_get(registry, name) {
                Some(PipeModel::Template(_, Some(t))) => newest_input(
                    chain,
                    registry,
                    i + 1,
                    if newest > t {
                        newest
                    } else {
                        t
                    },
                ),
                Some(PipeModel::Fn(Some(t))) => newest_input(
                    chain,
                    registry,
                    i + 1,
                    if newest > t {
                        newest
                    } else {
                        t
                    },
                ),
                _ => None,
            },
        }
    }
}

/// Whether the cache can be used, given the cache file's name, when it
/// was modified, and the newest of what it is made from: never where the
/// newest time cannot be told, and else up to date where the cache file
/// is at least as new.
pub open spec fn cache_decision(full: Seq<char>, cache_time: Option<u128>, newest: Option<u128>) -> CacheState {
    match newest {
        None => CacheState::Uncachable,
        Some(max) => match cache_time {
            None => CacheState::NeedsUpdate(full),
            Some(modify) => if modify < max {
                CacheState::NeedsUpdate(full)
            } else {
                CacheState::UpToDate(full)
            },
        },
    }
}

/// The newest of `start` and the times of the definitions of `pipes`.
pub fn newest_pipe_time<H>(pipes: &Vec<Pipe>, pipemap: &PipeMap<H>, start: u128) -> (r: Option<u128>)
    ensures
        r == newest_input(pipe_calls(pipes@), pipemap@, 0, start),
{
    let mut max: u128 = start;
    let mut i: usize = 0;
    let ghost chain = pipe_calls(pipes@);
    while i < pipes.len()
        invariant
            i <= pipes.len(),
            chain == pipe_calls(pipes@),
            newest_input(chain, pipemap@, 0, start) == newest_input(chain, pipemap@, i as int, max),
        decreases pipes.len() - i,
    {
        assert(chain[i as int] == pipes@[i as int]@);
        match &pipes[i] {
            Pipe::Named { name, params } => {
                match pipemap.get(name.as_str()) {
                    Some(PipeDefinition::Template(_, Some(tt))) => {
                        max = if max > *tt {
                            max
                        } else {
                            *tt
                        };
                    },
                    Some(PipeDefinition::Fn(_, Some(tt))) => {
                        max = if max > *tt {
                            max
                        } else {
                            *tt
                        };
                    },
                    _ => {
                        return None;
                    },
                }
            },
            Pipe::Template => {
                return None;
            },
        }
        i += 1;
    }
    Some(max)
}

/// Decides whether the cache can be used, given the cache file's name,
/// when it was modified, and the newest of what it is made from.
pub fn decide_cache(full: String, cache_time: Option<u128>, newest: Option<u128>) -> (r: CacheStatus)
    ensures
        r@ == cache_decision(full@, cache_time, newest),
{
    match newest {
        None => CacheStatus::Uncachable,
        Some(max) => match cache_time {
            None => CacheStatus::NeedsUpdate(full),
            Some(modify) => if modify < max {
                CacheStatus::NeedsUpdate(full)
            } else {
                CacheStatus::UpToDate(full)
            },
        },
    }
}

/// Decides whether the cache of `filename` piped through `pipes` can be
/// used, by the times of the file, of the pipes and of the cache file.
pub fn pipe_cache_check<H: HostPipe, R: ReadsFiles>(
    filename: &str,
    pipes: &Vec<Pipe>,
    pipemap: &PipeMap<H>,
    io: &mut Traced<R>,
) -> (r: CacheStatus)
    ensures
        extends(final(io).log(), old(io).log()),
        forall|w: World| #[trigger]
            consistent(final(io).log(), w) ==> cache_status(
                filename@,
                pipe_calls(pipes@),
                pipemap@,
                w,
                old(io).log().len(),
            ) == (r@, final(io).log().len()),
        only_asks_times(final(io).log(), old(io).log().len() as int),
{
    if pipes.len() == 0 {
        return CacheStatus::Uncachable;
    }
    match pipe_cache_check_filename(filename, pipes) {
        None => CacheStatus::Uncachable,
        Some(fullname) => {
            if newest_pipe_time(pipes, pipemap, 0).is_none() {
                proof {
                    assert forall|t: u128|
                        newest_input(pipe_calls(pipes@), pipemap@, 0, t) is None by {
                        lemma_newest_none(pipe_calls(pipes@), pipemap@, 0, 0, t);
                    }
                }
                return CacheStatus::Uncachable;
            }
            let ghost log0 = io.log();
            let input_time: u128 = match io.modify_time(filename) {
                Some(t) => t,
                None => 0,
            };
            let ghost log1 = io.log();
            let newest = newest_pipe_time(pipes, pipemap, input_time);
            if newest.is_none() {
                return CacheStatus::Uncachable;
            }
            let cache_time = io.modify_time(fullname.as_str());
            let r = decide_cache(fullname, cache_time, newest);
            proof {
                lemma_extends_trans(log0, log1, io.log());
                assert forall|w: World| #[trigger] consistent(io.log(), w) implies cache_status(
                    filename@,
                    pipe_calls(pipes@),
                    pipemap@,
                    w,
                    log0.len(),
                ) == (r@, io.log().len()) by {
                    lemma_consistent_earlier(io.log(), log1, w);
                }
            }
            r
        },
    }
}

/// Whether the newest time can be told does not depend on the time that
/// the search starts with.
pub proof fn lemma_newest_none(chain: Seq<PipeCall>, registry: Registry, i: int, a: u128, b: u128)
    requires
        newest_input(chain, registry, i, a) is None,
    ensures
        newest_input(chain, registry, i, b) is None,
    decreases chain.len() - i,
{
    if 0 <= i < chain.len() {
        match chain[i] {
            PipeCall::Template => {},
            PipeCall::Named { name, params } => match registry_get(registry, name) {
                Some(PipeModel::Template(_, Some(t))) => {
                    lemma_newest_none(
                        chain,
                        registry,
                        i + 1,
                        if a > t {
                            a
                        } else {
                            t
                        },
                        if b > t {
                            b
                        } else {
                            t
                        },
                    );
                },
                Some(PipeModel::Fn(Some(t))) => {
                    lemma_newest_none(
                        chain,
                        registry,
                        i + 1,
                        if a > t {
                            a
                        } else {
                            t
                        },
                        if b > t {
                            b
                        } else {
                            t
                        },
                    );
                },
                _ => {},
            },
        }
    }
}

/// The parameters that a template pipe is rendered with: `value` where it
/// is a mapping, else `value` under `it`; and `literal` under `params`.
pub fn template_pipe_params(value: &YamlValue, literal: &Vec<String>) -> (r: YamlMap)
    ensures
        r@ == pipe_params(value@, texts(literal@)),
{
    let mut map = match value {
        YamlValue::Hash(m) => {
            m.copy()
        },
        _ => {
            let mut m = YamlMap::new();
            m.insert(YamlValue::String("it".to_owned()), value.copy());
            assert(m@ =~= seq![(Document::String("it"@), value@)]);
            m
        },
    };
    let mut arr: Vec<YamlValue> = Vec::new();
    let mut i: usize = 0;
    while i < literal.len()
        invariant
            i <= literal.len(),
            arr@.len() == i,
            forall|j: int| 0 <= j < i ==> arr@[j]@ == Document::String(literal@[j]@),
        decreases literal.len() - i,
    {
        arr.push(YamlValue::String(literal[i].clone()));
        i += 1;
    }
    proof {
        lemma_array_view(arr);
        assert(documents(arr@) =~= Seq::new(
            texts(literal@).len(),
            |i: int| Document::String(texts(literal@)[i]),
        ));
    }
    map.insert(YamlValue::String("params".to_owned()), YamlValue::Array(arr));
    map
}

/// Sends `value` through the pipe registered under `pipe`, as pipe number
/// `index` of a chain on `valuepath`, with templates calling templates at
/// most `depth` deep.
pub fn execute_named_pipe_in<H: HostPipe, R: ReadsFiles>(
    value: &YamlValue,
    pipe: &str,
    pipe_params: &Vec<String>,
    index: usize,
    valuepath: &PipeInputSource,
    pipemap: &PipeMap<H>,
    io: &mut Traced<R>,
    context: &TemplateContext,
    depth: usize,
) -> (r: Result<YamlValue, TemplateError>)
    ensures
        extends(final(io).log(), old(io).log()),
        forall|w: World| #[trigger]
            consistent(final(io).log(), w) ==> named_pipe(
                value@,
                pipe@,
                texts(pipe_params@),
                index as nat,
                valuepath@.text(),
                env_of(pipemap@, context@, w),
                depth as nat,
                old(io).log().len(),
            ) == ended(looked_up(r), final(io).log()),
    decreases depth, 0int, Seq::<Node>::empty(), 0int,
{
    match pipemap.get(pipe) {
        Some(PipeDefinition::Template(elements, _)) => {
            if depth == 0 {
                return Err(TemplateError::PipesNestedTooDeep);
            }
            let params_map = template_pipe_params(value, pipe_params);
            match render_elements_in(elements, &params_map, pipemap, io, context, depth - 1) {
                Ok(rendered) => Ok(YamlValue::String(rendered)),
                Err(ee) => Err(
                    TemplateError::WithinTemplateNamedPipe(
                        Box::new(ee),
                        pipe.to_owned(),
                        index,
                        valuepath.to_string(),
                    ),
                ),
            }
        },
        Some(PipeDefinition::Fn(func, _)) => {
            match io.call_host(func, pipe, value, pipe_params, pipemap) {
                Ok(strr) => Ok(strr),
                Err(ee) => Err(
                    TemplateError::PipeExecutionError(
                        ee,
                        pipe.to_owned(),
                        index,
                        valuepath.to_string(),
                    ),
                ),
            }
        },
        None => Err(TemplateError::PipeMissing(pipe.to_owned())),
    }
}

/// Sends `value` through the pipe registered under `pipe`, as pipe number
/// `index` of a chain on `valuepath`. Templates may call templates
/// through pipes `MAX_PIPE_DEPTH` deep; beyond that the answer is
/// `PipesNestedTooDeep`.
pub fn execute_named_pipe<H: HostPipe, R: ReadsFiles>(
    value: &YamlValue,
    pipe: &str,
    pipe_params: &Vec<String>,
    index: usize,
    valuepath: &PipeInputSource,
    pipemap: &PipeMap<H>,
    io: &mut Traced<R>,
    context: &TemplateContext,
) -> (r: Result<YamlValue, TemplateError>)
    ensures
        extends(final(io).log(), old(io).log()),
        forall|w: World| #[trigger]
            consistent(final(io).log(), w) ==> named_pipe(
                value@,
                pipe@,
                texts(pipe_params@),
                index as nat,
                valuepath@.text(),
                env_of(pipemap@, context@, w),
                MAX_PIPE_DEPTH as nat,
                old(io).log().len(),
            ) == ended(looked_up(r), final(io).log()),
{
    execute_named_pipe_in(
        value,
        pipe,
        pipe_params,
        index,
        valuepath,
        pipemap,
        io,
        context,
        MAX_PIPE_DEPTH,
    )
}

/// Sends `value` through `pipes`, one after the other, with templates
/// calling templates at most `depth` deep.
pub fn execute_pipes_in<H: HostPipe, R: ReadsFiles>(
    value: &YamlValue,
    pipes: &Vec<Pipe>,
    params: &YamlMap,
    valuepath: &PipeInputSource,
    pipemap: &PipeMap<H>,
    io: &mut Traced<R>,
    context: &TemplateContext,
    depth: usize,
) -> (r: Result<YamlValue, TemplateError>)
    ensures
        extends(final(io).log(), old(io).log()),
        forall|w: World| #[trigger]
            consistent(final(io).log(), w) ==> run_pipes(
                pipe_calls(pipes@),
                0,
                value@,
                params@,
                valuepath@.text(),
                env_of(pipemap@, context@, w),
                depth as nat,
                old(io).log().len(),
            ) == ended(looked_up(r), final(io).log()),
    decreases depth, 1int, Seq::<Node>::empty(), 0int,
{
    let mut current = value.copy();
    let mut ind: usize = 0;
    let ghost log0 = io.log();
    let ghost chain = pipe_calls(pipes@);
    let ghost origin = valuepath@.text();
    while ind < pipes.len()
        invariant
            ind <= pipes.len(),
            chain == pipe_calls(pipes@),
            origin == valuepath@.text(),
            log0 == old(io).log(),
            extends(io.log(), log0),
            forall|w: World| #[trigger]
                consistent(io.log(), w) ==> run_pipes(
                    chain,
                    0,
                    value@,
                    params@,
                    origin,
                    env_of(pipemap@, context@, w),
                    depth as nat,
                    log0.len(),
                ) == run_pipes(
                    chain,
                    ind as int,
                    current@,
                    params@,
                    origin,
                    env_of(pipemap@, context@, w),
                    depth as nat,
                    io.log().len(),
                ),
        decreases pipes.len() - ind,
    {
        let ghost log1 = io.log();
        let ghost was = current@;
        assert(chain[ind as int] == pipes@[ind as int]@);
        match &pipes[ind] {
            Pipe::Named { name, params: literal } => {
                match execute_named_pipe_in(
                    &current,
                    name.as_str(),
                    literal,
                    ind,
                    valuepath,
                    pipemap,
                    io,
                    context,
                    depth,
                ) {
                    Err(ee) => {
                        proof {
                            lemma_extends_trans(log0, log1, io.log());
                            assert forall|w: World| #[trigger]
                                consistent(io.log(), w) implies run_pipes(
                                chain,
                                0,
                                value@,
                                params@,
                                origin,
                                env_of(pipemap@, context@, w),
                                depth as nat,
                                log0.len(),
                            ) == ended(looked_up(
                                Err::<YamlValue, TemplateError>(ee),
                            ), io.log()) by {
                                lemma_consistent_earlier(io.log(), log1, w);
                            }
                        }
                        return Err(ee);
                    },
                    Ok(next) => {
                        current = next;
                    },
                }
            },
            Pipe::Template => {
                match tostr(&current) {
                    Err(ee) => {
                        return Err(ee);
                    },
                    Ok(text) => {
                        if depth == 0 {
                            return Err(TemplateError::PipesNestedTooDeep);
                        }
                        match render_in(text.as_str(), params, pipemap, io, context, depth - 1) {
                            Ok(rendered) => {
                                current = YamlValue::String(rendered);
                            },
                            Err(ee) => {
                                let wrapped = TemplateError::WithinTemplatePipe(
                                    Box::new(ee),
                                    ind,
                                    valuepath.to_string(),
                                );
                                proof {
                                    lemma_extends_trans(log0, log1, io.log());
                                    assert forall|w: World| #[trigger]
                                        consistent(io.log(), w) implies run_pipes(
                                        chain,
                                        0,
                                        value@,
                                        params@,
                                        origin,
                                        env_of(pipemap@, context@, w),
                                        depth as nat,
                                        log0.len(),
                                    ) == ended(looked_up(
                                        Err::<YamlValue, TemplateError>(wrapped),
                                    ), io.log()) by {
                                        lemma_consistent_earlier(io.log(), log1, w);
                                    }
                                }
                                return Err(wrapped);
                            },
                        }
                    },
                }
            },
        }
        proof {
            lemma_extends_trans(log0, log1, io.log());
            assert forall|w: World| #[trigger] consistent(io.log(), w) implies run_pipes(
                chain,
                0,
                value@,
                params@,
                origin,
                env_of(pipemap@, context@, w),
                depth as nat,
                log0.len(),
            ) == run_pipes(
                chain,
                ind as int + 1,
                current@,
                params@,
                origin,
                env_of(pipemap@, context@, w),
                depth as nat,
                io.log().len(),
            ) by {
                lemma_consistent_earlier(io.log(), log1, w);
            }
        }
        ind += 1;
    }
    Ok(current)
}

/// Sends `value` through `pipes`, one after the other. Templates may
/// call templates through pipes `MAX_PIPE_DEPTH` deep; beyond that the
/// answer is `PipesNestedTooDeep`, so that the pipes always end.
pub fn execute_pipes<H: HostPipe, R: ReadsFiles>(
    value: &YamlValue,
    pipes: &Vec<Pipe>,
    params: &YamlMap,
    valuepath: PipeInputSource,
    pipemap: &PipeMap<H>,
    io: &mut Traced<R>,
    context: &TemplateContext,
) -> (r: Result<YamlValue, TemplateError>)
    ensures
        extends(final(io).log(), old(io).log()),
        forall|w: World| #[trigger]
            consistent(final(io).log(), w) ==> run_pipes(
                pipe_calls(pipes@),
                0,
                value@,
                params@,
                valuepath@.text(),
                env_of(pipemap@, context@, w),
                MAX_PIPE_DEPTH as nat,
                old(io).log().len(),
            ) == ended(looked_up(r), final(io).log()),
{
    execute_pipes_in(value, pipes, params, &valuepath, pipemap, io, context, MAX_PIPE_DEPTH)
}

} // verus!
