//! What rendering means: the text that a template gives, as a function of
//! the template, the parameters, the pipes, the folders and the course of
//! the outside: what each call of the I/O capability or of a host pipe is
//! answered with. The functions count the calls, so that a question may
//! be answered differently when it is asked again.

use vstd::prelude::*;
use crate::io::{Event, World};
use crate::parsers::{p_template, parse_message};
use crate::pipes::{
    CacheState, Origin, PipeCall, PipeModel, Registry, cache_decision, cache_filename,
    newest_input, registry_get,
};
use crate::template::{
    Access, Context, Failure, Grouping, IterationSource, Node, PipedPath, SortFilter, ValuePath,
    is_absence,
};
use crate::text::{join, lex_le};
use crate::yaml::{
    Document, Mapping, document_text, iterable, lemma_insert_get, lookup, mapping_get_str,
    mapping_insert, to_text, walk,
};

verus! {

/// How deeply templates may call templates through pipes. A template that
/// calls itself through a pipe would never end; at this depth the
/// rendering ends with `PipesNestedTooDeep` instead.
pub const MAX_PIPE_DEPTH: usize = 64;

/// What a rendering depends on besides the template and the parameters.
pub struct Env {
    pub pipes: Registry,
    pub context: Context,
    pub world: World,
}

/// What a rendering depends on, given the pipes, the folders and the
/// course of the outside.
pub open spec fn env_of(pipes: Registry, context: Context, world: World) -> Env {
    Env { pipes, context, world }
}

/// An entry of a loop: its value, where it comes from, as messages name
/// it, and its place among the entries of its source.
pub struct Entry {
    pub value: Document,
    pub location: Seq<char>,
    pub index: nat,
}

/// An entry of a loop after rendering: its sort key and its text.
pub struct Item {
    pub key: Seq<char>,
    pub text: Seq<char>,
}

/// `acc` followed by an entry for each of `values`, all from `location`,
/// each with its place among them.
pub open spec fn with_entries(acc: Seq<Entry>, values: Seq<Document>, location: Seq<char>) -> Seq<
    Entry,
> {
    acc + Seq::new(values.len(), |i: int| Entry { value: values[i], location, index: i as nat })
}

/// Whether the key `a` may stand before the key `b`, in the given order.
pub open spec fn in_order(a: Seq<char>, b: Seq<char>, ascending: bool) -> bool {
    if ascending {
        lex_le(a, b)
    } else {
        lex_le(b, a)
    }
}

/// The place at which the index `x` goes into `order`, at or after
/// `from`: behind every index whose key may stand before its own.
pub open spec fn sorted_place(keys: Seq<Seq<char>>, order: Seq<int>, x: int, ascending: bool, from: int) -> int
    decreases order.len() - from,
{
    if from < 0 || from >= order.len() {
        from
    } else if in_order(keys[order[from]], keys[x], ascending) {
        sorted_place(keys, order, x, ascending, from + 1)
    } else {
        from
    }
}

/// The indices of the first `n` keys, sorted by key in the given order;
/// indices of equal keys stay in order.
pub open spec fn sorted_order(keys: Seq<Seq<char>>, n: int, ascending: bool) -> Seq<int>
    decreases n,
{
    if n <= 0 {
        Seq::empty()
    } else {
        let before = sorted_order(keys, n - 1, ascending);
        before.insert(sorted_place(keys, before, n - 1, ascending, 0), n - 1)
    }
}

/// The keys of `items`, element by element.
pub open spec fn keys_of(items: Seq<Item>) -> Seq<Seq<char>> {
    Seq::new(items.len(), |i: int| items[i].key)
}

/// The texts of `items` in the order `order`.
pub open spec fn arranged(items: Seq<Item>, order: Seq<int>) -> Seq<Seq<char>> {
    Seq::new(order.len(), |i: int| items[order[i]].text)
}

/// The texts of `items`, element by element.
pub open spec fn texts_of(items: Seq<Item>) -> Seq<Seq<char>> {
    Seq::new(items.len(), |i: int| items[i].text)
}

/// What a computation comes to that asks the outside on its way: its
/// result, and the number of calls that have been made when it ends.
pub struct Outcome<T, E> {
    pub result: Result<T, E>,
    pub at: nat,
}

/// The outcome with the result `result` that ends when `log` holds the
/// calls that have been made.
pub open spec fn ended<T, E>(result: Result<T, E>, log: Seq<Event>) -> Outcome<T, E> {
    Outcome { result, at: log.len() }
}

/// `o`, with an error wrapped as an error in a branch of `value`.
pub open spec fn in_branch(o: Outcome<Seq<char>, Failure>, value: ValuePath, branch: bool) -> Outcome<
    Seq<char>,
    Failure,
> {
    match o.result {
        Ok(s) => o,
        Err(e) => Outcome { result: Err(Failure::InIfExistsLoop(Box::new(e), value, branch)), at: o.at },
    }
}

/// `o`, with an error wrapped as an error under the parameters at
/// `value`.
pub open spec fn in_into(o: Outcome<Seq<char>, Failure>, value: ValuePath) -> Outcome<
    Seq<char>,
    Failure,
> {
    match o.result {
        Ok(s) => o,
        Err(e) => Outcome { result: Err(Failure::InIntoStatement(Box::new(e), value)), at: o.at },
    }
}

/// The parameters that a template pipe is rendered with: the value where
/// it is a mapping, else the value under `it`; and the literal parameters
/// under `params`.
pub open spec fn pipe_params(value: Document, params: Seq<Seq<char>>) -> Mapping {
    let base = match value {
        Document::Hash(m) => m,
        _ => seq![(Document::String("it"@), value)],
    };
    mapping_insert(
        base,
        Document::String("params"@),
        Document::Array(Seq::new(params.len(), |i: int| Document::String(params[i]))),
    )
}

/// The name of the file `name`, under the snippet folder where `snippet`.
pub open spec fn real_filename(snippet: bool, name: Seq<char>, context: Context) -> Seq<char> {
    if snippet {
        context.snippet_folder + name
    } else {
        name
    }
}

/// Whether the cache of `filename` piped through `chain` can be used,
/// and the number of calls made when that is known. A chain that can be
/// cached asks for the time of the file, and then for the time of the
/// cache file.
pub open spec fn cache_status(
    filename: Seq<char>,
    chain: Seq<PipeCall>,
    pipes: Registry,
    world: World,
    at: nat,
) -> (CacheState, nat) {
    if chain.len() == 0 {
        (CacheState::Uncachable, at)
    } else {
        match cache_filename(filename, chain) {
            None => (CacheState::Uncachable, at),
            Some(full) => if newest_input(chain, pipes, 0, 0) is None {
                (CacheState::Uncachable, at)
            } else {
                match newest_input(
                    chain,
                    pipes,
                    0,
                    match (world.modify_time)(at, filename) {
                        Some(t) => t,
                        None => 0,
                    },
                ) {
                    None => (CacheState::Uncachable, at + 1),
                    Some(max) => (
                        cache_decision(full, (world.modify_time)(at + 1, full), Some(max)),
                        at + 2,
                    ),
                }
            },
        }
    }
}

/// The text that the nodes from index `i` on add to `acc`.
pub open spec fn render_nodes(
    nodes: Seq<Node>,
    i: int,
    acc: Seq<char>,
    params: Mapping,
    env: Env,
    depth: nat,
    at: nat,
) -> Outcome<Seq<char>, Failure>
    decreases depth, 3int, nodes, 0int, nodes.len() - i,
{
    if i < 0 || i >= nodes.len() {
        Outcome { result: Ok(acc), at }
    } else {
        let first = render_node(nodes[i], params, env, depth, at);
        match first.result {
            Err(e) => Outcome { result: Err(e), at: first.at },
            Ok(s) => render_nodes(nodes, i + 1, acc + s, params, env, depth, first.at),
        }
    }
}

/// The text that `nodes` give.
pub open spec fn render_all(nodes: Seq<Node>, params: Mapping, env: Env, depth: nat, at: nat) -> Outcome<
    Seq<char>,
    Failure,
>
    decreases depth, 3int, nodes, 1int, 0int,
{
    render_nodes(nodes, 0, Seq::empty(), params, env, depth, at)
}

/// The text that `node` gives.
pub open spec fn render_node(node: Node, params: Mapping, env: Env, depth: nat, at: nat) -> Outcome<
    Seq<char>,
    Failure,
>
    decreases depth, 3int, node, 0int, 0int,
{
    match node {
        Node::PlainText(text) => Outcome { result: Ok(text), at },
        Node::Replace { value, pipe } => match lookup(value, params) {
            Err(e) => Outcome { result: Err(e), at },
            Ok(found) => {
                let piped = run_pipes(
                    pipe,
                    0,
                    found,
                    params,
                    Origin::Value(value).text(),
                    env,
                    depth,
                    at,
                );
                match piped.result {
                    Err(e) => Outcome { result: Err(e), at: piped.at },
                    Ok(v) => Outcome { result: to_text(v), at: piped.at },
                }
            },
        },
        Node::File { snippet, filename, pipe } => get_file(
            real_filename(snippet, filename, env.context),
            pipe,
            params,
            env,
            depth,
            at,
        ),
        Node::FileAt { snippet, value, value_pipe, contents_pipe } => match lookup(value, params) {
            Err(e) => Outcome { result: Err(e), at },
            Ok(found) => {
                let piped = run_pipes(
                    value_pipe,
                    0,
                    found,
                    params,
                    Origin::Value(value).text(),
                    env,
                    depth,
                    at,
                );
                match piped.result {
                    Err(e) => Outcome { result: Err(e), at: piped.at },
                    Ok(v) => match to_text(v) {
                        Err(e) => Outcome { result: Err(e), at: piped.at },
                        Ok(name) => get_file(
                            real_filename(snippet, name, env.context),
                            contents_pipe,
                            params,
                            env,
                            depth,
                            piped.at,
                        ),
                    },
                }
            },
        },
        Node::IfExists { value, when_true, when_false } => match lookup(value, params) {
            Ok(_) => in_branch(render_all(when_true, params, env, depth, at), value, true),
            Err(e) => if is_absence(e) {
                in_branch(render_all(when_false, params, env, depth, at), value, false)
            } else {
                Outcome { result: Err(e), at }
            },
        },
        Node::Into { value, ast } => match lookup(value, params) {
            Ok(Document::Hash(m)) => in_into(render_all(ast, m, env, depth, at), value),
            Ok(_) => Outcome { result: Err(Failure::IntoValueNotHash(value)), at },
            Err(e) => Outcome { result: Err(Failure::InIntoStatement(Box::new(e), value)), at },
        },
        Node::LookupCatcher(alternatives) => catch(
            alternatives,
            0,
            Failure::UnknownError,
            params,
            env,
            depth,
            at,
        ),
        Node::For { name, main, groupings, separator, sort_and_filter } => {
            let entries = entries_of_groupings(groupings, 0, Seq::empty(), params, env, depth, at);
            match entries.result {
                Err(e) => Outcome { result: Err(e), at: entries.at },
                Ok(found) => {
                    let items = for_items(
                        found,
                        0,
                        Seq::empty(),
                        name,
                        main,
                        sort_and_filter,
                        params,
                        env,
                        depth,
                        entries.at,
                    );
                    match items.result {
                        Err(e) => Outcome { result: Err(e), at: items.at },
                        Ok(made) => {
                            let sep = render_all(separator, params, env, depth, items.at);
                            match sep.result {
                                Err(e) => Outcome { result: Err(e), at: sep.at },
                                Ok(between) => Outcome {
                                    result: Ok(
                                        join(
                                            if sort_and_filter.sort_key is Some {
                                                arranged(
                                                    made,
                                                    sorted_order(
                                                        keys_of(made),
                                                        made.len() as int,
                                                        sort_and_filter.is_sort_ascending,
                                                    ),
                                                )
                                            } else {
                                                texts_of(made)
                                            },
                                            between,
                                        ),
                                    ),
                                    at: sep.at,
                                },
                            }
                        },
                    }
                },
            }
        },
    }
}

/// What the alternatives from index `i` on give: the text of the first
/// that renders, or the first error that is no absence, or else the last
/// absence, which is `last` where none is left.
pub open spec fn catch(
    alternatives: Seq<Seq<Node>>,
    i: int,
    last: Failure,
    params: Mapping,
    env: Env,
    depth: nat,
    at: nat,
) -> Outcome<Seq<char>, Failure>
    decreases depth, 3int, alternatives, 0int, alternatives.len() - i,
{
    if i < 0 || i >= alternatives.len() {
        Outcome { result: Err(last), at }
    } else {
        let tried = render_all(alternatives[i], params, env, depth, at);
        match tried.result {
            Ok(s) => tried,
            Err(e) => if is_absence(e) {
                catch(alternatives, i + 1, e, params, env, depth, tried.at)
            } else {
                tried
            },
        }
    }
}

/// The entries that the groupings from index `i` on add to `acc`.
pub open spec fn entries_of_groupings(
    groupings: Seq<Grouping>,
    i: int,
    acc: Seq<Entry>,
    params: Mapping,
    env: Env,
    depth: nat,
    at: nat,
) -> Outcome<Seq<Entry>, Failure>
    decreases depth, 2int, Seq::<Node>::empty(), 3int, groupings.len() - i,
{
    if i < 0 || i >= groupings.len() {
        Outcome { result: Ok(acc), at }
    } else {
        let first = entries_of_values(groupings[i].values, 0, acc, params, env, depth, at);
        match first.result {
            Err(e) => first,
            Ok(a) => {
                let second = entries_of_files(groupings[i].filenames, 0, a, env, first.at);
                match second.result {
                    Err(e) => second,
                    Ok(b) => {
                        let third = entries_of_files_at(
                            groupings[i].files_at,
                            0,
                            b,
                            params,
                            env,
                            second.at,
                        );
                        match third.result {
                            Err(e) => third,
                            Ok(c) => entries_of_groupings(
                                groupings,
                                i + 1,
                                c,
                                params,
                                env,
                                depth,
                                third.at,
                            ),
                        }
                    },
                }
            },
        }
    }
}

/// The entries that the values from index `i` on add to `acc`: the
/// elements of each value, after its pipes.
pub open spec fn entries_of_values(
    values: Seq<PipedPath>,
    i: int,
    acc: Seq<Entry>,
    params: Mapping,
    env: Env,
    depth: nat,
    at: nat,
) -> Outcome<Seq<Entry>, Failure>
    decreases depth, 2int, Seq::<Node>::empty(), 2int, values.len() - i,
{
    if i < 0 || i >= values.len() {
        Outcome { result: Ok(acc), at }
    } else {
        let location = IterationSource::Values(values[i].value).text();
        match lookup(values[i].value, params) {
            Err(e) => Outcome { result: Err(e), at },
            Ok(found) => {
                let piped = run_pipes(
                    values[i].pipes,
                    0,
                    found,
                    params,
                    Origin::Value(values[i].value).text(),
                    env,
                    depth,
                    at,
                );
                match piped.result {
                    Err(e) => Outcome { result: Err(e), at: piped.at },
                    Ok(v) => match iterable(location, v) {
                        Err(e) => Outcome { result: Err(e), at: piped.at },
                        Ok(elements) => entries_of_values(
                            values,
                            i + 1,
                            with_entries(acc, elements, location),
                            params,
                            env,
                            depth,
                            piped.at,
                        ),
                    },
                }
            },
        }
    }
}

/// The entries that the document files from index `i` on add to `acc`.
pub open spec fn entries_of_files(filenames: Seq<Seq<char>>, i: int, acc: Seq<Entry>, env: Env, at: nat) -> Outcome<
    Seq<Entry>,
    Failure,
>
    decreases filenames.len() - i,
{
    if i < 0 || i >= filenames.len() {
        Outcome { result: Ok(acc), at }
    } else {
        let location = IterationSource::Filenames(filenames[i]).text();
        match (env.world.read_yaml)(at, filenames[i]) {
            Err(e) => Outcome { result: Err(Failure::YamlFileError(e)), at: at + 1 },
            Ok(found) => match iterable(location, found) {
                Err(e) => Outcome { result: Err(e), at: at + 1 },
                Ok(elements) => entries_of_files(
                    filenames,
                    i + 1,
                    with_entries(acc, elements, location),
                    env,
                    at + 1,
                ),
            },
        }
    }
}

/// The entries that the document files named by the values from index
/// `i` on add to `acc`.
pub open spec fn entries_of_files_at(
    files_at: Seq<ValuePath>,
    i: int,
    acc: Seq<Entry>,
    params: Mapping,
    env: Env,
    at: nat,
) -> Outcome<Seq<Entry>, Failure>
    decreases files_at.len() - i,
{
    if i < 0 || i >= files_at.len() {
        Outcome { result: Ok(acc), at }
    } else {
        match lookup(files_at[i], params) {
            Err(e) => Outcome { result: Err(e), at },
            Ok(found) => match to_text(found) {
                Err(e) => Outcome { result: Err(e), at },
                Ok(filename) => {
                    let location = IterationSource::FileAt(files_at[i], filename).text();
                    match (env.world.read_yaml)(at, filename) {
                        Err(e) => Outcome { result: Err(Failure::YamlFileError(e)), at: at + 1 },
                        Ok(file) => match iterable(location, file) {
                            Err(e) => Outcome { result: Err(e), at: at + 1 },
                            Ok(elements) => entries_of_files_at(
                                files_at,
                                i + 1,
                                with_entries(acc, elements, location),
                                params,
                                env,
                                at + 1,
                            ),
                        },
                    }
                },
            },
        }
    }
}

/// Whether an entry is kept by the filter `key`: `present` says whether a
/// value at `key` keeps it or drops it. An error that is no absence is
/// returned.
pub open spec fn filter_keeps(key: Option<ValuePath>, bound: Mapping, present: bool) -> Result<
    bool,
    Failure,
> {
    match key {
        None => Ok(true),
        Some(k) => match lookup(k, bound) {
            Ok(_) => Ok(present),
            Err(e) => if is_absence(e) {
                Ok(!present)
            } else {
                Err(e)
            },
        },
    }
}

/// The sort key of an entry: the text of the value at `key`, or the empty
/// text where the loop does not sort.
pub open spec fn sort_key_of(key: Option<ValuePath>, bound: Mapping) -> Result<Seq<char>, Failure> {
    match key {
        None => Ok(Seq::empty()),
        Some(k) => match lookup(k, bound) {
            Err(e) => Err(e),
            Ok(found) => to_text(found),
        },
    }
}

/// The items that the entries from index `i` on add to `acc`: each entry
/// that the filters keep, with its sort key and the text of the body.
pub open spec fn for_items(
    entries: Seq<Entry>,
    i: int,
    acc: Seq<Item>,
    name: Seq<char>,
    body: Seq<Node>,
    sort_and_filter: SortFilter,
    params: Mapping,
    env: Env,
    depth: nat,
    at: nat,
) -> Outcome<Seq<Item>, Failure>
    decreases depth, 3int, body, 2int, entries.len() - i,
{
    if i < 0 || i >= entries.len() {
        Outcome { result: Ok(acc), at }
    } else {
        let location = entries[i].location;
        let bound = mapping_insert(params, Document::String(name), entries[i].value);
        match filter_keeps(sort_and_filter.filter_includes, bound, true) {
            Err(e) => Outcome {
                result: Err(Failure::OnForLoopIterationIncludeKey(Box::new(e), location)),
                at,
            },
            Ok(included) => match filter_keeps(sort_and_filter.filter_excludes, bound, false) {
                Err(e) => Outcome {
                    result: Err(Failure::OnForLoopIterationExcludeKey(Box::new(e), location)),
                    at,
                },
                Ok(kept) => if included && kept {
                    match sort_key_of(sort_and_filter.sort_key, bound) {
                        Err(e) => Outcome {
                            result: Err(Failure::OnForLoopIterationSortKey(Box::new(e), location)),
                            at,
                        },
                        Ok(key) => {
                            let made = render_all(body, bound, env, depth, at);
                            match made.result {
                                Err(e) => Outcome {
                                    result: Err(
                                        Failure::OnForLoopIteration(Box::new(e), location),
                                    ),
                                    at: made.at,
                                },
                                Ok(text) => for_items(
                                    entries,
                                    i + 1,
                                    acc.push(Item { key, text }),
                                    name,
                                    body,
                                    sort_and_filter,
                                    params,
                                    env,
                                    depth,
                                    made.at,
                                ),
                            }
                        },
                    }
                } else {
                    for_items(
                        entries,
                        i + 1,
                        acc,
                        name,
                        body,
                        sort_and_filter,
                        params,
                        env,
                        depth,
                        at,
                    )
                },
            },
        }
    }
}

/// What `current` becomes when it goes through the pipes of `chain` from
/// index `i` on.
pub open spec fn run_pipes(
    chain: Seq<PipeCall>,
    i: int,
    current: Document,
    params: Mapping,
    origin: Seq<char>,
    env: Env,
    depth: nat,
    at: nat,
) -> Outcome<Document, Failure>
    decreases depth, 1int, Seq::<Node>::empty(), 0int, chain.len() - i,
{
    if i < 0 || i >= chain.len() {
        Outcome { result: Ok(current), at }
    } else {
        let piped = match chain[i] {
            PipeCall::Named { name, params: literal } => named_pipe(
                current,
                name,
                literal,
                i as nat,
                origin,
                env,
                depth,
                at,
            ),
            PipeCall::Template => match to_text(current) {
                Err(e) => Outcome { result: Err(e), at },
                Ok(text) => if depth == 0 {
                    Outcome { result: Err(Failure::PipesNestedTooDeep), at }
                } else {
                    let made = read_and_render(
                        p_template(text),
                        params,
                        env,
                        (depth - 1) as nat,
                        at,
                    );
                    match made.result {
                        Ok(s) => Outcome { result: Ok(Document::String(s)), at: made.at },
                        Err(e) => Outcome {
                            result: Err(
                                Failure::WithinTemplatePipe(Box::new(e), i as usize, origin),
                            ),
                            at: made.at,
                        },
                    }
                },
            },
        };
        match piped.result {
            Err(e) => piped,
            Ok(next) => run_pipes(chain, i + 1, next, params, origin, env, depth, piped.at),
        }
    }
}

/// What `value` becomes when it goes through the pipe registered under
/// `name`, as pipe number `index` of a chain on `origin`.
pub open spec fn named_pipe(
    value: Document,
    name: Seq<char>,
    literal: Seq<Seq<char>>,
    index: nat,
    origin: Seq<char>,
    env: Env,
    depth: nat,
    at: nat,
) -> Outcome<Document, Failure>
    decreases depth, 0int, Seq::<Node>::empty(), 0int, 0int,
{
    match registry_get(env.pipes, name) {
        None => Outcome { result: Err(Failure::PipeMissing(name)), at },
        Some(PipeModel::Template(ast, _)) => if depth == 0 {
            Outcome { result: Err(Failure::PipesNestedTooDeep), at }
        } else {
            let made = render_all(ast, pipe_params(value, literal), env, (depth - 1) as nat, at);
            match made.result {
                Ok(s) => Outcome { result: Ok(Document::String(s)), at: made.at },
                Err(e) => Outcome {
                    result: Err(
                        Failure::WithinTemplateNamedPipe(Box::new(e), name, index as usize, origin),
                    ),
                    at: made.at,
                },
            }
        },
        Some(PipeModel::Fn(_)) => Outcome {
            result: match (env.world.host)(at, name, value, literal) {
                Ok(v) => Ok(v),
                Err(message) => Err(
                    Failure::PipeExecutionError(message, name, index as usize, origin),
                ),
            },
            at: at + 1,
        },
    }
}

/// The text that a template gives that was read, or the error of reading
/// it.
pub open spec fn read_and_render(
    read: Result<Seq<Node>, nat>,
    params: Mapping,
    env: Env,
    depth: nat,
    at: nat,
) -> Outcome<Seq<char>, Failure>
    decreases depth, 4int, Seq::<Node>::empty(), 0int, 0int,
{
    match read {
        Err(place) => Outcome { result: Err(Failure::ParseError(parse_message(place))), at },
        Ok(nodes) => render_all(nodes, params, env, depth, at),
    }
}

/// The text that the template written as `text` gives.
pub open spec fn render_text(text: Seq<char>, params: Mapping, env: Env, depth: nat, at: nat) -> Outcome<
    Seq<char>,
    Failure,
> {
    read_and_render(p_template(text), params, env, depth, at)
}

/// The text of the file `filename` after the pipes of `chain`.
pub open spec fn get_file_fresh(
    filename: Seq<char>,
    chain: Seq<PipeCall>,
    params: Mapping,
    env: Env,
    depth: nat,
    at: nat,
) -> Outcome<Seq<char>, Failure>
    decreases depth, 2int, Seq::<Node>::empty(), 0int, 0int,
{
    match (env.world.read)(at, filename) {
        Err(e) => Outcome { result: Err(Failure::FileError(e)), at: at + 1 },
        Ok(text) => {
            let piped = run_pipes(
                chain,
                0,
                Document::String(text),
                params,
                Origin::File(filename).text(),
                env,
                depth,
                at + 1,
            );
            match piped.result {
                Err(e) => Outcome { result: Err(e), at: piped.at },
                Ok(v) => Outcome { result: to_text(v), at: piped.at },
            }
        },
    }
}

/// What reading the cache file `full` gives.
pub open spec fn cached_text(full: Seq<char>, world: World, at: nat) -> Outcome<Seq<char>, Failure> {
    Outcome {
        result: match (world.read)(at, full) {
            Ok(text) => Ok(text),
            Err(e) => Err(Failure::FileError(e)),
        },
        at: at + 1,
    }
}

/// The text of the file `filename` after the pipes of `chain`, made
/// afresh and written to the cache file `full`.
pub open spec fn refreshed(
    full: Seq<char>,
    filename: Seq<char>,
    chain: Seq<PipeCall>,
    params: Mapping,
    env: Env,
    depth: nat,
    at: nat,
) -> Outcome<Seq<char>, Failure>
    decreases depth, 2int, Seq::<Node>::empty(), 1int, 0int,
{
    let fresh = get_file_fresh(filename, chain, params, env, depth, at);
    match fresh.result {
        Err(e) => fresh,
        Ok(text) => Outcome {
            result: match (env.world.write)(fresh.at, full, text) {
                Err(e) => Err(Failure::FileError(e)),
                Ok(_) => Ok(text),
            },
            at: fresh.at + 1,
        },
    }
}

/// The text of the file `filename` after the pipes of `chain`, from the
/// cache where that is up to date.
pub open spec fn get_file(
    filename: Seq<char>,
    chain: Seq<PipeCall>,
    params: Mapping,
    env: Env,
    depth: nat,
    at: nat,
) -> Outcome<Seq<char>, Failure>
    decreases depth, 2int, Seq::<Node>::empty(), 2int, 0int,
{
    let status = cache_status(filename, chain, env.pipes, env.world, at);
    match status.0 {
        CacheState::UpToDate(full) => cached_text(full, env.world, status.1),
        CacheState::NeedsUpdate(full) => refreshed(
            full,
            filename,
            chain,
            params,
            env,
            depth,
            status.1,
        ),
        CacheState::Uncachable => get_file_fresh(filename, chain, params, env, depth, status.1),
    }
}

/// An `if-exists` node renders its first branch where its value is
/// found, its second branch where the value is absent, and gives the
/// error of the lookup otherwise. An error inside a branch is wrapped
/// with the branch and the value.
pub proof fn law_if_exists(
    value: ValuePath,
    when_true: Seq<Node>,
    when_false: Seq<Node>,
    params: Mapping,
    env: Env,
    depth: nat,
    at: nat,
)
    ensures
        lookup(value, params) is Ok ==> render_node(
            Node::IfExists { value, when_true, when_false },
            params,
            env,
            depth,
            at,
        ) == in_branch(render_all(when_true, params, env, depth, at), value, true),
        lookup(value, params) matches Err(e) && is_absence(e) ==> render_node(
            Node::IfExists { value, when_true, when_false },
            params,
            env,
            depth,
            at,
        ) == in_branch(render_all(when_false, params, env, depth, at), value, false),
        lookup(value, params) matches Err(e) && !is_absence(e) ==> render_node(
            Node::IfExists { value, when_true, when_false },
            params,
            env,
            depth,
            at,
        ) == (Outcome::<Seq<char>, Failure> { result: Err(lookup(value, params)->Err_0), at }),
{
}

/// Where the cache file of a piped file is at least as new as the file
/// and the pipes, the text is what reading the cache file gives: after
/// the two questions for times, the cache file is read, and the pipes
/// play no part.
pub proof fn law_cache_round_trip(
    filename: Seq<char>,
    chain: Seq<PipeCall>,
    params: Mapping,
    env: Env,
    depth: nat,
    at: nat,
    full: Seq<char>,
    newest: u128,
    cached: u128,
)
    requires
        chain.len() > 0,
        cache_filename(filename, chain) == Some(full),
        newest_input(
            chain,
            env.pipes,
            0,
            match (env.world.modify_time)(at, filename) {
                Some(t) => t,
                None => 0,
            },
        ) == Some(newest),
        (env.world.modify_time)(at + 1, full) == Some(cached),
        newest <= cached,
    ensures
        cache_status(filename, chain, env.pipes, env.world, at) == (
            CacheState::UpToDate(full),
            at + 2,
        ),
        get_file(filename, chain, params, env, depth, at) == cached_text(
            full,
            env.world,
            at + 2,
        ),
{
    if newest_input(chain, env.pipes, 0, 0) is None {
        crate::pipes::lemma_newest_none(
            chain,
            env.pipes,
            0,
            0,
            match (env.world.modify_time)(at, filename) {
                Some(t) => t,
                None => 0,
            },
        );
    }
}

/// Whether `order` lists the indices below `n` each once, with their
/// keys in the given order and the indices of equal keys ascending.
pub open spec fn is_stable_sort(keys: Seq<Seq<char>>, order: Seq<int>, n: int, ascending: bool) -> bool {
    &&& order.len() == n
    &&& forall|p: int| 0 <= p < n ==> 0 <= #[trigger] order[p] < n
    &&& forall|p: int, q: int| 0 <= p < q < n ==> #[trigger] order[p] != #[trigger] order[q]
    &&& forall|p: int, q: int|
        0 <= p < q < n ==> in_order(
            keys[#[trigger] order[p]],
            keys[#[trigger] order[q]],
            ascending,
        )
    &&& forall|p: int, q: int|
        0 <= p < q < n && keys[#[trigger] order[p]] == keys[#[trigger] order[q]] ==> order[p]
            < order[q]
}

/// The place of a new index is behind the indices whose keys may stand
/// before its key, and before an index whose key may not.
proof fn lemma_sorted_place(keys: Seq<Seq<char>>, order: Seq<int>, x: int, ascending: bool, from: int)
    requires
        0 <= from <= order.len(),
    ensures
        from <= sorted_place(keys, order, x, ascending, from) <= order.len(),
        forall|k: int|
            from <= k < sorted_place(keys, order, x, ascending, from) ==> in_order(
                keys[#[trigger] order[k]],
                keys[x],
                ascending,
            ),
        sorted_place(keys, order, x, ascending, from) < order.len() ==> !in_order(
            keys[order[sorted_place(keys, order, x, ascending, from)]],
            keys[x],
            ascending,
        ),
    decreases order.len() - from,
{
    if from < order.len() && in_order(keys[order[from]], keys[x], ascending) {
        lemma_sorted_place(keys, order, x, ascending, from + 1);
    }
}

/// The order on keys, in either direction, is reflexive, total and
/// transitive.
proof fn lemma_in_order(a: Seq<char>, b: Seq<char>, c: Seq<char>, ascending: bool)
    ensures
        in_order(a, a, ascending),
        in_order(a, b, ascending) || in_order(b, a, ascending),
        in_order(a, b, ascending) && in_order(b, c, ascending) ==> in_order(a, c, ascending),
{
    crate::text::lemma_lex_reflexive(a, 0);
    crate::text::lemma_lex_total(a, b, 0);
    if ascending {
        if lex_le(a, b) && lex_le(b, c) {
            crate::text::lemma_lex_transitive(a, b, c, 0);
        }
    } else {
        if lex_le(c, b) && lex_le(b, a) {
            crate::text::lemma_lex_transitive(c, b, a, 0);
        }
    }
}

/// Sorting is a stable sort: the order that a loop gives its entries
/// lists each entry once, with the keys in order, and entries of equal
/// keys in the order in which they were found.
pub proof fn law_sort_stable(keys: Seq<Seq<char>>, n: int, ascending: bool)
    requires
        0 <= n <= keys.len(),
    ensures
        is_stable_sort(keys, sorted_order(keys, n, ascending), n, ascending),
    decreases n,
{
    if n > 0 {
        law_sort_stable(keys, n - 1, ascending);
        let before = sorted_order(keys, n - 1, ascending);
        let x = n - 1;
        let j = sorted_place(keys, before, x, ascending, 0);
        lemma_sorted_place(keys, before, x, ascending, 0);
        let order = before.insert(j, x);
        assert(order == sorted_order(keys, n, ascending));
        assert(order.len() == n);
        assert forall|p: int| 0 <= p < n implies 0 <= #[trigger] order[p] < n by {
            if p < j {
                assert(order[p] == before[p]);
            } else if p > j {
                assert(order[p] == before[p - 1]);
            }
        }
        assert forall|p: int, q: int| 0 <= p < q < n implies #[trigger] order[p]
            != #[trigger] order[q] && in_order(keys[order[p]], keys[order[q]], ascending) && (
            keys[order[p]] == keys[order[q]] ==> order[p] < order[q]) by {
            let a = if p < j {
                before[p]
            } else if p == j {
                x
            } else {
                before[p - 1]
            };
            let b = if q < j {
                before[q]
            } else if q == j {
                x
            } else {
                before[q - 1]
            };
            assert(order[p] == a);
            assert(order[q] == b);
            if q == j {
                assert(in_order(keys[before[p]], keys[x], ascending));
                assert(0 <= before[p] < n - 1);
            } else if p == j {
                assert(0 <= before[q - 1] < n - 1);
                lemma_in_order(keys[before[j]], keys[x], keys[x], ascending);
                lemma_in_order(keys[x], keys[before[j]], keys[before[q - 1]], ascending);
                if q - 1 > j {
                    assert(in_order(keys[before[j]], keys[before[q - 1]], ascending));
                }
                if keys[x] == keys[before[q - 1]] {
                    lemma_in_order(keys[before[j]], keys[before[q - 1]], keys[x], ascending);
                    assert(false);
                }
            } else {
                let pp = if p < j {
                    p
                } else {
                    p - 1
                };
                let qq = if q < j {
                    q
                } else {
                    q - 1
                };
                assert(0 <= pp < qq < n - 1);
                assert(before[pp] != before[qq]);
                assert(in_order(keys[before[pp]], keys[before[qq]], ascending));
            }
        }
    }
}

/// The loop that runs over the value at `over`, binds each element to
/// `name`, renders the element, and sets the renderings off by `sep`.
pub open spec fn plain_loop(name: Seq<char>, over: ValuePath, sep: Seq<char>) -> Node {
    Node::For {
        name,
        main: seq![
            Node::Replace {
                value: ValuePath { base: name, accesses: Seq::empty() },
                pipe: Seq::empty(),
            },
        ],
        groupings: seq![
            Grouping {
                values: seq![PipedPath { value: over, pipes: Seq::empty() }],
                filenames: Seq::empty(),
                files_at: Seq::empty(),
            },
        ],
        separator: seq![Node::PlainText(sep)],
        sort_and_filter: SortFilter {
            sort_key: None,
            is_sort_ascending: false,
            filter_includes: None,
            filter_excludes: None,
        },
    }
}

/// The texts of `elements`, element by element.
pub open spec fn element_texts(elements: Seq<Document>) -> Seq<Seq<char>> {
    Seq::new(elements.len(), |i: int| document_text(elements[i]))
}

/// The items that a plain loop makes of the first `n` of `elements`.
pub open spec fn plain_items(elements: Seq<Document>, n: int) -> Seq<Item> {
    Seq::new(n as nat, |k: int| Item { key: Seq::empty(), text: document_text(elements[k]) })
}

/// The items that a plain loop makes of the entries from index `i` on.
proof fn lemma_plain_items(
    elements: Seq<Document>,
    location: Seq<char>,
    i: int,
    name: Seq<char>,
    params: Mapping,
    env: Env,
    depth: nat,
    at: nat,
)
    requires
        0 <= i <= elements.len(),
    ensures
        for_items(
            with_entries(Seq::empty(), elements, location),
            i,
            plain_items(elements, i),
            name,
            plain_loop(name, ValuePath { base: name, accesses: Seq::empty() }, Seq::empty())->For_main,
            plain_loop(
                name,
                ValuePath { base: name, accesses: Seq::empty() },
                Seq::empty(),
            )->For_sort_and_filter,
            params,
            env,
            depth,
            at,
        ) == (Outcome::<Seq<Item>, Failure> {
            result: Ok(plain_items(elements, elements.len() as int)),
            at,
        }),
    decreases elements.len() - i,
{
    let entries = with_entries(Seq::empty(), elements, location);
    let it = ValuePath { base: name, accesses: Seq::empty() };
    let body = plain_loop(name, it, Seq::empty())->For_main;
    assert(entries.len() == elements.len());
    if i < elements.len() {
        assert(entries[i] == Entry { value: elements[i], location, index: i as nat });
        let bound = mapping_insert(params, Document::String(name), elements[i]);
        lemma_insert_get(params, Document::String(name), elements[i]);
        assert(mapping_get_str(bound, name) == Some(elements[i]));
        assert(walk(elements[i], name, Seq::<Access>::empty(), 0, bound) == Ok::<
            Document,
            Failure,
        >(elements[i]));
        assert(lookup(it, bound) == Ok::<Document, Failure>(elements[i]));
        assert(run_pipes(
            Seq::<PipeCall>::empty(),
            0,
            elements[i],
            bound,
            Origin::Value(it).text(),
            env,
            depth,
            at,
        ) == (Outcome::<Document, Failure> { result: Ok(elements[i]), at }));
        let text = document_text(elements[i]);
        assert(render_node(body[0], bound, env, depth, at) == (Outcome::<Seq<char>, Failure> {
            result: Ok(text),
            at,
        }));
        assert(Seq::<char>::empty() + text =~= text);
        assert(render_nodes(body, 1, text, bound, env, depth, at) == (Outcome::<
            Seq<char>,
            Failure,
        > { result: Ok(text), at }));
        assert(render_nodes(body, 0, Seq::empty(), bound, env, depth, at) == (Outcome::<
            Seq<char>,
            Failure,
        > { result: Ok(text), at }));
        assert(render_all(body, bound, env, depth, at) == (Outcome::<Seq<char>, Failure> {
            result: Ok(text),
            at,
        }));
        assert(plain_items(elements, i).push(Item { key: Seq::empty(), text }) =~= plain_items(
            elements,
            i + 1,
        ));
        lemma_plain_items(elements, location, i + 1, name, params, env, depth, at);
    }
}

/// A loop over a sequence that renders each element as it is, with a
/// plain text between the elements and without pipes, sorting or
/// filters, renders the texts of the elements joined by that text: the
/// empty text for no elements. The loop asks nothing of the outside.
pub proof fn law_for_joins(
    name: Seq<char>,
    over: ValuePath,
    sep: Seq<char>,
    elements: Seq<Document>,
    params: Mapping,
    env: Env,
    depth: nat,
    at: nat,
)
    requires
        lookup(over, params) == Ok::<Document, Failure>(Document::Array(elements)),
    ensures
        render_node(plain_loop(name, over, sep), params, env, depth, at) == (Outcome::<
            Seq<char>,
            Failure,
        > { result: Ok(join(element_texts(elements), sep)), at }),
{
    let node = plain_loop(name, over, sep);
    let groupings = node->For_groupings;
    let values = groupings[0].values;
    let location = IterationSource::Values(over).text();
    let entries = with_entries(Seq::empty(), elements, location);
    let found = Outcome::<Seq<Entry>, Failure> { result: Ok(entries), at };
    assert(run_pipes(
        Seq::<PipeCall>::empty(),
        0,
        Document::Array(elements),
        params,
        Origin::Value(over).text(),
        env,
        depth,
        at,
    ) == (Outcome::<Document, Failure> { result: Ok(Document::Array(elements)), at }));
    assert(entries_of_values(values, 1, entries, params, env, depth, at) == found);
    assert(entries_of_values(values, 0, Seq::empty(), params, env, depth, at) == found);
    assert(entries_of_files(groupings[0].filenames, 0, entries, env, at) == found);
    assert(entries_of_files_at(groupings[0].files_at, 0, entries, params, env, at) == found);
    assert(entries_of_groupings(groupings, 1, entries, params, env, depth, at) == found);
    assert(entries_of_groupings(groupings, 0, Seq::empty(), params, env, depth, at) == found);
    assert(plain_items(elements, 0) =~= Seq::<Item>::empty());
    lemma_plain_items(elements, location, 0, name, params, env, depth, at);
    let separator = node->For_separator;
    let between = Outcome::<Seq<char>, Failure> { result: Ok(sep), at };
    assert(Seq::<char>::empty() + sep =~= sep);
    assert(separator[0] == Node::PlainText(sep));
    assert(render_node(separator[0], params, env, depth, at) == between);
    assert(render_nodes(separator, 1, sep, params, env, depth, at) == between);
    assert(render_nodes(separator, 0, Seq::empty(), params, env, depth, at) == between);
    assert(texts_of(plain_items(elements, elements.len() as int)) =~= element_texts(elements));
}

} // verus!
