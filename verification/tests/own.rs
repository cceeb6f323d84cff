use epicsitegen::io::{FileError, ReadsFiles, ReadsFilesImpl, Traced};
use epicsitegen::parsers::parse_template_string;
use epicsitegen::pipes::{new_pipe_map, HostPipe, PipeDefinition, PipeMap};
use epicsitegen::actions::{
    dots_from, flatten_params, page_parameters, BuildAction, BuildActionExpanded,
    BuildError, BuildMultiplePages, ParamsSource,
};
use epicsitegen::layout::{layout_string_to_buildactions, LayoutError};
use epicsitegen::parsers::{parse_mapping_string, ParseError};
use epicsitegen::pipes::{
    decide_cache, escaped_text, execute_pipes, newest_pipe_time, pipe_cache_check_filename,
    CacheStatus, Pipe,
    PipeInputSource,
};
use epicsitegen::template::{
    default_template_context, for_make_iterable, render, render_elements, sorted_indices,
    ForGrouping, TemplateContext,
    ForIterationType, ForSortAndFilter, TemplateElement, TemplateError, TemplateValue,
    TemplateValueAccess, TemplateValueWithPipe,
};
use epicsitegen::text::{decimal_text, indent, join_texts, lex_le_chars, signed_decimal_text};
use epicsitegen::utils::{fold_m, fold_m_mut, map_m, map_m_index, map_m_mut, map_m_mut_index, map_m_ref, map_m_ref_index, map_mut, MaybeRef};
use epicsitegen::yaml::{
    insert_value, load_yaml_document, lookup_array_property, lookup_str_from_yaml_map,
    lookup_value, lookup_yaml, new_yaml_map, to_iterable, tostr, unsafe_get_as_string,
};
use epicsitegen::io::StampedCache;
use epicsitegen::yaml::{load_yaml, YamlFileError, YamlMap, YamlValue};
use std::collections::{HashMap, HashSet};

pub struct TestFileCache {
    pub files: HashMap<String, String>,
    file_modify_times: HashMap<String, u128>,
    pub read: HashSet<String>,
    pub written: HashMap<String, String>,
}

impl ReadsFiles for TestFileCache {
    fn read(&mut self, filename: &str) -> Result<String, FileError> {
        self.read.insert(filename.to_owned());
        match self.files.get(filename) {
            Some(ss) => Ok(ss.clone()),
            None => Err(FileError::FileNotFound(filename.to_owned())),
        }
    }

    fn modify_time(&self, filename: &str) -> Option<u128> {
        self.file_modify_times.get(filename).map(|ii| *ii)
    }

    fn read_yaml(&mut self, filename: &str) -> Result<YamlValue, YamlFileError> {
        let contents = self.read(filename).map_err(|xx| YamlFileError::File(xx))?;
        load_yaml(&contents).map_err(|xx| YamlFileError::Yaml(xx))
    }

    fn read_template(&mut self, filename: &str) -> Result<Vec<TemplateElement>, FileError> {
        let contents = self.read(filename)?;
        parse_template_string(&contents)
            .map_err(|xx| FileError::TemplateFileFailedParsing(filename.to_owned(), xx.to_string()))
    }

    fn write(&mut self, filename: &str, contents: &str) -> Result<(), FileError> {
        self.written.insert(filename.to_owned(), contents.to_owned());
        Ok(())
    }

    fn copy_files(&self, _from: &str, _to: &str) -> Result<(), FileError> {
        Ok(())
    }
}

pub fn setup_io() -> Traced<TestFileCache> {
    let mut files = HashMap::new();
    let mut file_modify_times = HashMap::new();
    files.insert("aaa.txt".to_string(), "apple".to_string());
    files.insert("bbb.txt".to_string(), "banana".to_string());
    files.insert("ccc.txt".to_string(), "carrot".to_string());
    files.insert("resources/snippets/aaa.txt".to_string(), "sapple".to_string());
    files.insert("resources/snippets/bbb.txt".to_string(), "sbanana".to_string());
    files.insert("resources/snippets/ccc.txt".to_string(), "scarrot".to_string());
    files.insert("entry1.yaml".to_string(), "[9, 8]".to_string());
    files.insert("entry2.yaml".to_string(), "[\"asd\", \"fgh\"]".to_string());
    files.insert("base01.txt".to_string(), "foo {{bar}} yay".to_string());
    files.insert("base02.txt".to_string(), "{{_input}} {{_output}} {{_outputfolder}} {{_outputfull}} {{_dots}}".to_string());
    files.insert("base03.txt".to_string(), "foo {{mapped}} yay".to_string());
    files.insert("base04.txt".to_string(), "{{_flatten_index}} {{flat}}\n{{_flatten_array}}".to_string());
    files.insert("base05.txt".to_string(), "foo {%file aaa.txt | ch1%} yay".to_string());
    files.insert("base06.txt".to_string(), "foo {%file aaa.txt | ch2%} yay".to_string());
    files.insert("base07.txt".to_string(), "foo {%file aaa.txt | ch3%} yay".to_string());
    files.insert("base08.txt".to_string(), "foo {%file aaa.txt | ch4%} yay".to_string());
    files.insert("flatten_object_unused.txt".to_string(), "{{_flatten_index}} {{flat.value}}\n{{_flatten_array}}".to_string());
    files.insert("cache/aaa.txt__ch1".to_string(), "ch1 apple but cached".to_string());
    files.insert("cache/aaa.txt__ch2".to_string(), "ch2 apple but cached".to_string());
    files.insert("cache/aaa.txt__ch3".to_string(), "ch3 apple but cached".to_string());
    file_modify_times.insert("aaa.txt".to_string(), 3000);
    file_modify_times.insert("cache/aaa.txt__ch1".to_string(), 2000);
    file_modify_times.insert("cache/aaa.txt__ch2".to_string(), 4000);
    file_modify_times.insert("cache/aaa.txt__ch2".to_string(), 3000);
    Traced::new(TestFileCache { files, file_modify_times, read: HashSet::new(), written: HashMap::new() })
}

pub struct HostFn(pub fn(&YamlValue, &Vec<String>) -> Result<YamlValue, String>);

impl HostPipe for HostFn {
    fn run<R: ReadsFiles>(
        &self,
        value: &YamlValue,
        params: &Vec<String>,
        _pipes: &PipeMap<Self>,
        _io: &mut ReadsFilesImpl<R>,
    ) -> Result<YamlValue, String> {
        (self.0)(value, params)
    }
}

pub fn setup_pipes() -> PipeMap<HostFn> {
    let mut pipemap = new_pipe_map();
    pipemap.insert("test0".to_string(), PipeDefinition::Template(parse_template_string("um1").unwrap(), None));
    pipemap.insert("test1".to_string(), PipeDefinition::Template(parse_template_string("um2 {{it}}").unwrap(), None));
    pipemap.insert("test2".to_string(), PipeDefinition::Template(parse_template_string("um3 {{nah}}").unwrap(), None));
    pipemap.insert("test3".to_string(), PipeDefinition::Template(parse_template_string("um4 {{it}} {{params[0]}} {{params[1]}}").unwrap(), None));
    pipemap.insert("ch1".to_string(), PipeDefinition::Template(parse_template_string("ch1 {{it}}").unwrap(), Some(2000)));
    pipemap.insert("ch2".to_string(), PipeDefinition::Template(parse_template_string("ch2 {{it}}").unwrap(), Some(3000)));
    pipemap.insert("ch3".to_string(), PipeDefinition::Template(parse_template_string("ch3 {{it}}").unwrap(), Some(4000)));
    pipemap.insert("ch4".to_string(), PipeDefinition::Template(parse_template_string("ch4 {{it}}").unwrap(), Some(4000)));
    pipemap.insert("txt".to_string(), PipeDefinition::Template(parse_template_string("{{it}}.txt").unwrap(), None));
    pipemap.insert("testfn".to_string(), PipeDefinition::Fn(HostFn(|_input, _params| Ok(YamlValue::String("bleh".to_owned()))), None));
    pipemap.insert(
        "testfn2".to_string(),
        PipeDefinition::Fn(HostFn(|_input, _params| Ok(YamlValue::Array(vec![YamlValue::Integer(1), YamlValue::Integer(2)]))), None),
    );
    pipemap
}

pub fn params(strr: &str) -> YamlMap {
    match load_yaml(strr).unwrap() {
        YamlValue::Hash(pp) => pp,
        _ => panic!("not a hash map?"),
    }
}

fn rendered(input: &str, given: &str) -> Result<String, TemplateError> {
    let pp = params(given);
    render(input, &pp, &setup_pipes(), &mut setup_io(), &default_template_context())
}

fn path(base: &str) -> TemplateValue {
    TemplateValue { base: base.to_owned(), accesses: vec![] }
}

fn text(s: &str) -> TemplateElement {
    TemplateElement::PlainText(s.to_owned())
}

fn no_sort() -> ForSortAndFilter {
    ForSortAndFilter { sort_key: None, is_sort_ascending: false, filter_includes: None, filter_excludes: None }
}

// ---- the general properties, on values

#[test]
fn if_exists_picks_the_branch_by_the_lookup() {
    assert_eq!(rendered("{% if-exists a.b %}X{% else %}Y{% endif %}", "a: {b: 1}"), Ok("X".to_owned()));
    assert_eq!(rendered("{% if-exists a.c %}X{% else %}Y{% endif %}", "a: {b: 1}"), Ok("Y".to_owned()));
    assert_eq!(rendered("{% if-exists a[7] %}X{% else %}Y{% endif %}", "a: [1]"), Ok("Y".to_owned()));
    assert_eq!(
        rendered("{% if-exists a.b.c %}X{% else %}Y{% endif %}", "a: {b: 1}"),
        Err(TemplateError::FieldOnUnfieldable("a.b".to_owned(), "c".to_owned()))
    );
}

#[test]
fn a_plain_loop_joins_the_elements() {
    assert_eq!(rendered("{% for it in s %}{{it}}{% sep %},{% endfor %}", "s: [a, 2, c]"), Ok("a,2,c".to_owned()));
    assert_eq!(rendered("{% for it in s %}{{it}}{% sep %},{% endfor %}", "s: [a]"), Ok("a".to_owned()));
    assert_eq!(rendered("{% for it in s %}{{it}}{% sep %},{% endfor %}", "s: []"), Ok("".to_owned()));
}

#[test]
fn sorting_keeps_equal_keys_in_order() {
    let given = "s: [{k: b, v: 1}, {k: a, v: 2}, {k: b, v: 3}, {k: a, v: 4}]";
    assert_eq!(rendered("{% for it in s sort it.k %}{{it.v}}{% endfor %}", given), Ok("2413".to_owned()));
    assert_eq!(rendered("{% for it in s sort-desc it.k %}{{it.v}}{% endfor %}", given), Ok("1324".to_owned()));
    let keys: Vec<Vec<char>> = vec!["b", "a", "b", "a", ""].iter().map(|k| k.chars().collect()).collect();
    assert_eq!(sorted_indices(&keys, true), vec![4, 1, 3, 0, 2]);
    assert_eq!(sorted_indices(&keys, false), vec![0, 2, 1, 3, 4]);
}

#[test]
fn an_empty_matrix_builds_nothing() {
    let mut io = setup_io();
    let empty = |flatten: Option<String>| BuildMultiplePages { mapping: params("{a: b}"), files: vec![], params: vec![], flatten };
    let action = BuildAction::BuildMultiplePages {
        descriptor: "none".to_owned(),
        default_params: params("{input: base01.txt, output: out.txt}"),
        on: vec![empty(None), empty(Some("x".to_owned()))],
        include_key: None,
        exclude_key: Some("x".to_owned()),
    };
    assert_eq!(action.expand(&setup_pipes(), &mut io, &default_template_context()), Ok(vec![]));
    assert_eq!(io.device().written.len(), 0);
}

#[test]
fn a_fresh_cache_is_read_and_the_pipe_is_not_run() {
    let mut io = setup_io();
    let found = render("{% file aaa.txt | ch2 %}", &params("{}"), &setup_pipes(), &mut io, &default_template_context());
    assert_eq!(found, Ok("ch2 apple but cached".to_owned()));
    assert!(io.device().read.contains("cache/aaa.txt__ch2"));
    assert!(!io.device().read.contains("aaa.txt"));
    assert_eq!(io.device().written.len(), 0);
}

// ---- the cache

#[test]
fn cache_names_are_made_of_file_and_chain() {
    let named = |name: &str, args: &[&str]| Pipe::Named { name: name.to_owned(), params: args.iter().map(|a| a.to_string()).collect() };
    assert_eq!(pipe_cache_check_filename("a/b/c.txt", &vec![]), Some("cache/a-b-c.txt".to_owned()));
    assert_eq!(
        pipe_cache_check_filename("a/b.txt", &vec![named("p", &["x", "y"]), named("q", &[])]),
        Some("cache/a-b.txt__p_x_y__q".to_owned())
    );
    assert_eq!(pipe_cache_check_filename("a.txt", &vec![named("p", &[]), Pipe::Template]), None);
}

#[test]
fn cache_names_tell_chains_apart() {
    let named = |name: &str, args: &[&str]| Pipe::Named { name: name.to_owned(), params: args.iter().map(|a| a.to_string()).collect() };
    let name_of = |chain: Vec<Pipe>| pipe_cache_check_filename("f", &chain).unwrap();
    assert_eq!(name_of(vec![named("a", &["b"])]), "cache/f__a_b");
    assert_eq!(name_of(vec![named("a_b", &[])]), "cache/f__a%5Fb");
    assert_eq!(name_of(vec![named("a", &["b_c", "d%e"])]), "cache/f__a_b%5Fc_d%25e");
    assert_eq!(name_of(vec![named("a", &[]), named("b", &[])]), "cache/f__a__b");
    assert_eq!(name_of(vec![named("a", &["", "b"])]), "cache/f__a_%_b");
    assert_eq!(name_of(vec![named("a", &["%"])]), "cache/f__a_%25");
    assert_eq!(name_of(vec![named("", &[]), named("", &[])]), "cache/f__%__%");
    assert_eq!(name_of(vec![named("", &["", ""])]), "cache/f__%_%_%");
    assert_eq!(escaped_text("plain.name-1"), "plain.name-1");
}

#[test]
fn cache_decisions() {
    assert!(matches!(decide_cache("c".to_owned(), Some(5), None), CacheStatus::Uncachable));
    assert!(matches!(decide_cache("c".to_owned(), None, None), CacheStatus::Uncachable));
    assert!(matches!(decide_cache("c".to_owned(), None, Some(1)), CacheStatus::NeedsUpdate(ref s) if s == "c"));
    assert!(matches!(decide_cache("c".to_owned(), Some(4), Some(5)), CacheStatus::NeedsUpdate(ref s) if s == "c"));
    assert!(matches!(decide_cache("c".to_owned(), Some(5), Some(5)), CacheStatus::UpToDate(ref s) if s == "c"));
    assert!(matches!(decide_cache("c".to_owned(), Some(6), Some(5)), CacheStatus::UpToDate(ref s) if s == "c"));
}

#[test]
fn newest_time_of_a_chain() {
    let named = |name: &str| Pipe::Named { name: name.to_owned(), params: vec![] };
    let pipes = setup_pipes();
    assert_eq!(newest_pipe_time(&vec![named("ch1"), named("ch3")], &pipes, 2500), Some(4000));
    assert_eq!(newest_pipe_time(&vec![named("ch1")], &pipes, 2500), Some(2500));
    assert_eq!(newest_pipe_time(&vec![], &pipes, 7), Some(7));
    assert_eq!(newest_pipe_time(&vec![named("ch1"), named("test0")], &pipes, 0), None);
    assert_eq!(newest_pipe_time(&vec![named("nosuch")], &pipes, 0), None);
    assert_eq!(newest_pipe_time(&vec![Pipe::Template], &pipes, 0), None);
}

#[test]
fn a_pipe_without_a_time_is_never_cached() {
    let mut io = setup_io();
    let found = render("{% file aaa.txt | test1 %}", &params("{}"), &setup_pipes(), &mut io, &default_template_context());
    assert_eq!(found, Ok("um2 apple".to_owned()));
    assert_eq!(io.device().written.len(), 0);
}

#[test]
fn a_stale_cache_is_made_again_and_written() {
    let mut io = setup_io();
    let found = render("{% file aaa.txt | ch1 %}", &params("{}"), &setup_pipes(), &mut io, &default_template_context());
    assert_eq!(found, Ok("ch1 apple".to_owned()));
    assert_eq!(io.device().written.get("cache/aaa.txt__ch1"), Some(&"ch1 apple".to_owned()));
}

#[test]
fn stamped_cache_is_valid_until_the_file_changes() {
    let mut cache: StampedCache<String> = StampedCache::new();
    assert_eq!(cache.fresh("a", 0), None);
    cache.store("a".to_owned(), 10, "one".to_owned());
    cache.store("b".to_owned(), 20, "two".to_owned());
    assert_eq!(cache.fresh("a", 10), Some(&"one".to_owned()));
    assert_eq!(cache.fresh("a", 11), None);
    assert_eq!(cache.fresh("b", 11), Some(&"two".to_owned()));
    cache.store("a".to_owned(), 30, "three".to_owned());
    assert_eq!(cache.fresh("a", 11), Some(&"three".to_owned()));
    assert_eq!(cache.entries.len(), 2);
}

// ---- lookups

#[test]
fn fields_of_sequences() {
    assert_eq!(rendered("{{s.first}} {{s.last}} {{s.count}}", "s: [x, y, z]"), Ok("x z 3".to_owned()));
    assert_eq!(rendered("{{s.first}}|{{s.last}}|{{s.count}}", "s: []"), Ok("---\n~|---\n~|0".to_owned()));
    assert_eq!(rendered("{{s.size}}", "s: [x]"), Err(TemplateError::FieldNotPresent("s".to_owned(), "size".to_owned())));
    let arr = vec![YamlValue::Integer(1)];
    assert!(matches!(lookup_array_property("last", &arr, "p".to_owned()), Ok(MaybeRef::Ref(YamlValue::Integer(1)))));
    assert!(matches!(lookup_array_property("count", &arr, "p".to_owned()), Ok(MaybeRef::Owned(YamlValue::Integer(1)))));
}

#[test]
fn index_by_a_value() {
    assert_eq!(rendered("{{s[i]}} {{s[o.k]}}", "s: [x, y, z]\ni: 2\no: {k: 0}"), Ok("z x".to_owned()));
    assert_eq!(rendered("{{s[i]}}", "s: [x]\ni: 1"), Err(TemplateError::IndexOOB("s".to_owned(), 1)));
    assert_eq!(
        rendered("{{s[i]}}", "s: [x]\ni: one"),
        Err(TemplateError::IndexWithNonIntegerValue("s".to_owned(), path("i")))
    );
    assert_eq!(
        rendered("{{s[i]}}", "s: [x]\ni: -1"),
        Err(TemplateError::IndexWithNonIntegerValue("s".to_owned(), path("i")))
    );
    assert_eq!(rendered("{{s[j]}}", "s: [x]"), Err(TemplateError::KeyNotPresent("j".to_owned())));
    assert_eq!(rendered("{{s[i]}}", "s: 3\ni: 0"), Err(TemplateError::IndexOnUnindexable("s".to_owned(), 0)));
}

#[test]
fn paths_grow_step_by_step() {
    assert_eq!(
        rendered("{{a.b[1].c.d}}", "a: {b: [0, {c: 5}]}"),
        Err(TemplateError::FieldOnUnfieldable("a.b[1].c".to_owned(), "d".to_owned()))
    );
    assert_eq!(
        rendered("{{a.b[12]}}", "a: {b: [0]}"),
        Err(TemplateError::IndexOOB("a.b".to_owned(), 12))
    );
}

#[test]
fn lookups_in_mappings() {
    let map = params("a: text\nb: 3");
    assert_eq!(lookup_yaml("a", &map), Ok(&YamlValue::String("text".to_owned())));
    assert_eq!(lookup_yaml("c", &map), Err(TemplateError::KeyNotPresent("c".to_owned())));
    assert_eq!(lookup_str_from_yaml_map("a", &map), Ok("text"));
    assert_eq!(lookup_str_from_yaml_map("b", &map), Err(TemplateError::KeyNotString("b".to_owned())));
    assert_eq!(lookup_str_from_yaml_map("c", &map), Err(TemplateError::KeyNotPresent("c".to_owned())));
    assert_eq!(unsafe_get_as_string(&map, "a"), "text");
    assert_eq!(lookup_value(&path("b"), &map), Ok(YamlValue::Integer(3)));
}

#[test]
fn mappings_keep_the_order_of_insertion() {
    let mut map = new_yaml_map();
    insert_value(&mut map, "a", YamlValue::Integer(1));
    insert_value(&mut map, "b", YamlValue::Integer(2));
    insert_value(&mut map, "a", YamlValue::Integer(3));
    assert_eq!(map.len(), 2);
    let entries = map.entries();
    assert_eq!(entries.len(), 2);
    assert_eq!(entries[0], (YamlValue::String("b".to_owned()), YamlValue::Integer(2)));
    assert_eq!(entries[1], (YamlValue::String("a".to_owned()), YamlValue::Integer(3)));
    assert_eq!(map.get_value(&YamlValue::String("b".to_owned())), Some(&YamlValue::Integer(2)));
    assert_eq!(map.get_value(&YamlValue::Integer(2)), None);
    assert_eq!(YamlMap::new().len(), 0);
    assert_eq!(map.copy(), map);
    assert_eq!(map.get("a"), Some(&YamlValue::Integer(3)));
    assert!(map.contains_key("b"));
    assert!(!map.contains_key("c"));
    let mut other = params("b: 9\nc: 8");
    other.extend(&map);
    assert_eq!(other, params("c: 8\nb: 2\na: 3"));
    assert_eq!(other.clone(), other);
}

// ---- the YAML reader and writer

#[test]
fn documents_are_read_as_they_are_written() {
    let mut expected = YamlMap::new();
    expected.insert(
        YamlValue::String("a".to_owned()),
        YamlValue::Array(vec![
            YamlValue::Integer(1),
            YamlValue::String("x".to_owned()),
            YamlValue::Real("2.5".to_owned()),
            YamlValue::Boolean(true),
            YamlValue::Null,
        ]),
    );
    assert_eq!(load_yaml("a: [1, x, 2.5, true, ~]").unwrap(), YamlValue::Hash(expected));
    let read = load_yaml("z: 1\ny: 2\nx: 3").unwrap();
    match read {
        YamlValue::Hash(m) => {
            let keys: Vec<YamlValue> = m.entries().into_iter().map(|e| e.0).collect();
            assert_eq!(
                keys,
                vec![
                    YamlValue::String("z".to_owned()),
                    YamlValue::String("y".to_owned()),
                    YamlValue::String("x".to_owned()),
                ]
            );
        },
        _ => panic!("a mapping was written"),
    }
    assert_eq!(load_yaml_document(""), Ok(None));
    assert_eq!(load_yaml_document("3"), Ok(Some(YamlValue::Integer(3))));
    assert!(load_yaml_document("a: [").is_err());
    assert!(load_yaml("a: [").is_err());
}

#[test]
fn values_have_texts() {
    assert_eq!(tostr(&YamlValue::String("s".to_owned())), Ok("s".to_owned()));
    assert_eq!(tostr(&YamlValue::Real("1.50".to_owned())), Ok("1.50".to_owned()));
    assert_eq!(tostr(&YamlValue::Integer(-45)), Ok("-45".to_owned()));
    assert_eq!(tostr(&YamlValue::Integer(i64::MIN)), Ok("-9223372036854775808".to_owned()));
    assert_eq!(tostr(&YamlValue::Integer(0)), Ok("0".to_owned()));
    assert_eq!(tostr(&YamlValue::Boolean(true)), Ok("---\ntrue".to_owned()));
    assert_eq!(tostr(&YamlValue::Null), Ok("---\n~".to_owned()));
    assert_eq!(tostr(&load_yaml("[1, [2, a]]").unwrap()), Ok("---\n- 1\n- - 2\n  - a".to_owned()));
    assert_eq!(tostr(&load_yaml("{a: 1, b: {c: x}}").unwrap()), Ok("---\na: 1\nb:\n  c: x".to_owned()));
}

#[test]
fn entries_keep_their_place_in_their_source() {
    let groupings = vec![ForGrouping {
        values: vec![
            TemplateValueWithPipe { value: path("numbers"), pipes: vec![] },
            TemplateValueWithPipe { value: path("more"), pipes: vec![] },
        ],
        filenames: vec!["entry1.yaml".to_owned()],
        files_at: vec![path("loc")],
    }];
    let found = for_make_iterable(
        &params("numbers: [2, 4, 6]\nmore: [1]\nloc: entry2.yaml"),
        &groupings,
        &setup_pipes(),
        &mut setup_io(),
        &default_template_context(),
        3,
    )
    .unwrap();
    let seen: Vec<(YamlValue, &str, usize)> = found.iter().map(|ee| (ee.value.clone(), ee.location.as_str(), ee.index)).collect();
    let number = |n: i64| YamlValue::Integer(n);
    let word = |s: &str| YamlValue::String(s.to_owned());
    assert_eq!(
        seen,
        vec![
            (number(2), "\"numbers\"", 0),
            (number(4), "\"numbers\"", 1),
            (number(6), "\"numbers\"", 2),
            (number(1), "\"more\"", 0),
            (number(9), "file \"entry1.yaml\"", 0),
            (number(8), "file \"entry1.yaml\"", 1),
            (word("asd"), "file \"entry2.yaml\" derived from \"loc\"", 0),
            (word("fgh"), "file \"entry2.yaml\" derived from \"loc\"", 1),
        ]
    );
}

#[test]
fn only_sequences_can_be_run_over() {
    let value = path("v");
    let location = ForIterationType::Values(&value);
    assert_eq!(to_iterable(&location, &load_yaml("[1, 2]").unwrap()), Ok(vec![YamlValue::Integer(1), YamlValue::Integer(2)]));
    assert_eq!(
        to_iterable(&location, &YamlValue::Integer(1)),
        Err(TemplateError::ForOnUnindexable("\"v\"".to_owned()))
    );
    assert_eq!(ForIterationType::Filenames("f.yaml").to_string(), "file \"f.yaml\"");
    assert_eq!(ForIterationType::FileAt(&value, "f.yaml".to_owned()).to_string(), "file \"f.yaml\" derived from \"v\"");
}

// ---- the syntax

#[test]
fn the_parser_gives_the_tree() {
    assert_eq!(
        parse_template_string("a{{ b.c[2][d] | p x y $ }}").unwrap(),
        vec![
            text("a"),
            TemplateElement::Replace {
                value: TemplateValue {
                    base: "b".to_owned(),
                    accesses: vec![
                        TemplateValueAccess::Field("c".to_owned()),
                        TemplateValueAccess::Index(2),
                        TemplateValueAccess::IndexAt(path("d")),
                    ],
                },
                pipe: vec![Pipe::Named { name: "p".to_owned(), params: vec!["x".to_owned(), "y".to_owned()] }, Pipe::Template],
            },
        ]
    );
    assert_eq!(
        parse_template_string("{% snippet @(n | p) | q %}").unwrap(),
        vec![TemplateElement::FileAt {
            snippet: true,
            value: path("n"),
            value_pipe: vec![Pipe::Named { name: "p".to_owned(), params: vec![] }],
            contents_pipe: vec![Pipe::Named { name: "q".to_owned(), params: vec![] }],
        }]
    );
    assert_eq!(
        parse_template_string("{% for x in a | p k, b in-file f.yaml, g.yaml in-file-at c sort-desc x.k include x.i exclude x.e %}B{% sep %}S{% endfor %}").unwrap(),
        vec![TemplateElement::For {
            name: "x".to_owned(),
            main: vec![text("B")],
            groupings: vec![ForGrouping {
                values: vec![
                    TemplateValueWithPipe { value: path("a"), pipes: vec![Pipe::Named { name: "p".to_owned(), params: vec!["k".to_owned()] }] },
                    TemplateValueWithPipe { value: path("b"), pipes: vec![] },
                ],
                filenames: vec!["f.yaml".to_owned(), "g.yaml".to_owned()],
                files_at: vec![path("c")],
            }],
            separator: vec![text("S")],
            sort_and_filter: ForSortAndFilter {
                sort_key: Some(TemplateValue { base: "x".to_owned(), accesses: vec![TemplateValueAccess::Field("k".to_owned())] }),
                is_sort_ascending: false,
                filter_includes: Some(TemplateValue { base: "x".to_owned(), accesses: vec![TemplateValueAccess::Field("i".to_owned())] }),
                filter_excludes: Some(TemplateValue { base: "x".to_owned(), accesses: vec![TemplateValueAccess::Field("e".to_owned())] }),
            },
        }]
    );
    assert_eq!(
        parse_template_string("{%?}a{&}{&}{{b}}{?%}").unwrap(),
        vec![TemplateElement::LookupCatcher(vec![
            vec![text("a")],
            vec![],
            vec![TemplateElement::Replace { value: path("b"), pipe: vec![] }],
        ])]
    );
    assert_eq!(parse_template_string("").unwrap(), vec![]);
}

#[test]
fn what_is_no_template_is_refused_where_it_goes_wrong() {
    assert_eq!(parse_template_string("ab{{ }}"), Err(ParseError { position: 2 }));
    assert_eq!(parse_template_string("{% if-exists a %}x"), Err(ParseError { position: 0 }));
    assert_eq!(parse_template_string("x{% endif %}"), Err(ParseError { position: 1 }));
    assert_eq!(parse_template_string("{{a[99999999999999999999999999]}}"), Err(ParseError { position: 0 }));
    assert_eq!(parse_template_string("{{a | }}"), Err(ParseError { position: 0 }));
    assert_eq!(parse_template_string("{% nothing %}"), Err(ParseError { position: 0 }));
    assert_eq!(parse_template_string("a{&}"), Err(ParseError { position: 1 }));
    assert_eq!(ParseError { position: 12 }.to_string(), "the template cannot be read from character 12");
    assert_eq!(
        rendered("ab{{ }}", "{}"),
        Err(TemplateError::ParseError("the template cannot be read from character 2".to_owned()))
    );
}

#[test]
fn lists_of_value_paths() {
    assert_eq!(parse_mapping_string(""), Ok(vec![]));
    assert_eq!(parse_mapping_string("  "), Ok(vec![]));
    assert_eq!(
        parse_mapping_string(" a , b.c,d[1] "),
        Ok(vec![
            path("a"),
            TemplateValue { base: "b".to_owned(), accesses: vec![TemplateValueAccess::Field("c".to_owned())] },
            TemplateValue { base: "d".to_owned(), accesses: vec![TemplateValueAccess::Index(1)] },
        ])
    );
    assert_eq!(parse_mapping_string("a b"), Err(ParseError { position: 2 }));
    assert_eq!(parse_mapping_string(", a"), Err(ParseError { position: 0 }));
}

#[test]
fn value_paths_are_shown_as_written() {
    let parsed = parse_mapping_string("base.f[3].g[i.x]").unwrap();
    assert_eq!(parsed[0].to_string(), "base.f[3].g[i.x]");
    assert_eq!(parsed[0].accesses[1].to_string(), "[3]");
    assert_eq!(parsed[0].clone(), parsed[0]);
    let tree = parse_template_string("{% for x in a %}{% if-exists x %}{{x}}{% endif %}{% endfor %}{%?}a{?%}").unwrap();
    assert_eq!(tree[0].clone(), tree[0]);
    assert_eq!(tree[1].clone(), tree[1]);
}

// ---- pipes

#[test]
fn pipes_run_from_left_to_right() {
    assert_eq!(rendered("{{bar | test1 | test1}}", "bar: x"), Ok("um2 um2 x".to_owned()));
    assert_eq!(rendered("{{bar | test3 one two}}", "bar: x"), Ok("um4 x one two".to_owned()));
    assert_eq!(rendered("{{bar | testfn | test1}}", "bar: x"), Ok("um2 bleh".to_owned()));
    assert_eq!(rendered("{% for it in bar | testfn2 %}{{it}};{% endfor %}", "bar: x"), Ok("1;2;".to_owned()));
    assert_eq!(rendered("{% for it in bar | testfn2 sort-desc it %}{{it}};{% endfor %}", "bar: x"), Ok("2;1;".to_owned()));
}

#[test]
fn the_default_pipe_renders_the_value_so_far() {
    assert_eq!(rendered("{{bar | txt $}}", "bar: \"{{yeah}}\"\n\"nah.txt\": no\nyeah: nah"), Ok("nah.txt".to_owned()));
}

#[test]
fn a_template_pipe_sees_the_mapping_and_its_parameters() {
    let mut pipes = setup_pipes();
    pipes.insert("both".to_owned(), PipeDefinition::Template(parse_template_string("{{nah}} {{params[0]}}").unwrap(), None));
    let found = render("{{bar | both p}}", &params("bar: {nah: yeah}"), &pipes, &mut setup_io(), &default_template_context());
    assert_eq!(found, Ok("yeah p".to_owned()));
    pipes.insert("both".to_owned(), PipeDefinition::Template(parse_template_string("again").unwrap(), None));
    let found = render("{{bar | both}}", &params("bar: 1"), &pipes, &mut setup_io(), &default_template_context());
    assert_eq!(found, Ok("again".to_owned()));
}

#[test]
fn errors_of_pipes() {
    assert_eq!(rendered("{{bar | nosuch}}", "bar: x"), Err(TemplateError::PipeMissing("nosuch".to_owned())));
    assert_eq!(
        rendered("{{bar | test1 | test2}}", "bar: x"),
        Err(TemplateError::WithinTemplateNamedPipe(
            Box::new(TemplateError::KeyNotPresent("nah".to_owned())),
            "test2".to_owned(),
            1,
            "\"bar\"".to_owned()
        ))
    );
    assert_eq!(
        rendered("{{bar $}}", "bar: \"{{nope}}\""),
        Err(TemplateError::WithinTemplatePipe(Box::new(TemplateError::KeyNotPresent("nope".to_owned())), 0, "\"bar\"".to_owned()))
    );
    assert_eq!(
        rendered("{% file aaa.txt | test2 %}", "{}"),
        Err(TemplateError::WithinTemplateNamedPipe(
            Box::new(TemplateError::KeyNotPresent("nah".to_owned())),
            "test2".to_owned(),
            0,
            "the file \"aaa.txt\"".to_owned()
        ))
    );
    let mut pipes = setup_pipes();
    pipes.insert("bad".to_owned(), PipeDefinition::Fn(HostFn(|_v, p| Err(format!("no {}", p.len()))), None));
    let found = render("{{bar | test0 | bad a b}}", &params("bar: 1"), &pipes, &mut setup_io(), &default_template_context());
    assert_eq!(found, Err(TemplateError::PipeExecutionError("no 2".to_owned(), "bad".to_owned(), 1, "\"bar\"".to_owned())));
    let value = path("v");
    let direct = execute_pipes(
        &YamlValue::Integer(5),
        &vec![Pipe::Named { name: "test1".to_owned(), params: vec![] }],
        &params("{}"),
        PipeInputSource::FileFrom("f", &value),
        &setup_pipes(),
        &mut setup_io(),
        &default_template_context(),
    );
    assert_eq!(direct, Ok(YamlValue::String("um2 5".to_owned())));
    assert_eq!(PipeInputSource::FileFrom("f", &value).to_string(), "the file \"f\" from \"v\"");
}

#[test]
fn pipes_that_call_themselves_are_stopped() {
    let mut pipes = setup_pipes();
    pipes.insert("again".to_owned(), PipeDefinition::Template(parse_template_string("{{it | again}}").unwrap(), None));
    let found = render("{{bar | again}}", &params("bar: 1"), &pipes, &mut setup_io(), &default_template_context());
    let mut inner = found.unwrap_err();
    let mut depth = 0;
    while let TemplateError::WithinTemplateNamedPipe(next, _, _, _) = inner {
        inner = *next;
        depth += 1;
    }
    assert_eq!(inner, TemplateError::PipesNestedTooDeep);
    assert_eq!(depth, 64);
    assert_eq!(
        rendered("{{bar $}}", "bar: \"{{bar $}}\"").map_err(|ee| ee.to_string().ends_with("on \"bar\"")),
        Err(true)
    );
}

// ---- loops, branches, catchers

#[test]
fn loops_filter_their_entries() {
    let given = "s: [{v: 1, i: y}, {v: 2, e: y}, {v: 3, i: y, e: y}, {v: 4}]";
    assert_eq!(rendered("{% for x in s include x.i %}{{x.v}}{% endfor %}", given), Ok("13".to_owned()));
    assert_eq!(rendered("{% for x in s exclude x.e %}{{x.v}}{% endfor %}", given), Ok("14".to_owned()));
    assert_eq!(rendered("{% for x in s include x.i exclude x.e %}{{x.v}}{% endfor %}", given), Ok("1".to_owned()));
}

#[test]
fn errors_of_loops() {
    assert_eq!(rendered("{% for x in s %}{% endfor %}", "s: 3"), Err(TemplateError::ForOnUnindexable("\"s\"".to_owned())));
    assert_eq!(
        rendered("{% for x in-file aaa.txt %}{% endfor %}", "{}"),
        Err(TemplateError::ForOnUnindexable("file \"aaa.txt\"".to_owned()))
    );
    assert_eq!(
        rendered("{% for x in-file-at f %}{% endfor %}", "f: aaa.txt"),
        Err(TemplateError::ForOnUnindexable("file \"aaa.txt\" derived from \"f\"".to_owned()))
    );
    assert!(matches!(
        rendered("{% for x in-file nosuch.yaml %}{% endfor %}", "{}"),
        Err(TemplateError::YamlFileError(YamlFileError::File(FileError::FileNotFound(ref f)))) if f == "nosuch.yaml"
    ));
    assert_eq!(
        rendered("{% for x in s %}{{x.a}}{% endfor %}", "s: [{a: 1}, {b: 2}]"),
        Err(TemplateError::OnForLoopIteration(
            Box::new(TemplateError::FieldNotPresent("x".to_owned(), "a".to_owned())),
            "\"s\"".to_owned()
        ))
    );
    assert_eq!(
        rendered("{% for x in s sort x.k %}{% endfor %}", "s: [4]"),
        Err(TemplateError::OnForLoopIterationSortKey(
            Box::new(TemplateError::FieldOnUnfieldable("x".to_owned(), "k".to_owned())),
            "\"s\"".to_owned()
        ))
    );
    assert_eq!(
        rendered("{% for x in s include x.k %}{% endfor %}", "s: [4]"),
        Err(TemplateError::OnForLoopIterationIncludeKey(
            Box::new(TemplateError::FieldOnUnfieldable("x".to_owned(), "k".to_owned())),
            "\"s\"".to_owned()
        ))
    );
    assert_eq!(
        rendered("{% for x in s exclude x.k %}{% endfor %}", "s: [4]"),
        Err(TemplateError::OnForLoopIterationExcludeKey(
            Box::new(TemplateError::FieldOnUnfieldable("x".to_owned(), "k".to_owned())),
            "\"s\"".to_owned()
        ))
    );
    assert_eq!(
        rendered("{% for x in s %}{% sep %}{{nosep}}{% endfor %}", "s: []"),
        Err(TemplateError::KeyNotPresent("nosep".to_owned()))
    );
}

#[test]
fn branches_wrap_their_errors() {
    assert_eq!(
        rendered("{% if-exists a %}{{b}}{% endif %}", "a: 1"),
        Err(TemplateError::InIfExistsLoop(Box::new(TemplateError::KeyNotPresent("b".to_owned())), path("a"), true))
    );
    assert_eq!(
        rendered("{% if-exists a %}{% else %}{{b}}{% endif %}", "c: 1"),
        Err(TemplateError::InIfExistsLoop(Box::new(TemplateError::KeyNotPresent("b".to_owned())), path("a"), false))
    );
}

#[test]
fn into_renders_under_a_mapping() {
    let render_into = |given: &str| {
        let node = TemplateElement::Into {
            value: path("a"),
            ast: parse_template_string("{{b}}{% if-exists a %}!{% endif %}").unwrap(),
        };
        render_elements(&vec![node], &params(given), &setup_pipes(), &mut setup_io(), &default_template_context())
    };
    assert_eq!(render_into("a: {b: x}"), Ok("x".to_owned()));
    assert_eq!(render_into("a: 3"), Err(TemplateError::IntoValueNotHash(path("a"))));
    assert_eq!(
        render_into("c: 3"),
        Err(TemplateError::InIntoStatement(Box::new(TemplateError::KeyNotPresent("a".to_owned())), path("a")))
    );
    assert_eq!(
        render_into("a: {c: x}"),
        Err(TemplateError::InIntoStatement(Box::new(TemplateError::KeyNotPresent("b".to_owned())), path("a")))
    );
}

#[test]
fn a_catcher_without_alternatives_knows_no_error() {
    let node = TemplateElement::LookupCatcher(vec![]);
    let found = render_elements(&vec![node], &params("{}"), &setup_pipes(), &mut setup_io(), &default_template_context());
    assert_eq!(found, Err(TemplateError::UnknownError));
    assert_eq!(rendered("{%?}{{a}}{&}{{b[0]}}{&}{{c.d}}{?%}", "b: []\nc: {}"), Err(TemplateError::FieldNotPresent("c".to_owned(), "d".to_owned())));
    assert_eq!(rendered("{%?}{{a}}{&}{?%}", "{}"), Ok("".to_owned()));
}

#[test]
fn a_missing_file_is_an_error() {
    assert_eq!(
        rendered("{% file nosuch.txt %}", "{}"),
        Err(TemplateError::FileError(FileError::FileNotFound("nosuch.txt".to_owned())))
    );
    assert_eq!(
        rendered("{% snippet nosuch.txt %}", "{}"),
        Err(TemplateError::FileError(FileError::FileNotFound("resources/snippets/nosuch.txt".to_owned())))
    );
}

// ---- texts

#[test]
fn numbers_and_orders_of_texts() {
    assert_eq!(decimal_text(0), "0");
    assert_eq!(decimal_text(10), "10");
    assert_eq!(decimal_text(u128::MAX), "340282366920938463463374607431768211455");
    assert_eq!(signed_decimal_text(-7), "-7");
    let chars = |s: &str| -> Vec<char> { s.chars().collect() };
    assert!(lex_le_chars(&chars(""), &chars("")));
    assert!(lex_le_chars(&chars(""), &chars("a")));
    assert!(!lex_le_chars(&chars("a"), &chars("")));
    assert!(lex_le_chars(&chars("ab"), &chars("b")));
    assert!(lex_le_chars(&chars("10"), &chars("9")));
    assert!(!lex_le_chars(&chars("b"), &chars("ab")));
    assert!(lex_le_chars(&chars("z"), &chars("\u{e9}")));
    assert_eq!(join_texts(&vec![], ", "), "");
    assert_eq!(join_texts(&vec!["a".to_owned()], ", "), "a");
    assert_eq!(join_texts(&vec!["a".to_owned(), "".to_owned(), "c".to_owned()], ", "), "a, , c");
    assert_eq!(indent("a\nb\n"), "a\n    b\n    ");
}

// ---- pages

#[test]
fn paths_of_pages() {
    let full = |folder: &str, output: &str| {
        let context = TemplateContext { snippet_folder: "s/".to_owned(), output_folder: folder.to_owned() };
        let page = page_parameters(&params("{}"), "in.txt", output, &context).unwrap();
        page.get("_outputfull").cloned()
    };
    assert_eq!(full("build/", "a/b.txt"), Some(YamlValue::String("build/a/b.txt".to_owned())));
    assert_eq!(full("build", "a/b.txt"), Some(YamlValue::String("build/a/b.txt".to_owned())));
    assert_eq!(full("", "a.txt"), Some(YamlValue::String("a.txt".to_owned())));
    assert_eq!(dots_from("../../."), "../../");
    assert_eq!(dots_from("..\\."), "../");
    assert_eq!(dots_from("."), "");
    assert_eq!(dots_from(""), "");
    let context = default_template_context();
    let page = page_parameters(&params("{_input: old, a: 1}"), "in.txt", "x/out.txt", &context).unwrap();
    assert_eq!(page, params("{a: 1, _input: in.txt, _output: x/out.txt, _outputfolder: build/, _outputfull: build/x/out.txt, _dots: ../}"));
    let root = page_parameters(&params("{}"), "in.txt", "out.txt", &context).unwrap();
    assert_eq!(root.get("_dots"), Some(&YamlValue::String("".to_owned())));
    assert_eq!(page_parameters(&params("{}"), "in.txt", "/abs/out.txt", &context), None);
}

#[test]
fn a_page_that_cannot_be_built() {
    let mut io = setup_io();
    let page = |input: &str, output: &str, source: Option<ParamsSource>| BuildActionExpanded::BuildPage {
        input: input.to_owned(),
        output: output.to_owned(),
        params: params("{}"),
        source,
    };
    let run = |action: BuildActionExpanded, io: &mut Traced<TestFileCache>| action.run(&setup_pipes(), io, &default_template_context());
    assert_eq!(run(page("nosuch.txt", "o.txt", None), &mut io), Err(BuildError::FileError(FileError::FileNotFound("nosuch.txt".to_owned()))));
    assert_eq!(
        run(page("base01.txt", "o.txt", None), &mut io),
        Err(BuildError::TemplateError(TemplateError::KeyNotPresent("bar".to_owned())))
    );
    assert_eq!(
        run(page("aaa.txt", "/abs/o.txt", None), &mut io),
        Err(BuildError::FileError(FileError::FileCantBeWritten("/abs/o.txt".to_owned())))
    );
    let source = ParamsSource { grouping: 1, index: 2, flatten_index: None, file: None };
    assert_eq!(
        run(page("nosuch.txt", "o.txt", Some(source.clone())), &mut io),
        Err(BuildError::BMSourced(source, Box::new(BuildError::FileError(FileError::FileNotFound("nosuch.txt".to_owned())))))
    );
    assert_eq!(io.device().written.len(), 0);
    assert_eq!(run(BuildActionExpanded::CopyFiles { from: "a".to_owned(), to: "b".to_owned() }, &mut io), Ok(()));
}

// ---- matrices

fn matrix(on: Vec<BuildMultiplePages>) -> BuildAction {
    BuildAction::BuildMultiplePages { descriptor: "uh".to_owned(), default_params: params("{input: base01.txt}"), on, include_key: None, exclude_key: None }
}

fn group(mapping: &str, files: &[&str], given: &[&str], flatten: Option<&str>) -> BuildMultiplePages {
    BuildMultiplePages {
        mapping: params(mapping),
        files: files.iter().map(|f| f.to_string()).collect(),
        params: given.iter().map(|p| params(p)).collect(),
        flatten: flatten.map(|f| f.to_owned()),
    }
}

fn expanded(action: &BuildAction, io: &mut Traced<TestFileCache>) -> Result<Vec<BuildActionExpanded>, BuildError> {
    action.expand(&setup_pipes(), io, &default_template_context())
}

fn with_files(files: &[(&str, &str)]) -> Traced<TestFileCache> {
    let mut device = setup_io().into_device();
    for (name, contents) in files {
        device.files.insert(name.to_string(), contents.to_string());
    }
    Traced::new(device)
}

#[test]
fn single_actions_expand_to_themselves() {
    let mut io = setup_io();
    let page = BuildAction::BuildPage { output: "o".to_owned(), input: "i".to_owned(), params: params("{a: 1}") };
    assert_eq!(
        expanded(&page, &mut io),
        Ok(vec![BuildActionExpanded::BuildPage { output: "o".to_owned(), input: "i".to_owned(), params: params("{a: 1}"), source: None }])
    );
    let copy = BuildAction::CopyFiles { to: "t".to_owned(), from: "f".to_owned() };
    assert_eq!(expanded(&copy, &mut io), Ok(vec![BuildActionExpanded::CopyFiles { to: "t".to_owned(), from: "f".to_owned() }]));
    assert_eq!(copy.clone(), copy);
    assert_eq!(page.clone(), page);
}

#[test]
fn entries_come_from_files_then_from_parameters() {
    let mut io = with_files(&[("list.yaml", "[{output: a.txt}, {output: b.txt, input: other.txt}]")]);
    let action = matrix(vec![group("{}", &[], &["{output: z.txt}"], None), group("{}", &["list.yaml"], &["{output: c.txt}"], None)]);
    let page = |output: &str, input: &str, given: &str, grouping: usize, index: usize, file: Option<&str>| BuildActionExpanded::BuildPage {
        output: output.to_owned(),
        input: input.to_owned(),
        params: params(given),
        source: Some(ParamsSource { grouping, index, flatten_index: None, file: file.map(|f| f.to_owned()) }),
    };
    assert_eq!(
        expanded(&action, &mut io),
        Ok(vec![
            page("z.txt", "base01.txt", "{input: base01.txt, output: z.txt}", 0, 0, None),
            page("a.txt", "base01.txt", "{input: base01.txt, output: a.txt}", 1, 0, Some("list.yaml")),
            page("b.txt", "other.txt", "{output: b.txt, input: other.txt}", 1, 1, Some("list.yaml")),
            page("c.txt", "base01.txt", "{input: base01.txt, output: c.txt}", 1, 0, None),
        ])
    );
}

#[test]
fn mappings_see_what_was_assigned_before() {
    let mut io = setup_io();
    let action = matrix(vec![group("{one: \"{{a}}1\", output: \"{{one}}.txt\", a: \"{{one}}\"}", &[], &["{a: x}"], None)]);
    let found = expanded(&action, &mut io).unwrap();
    assert_eq!(found.len(), 1);
    match &found[0] {
        BuildActionExpanded::BuildPage { output, params: made, .. } => {
            assert_eq!(output, "x1.txt");
            assert_eq!(made, &params("{input: base01.txt, one: x1, output: x1.txt, a: x1}"));
        }
        _ => panic!("not a page"),
    }
}

#[test]
fn flattening_makes_a_child_of_each_element() {
    let source = ParamsSource { grouping: 3, index: 4, flatten_index: None, file: Some("f".to_owned()) };
    let children = flatten_params(params("{a: 1, flat: [x, y]}"), &Some("flat".to_owned()), &source).unwrap();
    assert_eq!(children.len(), 2);
    assert_eq!(children[1].params, params("{a: 1, _flatten_array: [x, y], _flatten_index: 1, flat: y}"));
    assert_eq!(children[1].source, ParamsSource { grouping: 3, index: 4, flatten_index: Some(1), file: Some("f".to_owned()) });
    assert_eq!(children[0].params, params("{a: 1, _flatten_array: [x, y], _flatten_index: 0, flat: x}"));
    let alone = flatten_params(params("{a: 1}"), &None, &source).unwrap();
    assert_eq!(alone.len(), 1);
    assert_eq!(alone[0].params, params("{a: 1}"));
    assert_eq!(alone[0].source, source);
    assert_eq!(flatten_params(params("{flat: []}"), &Some("flat".to_owned()), &source).unwrap().len(), 0);
}

#[test]
fn errors_of_matrices() {
    let source = |index: usize| ParamsSource { grouping: 0, index, flatten_index: None, file: None };
    let mut io = with_files(&[("notlist.yaml", "{a: 1}"), ("notmaps.yaml", "[{a: 1}, 2]")]);
    let one = |mapping: &str, files: &[&str], given: &[&str], flatten: Option<&str>| matrix(vec![group(mapping, files, given, flatten)]);
    assert_eq!(expanded(&one("{}", &["notlist.yaml"], &[], None), &mut io), Err(BuildError::BMFIsntArray("notlist.yaml".to_owned())));
    assert_eq!(expanded(&one("{}", &["notmaps.yaml"], &[], None), &mut io), Err(BuildError::BMFContainsNonMap("notmaps.yaml".to_owned(), 1)));
    assert!(matches!(
        expanded(&one("{}", &["nosuch.yaml"], &[], None), &mut io),
        Err(BuildError::YamlFileError(YamlFileError::File(FileError::FileNotFound(_))))
    ));
    assert_eq!(expanded(&one("{}", &[], &["{output: o}", "{a: 1}"], None), &mut io), Err(BuildError::BMOutputNotSpecified(source(1))));
    assert_eq!(expanded(&one("{}", &[], &["{output: 3}"], None), &mut io), Err(BuildError::BMOutputNotSpecified(source(0))));
    assert_eq!(
        expanded(&one("{}", &[], &["{output: o, input: [1]}"], None), &mut io),
        Err(BuildError::BMInputNotSpecified("o".to_owned(), source(0)))
    );
    assert_eq!(
        expanded(&one("{k: \"{{\"}", &[], &["{output: o}"], None), &mut io),
        Err(BuildError::BMMappingParseError("the template cannot be read from character 0".to_owned(), "k".to_owned(), source(0)))
    );
    assert_eq!(
        expanded(&one("{k: \"{{nope}}\"}", &[], &["{output: o}"], None), &mut io),
        Err(BuildError::BMMappingTemplateError(TemplateError::KeyNotPresent("nope".to_owned()), "k".to_owned(), source(0)))
    );
    assert_eq!(
        expanded(&one("{k: 3}", &[], &["{output: o}"], None), &mut io),
        Err(BuildError::BMMappingIsntString("k".to_owned(), source(0)))
    );
    assert_eq!(
        expanded(&one("{}", &[], &["{output: o, f: 3}"], Some("f")), &mut io),
        Err(BuildError::FlattenOnNonArray("f".to_owned(), source(0)))
    );
    assert_eq!(
        expanded(&one("{}", &[], &["{output: o}"], Some("f")), &mut io),
        Err(BuildError::FlattenKeyNotFound("f".to_owned(), source(0)))
    );
}

// ---- layouts

#[test]
fn errors_of_layouts() {
    let error = |text: &str| layout_string_to_buildactions(text).unwrap_err();
    let at = |inner: LayoutError, index: usize| LayoutError::AtEntry(Box::new(inner), index);
    assert_eq!(error(""), LayoutError::KeyNotArray("(base value)".to_owned()));
    assert_eq!(error("a: 1"), LayoutError::KeyNotArray("(base value)".to_owned()));
    assert_eq!(error("[{type: copy, from: a, to: b}, 3]"), LayoutError::EntryNotHash("(base value)".to_owned(), 1));
    assert!(matches!(error("- ["), LayoutError::YamlParsing(_)));
    assert_eq!(error("[{type: copy, from: a, to: b}, {from: a}]"), at(LayoutError::MissingKey("type".to_owned()), 1));
    assert_eq!(error("[{type: 3}]"), at(LayoutError::MissingKey("type".to_owned()), 0));
    assert_eq!(error("[{type: move}]"), at(LayoutError::UnexpectedType("move".to_owned()), 0));
    assert_eq!(error("[{type: copy, to: b}]"), at(LayoutError::MissingKey("from".to_owned()), 0));
    assert_eq!(error("[{type: copy, from: a}]"), at(LayoutError::MissingKey("to".to_owned()), 0));
    assert_eq!(error("[{type: build, output: o, params: {}}]"), at(LayoutError::MissingKey("input".to_owned()), 0));
    assert_eq!(error("[{type: build, input: i, params: {}}]"), at(LayoutError::MissingKey("output".to_owned()), 0));
    assert_eq!(error("[{type: build, input: i, output: o, params: 3}]"), at(LayoutError::MissingKey("params".to_owned()), 0));
    assert_eq!(error("[{type: build-multiple, default: {}}]"), at(LayoutError::MissingKey("description".to_owned()), 0));
    assert_eq!(error("[{type: build-multiple, description: d}]"), at(LayoutError::MissingKey("default".to_owned()), 0));
    assert_eq!(error("[{type: build-multiple, description: d, default: {}, with: 3}]"), at(LayoutError::KeyNotArray("with".to_owned()), 0));
    assert_eq!(error("[{type: build-multiple, description: d, default: {}, with: [3]}]"), at(LayoutError::EntryNotHash("with".to_owned(), 0), 0));
    assert_eq!(
        error("[{type: build-multiple, description: d, default: {}, with: [{files: 3}]}]"),
        at(LayoutError::KeyNotArray("files".to_owned()), 0)
    );
    assert_eq!(
        error("[{type: build-multiple, description: d, default: {}, with: [{files: [a, 3]}]}]"),
        at(LayoutError::EntryNotString("files".to_owned(), 1), 0)
    );
    assert_eq!(
        error("[{type: build-multiple, description: d, default: {}, with: [{}, {params: [{}, a]}]}]"),
        at(LayoutError::EntryNotHash("params".to_owned(), 1), 0)
    );
}

#[test]
fn a_matrix_is_read_with_all_its_parts() {
    let parsed = layout_string_to_buildactions(
        "- type: build-multiple\n  description: uh\n  default: {um: yeah}\n  include: iii\n  exclude: eee\n  with:\n    - files: [yeah]\n      flatten: flat\n      mapping: 3\n    - {}",
    );
    assert_eq!(
        parsed,
        Ok(vec![BuildAction::BuildMultiplePages {
            default_params: params("{um: yeah}"),
            on: vec![
                BuildMultiplePages { mapping: params("{}"), files: vec!["yeah".to_owned()], params: vec![], flatten: Some("flat".to_owned()) },
                BuildMultiplePages { mapping: params("{}"), files: vec![], params: vec![], flatten: None },
            ],
            descriptor: "uh".to_owned(),
            include_key: Some("iii".to_owned()),
            exclude_key: Some("eee".to_owned()),
        }])
    );
    assert_eq!(layout_string_to_buildactions("[]"), Ok(vec![]));
}

// ---- messages

#[test]
fn messages_of_template_errors() {
    let key = || Box::new(TemplateError::KeyNotPresent("k".to_owned()));
    let says = |error: TemplateError, expected: &str| assert_eq!(error.to_string(), expected);
    says(TemplateError::UnknownError, "An unknown error occured.");
    says(TemplateError::PipesNestedTooDeep, "Templates call templates through pipes too deeply.");
    says(TemplateError::FileError(FileError::FileNotFound("f".to_owned())), "Can't find the file f");
    says(TemplateError::FileErrorDerivedFrom(FileError::FileCantBeRead("f".to_owned()), path("v")), "Can't read the file f (derived from \"v\")");
    says(TemplateError::YamlFileError(YamlFileError::File(FileError::FileCantBeWritten("f".to_owned()))), "Can't write to the file f");
    says(TemplateError::OnForLoopIteration(key(), "\"s\"".to_owned()), "The key \"k\" was not present in the parameters.\nwithin for loop entry \"s\"");
    says(TemplateError::OnForLoopIterationSortKey(key(), "e".to_owned()), "The key \"k\" was not present in the parameters.\nwhen getting the sorting key for loop entry e");
    says(TemplateError::OnForLoopIterationIncludeKey(key(), "e".to_owned()), "The key \"k\" was not present in the parameters.\nwhen getting the include key for loop entry e");
    says(TemplateError::OnForLoopIterationExcludeKey(key(), "e".to_owned()), "The key \"k\" was not present in the parameters.\nwhen getting the exclude key for loop entry e");
    says(TemplateError::InIfExistsLoop(key(), path("v"), true), "The key \"k\" was not present in the parameters.\nwithin the true branch of checking if v exists");
    says(TemplateError::InIfExistsLoop(key(), path("v"), false), "The key \"k\" was not present in the parameters.\nwithin the false branch of checking if v exists");
    says(TemplateError::InIntoStatement(key(), path("v")), "The key \"k\" was not present in the parameters.\nwhen params are derived from v");
    says(TemplateError::IntoValueNotHash(path("v")), "Can't use v with an into statement as it's not an object");
    says(TemplateError::KeyNotString("k".to_owned()), "The key \"k\" in the parameters was not a string.");
    says(TemplateError::ParseError("p".to_owned()), "Parsing the templating text failed: p");
    says(TemplateError::SerialisationError("p".to_owned()), "Failed to serialise a value: p");
    says(TemplateError::IndexOOB("a.b".to_owned(), 88), "Index 88 of a.b is out of bounds");
    says(TemplateError::IndexWithNonIntegerValue("a".to_owned(), path("i")), "i isn't an integer, so it can't index a");
    says(TemplateError::IndexOnUnindexable("a".to_owned(), 3), "a isn't indexable, so can't be indexed at 3");
    says(TemplateError::FieldNotPresent("a".to_owned(), "f".to_owned()), "a has no property named f");
    says(TemplateError::FieldOnUnfieldable("a".to_owned(), "f".to_owned()), "a has no properties, so field f can't be accessed");
    says(TemplateError::ForOnUnindexable("a".to_owned()), "Can't do a for loop on a as it's not indexable");
    says(TemplateError::PipeMissing("p".to_owned()), "Can't use pipe p as it doesn't exist");
    says(TemplateError::PipeExecutionError("bad".to_owned(), "p".to_owned(), 2, "\"v\"".to_owned()), "Error running pipe \"p\" as pipe 2 on \"v\": bad");
    says(TemplateError::WithinTemplatePipe(key(), 1, "\"v\"".to_owned()), "The key \"k\" was not present in the parameters.\nwhen running the default templating pipe as pipe 1 on \"v\"");
    says(TemplateError::WithinTemplateNamedPipe(key(), "p".to_owned(), 0, "\"v\"".to_owned()), "The key \"k\" was not present in the parameters.\nwhen running templating pipe \"p\" as pipe 0 on \"v\"");
    assert_eq!(FileError::FilesCantBeCopied("a".to_owned()).to_string(), "Can't copy the files at a");
    assert_eq!(FileError::CantCopyDirIntoFile("a".to_owned(), "b".to_owned()).to_string(), "Can't copy a into b as its a file");
    assert_eq!(FileError::TemplateFileFailedParsing("a".to_owned(), "b".to_owned()).to_string(), "Couldn't parse a into templating:\nb");
}

#[test]
fn messages_of_scan_errors_are_the_scanners() {
    let error = load_yaml_document("a: [").unwrap_err();
    let said = YamlFileError::Yaml(error.clone()).to_string();
    assert_eq!(said, error.to_string());
    assert!(said.contains("line"));
    assert_eq!(LayoutError::YamlParsing(error.clone()).to_string(), said);
}

#[test]
fn messages_of_build_errors() {
    let source = ParamsSource { grouping: 2, index: 5, flatten_index: Some(1), file: Some("f.yaml".to_owned()) };
    let inline = ParamsSource { grouping: 0, index: 3, flatten_index: None, file: None };
    assert_eq!(source.to_string(), "f.yaml:5 (flatten result 1) in grouping 2");
    assert_eq!(inline.to_string(), "(specified params):3 in grouping 0");
    let says = |error: BuildError, expected: &str| assert_eq!(error.to_string(), expected);
    says(BuildError::FileError(FileError::FileNotFound("f".to_owned())), "Can't find the file f");
    says(BuildError::YamlFileError(YamlFileError::File(FileError::FileNotFound("f".to_owned()))), "Can't find the file f");
    says(BuildError::TemplateError(TemplateError::UnknownError), "An unknown error occured.");
    says(BuildError::BMFIsntArray("f".to_owned()), "Can't build multiple files using \"f\" as params as it doesn't contain a yaml array");
    says(BuildError::BMFContainsNonMap("f".to_owned(), 4), "Can't build multiple files using \"f\" as params because entry 4 isn't a map");
    says(BuildError::BMOutputNotSpecified(inline.clone()), "Can't build the file at (specified params):3 in grouping 0 because it has no output specified");
    says(BuildError::BMInputNotSpecified("o".to_owned(), inline.clone()), "Can't build \"o\" (at (specified params):3 in grouping 0) because it has no base input specified");
    says(BuildError::BMMappingParseError("e".to_owned(), "k".to_owned(), inline.clone()), "Can't parse mapping \"k\" (at (specified params):3 in grouping 0): e");
    says(BuildError::BMMappingTemplateError(TemplateError::UnknownError, "k".to_owned(), inline.clone()), "Can't parse mapping \"k\" (at (specified params):3 in grouping 0): An unknown error occured.");
    says(BuildError::BMMappingIsntString("k".to_owned(), inline.clone()), "Mapping \"k\" (at (specified params):3 in grouping 0) isn't a string");
    says(BuildError::FlattenOnNonArray("k".to_owned(), inline.clone()), "Can't flatten with \"k\" (on (specified params):3 in grouping 0) as it isn't an array");
    says(BuildError::FlattenKeyNotFound("k".to_owned(), inline.clone()), "Can't flatten with \"k\" (on (specified params):3 in grouping 0) as the value to flatten with wasn't found");
    says(BuildError::BMSourced(inline.clone(), Box::new(BuildError::BMFIsntArray("f".to_owned()))), "Can't build multiple files using \"f\" as params as it doesn't contain a yaml array\nat (specified params):3 in grouping 0");
    let wrapped = || BuildError::TemplateError(TemplateError::OnForLoopIteration(Box::new(TemplateError::UnknownError), "e".to_owned()));
    assert_eq!(matrix(vec![]).message_expansion_failed(12, wrapped()), "Expanding uh failed after 12ms:\n    An unknown error occured.\n    within for loop entry e");
    let page = BuildActionExpanded::BuildPage { output: "o".to_owned(), input: "i".to_owned(), params: params("{}"), source: None };
    let copy = BuildActionExpanded::CopyFiles { to: "t".to_owned(), from: "f".to_owned() };
    assert_eq!(page.message_run_succeeded(7), "Successfully built o in 7ms");
    assert_eq!(copy.message_run_succeeded(0), "Successfully copied f to t in 0ms");
    assert_eq!(page.message_run_failed(7, wrapped()), "Building o failed after 7ms:\n    An unknown error occured.\n    within for loop entry e");
    assert_eq!(copy.message_run_failed(7, wrapped()), "Copying f to t failed after 7ms:\n    An unknown error occured.\n    within for loop entry e");
}

#[test]
fn messages_of_layout_errors() {
    let says = |error: LayoutError, expected: &str| assert_eq!(error.to_string(), expected);
    says(LayoutError::AtEntry(Box::new(LayoutError::MissingKey("k".to_owned())), 3), "At action 3: The key \"k\" is missing");
    says(LayoutError::YamlFileError(YamlFileError::File(FileError::FileNotFound("f".to_owned()))), "Can't find the file f");
    says(LayoutError::UnexpectedType("t".to_owned()), "\"t\" is not a valid type of build action");
    says(LayoutError::KeyNotString("k".to_owned()), "The key \"k\" is not a string");
    says(LayoutError::KeyNotArray("k".to_owned()), "The key \"k\" is not an array");
    says(LayoutError::KeyNotMap("k".to_owned()), "The key \"k\" is not a map");
    says(LayoutError::EntryNotHash("k".to_owned(), 2), "Entry 2 within the array at \"k\" is not a map");
    says(LayoutError::EntryNotString("k".to_owned(), 2), "Entry 2 within the array at \"k\" is not a string");
}

// ---- folds and maps

#[test]
fn folds_and_maps_stop_at_the_first_error() {
    let numbers = vec![1, 2, 3];
    let mut seen = 0;
    let small = 1;
    let large = 100;
    assert_eq!(
        fold_m(&small, &numbers, |bb, aa| {
            seen += 1;
            if aa > bb { Ok::<&i32, String>(aa) } else { Ok(bb) }
        }),
        Ok(&3)
    );
    assert_eq!(seen, 3);
    assert_eq!(fold_m(&large, &numbers, |_bb, aa| if *aa == 2 { Err("two") } else { Ok(aa) }), Err("two"));
    assert_eq!(fold_m_mut(10, vec![1, 2, 3], |bb, aa| Ok::<i32, String>(bb + aa)), Ok(16));
    assert_eq!(fold_m_mut(10, vec![1, 2, 3], |bb, aa| if aa == 2 { Err(*bb) } else { Ok(bb + aa) }), Err(11));
    assert_eq!(map_m(vec![1, 2], |aa| Ok::<i32, String>(aa * 2)), Ok(vec![2, 4]));
    assert_eq!(map_m(vec![1, 2, 3], |aa| if aa > 1 { Err(aa) } else { Ok(aa) }), Err(2));
    assert_eq!(map_m_index(vec![5, 6], |ii, aa| Ok::<usize, String>(ii + aa)), Ok(vec![5, 7]));
    assert_eq!(map_m_index(vec![5, 6], |ii, _aa| if ii == 1 { Err(ii) } else { Ok(ii) }), Err(1));
    assert_eq!(map_m_mut(vec![1, 2], |aa| Ok::<i32, String>(aa + 1)), Ok(vec![2, 3]));
    assert_eq!(map_m_mut_index(vec![1, 2], |ii, aa| Ok::<usize, String>(ii * aa)), Ok(vec![0, 2]));
    assert_eq!(map_m_ref(&numbers, |aa| Ok::<i32, String>(*aa)), Ok(vec![1, 2, 3]));
    assert_eq!(map_m_ref(&numbers, |aa| if *aa == 3 { Err("three") } else { Ok(*aa) }), Err("three"));
    assert_eq!(map_m_ref_index(&numbers, |ii, aa| Ok::<usize, String>(ii + *aa as usize)), Ok(vec![1, 3, 5]));
    assert_eq!(map_mut(vec![1, 2], |aa| aa * 3), vec![3, 6]);
    assert_eq!(map_mut(Vec::<i32>::new(), |aa| aa), vec![]);
    assert_eq!(*MaybeRef::Owned(3).get(), 3);
    assert_eq!(*MaybeRef::Ref(&4).get(), 4);
}
