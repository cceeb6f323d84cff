#![allow(non_snake_case)]

use epicsitegen::io::{FileError, ReadsFiles, ReadsFilesImpl, Traced};
use epicsitegen::parsers::parse_template_string;
use epicsitegen::pipes::{new_pipe_map, HostPipe, PipeDefinition, PipeMap};
use epicsitegen::template::{default_template_context, render, TemplateElement, TemplateError};
use epicsitegen::yaml::{load_yaml, YamlFileError, YamlMap, YamlValue};
use std::collections::{HashMap, HashSet};

pub struct TestFileCache {
    files: HashMap<String, String>,
    file_modify_times: HashMap<String, u128>,
    pub read: HashSet<String>,
    pub written: HashMap<String, String>,
}

impl ReadsFiles for TestFileCache {
    fn read(&mut self, filename: &str) -> Result<String, FileError> {
        self.read.insert(filename.to_owned());
        match self.files.get(filename) {
            Some(ss) => Ok(ss.clone()),
            None => Err(FileError::FileNotFound(filename.to_owned())),
        }
    }

    fn modify_time(&self, filename: &str) -> Option<u128> {
        self.file_modify_times.get(filename).map(|ii| *ii)
    }

    fn read_yaml(&mut self, filename: &str) -> Result<YamlValue, YamlFileError> {
        let contents = self.read(filename).map_err(|xx| YamlFileError::File(xx))?;
        load_yaml(&contents).map_err(|xx| YamlFileError::Yaml(xx))
    }

    fn read_template(&mut self, filename: &str) -> Result<Vec<TemplateElement>, FileError> {
        let contents = self.read(filename)?;
        parse_template_string(&contents)
            .map_err(|xx| FileError::TemplateFileFailedParsing(filename.to_owned(), xx.to_string()))
    }

    fn write(&mut self, filename: &str, contents: &str) -> Result<(), FileError> {
        self.written.insert(filename.to_owned(), contents.to_owned());
        Ok(())
    }

    fn copy_files(&self, _from: &str, _to: &str) -> Result<(), FileError> {
        Ok(())
    }
}

pub fn setup_io() -> Traced<TestFileCache> {
    let mut files = HashMap::new();
    let mut file_modify_times = HashMap::new();
    files.insert("aaa.txt".to_string(), "apple".to_string());
    files.insert("bbb.txt".to_string(), "banana".to_string());
    files.insert("ccc.txt".to_string(), "carrot".to_string());
    files.insert("resources/snippets/aaa.txt".to_string(), "sapple".to_string());
    files.insert("resources/snippets/bbb.txt".to_string(), "sbanana".to_string());
    files.insert("resources/snippets/ccc.txt".to_string(), "scarrot".to_string());
    files.insert("entry1.yaml".to_string(), "[9, 8]".to_string());
    files.insert("entry2.yaml".to_string(), "[\"asd\", \"fgh\"]".to_string());
    files.insert("base01.txt".to_string(), "foo {{bar}} yay".to_string());
    files.insert("base02.txt".to_string(), "{{_input}} {{_output}} {{_outputfolder}} {{_outputfull}} {{_dots}}".to_string());
    files.insert("base03.txt".to_string(), "foo {{mapped}} yay".to_string());
    files.insert("base04.txt".to_string(), "{{_flatten_index}} {{flat}}\n{{_flatten_array}}".to_string());
    files.insert("base05.txt".to_string(), "foo {%file aaa.txt | ch1%} yay".to_string());
    files.insert("base06.txt".to_string(), "foo {%file aaa.txt | ch2%} yay".to_string());
    files.insert("base07.txt".to_string(), "foo {%file aaa.txt | ch3%} yay".to_string());
    files.insert("base08.txt".to_string(), "foo {%file aaa.txt | ch4%} yay".to_string());
    files.insert("flatten_object_unused.txt".to_string(), "{{_flatten_index}} {{flat.value}}\n{{_flatten_array}}".to_string());
    files.insert("cache/aaa.txt__ch1".to_string(), "ch1 apple but cached".to_string());
    files.insert("cache/aaa.txt__ch2".to_string(), "ch2 apple but cached".to_string());
    files.insert("cache/aaa.txt__ch3".to_string(), "ch3 apple but cached".to_string());
    file_modify_times.insert("aaa.txt".to_string(), 3000);
    file_modify_times.insert("cache/aaa.txt__ch1".to_string(), 2000);
    file_modify_times.insert("cache/aaa.txt__ch2".to_string(), 4000);
    file_modify_times.insert("cache/aaa.txt__ch2".to_string(), 3000);
    Traced::new(TestFileCache { files, file_modify_times, read: HashSet::new(), written: HashMap::new() })
}

pub struct HostFn(pub fn(&YamlValue, &Vec<String>) -> Result<YamlValue, String>);

impl HostPipe for HostFn {
    fn run<R: ReadsFiles>(
        &self,
        value: &YamlValue,
        params: &Vec<String>,
        _pipes: &PipeMap<Self>,
        _io: &mut ReadsFilesImpl<R>,
    ) -> Result<YamlValue, String> {
        (self.0)(value, params)
    }
}

pub fn setup_pipes() -> PipeMap<HostFn> {
    let mut pipemap = new_pipe_map();
    pipemap.insert("test0".to_string(), PipeDefinition::Template(parse_template_string("um1").unwrap(), None));
    pipemap.insert("test1".to_string(), PipeDefinition::Template(parse_template_string("um2 {{it}}").unwrap(), None));
    pipemap.insert("test2".to_string(), PipeDefinition::Template(parse_template_string("um3 {{nah}}").unwrap(), None));
    pipemap.insert("test3".to_string(), PipeDefinition::Template(parse_template_string("um4 {{it}} {{params[0]}} {{params[1]}}").unwrap(), None));
    pipemap.insert("ch1".to_string(), PipeDefinition::Template(parse_template_string("ch1 {{it}}").unwrap(), Some(2000)));
    pipemap.insert("ch2".to_string(), PipeDefinition::Template(parse_template_string("ch2 {{it}}").unwrap(), Some(3000)));
    pipemap.insert("ch3".to_string(), PipeDefinition::Template(parse_template_string("ch3 {{it}}").unwrap(), Some(4000)));
    pipemap.insert("ch4".to_string(), PipeDefinition::Template(parse_template_string("ch4 {{it}}").unwrap(), Some(4000)));
    pipemap.insert("txt".to_string(), PipeDefinition::Template(parse_template_string("{{it}}.txt").unwrap(), None));
    pipemap.insert("testfn".to_string(), PipeDefinition::Fn(HostFn(|_input, _params| Ok(YamlValue::String("bleh".to_owned()))), None));
    pipemap.insert(
        "testfn2".to_string(),
        PipeDefinition::Fn(HostFn(|_input, _params| Ok(YamlValue::Array(vec![YamlValue::Integer(1), YamlValue::Integer(2)]))), None),
    );
    pipemap
}

pub fn params(strr: &str) -> YamlMap {
    match load_yaml(strr).unwrap() {
        YamlValue::Hash(pp) => pp,
        _ => panic!("not a hash map?"),
    }
}

fn accept(input: &str, given: &str, expected: &str) {
    let pp = params(given);
    let rendered = render(input, &pp, &setup_pipes(), &mut setup_io(), &default_template_context());
    match rendered {
        Err(TemplateError::ParseError(ref ee)) => println!("{}", ee),
        _ => (),
    }
    assert_eq!(Ok(expected.to_owned()), rendered);
}

fn reject(input: &str, given: &str, expected: TemplateError) {
    let pp = params(given);
    let rendered = render(input, &pp, &setup_pipes(), &mut setup_io(), &default_template_context());
    match rendered {
        Err(TemplateError::ParseError(ref ee)) => println!("{}", ee),
        _ => (),
    }
    assert_eq!(Err(expected), rendered);
}

#[test]
fn Empty_text() {
    accept("", "{}", "");
}

#[test]
fn Just_plain_text() {
    accept("test test", "{}", "test test");
}

#[test]
fn Just_plain_text_with_open_brace() {
    accept("test { test", "{}", "test { test");
}

#[test]
fn Basic_replacement_no_text_after() {
    accept("foo {{bar}}", "bar: test", "foo test");
}

#[test]
fn Basic_replacement_text_after() {
    accept("foo {{bar}} yay", "bar: test", "foo test yay");
}

#[test]
fn Basic_replacement_integer() {
    accept("foo {{bar}} yay", "bar: 123", "foo 123 yay");
}

#[test]
fn Basic_replacement_real() {
    accept("foo {{bar}} yay", "bar: 123.456", "foo 123.456 yay");
}

#[test]
fn Basic_replacement_with_spaces() {
    accept("foo {{   bar  }} yay", "bar: test", "foo test yay");
}

#[test]
fn Replacement_doesnt_exist() {
    reject("foo {{barr}} yay", "bar: 123.456", TemplateError::KeyNotPresent("barr".to_owned()));
}

#[test]
fn Replacement_with_field_access() {
    accept("foo {{bar.test}} yay", "bar: \n  test: something", "foo something yay");
}

#[test]
fn Missing_field_access() {
    reject("foo {{bar.testt}} yay", "bar: \n  test: something", TemplateError::FieldNotPresent("bar".to_owned(), "testt".to_owned()));
}

#[test]
fn Bad_field_access() {
    reject("foo {{bar.test.yayy}} yay", "bar: \n  test: something", TemplateError::FieldOnUnfieldable("bar.test".to_owned(), "yayy".to_owned()));
}

#[test]
fn Deeper_bad_field_access() {
    reject("foo {{bar.test.yayy}} yay", "bar: \n  test:\n    yay: uh", TemplateError::FieldNotPresent("bar.test".to_owned(), "yayy".to_owned()));
}

#[test]
fn Replacement_with_index_access() {
    accept("foo {{bar[1]}} yay", "bar: [a, b, c, d]", "foo b yay");
}

#[test]
fn Index_out_of_bounds() {
    reject("foo {{bar[88]}} yay", "bar: [a, b, c, d]", TemplateError::IndexOOB("bar".to_owned(), 88));
}

#[test]
fn Indexing_not_on_indexable() {
    reject("foo {{bar[0]}} yay", "bar: 1", TemplateError::IndexOnUnindexable("bar".to_owned(), 0));
}

#[test]
fn Replacement_with_many_field_accesses() {
    accept("foo {{bar.test.something.another}} yay", "bar: \n  test:\n    something:\n      another:\n        ok", "foo ok yay");
}

#[test]
fn basic_snippet() {
    accept("foo {% snippet aaa.txt %} yay", "filename: bbb.txt", "foo sapple yay");
}

#[test]
fn basic_snippet_at() {
    accept("foo {% snippet @ filename %} yay", "filename: bbb.txt", "foo sbanana yay");
}

#[test]
fn basic_file() {
    accept("foo {% file aaa.txt %} yay", "filename: bbb.txt", "foo apple yay");
}

#[test]
fn basic_file_at() {
    accept("foo {% file @ filename %} yay", "filename: bbb.txt", "foo banana yay");
}

#[test]
fn if_exists_true() {
    accept("foo {% if-exists filename %}bar{% endif %} yay", "filename: bbb.txt", "foo bar yay");
}

#[test]
fn if_exists_true_else() {
    accept("foo {% if-exists filename %}bar{% else %}something{% endif %} yay", "filename: bbb.txt", "foo bar yay");
}

#[test]
fn if_exists_false() {
    accept("foo {% if-exists erm %}bar{% endif %} yay", "filename: bbb.txt", "foo  yay");
}

#[test]
fn if_exists_false_else() {
    accept("foo {% if-exists erm %}bar{% else %}something{% endif %} yay", "filename: bbb.txt", "foo something yay");
}

#[test]
fn lookup_catcher_true() {
    accept("foo {%?}{{filename}}{&}no filename{?%} yay", "filename: bbb.txt", "foo bbb.txt yay");
}

#[test]
fn lookup_catcher_false() {
    accept("foo {%?}{{filename}}{&}no filename{?%} yay", "filenamee: bbb.txt", "foo no filename yay");
}

#[test]
fn lookup_catcher_last_cant_find_anything() {
    reject("foo {%?}{{filename}}{&}{{filename2}}{?%} yay", "filenamee: bbb.txt", TemplateError::KeyNotPresent("filename2".to_owned()));
}

#[test]
fn lookup_catcher_propogates_other_errors() {
    reject("foo {%?}{{filename.yeah}}{&}shouldnt be rendered{?%} yay", "filename: bbb.txt", TemplateError::FieldOnUnfieldable("filename".to_owned(), "yeah".to_owned()));
}

#[test]
fn for_loop_basic() {
    accept("foo {% for it in numbers %}{{it}} {% endfor %}yay", "numbers: [2, 4, 6]", "foo 2 4 6 yay");
}

#[test]
fn for_loop_absent_key() {
    reject("foo {% for it in numberss %}{{it}} {% endfor %}yay", "numbers: [2, 4, 6]", TemplateError::KeyNotPresent("numberss".to_owned()));
}

#[test]
fn for_loop_0_values() {
    accept("foo {% for it in numbers%}{{it}} {% endfor %}yay", "numbers: []", "foo yay");
}

#[test]
fn for_loop_with_separator() {
    accept("foo {% for it in numbers, morenumbers %}{{it}}{% sep %}, {% endfor %} yay", "numbers: [2, 4, 6]\nmorenumbers: [1, 3]", "foo 2, 4, 6, 1, 3 yay");
}

#[test]
fn for_loop_over_file() {
    accept("foo {% for it in-file entry1.yaml %}{{it}} {% endfor %}yay", "numbers: [2, 4, 6]\nmorenumbers: [1, 3]", "foo 9 8 yay");
}

#[test]
fn for_loop_over_file_at() {
    accept("foo {% for it in-file-at loc %}{{it}} {% endfor %}yay", "loc: entry2.yaml\nnumbers: [2, 4, 6]\nmorenumbers: [1, 3]", "foo asd fgh yay");
}

#[test]
fn for_loop_over_everything() {
    accept("foo {% for it in numbers, morenumbers in-file entry1.yaml in-file-at loc %}{{it}} {% endfor %}yay", "loc: entry2.yaml\nnumbers: [2, 4, 6]\nmorenumbers: [1, 3]", "foo 2 4 6 1 3 9 8 asd fgh yay");
}

#[test]
fn for_loop_over_everything_sorted() {
    accept("foo {% for it in numbers, morenumbers in-file entry1.yaml in-file-at loc sort it %}{{it}} {% endfor %}yay", "loc: entry2.yaml\nnumbers: [2, 4, 6]\nmorenumbers: [1, 3]", "foo 1 2 3 4 6 8 9 asd fgh yay");
}

#[test]
fn for_loop_over_everything_with_new_lines() {
    accept("foo {% for it\n  in numbers, morenumbers\n  in-file entry1.yaml\n  in-file-at loc %}{{it}} {% endfor %}yay", "loc: entry2.yaml\nnumbers: [2, 4, 6]\nmorenumbers: [1, 3]", "foo 2 4 6 1 3 9 8 asd fgh yay");
}

#[test]
fn for_loop_numbers_sort() {
    accept("foo {% for it in numbers sort it %}{{it}} {% endfor %}yay", "numbers: [4, 2, 6]", "foo 2 4 6 yay");
}

#[test]
fn for_loop_numbers_sort_asc() {
    accept("foo {% for it in numbers sort-asc it %}{{it}} {% endfor %}yay", "numbers: [4, 2, 6]", "foo 2 4 6 yay");
}

#[test]
fn for_loop_numbers_sort_desc() {
    accept("foo {% for it in numbers sort-desc it %}{{it}} {% endfor %}yay", "numbers: [4, 2, 6]", "foo 6 4 2 yay");
}

#[test]
fn replacement_with_template_pipe_1() {
    accept("foo {{bar | test0}} yay", "bar: test", "foo um1 yay");
}

#[test]
fn replacement_with_pipe_template_2() {
    accept("foo {{bar | test1}} yay", "bar: test", "foo um2 test yay");
}

#[test]
fn replacement_with_pipe_template_3() {
    accept("foo {{bar | test2}} yay", "bar: {nah: yeah}", "foo um3 yeah yay");
}

#[test]
fn replacement_with_function_pipe_1() {
    accept("foo {{bar | testfn}} yay", "bar: {nah: yeah}", "foo bleh yay");
}

#[test]
fn replacement_with_pipe_default_template() {
    accept("foo {{bar $}} yay", "yeah: nah\nbar: \"um {{yeah}}\"", "foo um nah yay");
}

#[test]
fn file_contents_piped() {
    accept("foo {% file aaa.txt | test1 %} yay", "filename: bbb.txt", "foo um2 apple yay");
}

#[test]
fn file_at_contents_piped() {
    accept("foo {% file @ filename | test1 %} yay", "filename: bbb.txt", "foo um2 banana yay");
}

#[test]
fn file_at_value_piped() {
    accept("foo {% file @(filename | txt) %} yay", "filename: bbb", "foo banana yay");
}

#[test]
fn file_at_both_piped() {
    accept("foo {% file @(filename | txt) | test1 %} yay", "filename: bbb", "foo um2 banana yay");
}

#[test]
fn file_contents_piped_default() {
    accept("foopiped {% file aaa.txt $ %} yay", "filename: bbb.txt", "foopiped apple yay");
}

#[test]
fn file_at_contents_piped_default() {
    accept("foopiped {% file @ filename $ %} yay", "filename: bbb.txt", "foopiped banana yay");
}

#[test]
fn snippet_contents_piped_default() {
    accept("foopiped {% snippet aaa.txt $ %} yay", "filename: bbb.txt", "foopiped sapple yay");
}

#[test]
fn snippet_at_contents_piped_default() {
    accept("foopiped {% snippet @ filename $ %} yay", "filename: bbb.txt", "foopiped sbanana yay");
}

#[test]
fn parser_Just_plain_text() {
    accept("test test", "{}", "test test");
}

#[test]
fn parser_Just_plain_text_with_open_brace() {
    accept("test { test", "{}", "test { test");
}

#[test]
fn Basic_replacement() {
    accept("foo {{bar}}", "bar: test", "foo test");
}

#[test]
fn Basic_replacement_2() {
    accept("foo {{bar}} yay", "bar: test", "foo test yay");
}

#[test]
fn parser_Basic_replacement_with_spaces() {
    accept("foo {{   bar  }} yay", "bar: test", "foo test yay");
}

#[test]
fn parser_Replacement_with_field_access() {
    accept("foo {{bar.test}} yay", "bar: \n  test: something", "foo something yay");
}

#[test]
fn parser_Replacement_with_index_access() {
    accept("foo {{bar[1]}} yay", "bar: [a, b, c, d]", "foo b yay");
}

#[test]
fn parser_Replacement_with_many_field_accesses() {
    accept("foo {{bar.test.something.another}} yay", "bar: \n  test:\n    something:\n      another:\n        ok", "foo ok yay");
}

#[test]
fn parser_basic_snippet() {
    accept("foo {% snippet aaa.txt %} yay", "filename: bbb.txt", "foo sapple yay");
}

#[test]
fn parser_basic_snippet_at() {
    accept("foo {% snippet @ filename %} yay", "filename: bbb.txt", "foo sbanana yay");
}

#[test]
fn parser_basic_file() {
    accept("foo {% file aaa.txt %} yay", "filename: bbb.txt", "foo apple yay");
}

#[test]
fn parser_basic_file_at() {
    accept("foo {% file @ filename %} yay", "filename: bbb.txt", "foo banana yay");
}

#[test]
fn parser_if_exists_true() {
    accept("foo {% if-exists filename %}bar{% endif %} yay", "filename: bbb.txt", "foo bar yay");
}

#[test]
fn parser_if_exists_true_else() {
    accept("foo {% if-exists filename %}bar{% else %}something{% endif %} yay", "filename: bbb.txt", "foo bar yay");
}

#[test]
fn parser_if_exists_false() {
    accept("foo {% if-exists erm %}bar{% endif %} yay", "filename: bbb.txt", "foo  yay");
}

#[test]
fn parser_if_exists_false_else() {
    accept("foo {% if-exists erm %}bar{% else %}something{% endif %} yay", "filename: bbb.txt", "foo something yay");
}

#[test]
fn parser_for_loop_basic() {
    accept("foo {% for it in numbers %}{{it}} {% endfor %}yay", "numbers: [2, 4, 6]", "foo 2 4 6 yay");
}

#[test]
fn parser_replacement_with_template_pipe_1() {
    accept("foo {{bar | test0}} yay", "bar: test", "foo um1 yay");
}

#[test]
fn parser_replacement_with_pipe_template_2() {
    accept("foo {{bar | test1}} yay", "bar: test", "foo um2 test yay");
}

#[test]
fn parser_replacement_with_pipe_template_3() {
    accept("foo {{bar | test2}} yay", "bar: {nah: yeah}", "foo um3 yeah yay");
}

#[test]
fn parser_replacement_with_function_pipe_1() {
    accept("foo {{bar | testfn}} yay", "bar: {nah: yeah}", "foo bleh yay");
}
