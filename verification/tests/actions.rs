use epicsitegen::io::{FileError, ReadsFiles, ReadsFilesImpl, Traced};
use epicsitegen::parsers::parse_template_string;
use epicsitegen::pipes::{new_pipe_map, HostPipe, PipeDefinition, PipeMap};
use epicsitegen::actions::{BuildAction, BuildError, BuildMultiplePages};
use epicsitegen::utils::map_m;
use epicsitegen::template::{default_template_context, TemplateElement, TemplateError};
use epicsitegen::yaml::{load_yaml, YamlFileError, YamlMap, YamlValue};
use std::collections::{HashMap, HashSet};

pub struct TestFileCache {
    files: HashMap<String, String>,
    file_modify_times: HashMap<String, u128>,
    pub read: HashSet<String>,
    pub written: HashMap<String, String>,
}

impl ReadsFiles for TestFileCache {
    fn read(&mut self, filename: &str) -> Result<String, FileError> {
        self.read.insert(filename.to_owned());
        match self.files.get(filename) {
            Some(ss) => Ok(ss.clone()),
            None => Err(FileError::FileNotFound(filename.to_owned())),
        }
    }

    fn modify_time(&self, filename: &str) -> Option<u128> {
        self.file_modify_times.get(filename).map(|ii| *ii)
    }

    fn read_yaml(&mut self, filename: &str) -> Result<YamlValue, YamlFileError> {
        let contents = self.read(filename).map_err(|xx| YamlFileError::File(xx))?;
        load_yaml(&contents).map_err(|xx| YamlFileError::Yaml(xx))
    }

    fn read_template(&mut self, filename: &str) -> Result<Vec<TemplateElement>, FileError> {
        let contents = self.read(filename)?;
        parse_template_string(&contents)
            .map_err(|xx| FileError::TemplateFileFailedParsing(filename.to_owned(), xx.to_string()))
    }

    fn write(&mut self, filename: &str, contents: &str) -> Result<(), FileError> {
        self.written.insert(filename.to_owned(), contents.to_owned());
        Ok(())
    }

    fn copy_files(&self, _from: &str, _to: &str) -> Result<(), FileError> {
        Ok(())
    }
}

pub fn setup_io() -> Traced<TestFileCache> {
    let mut files = HashMap::new();
    let mut file_modify_times = HashMap::new();
    files.insert("aaa.txt".to_string(), "apple".to_string());
    files.insert("bbb.txt".to_string(), "banana".to_string());
    files.insert("ccc.txt".to_string(), "carrot".to_string());
    files.insert("resources/snippets/aaa.txt".to_string(), "sapple".to_string());
    files.insert("resources/snippets/bbb.txt".to_string(), "sbanana".to_string());
    files.insert("resources/snippets/ccc.txt".to_string(), "scarrot".to_string());
    files.insert("entry1.yaml".to_string(), "[9, 8]".to_string());
    files.insert("entry2.yaml".to_string(), "[\"asd\", \"fgh\"]".to_string());
    files.insert("base01.txt".to_string(), "foo {{bar}} yay".to_string());
    files.insert("base02.txt".to_string(), "{{_input}} {{_output}} {{_outputfolder}} {{_outputfull}} {{_dots}}".to_string());
    files.insert("base03.txt".to_string(), "foo {{mapped}} yay".to_string());
    files.insert("base04.txt".to_string(), "{{_flatten_index}} {{flat}}\n{{_flatten_array}}".to_string());
    files.insert("base05.txt".to_string(), "foo {%file aaa.txt | ch1%} yay".to_string());
    files.insert("base06.txt".to_string(), "foo {%file aaa.txt | ch2%} yay".to_string());
    files.insert("base07.txt".to_string(), "foo {%file aaa.txt | ch3%} yay".to_string());
    files.insert("base08.txt".to_string(), "foo {%file aaa.txt | ch4%} yay".to_string());
    files.insert("flatten_object_unused.txt".to_string(), "{{_flatten_index}} {{flat.value}}\n{{_flatten_array}}".to_string());
    files.insert("cache/aaa.txt__ch1".to_string(), "ch1 apple but cached".to_string());
    files.insert("cache/aaa.txt__ch2".to_string(), "ch2 apple but cached".to_string());
    files.insert("cache/aaa.txt__ch3".to_string(), "ch3 apple but cached".to_string());
    file_modify_times.insert("aaa.txt".to_string(), 3000);
    file_modify_times.insert("cache/aaa.txt__ch1".to_string(), 2000);
    file_modify_times.insert("cache/aaa.txt__ch2".to_string(), 4000);
    file_modify_times.insert("cache/aaa.txt__ch2".to_string(), 3000);
    Traced::new(TestFileCache { files, file_modify_times, read: HashSet::new(), written: HashMap::new() })
}

pub struct HostFn(pub fn(&YamlValue, &Vec<String>) -> Result<YamlValue, String>);

impl HostPipe for HostFn {
    fn run<R: ReadsFiles>(
        &self,
        value: &YamlValue,
        params: &Vec<String>,
        _pipes: &PipeMap<Self>,
        _io: &mut ReadsFilesImpl<R>,
    ) -> Result<YamlValue, String> {
        (self.0)(value, params)
    }
}

pub fn setup_pipes() -> PipeMap<HostFn> {
    let mut pipemap = new_pipe_map();
    pipemap.insert("test0".to_string(), PipeDefinition::Template(parse_template_string("um1").unwrap(), None));
    pipemap.insert("test1".to_string(), PipeDefinition::Template(parse_template_string("um2 {{it}}").unwrap(), None));
    pipemap.insert("test2".to_string(), PipeDefinition::Template(parse_template_string("um3 {{nah}}").unwrap(), None));
    pipemap.insert("test3".to_string(), PipeDefinition::Template(parse_template_string("um4 {{it}} {{params[0]}} {{params[1]}}").unwrap(), None));
    pipemap.insert("ch1".to_string(), PipeDefinition::Template(parse_template_string("ch1 {{it}}").unwrap(), Some(2000)));
    pipemap.insert("ch2".to_string(), PipeDefinition::Template(parse_template_string("ch2 {{it}}").unwrap(), Some(3000)));
    pipemap.insert("ch3".to_string(), PipeDefinition::Template(parse_template_string("ch3 {{it}}").unwrap(), Some(4000)));
    pipemap.insert("ch4".to_string(), PipeDefinition::Template(parse_template_string("ch4 {{it}}").unwrap(), Some(4000)));
    pipemap.insert("txt".to_string(), PipeDefinition::Template(parse_template_string("{{it}}.txt").unwrap(), None));
    pipemap.insert("testfn".to_string(), PipeDefinition::Fn(HostFn(|_input, _params| Ok(YamlValue::String("bleh".to_owned()))), None));
    pipemap.insert(
        "testfn2".to_string(),
        PipeDefinition::Fn(HostFn(|_input, _params| Ok(YamlValue::Array(vec![YamlValue::Integer(1), YamlValue::Integer(2)]))), None),
    );
    pipemap
}

pub fn params(strr: &str) -> YamlMap {
    match load_yaml(strr).unwrap() {
        YamlValue::Hash(pp) => pp,
        _ => panic!("not a hash map?"),
    }
}

fn assert_written(io: &Traced<TestFileCache>, filename: &str, contents: &str) {
    println!("{:?}", io.device().written);
    assert_eq!(
        io.device().written.get(filename).expect(&format!("{} was not written to", filename)),
        contents
    );
}

fn assert_read(io: &Traced<TestFileCache>, filename: &str) {
    println!("{:?}", io.device().read);
    assert!(io.device().read.contains(filename), "{} was not read from", filename);
}

fn runs(action: BuildAction, io: &mut Traced<TestFileCache>) {
    let expanded = action.expand(&setup_pipes(), io, &default_template_context());
    match expanded {
        Err(BuildError::TemplateError(TemplateError::ParseError(ref ee))) => println!("{}", ee),
        _ => (),
    };
    let outcome = match map_m(expanded.unwrap(), |ii| ii.run(&setup_pipes(), io, &default_template_context())) {
        Err(BuildError::TemplateError(TemplateError::ParseError(ref ee))) => {
            println!("{}", ee);
            Err(BuildError::TemplateError(TemplateError::ParseError(ee.to_owned())))
        }
        Err(errr) => Err(errr),
        _ => Ok(()),
    };
    assert_eq!(Ok(()), outcome);
}

#[test]
fn build_single_page() {
    let mut io = setup_io();
    runs(BuildAction::BuildPage{output: "out.txt".to_string(), input: "base01.txt".to_string(), params: params("bar: test")}, &mut io);
    assert_eq!(1, io.device().written.len());
    assert_written(&io, "build/out.txt", "foo test yay");
}

#[test]
fn single_page_context() {
    let mut io = setup_io();
    runs(BuildAction::BuildPage{output: "blah/um/out.txt".to_string(), input: "base02.txt".to_string(), params: params("bar: test")}, &mut io);
    assert_eq!(1, io.device().written.len());
    assert_written(&io, "build/blah/um/out.txt", "base02.txt blah/um/out.txt build/ build/blah/um/out.txt ../../");
}

#[test]
fn build_single_cache_file_is_newest() {
    let mut io = setup_io();
    runs(BuildAction::BuildPage{output: "out.txt".to_string(), input: "base05.txt".to_string(), params: params("bar: test")}, &mut io);
    assert_eq!(2, io.device().written.len());
    assert_written(&io, "cache/aaa.txt__ch1", "ch1 apple");
    assert_written(&io, "build/out.txt", "foo ch1 apple yay");
}

#[test]
fn build_single_cache_cache_is_newest() {
    let mut io = setup_io();
    runs(BuildAction::BuildPage{output: "out.txt".to_string(), input: "base06.txt".to_string(), params: params("bar: test")}, &mut io);
    assert_eq!(1, io.device().written.len());
    assert_written(&io, "build/out.txt", "foo ch2 apple but cached yay");
    assert_read(&io, "cache/aaa.txt__ch2");
}

#[test]
fn build_single_cache_pipe_is_newest() {
    let mut io = setup_io();
    runs(BuildAction::BuildPage{output: "out.txt".to_string(), input: "base07.txt".to_string(), params: params("bar: test")}, &mut io);
    assert_eq!(2, io.device().written.len());
    assert_written(&io, "cache/aaa.txt__ch3", "ch3 apple");
    assert_written(&io, "build/out.txt", "foo ch3 apple yay");
}

#[test]
fn build_single_cache_doesnt_exist() {
    let mut io = setup_io();
    runs(BuildAction::BuildPage{output: "out.txt".to_string(), input: "base08.txt".to_string(), params: params("bar: test")}, &mut io);
    assert_eq!(2, io.device().written.len());
    assert_written(&io, "cache/aaa.txt__ch4", "ch4 apple");
    assert_written(&io, "build/out.txt", "foo ch4 apple yay");
}

#[test]
fn build_no_multiple_pages() {
    let mut io = setup_io();
    runs(BuildAction::BuildMultiplePages{default_params: params("{}"), on: vec![
        BuildMultiplePages{
            mapping: params("{}"),
            files: vec![],
            params: vec![],
            flatten: None,
        },
    ], descriptor: "uh".to_owned(), include_key: None, exclude_key: None}, &mut io);
    assert_eq!(0, io.device().written.len());
}

#[test]
fn build_multiple_pages_not_from_files() {
    let mut io = setup_io();
    runs(BuildAction::BuildMultiplePages{default_params: params("{}"), on: vec![
        BuildMultiplePages{
            mapping: params("{}"),
            files: vec![],
            params: vec![
                params("input: base01.txt\noutput: out1.txt\nbar: test"),
                params("input: base01.txt\noutput: out2.txt\nbar: testing"),
            ],
            flatten: None,
        },
    ], descriptor: "uh".to_owned(), include_key: None, exclude_key: None}, &mut io);
    assert_eq!(2, io.device().written.len());
    assert_written(&io, "build/out1.txt", "foo test yay");
    assert_written(&io, "build/out2.txt", "foo testing yay");
}

#[test]
fn build_multiple_pages_mapping() {
    let mut io = setup_io();
    runs(BuildAction::BuildMultiplePages{default_params: params("{}"), on: vec![
        BuildMultiplePages{
            mapping: params("mapped: \"{{bar}}{{yay}}\""),
            files: vec![],
            params: vec![
                params("input: base03.txt\noutput: out1.txt\nbar: test\nyay: nah"),
                params("input: base03.txt\noutput: out2.txt\nbar: testing\nyay: nah2"),
            ],
            flatten: None,
        },
    ], descriptor: "uh".to_owned(), include_key: None, exclude_key: None}, &mut io);
    assert_eq!(2, io.device().written.len());
    assert_written(&io, "build/out1.txt", "foo testnah yay");
    assert_written(&io, "build/out2.txt", "foo testingnah2 yay");
}

#[test]
fn build_multiple_pages_include() {
    let mut io = setup_io();
    runs(BuildAction::BuildMultiplePages{default_params: params("{}"), on: vec![
        BuildMultiplePages{
            mapping: params("{}"),
            files: vec![],
            params: vec![
                params("input: base01.txt\noutput: out1.txt\nbar: test9\niii: whee\neee: whoo"),
                params("input: base01.txt\noutput: out2.txt\nbar: test8\neee: whoo"),
                params("input: base01.txt\noutput: out3.txt\nbar: test7\niii: whee"),
                params("input: base01.txt\noutput: out4.txt\nbar: test6\n")
            ],
            flatten: None,
        },
    ], descriptor: "uh".to_owned(), include_key: Some("iii".to_owned()), exclude_key: None}, &mut io);
    assert_eq!(2, io.device().written.len());
    assert_written(&io, "build/out1.txt", "foo test9 yay");
    assert_written(&io, "build/out3.txt", "foo test7 yay");
}

#[test]
fn build_multiple_pages_exclude() {
    let mut io = setup_io();
    runs(BuildAction::BuildMultiplePages{default_params: params("{}"), on: vec![
        BuildMultiplePages{
            mapping: params("{}"),
            files: vec![],
            params: vec![
                params("input: base01.txt\noutput: out1.txt\nbar: test9\niii: whee\neee: whoo"),
                params("input: base01.txt\noutput: out2.txt\nbar: test8\neee: whoo"),
                params("input: base01.txt\noutput: out3.txt\nbar: test7\niii: whee"),
                params("input: base01.txt\noutput: out4.txt\nbar: test6\n")
            ],
            flatten: None,
        },
    ], descriptor: "uh".to_owned(), exclude_key: Some("eee".to_owned()), include_key: None}, &mut io);
    assert_eq!(2, io.device().written.len());
    assert_written(&io, "build/out4.txt", "foo test6 yay");
    assert_written(&io, "build/out3.txt", "foo test7 yay");
}

#[test]
fn build_multiple_pages_includes_exclude() {
    let mut io = setup_io();
    runs(BuildAction::BuildMultiplePages{default_params: params("{}"), on: vec![
        BuildMultiplePages{
            mapping: params("{}"),
            files: vec![],
            params: vec![
                params("input: base01.txt\noutput: out1.txt\nbar: test9\niii: whee\neee: whoo"),
                params("input: base01.txt\noutput: out2.txt\nbar: test8\neee: whoo"),
                params("input: base01.txt\noutput: out3.txt\nbar: test7\niii: whee"),
                params("input: base01.txt\noutput: out4.txt\nbar: test6\n")
            ],
            flatten: None,
        },
    ], descriptor: "uh".to_owned(), exclude_key: Some("eee".to_owned()), include_key: Some("iii".to_owned())}, &mut io);
    assert_eq!(1, io.device().written.len());
    assert_written(&io, "build/out3.txt", "foo test7 yay");
}

#[test]
fn build_multiple_pages_flatten() {
    let mut io = setup_io();
    runs(BuildAction::BuildMultiplePages{default_params: params("{}"), on: vec![
        BuildMultiplePages{
            mapping: params("{output: \"out{{flat}}.txt\"}"),
            files: vec![],
            params: vec![
                params("input: base04.txt\nbar: test\nflat: [99, 88, 77]"),
            ],
            flatten: Some("flat".to_owned()),
        },
    ], descriptor: "uh".to_owned(), include_key: None, exclude_key: None}, &mut io);
    assert_eq!(3, io.device().written.len());
    assert_written(&io, "build/out99.txt", "0 99\n---\n- 99\n- 88\n- 77");
    assert_written(&io, "build/out88.txt", "1 88\n---\n- 99\n- 88\n- 77");
    assert_written(&io, "build/out77.txt", "2 77\n---\n- 99\n- 88\n- 77");
}
