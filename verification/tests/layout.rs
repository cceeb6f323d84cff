use epicsitegen::actions::{BuildAction, BuildMultiplePages};
use epicsitegen::layout::layout_string_to_buildactions;
use epicsitegen::yaml::{load_yaml, YamlMap, YamlValue};

fn params(strr: &str) -> YamlMap {
    match load_yaml(strr).unwrap() {
        YamlValue::Hash(pp) => pp,
        _ => panic!("not a hash map?"),
    }
}

#[test]
fn parses_copy_ok() {
    let parsed = layout_string_to_buildactions("- type: copy\n  from: place\n  to: elsewhere");
    assert_eq!(Ok(vec![BuildAction::CopyFiles{
        from: "place".to_owned(),
        to: "elsewhere".to_owned(),
    }]), parsed);
}

#[test]
fn parses_build_ok() {
    let parsed = layout_string_to_buildactions("- type: build\n  input: place\n  output: elsewhere\n  params: {um: yeah}");
    assert_eq!(Ok(vec![BuildAction::BuildPage{
        input: "place".to_owned(),
        output: "elsewhere".to_owned(),
        params: params("{um: yeah}"),
    }]), parsed);
}

#[test]
fn parses_build_multiple_ok() {
    let parsed = layout_string_to_buildactions("- type: build-multiple
  description: uh
  default: {um: yeah}
  with:
    - files: [yeah]
      params: [{um2: yeah2}]
      mapping: {foo: asd}");
    assert_eq!(Ok(vec![BuildAction::BuildMultiplePages{default_params: params("{um: yeah}"), on: vec![
        BuildMultiplePages{
            mapping: params("{foo: asd}"),
            files: vec!["yeah".to_owned()],
            params: vec![params("{um2: yeah2}")],
            flatten: None,
        },
    ], descriptor: "uh".to_owned(), include_key: None, exclude_key: None}]), parsed);
}

#[test]
fn build_multiple_allows_no_files() {
    let parsed = layout_string_to_buildactions("- type: build-multiple
  description: uh
  default: {um: yeah}
  with:
    - params: [{um2: yeah2}]
      mapping: {foo: asd}");
    assert_eq!(Ok(vec![BuildAction::BuildMultiplePages{default_params: params("{um: yeah}"), on: vec![
        BuildMultiplePages{
            mapping: params("{foo: asd}"),
            files: vec![],
            params: vec![params("{um2: yeah2}")],
            flatten: None,
        },
    ], descriptor: "uh".to_owned(), include_key: None, exclude_key: None}]), parsed);
}

#[test]
fn build_multiple_allows_no_params() {
    let parsed = layout_string_to_buildactions("- type: build-multiple
  description: uh
  default: {um: yeah}
  with:
    - files: [yeah]
      mapping: {foo: asd}");
    assert_eq!(Ok(vec![BuildAction::BuildMultiplePages{default_params: params("{um: yeah}"), on: vec![
        BuildMultiplePages{
            mapping: params("{foo: asd}"),
            files: vec!["yeah".to_owned()],
            params: vec![],
            flatten: None,
        },
    ], descriptor: "uh".to_owned(), include_key: None, exclude_key: None}]), parsed);
}

#[test]
fn build_multiple_allows_no_mapping() {
    let parsed = layout_string_to_buildactions("- type: build-multiple
  description: uh
  default: {um: yeah}
  with:
    - files: [yeah]
      params: [{um2: yeah2}]");
    assert_eq!(Ok(vec![BuildAction::BuildMultiplePages{default_params: params("{um: yeah}"), on: vec![
        BuildMultiplePages{
            mapping: params("{}"),
            files: vec!["yeah".to_owned()],
            params: vec![params("{um2: yeah2}")],
            flatten: None,
        },
    ], descriptor: "uh".to_owned(), include_key: None, exclude_key: None}]), parsed);
}
