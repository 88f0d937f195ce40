use plugin_registry::admission::{admit_script, is_admissible_name, is_builtin, AdmissionError};
use plugin_registry::manifest::{list_line, serialize, Manifest, ParseError, SubCmdMeta};
use plugin_registry::registry::{is_sidecar_name, sidecar_name, Registry};

fn manifest(name: &str, version: &str, commands: &[(&str, &str)]) -> Manifest {
    Manifest {
        name: name.to_string(),
        description: format!("about {}", name),
        version: version.to_string(),
        commands: commands
            .iter()
            .map(|(n, d)| SubCmdMeta { name: n.to_string(), description: d.to_string() })
            .collect(),
    }
}

fn names(reg: &Registry) -> Vec<String> {
    reg.enumerate().into_iter().map(|m| m.name).collect()
}

#[test]
fn sidecar_names() {
    assert_eq!(sidecar_name(&"greet".to_string()), "greet.json");
    assert!(is_sidecar_name(&"greet.json".to_string()));
    assert!(is_sidecar_name(&".json".to_string()));
    assert!(!is_sidecar_name(&"greet".to_string()));
    assert!(!is_sidecar_name(&"json".to_string()));
    assert!(!is_sidecar_name(&"greet.jsonx".to_string()));
}

#[test]
fn put_then_enumerate_lists_it_once() {
    let mut reg = Registry::new();
    let m = manifest("greet", "1.0", &[("hello", "say hello")]);
    reg.put(&"greet".to_string(), &b"#!/bin/sh\n".to_vec(), &m);
    assert_eq!(reg.enumerate(), vec![m.clone()]);
    assert_eq!(reg.file(&"greet".to_string()), Some(b"#!/bin/sh\n".to_vec()));
    assert_eq!(reg.file(&"greet.json".to_string()), Some(serialize(&m)));
    reg.delete(&"greet".to_string());
    assert!(reg.enumerate().is_empty());
    assert!(reg.files().is_empty());
}

#[test]
fn delete_of_unknown_name_is_a_no_op() {
    let mut reg = Registry::new();
    reg.put(&"a".to_string(), &b"x".to_vec(), &manifest("a", "1", &[]));
    let before = reg.files();
    reg.delete(&"never".to_string());
    assert_eq!(reg.files(), before);
    assert_eq!(names(&reg), vec!["a".to_string()]);
}

#[test]
fn sidecar_without_script_is_not_listed() {
    let mut reg = Registry::new();
    reg.insert_file("ghost.json".to_string(), serialize(&manifest("ghost", "1", &[])));
    assert!(reg.enumerate().is_empty());
    reg.insert_file("ghost".to_string(), b"x".to_vec());
    assert_eq!(names(&reg), vec!["ghost".to_string()]);
}

#[test]
fn script_without_sidecar_is_not_listed() {
    let mut reg = Registry::new();
    reg.insert_file("lonely".to_string(), b"x".to_vec());
    assert!(reg.enumerate().is_empty());
}

#[test]
fn unparsable_or_misnamed_sidecars_are_skipped() {
    let mut reg = Registry::new();
    reg.put(&"good".to_string(), &b"g".to_vec(), &manifest("good", "1", &[]));
    reg.insert_file("bad".to_string(), b"b".to_vec());
    reg.insert_file("bad.json".to_string(), b"{oops".to_vec());
    reg.insert_file("other".to_string(), b"o".to_vec());
    reg.insert_file("other.json".to_string(), serialize(&manifest("good", "2", &[])));
    assert_eq!(reg.enumerate(), vec![manifest("good", "1", &[])]);
}

#[test]
fn insert_file_replaces_same_name() {
    let mut reg = Registry::new();
    reg.insert_file("f".to_string(), b"1".to_vec());
    reg.insert_file("f".to_string(), b"2".to_vec());
    assert_eq!(reg.files(), vec![("f".to_string(), b"2".to_vec())]);
}

#[test]
fn admission_of_valid_manifest_is_listed() {
    let mut reg = Registry::new();
    let m = manifest("tool", "0.1.0", &[("run", "Run the job")]);
    let r = admit_script(&mut reg, &b"script".to_vec(), &serialize(&m));
    assert_eq!(r, Ok(m.clone()));
    assert_eq!(reg.enumerate(), vec![m]);
    assert_eq!(reg.file(&"tool".to_string()), Some(b"script".to_vec()));
}

#[test]
fn admission_of_malformed_output_changes_nothing() {
    let mut reg = Registry::new();
    reg.put(&"keep".to_string(), &b"k".to_vec(), &manifest("keep", "1", &[]));
    let before = reg.files();
    let r = admit_script(&mut reg, &b"script".to_vec(), b"usage: tool {run|status}");
    assert_eq!(r, Err(AdmissionError::Manifest(ParseError::Syntax)));
    assert_eq!(reg.files(), before);
    let r = admit_script(&mut reg, &b"script".to_vec(), br#"{"name":"x"}"#);
    assert_eq!(r, Err(AdmissionError::Manifest(ParseError::Shape)));
    assert_eq!(reg.files(), before);
}

#[test]
fn admission_refuses_reserved_names() {
    let mut reg = Registry::new();
    for name in ["list", "add", "ensure-python", "a/b", "..", ".", "x.json"] {
        let r = admit_script(&mut reg, &b"s".to_vec(), &serialize(&manifest(name, "1", &[])));
        assert_eq!(r, Err(AdmissionError::Reserved));
    }
    assert!(reg.files().is_empty());
}

#[test]
fn builtin_and_admissible_names() {
    assert!(is_builtin(&"import".to_string()));
    assert!(!is_builtin(&"greet".to_string()));
    assert!(is_admissible_name(&"greet".to_string()));
    assert!(is_admissible_name(&"my-tool.py".to_string()));
    assert!(!is_admissible_name(&"export".to_string()));
}

#[test]
fn admission_keys_by_manifest_name_not_file() {
    let mut reg = Registry::new();
    let m = manifest("real", "1", &[]);
    admit_script(&mut reg, &b"s".to_vec(), &serialize(&m)).unwrap();
    assert_eq!(reg.file(&"real".to_string()), Some(b"s".to_vec()));
}

#[test]
fn readmission_overwrites_script_and_sidecar() {
    let mut reg = Registry::new();
    let old = manifest("tool", "1.0", &[("run", "old")]);
    let new = manifest("tool", "2.0", &[]);
    admit_script(&mut reg, &b"old script".to_vec(), &serialize(&old)).unwrap();
    admit_script(&mut reg, &b"new script".to_vec(), &serialize(&new)).unwrap();
    assert_eq!(reg.enumerate(), vec![new.clone()]);
    assert_eq!(reg.file(&"tool".to_string()), Some(b"new script".to_vec()));
    assert_eq!(reg.file(&"tool.json".to_string()), Some(serialize(&new)));
    assert_eq!(reg.files().len(), 2);
}

#[test]
fn greet_scenario_listing() {
    let mut reg = Registry::new();
    let m = manifest("greet", "1.0", &[("hello", "say hello")]);
    let m = Manifest { description: "says hi".to_string(), ..m };
    admit_script(&mut reg, &b"#!/bin/sh\necho hi\n".to_vec(), &serialize(&m)).unwrap();
    let lines: Vec<String> = reg.enumerate().iter().map(list_line).collect();
    assert_eq!(lines.len(), 1);
    assert!(lines[0].contains("greet (v1.0) says hi"));
}

#[test]
fn admissible_names_exclude_separators_and_dots() {
    assert!(!is_admissible_name(&"a\\b".to_string()));
    assert!(!is_admissible_name(&"a\0b".to_string()));
    assert!(!is_admissible_name(&".".to_string()));
    assert!(!is_admissible_name(&"..".to_string()));
    assert!(is_admissible_name(&"...".to_string()));
    assert!(is_admissible_name(&".hidden".to_string()));
}

#[test]
fn put_into_empty_directory_lists_exactly_that_manifest() {
    let mut reg = Registry::new();
    let m = manifest("solo", "3.2", &[("a", "first"), ("b", "second")]);
    reg.put(&"solo".to_string(), &serialize(&manifest("decoy", "1", &[])), &m);
    assert_eq!(reg.enumerate(), vec![m]);
}
