use plugin_registry::admission::admit_script;
use plugin_registry::bundle::{export_entries, import_candidates};
use plugin_registry::dispatch::{exit_code_of, forward_args, route, Route};
use plugin_registry::manifest::{serialize, Manifest, SubCmdMeta};
use plugin_registry::registry::Registry;
use plugin_registry::tree::{build_tree, plugin_node, PluginNode};

fn strs(v: &[&str]) -> Vec<String> {
    v.iter().map(|s| s.to_string()).collect()
}

fn manifest(name: &str, commands: &[(&str, &str)]) -> Manifest {
    Manifest {
        name: name.to_string(),
        description: format!("{} plugin", name),
        version: "1.0".to_string(),
        commands: commands
            .iter()
            .map(|(n, d)| SubCmdMeta { name: n.to_string(), description: d.to_string() })
            .collect(),
    }
}

#[test]
fn subcommand_comes_first_then_tokens_verbatim() {
    let argv = forward_args(Some("run".to_string()), strs(&["--x", "1"]));
    assert_eq!(argv, strs(&["run", "--x", "1"]));
}

#[test]
fn without_subcommand_tokens_pass_unchanged() {
    assert_eq!(forward_args(None, strs(&["a", "b"])), strs(&["a", "b"]));
    assert!(forward_args(None, vec![]).is_empty());
}

#[test]
fn exit_code_defaults_to_one() {
    assert_eq!(exit_code_of(Some(0)), 0);
    assert_eq!(exit_code_of(Some(42)), 42);
    assert_eq!(exit_code_of(None), 1);
}

#[test]
fn route_checks_the_registry_at_dispatch_time() {
    let mut reg = Registry::new();
    reg.put(&"greet".to_string(), &b"s".to_vec(), &manifest("greet", &[("hello", "h")]));
    assert_eq!(route(&reg, &"list".to_string(), None, vec![]), Route::Builtin);
    assert_eq!(route(&reg, &"nope".to_string(), None, vec![]), Route::Missing);
    assert_eq!(
        route(&reg, &"greet".to_string(), Some("hello".to_string()), strs(&["--loud"])),
        Route::Run(strs(&["hello", "--loud"]))
    );
    reg.delete(&"greet".to_string());
    assert_eq!(route(&reg, &"greet".to_string(), None, vec![]), Route::Missing);
}

#[test]
fn plugin_nodes_follow_declared_subcommands() {
    let with = plugin_node(&manifest("a", &[("run", "Run"), ("status", "Status")]));
    assert_eq!(with.name, "a");
    assert_eq!(with.about, "a plugin");
    assert!(!with.takes_trailing);
    assert_eq!(with.subcommands.len(), 2);
    assert_eq!(with.subcommands[1].name, "status");
    let without = plugin_node(&manifest("b", &[]));
    assert!(without.takes_trailing);
    assert!(without.subcommands.is_empty());
}

#[test]
fn tree_skips_builtins_and_last_duplicate_wins() {
    let mut late = manifest("dup", &[]);
    late.description = "late".to_string();
    let ms = vec![manifest("dup", &[("x", "y")]), manifest("list", &[]), manifest("solo", &[]), late];
    let t: Vec<PluginNode> = build_tree(&ms);
    let names: Vec<&str> = t.iter().map(|n| n.name.as_str()).collect();
    assert_eq!(names, vec!["solo", "dup"]);
    assert_eq!(t[1].about, "late");
    assert!(build_tree(&vec![]).is_empty());
}

#[test]
fn export_then_import_reproduces_plugins() {
    let mut reg = Registry::new();
    let ms = vec![manifest("one", &[("run", "r")]), manifest("two", &[])];
    for (i, m) in ms.iter().enumerate() {
        let script = format!("script {}", i).into_bytes();
        admit_script(&mut reg, &script, &serialize(m)).unwrap();
    }
    let archive = export_entries(&reg);
    assert_eq!(archive.len(), 4);
    let candidates = import_candidates(&archive);
    assert_eq!(candidates.len(), 2);
    let mut fresh = Registry::new();
    for (name, script) in &candidates {
        let m = ms.iter().find(|m| &m.name == name).unwrap();
        admit_script(&mut fresh, script, &serialize(m)).unwrap();
    }
    let mut a: Vec<String> = reg.enumerate().into_iter().map(|m| m.name).collect();
    let mut b: Vec<String> = fresh.enumerate().into_iter().map(|m| m.name).collect();
    a.sort();
    b.sort();
    assert_eq!(a, b);
    assert_eq!(fresh.file(&"one".to_string()), reg.file(&"one".to_string()));
}

#[test]
fn import_ignores_sidecars_in_archive() {
    let entries = vec![
        ("x.json".to_string(), b"{}".to_vec()),
        ("x".to_string(), b"s".to_vec()),
        ("readme.json".to_string(), b"[]".to_vec()),
    ];
    assert_eq!(import_candidates(&entries), vec![("x".to_string(), b"s".to_vec())]);
}

#[test]
fn greet_scenario_dispatch() {
    let mut reg = Registry::new();
    let mut m = manifest("greet", &[("hello", "say hello")]);
    m.description = "says hi".to_string();
    admit_script(&mut reg, &b"#!/bin/sh\n".to_vec(), &serialize(&m)).unwrap();
    let tree = build_tree(&reg.enumerate());
    assert_eq!(tree.len(), 1);
    assert_eq!(tree[0].subcommands[0].name, "hello");
    let r = route(&reg, &"greet".to_string(), Some("hello".to_string()), strs(&["--loud"]));
    assert_eq!(r, Route::Run(strs(&["hello", "--loud"])));
    assert_eq!(exit_code_of(Some(3)), 3);
}
