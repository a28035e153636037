use svdtools::patch::includes::{already_included, includers};
use svdtools::patch::yaml::{Yaml, YamlHash};

fn s(x: &str) -> Yaml {
    Yaml::String(x.to_string())
}

fn h(pairs: Vec<(&str, Yaml)>) -> YamlHash {
    YamlHash { entries: pairs.into_iter().map(|(k, v)| (s(k), v)).collect() }
}

#[test]
fn nested_blocks_with_includes_are_found() {
    let root = h(vec![
        ("_svd", s("x.svd")),
        ("GPIOA", Yaml::Hash(h(vec![("_include", s("gpio.yaml"))]))),
        ("_modify", Yaml::Hash(h(vec![("_include", s("no.yaml"))]))),
        ("RCC", Yaml::Hash(h(vec![("CR", s("x"))]))),
        ("TIM1", Yaml::Hash(h(vec![("_include", Yaml::Array(vec![s("a.yaml")]))]))),
    ]);
    assert_eq!(includers(&root), vec![1, 4]);
}

#[test]
fn included_files_are_recognised() {
    let seen = vec!["/a/b.yaml".to_string(), "/a/c.yaml".to_string()];
    assert!(already_included(&seen, "/a/c.yaml"));
    assert!(!already_included(&seen, "/a/d.yaml"));
}
