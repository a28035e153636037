use svdtools::patch::dict::update_dict;
use svdtools::patch::yaml::{yaml_eq, Yaml, YamlHash};
use svdtools::patch::yaml_ext::YamlError;

fn s(x: &str) -> Yaml {
    Yaml::String(x.to_string())
}

fn hash(pairs: Vec<(Yaml, Yaml)>) -> YamlHash {
    YamlHash { entries: pairs }
}

fn get<'a>(h: &'a YamlHash, k: &Yaml) -> Option<&'a Yaml> {
    h.entries.iter().find(|(key, _)| yaml_eq(key, k)).map(|(_, v)| v)
}

fn same(a: Option<&Yaml>, b: &Yaml) -> bool {
    match a {
        Some(x) => yaml_eq(x, b),
        None => false,
    }
}

fn keys(h: &YamlHash) -> Vec<String> {
    h.entries
        .iter()
        .map(|(k, _)| match k {
            Yaml::String(s) => s.clone(),
            Yaml::Array(a) => format!("{:?}", a),
            other => format!("{:?}", other),
        })
        .collect()
}

#[test]
fn parent_values_win_for_elements() {
    let mut parent = hash(vec![(s("GPIOA"), s("parent"))]);
    let child = hash(vec![(s("GPIOA"), s("child")), (s("GPIOB"), s("child b"))]);
    update_dict(&mut parent, &child).unwrap();
    assert!(same(get(&parent, &s("GPIOA")), &s("parent")));
    assert!(same(get(&parent, &s("GPIOB")), &s("child b")));
    // the child's second rule for GPIOA is kept under ["GPIOA", 0]
    let indexed = Yaml::Array(vec![s("GPIOA"), Yaml::Integer(0)]);
    assert!(same(get(&parent, &indexed), &s("child")));
    assert_eq!(parent.entries.len(), 3);
}

#[test]
fn rule_lists_are_joined() {
    let mut parent = hash(vec![(s("_delete"), Yaml::Array(vec![s("A")]))]);
    let child = hash(vec![(s("_delete"), Yaml::Array(vec![s("B"), s("C")]))]);
    update_dict(&mut parent, &child).unwrap();
    assert!(same(get(&parent, &s("_delete")), &Yaml::Array(vec![s("A"), s("B"), s("C")])));
}

#[test]
fn rule_string_joins_list_once() {
    let mut parent = hash(vec![(s("_strip"), Yaml::Array(vec![s("A_")]))]);
    let child = hash(vec![(s("_strip"), s("B_"))]);
    update_dict(&mut parent, &child).unwrap();
    assert!(same(get(&parent, &s("_strip")), &Yaml::Array(vec![s("A_"), s("B_")])));
    let again = hash(vec![(s("_strip"), s("A_"))]);
    update_dict(&mut parent, &again).unwrap();
    assert!(same(get(&parent, &s("_strip")), &Yaml::Array(vec![s("A_"), s("B_")])));
}

#[test]
fn string_rule_goes_in_front_of_list() {
    let mut parent = hash(vec![(s("_strip"), s("A_"))]);
    let child = hash(vec![(s("_strip"), Yaml::Array(vec![s("B_")]))]);
    update_dict(&mut parent, &child).unwrap();
    assert!(same(get(&parent, &s("_strip")), &Yaml::Array(vec![s("A_"), s("B_")])));
}

#[test]
fn nested_rule_mappings_are_merged() {
    let mut parent = hash(vec![(s("_modify"), Yaml::Hash(hash(vec![(s("A"), s("1"))])))]);
    let child = hash(vec![(s("_modify"), Yaml::Hash(hash(vec![(s("A"), s("2")), (s("B"), s("3"))])))]);
    update_dict(&mut parent, &child).unwrap();
    match get(&parent, &s("_modify")) {
        Some(Yaml::Hash(m)) => {
            assert!(same(get(m, &s("A")), &s("1")));
            assert!(same(get(m, &s("B")), &s("3")));
        }
        other => panic!("unexpected {:?}", other),
    }
}

#[test]
fn nested_rule_mapping_needs_mapping() {
    let mut parent = hash(vec![(s("_modify"), Yaml::Hash(hash(vec![])))]);
    let child = hash(vec![(s("_modify"), s("x"))]);
    let r = update_dict(&mut parent, &child);
    assert!(matches!(r, Err(YamlError::NotHash(_))));
}

#[test]
fn path_and_include_of_child_are_dropped() {
    let mut parent = hash(vec![(s("_path"), s("a.yaml"))]);
    let child = hash(vec![(s("_path"), s("b.yaml")), (s("_include"), s("c.yaml")), (s("X"), s("x"))]);
    update_dict(&mut parent, &child).unwrap();
    assert_eq!(keys(&parent), vec!["_path".to_string(), "X".to_string()]);
    assert!(same(get(&parent, &s("_path")), &s("a.yaml")));
}
