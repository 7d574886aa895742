use weave_test::data_sets::DataSets;
use weave_test::environment::{Environment, HashMapExt};

fn env_of(pairs: &[(&str, &str)]) -> Environment {
    let mut env = Environment::new();
    for (k, v) in pairs {
        env.insert(k.to_string(), v.to_string());
    }
    env
}

fn value(env: &Environment, key: &str) -> Option<String> {
    env.get(&key.to_string()).cloned()
}

#[test]
fn new_environment_is_empty() {
    let env = Environment::new();
    assert_eq!(env.len(), 0);
    assert_eq!(value(&env, "A"), None);
}

#[test]
fn insert_replaces_the_value_of_a_key() {
    let mut env = env_of(&[("A", "1"), ("B", "2")]);
    env.insert("A".to_string(), "3".to_string());
    assert_eq!(env.len(), 2);
    assert_eq!(value(&env, "A"), Some("3".to_string()));
    assert_eq!(value(&env, "B"), Some("2".to_string()));
    assert_eq!(env.key_at(0), "A");
    assert_eq!(env.value_at(0), "3");
    assert!(env.contains_key(&"B".to_string()));
    assert!(!env.contains_key(&"C".to_string()));
}

#[test]
fn append_overwrites_and_keeps() {
    let mut env = env_of(&[("A", "1"), ("B", "2")]);
    let other = env_of(&[("B", "20"), ("C", "30")]);
    env.append(&other);
    assert_eq!(value(&env, "A"), Some("1".to_string()));
    assert_eq!(value(&env, "B"), Some("20".to_string()));
    assert_eq!(value(&env, "C"), Some("30".to_string()));
    assert_eq!(env.len(), 3);
    assert_eq!(value(&other, "B"), Some("20".to_string()));
    assert_eq!(other.len(), 2);
}

#[test]
fn try_append_with_nothing_changes_nothing() {
    let mut env = env_of(&[("A", "1")]);
    env.try_append(&None);
    assert_eq!(env.len(), 1);
    assert_eq!(value(&env, "A"), Some("1".to_string()));
    env.try_append(&Some(env_of(&[("A", "2")])));
    assert_eq!(value(&env, "A"), Some("2".to_string()));
}

#[test]
fn compose_with_no_layers_is_empty() {
    let env = Environment::compose(&None, &None, &None, &None);
    assert_eq!(env.len(), 0);
}

#[test]
fn compose_prefers_the_highest_layer() {
    let global = Some(env_of(&[("K", "global"), ("G", "g"), ("X", "global")]));
    let suite = Some(env_of(&[("K", "suite"), ("S", "s"), ("X", "suite")]));
    let step = Some(env_of(&[("K", "step"), ("T", "t")]));
    let row = Some(env_of(&[("K", "row"), ("R", "r")]));
    let env = Environment::compose(&global, &suite, &step, &row);
    assert_eq!(value(&env, "K"), Some("row".to_string()));
    assert_eq!(value(&env, "X"), Some("suite".to_string()));
    assert_eq!(value(&env, "G"), Some("g".to_string()));
    assert_eq!(value(&env, "S"), Some("s".to_string()));
    assert_eq!(value(&env, "T"), Some("t".to_string()));
    assert_eq!(value(&env, "R"), Some("r".to_string()));
    assert_eq!(env.len(), 6);
    let without_row = Environment::compose(&global, &suite, &step, &None);
    assert_eq!(value(&without_row, "K"), Some("step".to_string()));
    assert_eq!(value(&without_row, "R"), None);
    assert_eq!(value(global.as_ref().unwrap(), "K"), Some("global".to_string()));
}

#[test]
fn duplicate_is_independent() {
    let env = env_of(&[("A", "1")]);
    let mut copy = env.duplicate();
    copy.insert("A".to_string(), "2".to_string());
    assert_eq!(value(&env, "A"), Some("1".to_string()));
    assert_eq!(value(&copy, "A"), Some("2".to_string()));
}

#[test]
fn data_sets_resolve_prefers_the_suite() {
    let mut from_values = DataSets::new();
    from_values.insert("shared".to_string(), vec![env_of(&[("V", "values")]), env_of(&[("V", "v2")])]);
    from_values.insert("only_values".to_string(), vec![env_of(&[("O", "1")])]);
    let mut from_suite = DataSets::new();
    from_suite.insert("shared".to_string(), vec![env_of(&[("V", "suite")])]);
    from_suite.insert("only_suite".to_string(), vec![]);
    let sets = DataSets::resolve(&Some(from_values), &Some(from_suite));
    assert_eq!(sets.len(), 3);
    let shared = sets.get(&"shared".to_string()).unwrap();
    assert_eq!(shared.len(), 1);
    assert_eq!(value(&shared[0], "V"), Some("suite".to_string()));
    assert_eq!(sets.get(&"only_values".to_string()).unwrap().len(), 1);
    assert_eq!(sets.get(&"only_suite".to_string()).unwrap().len(), 0);
    assert!(sets.get(&"absent".to_string()).is_none());
    assert_eq!(sets.name_at(0), "shared");
    assert_eq!(sets.rows_at(0).len(), 1);
}

#[test]
fn data_sets_resolve_without_sources_is_empty() {
    let sets = DataSets::resolve(&None, &None);
    assert_eq!(sets.len(), 0);
}
