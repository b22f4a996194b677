use llm_functions::manifest::{parse_manifest, shard_paths, unique_shards, ManifestError};

#[test]
fn shared_shard_is_listed_once() {
    let r = parse_manifest(
        r#"{"weight_map": {"a.weight": "shard1.safetensors", "b.weight": "shard1.safetensors"}}"#,
    )
    .unwrap();
    assert_eq!(r, vec!["shard1.safetensors".to_string()]);
}

#[test]
fn two_shards_are_both_listed() {
    let mut r = parse_manifest(
        r#"{"weight_map": {"a": "s1", "b": "s2", "c": "s1", "d": 4}}"#,
    )
    .unwrap();
    r.sort();
    assert_eq!(r, vec!["s1".to_string(), "s2".to_string()]);
}

#[test]
fn manifest_errors() {
    assert_eq!(parse_manifest("not json"), Err(ManifestError::Parse));
    assert_eq!(parse_manifest(r#"{"metadata": {}}"#), Err(ManifestError::MissingWeightMap));
    assert_eq!(parse_manifest(r#"{"weight_map": ["a"]}"#), Err(ManifestError::WeightMapNotObject));
}

#[test]
fn unique_keeps_first_occurrence_order() {
    let names = vec!["b".to_string(), "a".to_string(), "b".to_string(), "c".to_string(), "a".to_string()];
    assert_eq!(unique_shards(&names), vec!["b".to_string(), "a".to_string(), "c".to_string()]);
    assert_eq!(unique_shards(&vec![]), Vec::<String>::new());
}

#[test]
fn paths_under_directory() {
    let p = shard_paths("/models/m", &vec!["s1".to_string(), "s2".to_string()]);
    assert_eq!(p, vec!["/models/m/s1".to_string(), "/models/m/s2".to_string()]);
}

#[test]
fn string_values_only() {
    let values = vec![
        Some("s2".to_string()),
        None,
        Some("s1".to_string()),
        Some("s2".to_string()),
    ];
    assert_eq!(
        llm_functions::manifest::shards_from_values(&values),
        vec!["s2".to_string(), "s1".to_string()]
    );
    assert_eq!(llm_functions::manifest::shards_from_values(&vec![None]), Vec::<String>::new());
}

#[test]
fn contains_name_checks_membership() {
    let names = vec!["a".to_string(), "b".to_string()];
    assert!(llm_functions::manifest::contains_name(&names, &"b".to_string()));
    assert!(!llm_functions::manifest::contains_name(&names, &"c".to_string()));
}
