use std::collections::HashMap;

use pyroscope_rbspy::tags::{merge_tag_entries, merge_tags_with_app_name};

#[test]
fn merge_tags_with_app_name_with_tags() {
    let mut tags = HashMap::new();
    tags.insert("env".to_string(), "staging".to_string());
    tags.insert("region".to_string(), "us-west-1".to_string());
    tags.insert("__name__".to_string(), "reserved".to_string());
    assert_eq!(
        merge_tags_with_app_name("my.awesome.app.cpu".to_string(), tags).unwrap(),
        "my.awesome.app.cpu{env=staging,region=us-west-1}".to_string()
    )
}

#[test]
fn merge_tags_with_app_name_without_tags() {
    assert_eq!(
        merge_tags_with_app_name("my.awesome.app.cpu".to_string(), HashMap::default()).unwrap(),
        "my.awesome.app.cpu".to_string()
    )
}

#[test]
fn merge_sorts_on_whole_label_not_key() {
    // "a=z" < "ab=c" because '=' sorts before 'b'.
    let entries = vec![
        ("ab".to_string(), "c".to_string()),
        ("a".to_string(), "z".to_string()),
    ];
    assert_eq!(merge_tag_entries("app".to_string(), entries), "app{a=z,ab=c}");
}

#[test]
fn merge_only_reserved_key_gives_bare_name() {
    let entries = vec![("__name__".to_string(), "x".to_string())];
    assert_eq!(merge_tag_entries("svc".to_string(), entries), "svc");
}

#[test]
fn merge_is_independent_of_entry_order() {
    let a = vec![
        ("zone".to_string(), "1".to_string()),
        ("app".to_string(), "web".to_string()),
        ("env".to_string(), "prod".to_string()),
    ];
    let b = vec![
        ("env".to_string(), "prod".to_string()),
        ("zone".to_string(), "1".to_string()),
        ("app".to_string(), "web".to_string()),
    ];
    let ra = merge_tag_entries("n".to_string(), a);
    let rb = merge_tag_entries("n".to_string(), b);
    assert_eq!(ra, "n{app=web,env=prod,zone=1}");
    assert_eq!(ra, rb);
}

#[test]
fn merge_with_empty_value() {
    let mut tags = HashMap::new();
    tags.insert("k".to_string(), "".to_string());
    assert_eq!(merge_tags_with_app_name("a".to_string(), tags).unwrap(), "a{k=}");
}
