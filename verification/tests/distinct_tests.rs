use web_archive::distinct::{contains_pair, contains_string, distinct_pairs, distinct_strings};

#[test]
fn contains_string_compares_by_content() {
    let items = vec!["a".to_string(), "b".to_string()];
    assert!(contains_string(&items, &"b".to_string()));
    assert!(!contains_string(&items, &"c".to_string()));
    assert!(!contains_string(&Vec::new(), &"a".to_string()));
}

#[test]
fn contains_pair_compares_both_parts() {
    let items = vec![("a".to_string(), "1".to_string()), ("b".to_string(), "2".to_string())];
    assert!(contains_pair(&items, &("b".to_string(), "2".to_string())));
    assert!(!contains_pair(&items, &("b".to_string(), "1".to_string())));
    assert!(!contains_pair(&items, &("a".to_string(), "2".to_string())));
}

#[test]
fn distinct_strings_keeps_first_occurrences() {
    let items: Vec<String> = ["b", "a", "b", "c", "a"].iter().map(|s| s.to_string()).collect();
    assert_eq!(distinct_strings(&items), vec!["b", "a", "c"]);
    assert!(distinct_strings(&Vec::new()).is_empty());
}

#[test]
fn distinct_pairs_keeps_first_occurrences() {
    let pair = |a: &str, b: &str| (a.to_string(), b.to_string());
    let items = vec![pair("a", "1"), pair("a", "2"), pair("a", "1"), pair("b", "1")];
    assert_eq!(distinct_pairs(&items), vec![pair("a", "1"), pair("a", "2"), pair("b", "1")]);
}
