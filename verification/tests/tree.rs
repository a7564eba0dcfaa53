use regex_tree::{build_tree, generate_regex_tree, Node};

fn patterns(nodes: &[Node]) -> Vec<String> {
    nodes.iter().map(|n| n.pattern.clone()).collect()
}

fn same_tree(a: &Node, b: &Node) -> bool {
    a.pattern == b.pattern
        && a.children.len() == b.children.len()
        && a.children.iter().zip(b.children.iter()).all(|(x, y)| same_tree(x, y))
}

#[test]
fn test_generate_regex_tree() {
    let inputs = vec![
        "highlighted text",
        "highlighted part",
        "highlighted section",
    ];
    let tree = generate_regex_tree(&inputs);
    assert_eq!(tree.pattern, ".*");
    assert!(tree
        .children
        .iter()
        .any(|n| n.pattern == ".*highlighted .*"));
}

#[test]
fn single_sample_tree_has_a_child_for_each_substring() {
    let tree = generate_regex_tree(&["abc"]);
    assert_eq!(tree.pattern, ".*");
    assert_eq!(tree.children.len(), 6);
    assert_eq!(
        patterns(&tree.children),
        vec![".*abc.*", ".*ab.*", ".*bc.*", ".*a.*", ".*b.*", ".*c.*"]
    );
    for child in &tree.children {
        assert!(child.children.is_empty());
    }
}

#[test]
fn disjoint_samples_give_a_bare_root() {
    let tree = generate_regex_tree(&["x", "y"]);
    assert_eq!(tree.pattern, ".*");
    assert!(tree.children.is_empty());
}

#[test]
fn no_samples_give_an_empty_pattern() {
    let tree = generate_regex_tree(&[]);
    assert_eq!(tree.pattern, "");
    assert!(tree.children.is_empty());
}

#[test]
fn metacharacters_are_escaped_in_patterns() {
    let tree = generate_regex_tree(&["a.b", "xa.b", "a.by"]);
    assert_eq!(tree.children[0].pattern, ".*a\\.b.*");
    let matcher = regex::Regex::new(&tree.children[0].pattern).unwrap();
    assert!(matcher.is_match("a.b"));
    assert!(!matcher.is_match("aXb"));
}

#[test]
fn every_metacharacter_gets_a_backslash() {
    let text = "\\.+*?()|[]{}^$#&-~";
    let tree = build_tree(&[text.to_string()]);
    assert_eq!(
        tree.children[0].pattern,
        ".*\\\\\\.\\+\\*\\?\\(\\)\\|\\[\\]\\{\\}\\^\\$\\#\\&\\-\\~.*"
    );
    let matcher = regex::Regex::new(&tree.children[0].pattern).unwrap();
    assert!(matcher.is_match(text));
    assert!(!matcher.is_match("\\x+*?()|[]{}^$#&-~"));
}

#[test]
fn plain_characters_are_left_alone() {
    let tree = build_tree(&["a b%/!\"e_9".to_string()]);
    assert_eq!(tree.children[0].pattern, ".*a b%/!\"e_9.*");
}

#[test]
fn empty_substring_list_gives_a_bare_root() {
    let tree = build_tree(&[]);
    assert_eq!(tree.pattern, ".*");
    assert!(tree.children.is_empty());
}

#[test]
fn later_pattern_that_holds_an_earlier_one_goes_under_it() {
    let tree = build_tree(&["a".to_string(), "b".to_string(), "a".to_string()]);
    assert_eq!(patterns(&tree.children), vec![".*a.*", ".*b.*", ".*a.*"]);
    assert_eq!(patterns(&tree.children[0].children), vec![".*a.*"]);
    assert!(tree.children[0].children[0].children.is_empty());
    assert!(tree.children[1].children.is_empty());
    assert!(tree.children[2].children.is_empty());
}

#[test]
fn containment_is_tested_on_wrapped_patterns() {
    let tree = build_tree(&["ab".to_string(), "a".to_string(), "b".to_string()]);
    assert_eq!(tree.children.len(), 3);
    for child in &tree.children {
        assert!(child.children.is_empty());
    }
}

#[test]
fn building_twice_gives_the_same_tree() {
    let subs: Vec<String> = ["abc", "ab", "bc", "a", "b", "c", "a"]
        .iter()
        .map(|s| s.to_string())
        .collect();
    let one = build_tree(&subs);
    let two = build_tree(&subs);
    assert!(same_tree(&one, &two));
    assert!(same_tree(&one, &one.clone()));
}

#[test]
fn root_has_one_child_for_each_common_substring() {
    let samples = ["highlighted text", "highlighted part", "highlighted section"];
    let found = regex_tree::find_common_substrings(&samples);
    let tree = generate_regex_tree(&samples);
    assert_eq!(tree.pattern, ".*");
    assert_eq!(tree.children.len(), found.len());
    assert_eq!(tree.children[0].pattern, ".*highlighted .*");
}

#[test]
fn wrap_puts_escaped_text_between_wildcards() {
    assert_eq!(regex_tree::wrap(""), ".*.*");
    assert_eq!(regex_tree::wrap("a+b"), ".*a\\+b.*");
    assert_eq!(regex_tree::wrap("né"), ".*né.*");
}

#[test]
fn tree_of_shared_substrings_is_flat() {
    let tree = generate_regex_tree(&["a.*b.*", ".*a.*b.*c"]);
    assert_eq!(tree.children[0].pattern, ".*a\\.\\*b\\.\\*.*");
    assert_eq!(tree.children.len(), 18);
    for child in &tree.children {
        assert!(child.children.is_empty());
    }
}
