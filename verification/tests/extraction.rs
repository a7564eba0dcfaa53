use regex_tree::find_common_substrings;

fn strings(items: &[&str]) -> Vec<String> {
    items.iter().map(|s| s.to_string()).collect()
}

#[test]
fn test_find_common_substrings() {
    let inputs = vec![
        "highlighted text",
        "highlighted part",
        "highlighted section",
    ];
    let common_substrings = find_common_substrings(&inputs);
    assert!(common_substrings.contains(&"highlighted ".to_string()));
}

#[test]
fn single_sample_yields_all_its_substrings() {
    let found = find_common_substrings(&["abc"]);
    assert_eq!(found, strings(&["abc", "ab", "bc", "a", "b", "c"]));
}

#[test]
fn disjoint_samples_share_nothing() {
    let found = find_common_substrings(&["x", "y"]);
    assert!(found.is_empty());
}

#[test]
fn empty_first_sample_yields_nothing() {
    let found = find_common_substrings(&["", "abc", "abc"]);
    assert!(found.is_empty());
}

#[test]
fn empty_later_sample_yields_nothing() {
    let found = find_common_substrings(&["abc", ""]);
    assert!(found.is_empty());
}

#[test]
fn repeated_text_is_listed_once() {
    let found = find_common_substrings(&["aa"]);
    assert_eq!(found, strings(&["aa", "a"]));
    let found = find_common_substrings(&["abab", "bab"]);
    assert_eq!(found, strings(&["bab", "ab", "ba", "a", "b"]));
}

#[test]
fn equal_lengths_follow_first_occurrence_in_first_sample() {
    let found = find_common_substrings(&["xyz", "zyx"]);
    assert_eq!(found, strings(&["x", "y", "z"]));
    let found = find_common_substrings(&["zyx", "xyz"]);
    assert_eq!(found, strings(&["z", "y", "x"]));
}

#[test]
fn every_found_text_is_in_every_sample_and_nothing_is_missed() {
    let samples = ["highlighted text", "highlighted part", "highlighted section"];
    let found = find_common_substrings(&samples);
    for t in &found {
        assert!(!t.is_empty());
        for s in &samples {
            assert!(s.contains(t.as_str()));
        }
    }
    let first = samples[0];
    for i in 0..first.len() {
        for j in i + 1..=first.len() {
            let t = &first[i..j];
            if samples.iter().all(|s| s.contains(t)) {
                assert!(found.contains(&t.to_string()));
            }
        }
    }
    for pair in found.windows(2) {
        assert!(pair[0].len() >= pair[1].len());
    }
    for (a, x) in found.iter().enumerate() {
        for y in &found[a + 1..] {
            assert_ne!(x, y);
        }
    }
}

#[test]
fn lengths_count_code_points() {
    let found = find_common_substrings(&["é!", "xé"]);
    assert_eq!(found, strings(&["é"]));
}
