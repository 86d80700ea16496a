use structmeta::helpers::{distance, find_similar_name, is_snake_case, str_chars};

#[test]
fn test_is_near() {
    fn check(s0: &str, s1: &str, e: Option<usize>) {
        let c0: Vec<char> = s0.chars().collect();
        let c1: Vec<char> = s1.chars().collect();
        assert_eq!(distance(&c0, &c1), e, "{s0} , {s1}")
    }
    check("a", "a", Some(0));
    check("a", "b", Some(1));
    check("a", "ab", Some(1));
    check("ab", "a", Some(1));
    check("a", "aa", Some(1));
    check("ab", "ba", Some(2));
}

#[test]
fn test_distance_far() {
    let c0: Vec<char> = "a".chars().collect();
    let c1: Vec<char> = "abc".chars().collect();
    assert_eq!(distance(&c0, &c1), None);
    let c2: Vec<char> = "abc".chars().collect();
    let c3: Vec<char> = "xyz".chars().collect();
    assert_eq!(distance(&c2, &c3), None);
}

#[test]
fn test_is_snake_case() {
    assert!(is_snake_case("abc_d0"));
    assert!(is_snake_case(""));
    assert!(!is_snake_case("Abc"));
    assert!(!is_snake_case("a-b"));
}

#[test]
fn test_str_chars() {
    assert_eq!(str_chars("ab"), vec!['a', 'b']);
}

#[test]
fn test_find_similar_name() {
    let names = vec!["alpha".to_string(), "beta".to_string()];
    assert_eq!(find_similar_name(&names, "alpho"), Some("alpha".to_string()));
    assert_eq!(find_similar_name(&names, "zzzzz"), None);
    // two different names at the same distance suppress the suggestion
    let names2 = vec!["aax".to_string(), "aay".to_string()];
    assert_eq!(find_similar_name(&names2, "aaz"), None);
}
