use sn0int::text::{chars_of, contains, less, same_text, string_of};

#[test]
fn characters_of_a_text() {
    assert_eq!(chars_of("aé日"), vec!['a', 'é', '日']);
    assert_eq!(chars_of(""), Vec::<char>::new());
    let cs = chars_of("hello world");
    assert_eq!(string_of(&cs, 6, 11), "world");
    assert_eq!(string_of(&cs, 3, 3), "");
    assert_eq!(string_of(&chars_of("aé日b"), 1, 3), "é日");
}

#[test]
fn parts_of_a_text() {
    assert!(contains("example.com", "ample"));
    assert!(contains("example.com", "example.com"));
    assert!(contains("example.com", ""));
    assert!(contains("", ""));
    assert!(contains("example.com", ".com"));
    assert!(contains("aab", "ab"));
    assert!(!contains("example.com", "exemple"));
    assert!(!contains("com", "example.com"));
    assert!(!contains("", "a"));
    assert!(!contains("abc", "ac"));
    assert!(!contains("Example", "example"));
}

#[test]
fn dictionary_order() {
    assert!(less("a", "b"));
    assert!(less("", "a"));
    assert!(less("ab", "abc"));
    assert!(less("abc", "abd"));
    assert!(less("Z", "a"));
    assert!(less("a", "é"));
    assert!(!less("b", "a"));
    assert!(!less("a", "a"));
    assert!(!less("", ""));
    assert!(!less("abc", "ab"));
    assert!(!less("b", "abc"));
    let mut words = vec!["dns-zeta", "dns", "whois", "dns-alpha", "", "Dns"];
    let mut by_less = words.clone();
    by_less.sort_by(|a, b| {
        if less(a, b) {
            std::cmp::Ordering::Less
        } else if less(b, a) {
            std::cmp::Ordering::Greater
        } else {
            std::cmp::Ordering::Equal
        }
    });
    words.sort();
    assert_eq!(by_less, words);
}

#[test]
fn same_texts() {
    assert!(same_text(&"abc".to_string(), "abc"));
    assert!(!same_text(&"abc".to_string(), "abd"));
    assert!(!same_text(&"abc".to_string(), "ab"));
}
