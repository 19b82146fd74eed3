use keychord::text::{contains_comma_space, str_eq, str_le, strip_prefix};

#[test]
fn strings_are_compared_character_by_character() {
    assert!(str_eq("", ""));
    assert!(str_eq("L1", "L1"));
    assert!(!str_eq("L1", "L2"));
    assert!(!str_eq("L1", "L"));
    assert!(!str_eq("", "L"));
    assert!(str_eq("añb", "añb"));
    assert!(!str_eq("añb", "anb"));
}

#[test]
fn dictionary_order() {
    assert!(str_le("", ""));
    assert!(str_le("", "a"));
    assert!(!str_le("a", ""));
    assert!(str_le("a", "a"));
    assert!(str_le("a", "b"));
    assert!(!str_le("b", "a"));
    assert!(str_le("L1", "L10"));
    assert!(!str_le("L10", "L1"));
    assert!(str_le("L1", "R1"));
    assert!(str_le("L9", "La"));
    assert!(str_le("Z", "a"));
    assert!(str_le("abc", "abd"));
    assert!(!str_le("abd", "abc"));
    // By code point, as the standard order of strings.
    assert!(str_le("z", "é"));
    assert!(!str_le("é", "z"));
    assert!(str_le("é", "\u{10000}"));
    assert!(!str_le("\u{10000}", "\u{ffff}"));
    for (a, b) in [("", "x"), ("L1", "R1"), ("é", "z"), ("ab", "abc"), ("q", "q")] {
        assert_eq!(str_le(a, b), a <= b);
        assert_eq!(str_le(b, a), b <= a);
    }
}

#[test]
fn prefixes_are_stripped_once() {
    assert_eq!(strip_prefix("KEY_A", "KEY_"), "A");
    assert_eq!(strip_prefix("KEY_A", ""), "KEY_A");
    assert_eq!(strip_prefix("", "KEY_"), "");
    assert_eq!(strip_prefix("KEY_", "KEY_"), "");
    assert_eq!(strip_prefix("KE", "KEY_"), "KE");
    assert_eq!(strip_prefix("key_a", "KEY_"), "key_a");
    assert_eq!(strip_prefix("ééa", "éé"), "a");
}

#[test]
fn comma_and_space() {
    assert!(!contains_comma_space(""));
    assert!(!contains_comma_space(","));
    assert!(!contains_comma_space(" ,"));
    assert!(!contains_comma_space("a,b c"));
    assert!(contains_comma_space(", "));
    assert!(contains_comma_space("a, b"));
    assert!(contains_comma_space("a,, b"));
    assert!(contains_comma_space("a,b, "));
    assert!(!contains_comma_space("a ,b,"));
    assert!(contains_comma_space("é, é"));
}
