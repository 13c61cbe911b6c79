use rime::text::{ascii_string, join, string_of_chars};

#[test]
fn strings_join_in_order() {
    assert_eq!(join("ab", "cé"), "abcé");
    assert_eq!(join("", ""), "");
    assert_eq!(join("", "x"), "x");
}

#[test]
fn ascii_bytes_become_their_characters() {
    assert_eq!(ascii_string(b"#a0".to_vec()), "#a0");
    assert_eq!(ascii_string(Vec::new()), "");
}

#[test]
fn a_prefix_of_characters_becomes_a_string() {
    let chars: Vec<char> = "añb€".chars().collect();
    assert_eq!(string_of_chars(&chars, 4), "añb€");
    assert_eq!(string_of_chars(&chars, 2), "añ");
    assert_eq!(string_of_chars(&chars, 0), "");
}
