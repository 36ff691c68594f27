use federation_composition::text::{split_words, starts_with, trim_field_set_marks, white_space};

#[test]
fn white_space_is_the_unicode_property() {
    for u in 0..=0x10ffffu32 {
        if let Some(c) = char::from_u32(u) {
            assert_eq!(white_space(c), c.is_whitespace(), "{:?}", c);
        }
    }
}

#[test]
fn words_are_split_as_std_splits_them() {
    let texts = [
        "",
        " ",
        "id",
        " id",
        "id ",
        "id name",
        "  id \t\n name  ",
        "user { id }",
        "a\u{a0}b\u{3000}c\u{200b}d",
        "\u{1f600} \u{e9}t\u{e9}",
        "a\u{85}b\u{2028}\u{2029}c",
    ];
    for text in texts {
        let expected: Vec<&str> = text.split_whitespace().collect();
        assert_eq!(split_words(text), expected, "{:?}", text);
    }
}

#[test]
fn words_of_a_field_set() {
    assert_eq!(split_words(" id  user { name }"), vec!["id", "user", "{", "name", "}"]);
}

#[test]
fn a_text_without_white_space_is_one_word() {
    assert_eq!(split_words("organization{id}"), vec!["organization{id}"]);
}

#[test]
fn white_space_parts_words() {
    let mut expected = split_words("a b");
    expected.extend(split_words(" c"));
    assert_eq!(split_words("a b\t c"), expected);
}

#[test]
fn marks_are_trimmed_as_std_trims_them() {
    let texts = ["", "{", "}{\"", "id", "{id}", "\"id\"", "{{id", "id}\"", "i{d", "{i}d}", "\u{e9}}"];
    for text in texts {
        let expected = text.trim_matches(|c| c == '{' || c == '}' || c == '"');
        assert_eq!(trim_field_set_marks(text), expected, "{:?}", text);
    }
}

#[test]
fn only_surrounding_marks_are_trimmed() {
    assert_eq!(trim_field_set_marks("{\"user{id\"}"), "user{id");
}

#[test]
fn starts_with_agrees_with_std() {
    let texts = ["", "h", "http:/", "http://", "https://a", "HTTP://a", "_", "_Entity", "\u{e9}_"];
    for text in texts {
        for prefix in ["", "http://", "https://", "_", "\u{e9}", "link__"] {
            assert_eq!(starts_with(text, prefix), text.starts_with(prefix), "{:?} {:?}", text, prefix);
        }
    }
}
