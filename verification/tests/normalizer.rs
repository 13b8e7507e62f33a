use tts_pipeline::normalizer::{has_speakable_content, is_unspoken, parse_instruction};

fn parsed(content: &str) -> (Option<String>, String) {
    parse_instruction(content)
}

#[test]
fn backslash_form_takes_one_word() {
    assert_eq!(
        parsed("\\whisper good night everyone"),
        (Some("whisper".to_string()), "good night everyone".to_string())
    );
    assert_eq!(parsed("\\sad   oh no  "), (Some("sad".to_string()), "oh no".to_string()));
}

#[test]
fn bracket_form_takes_a_phrase() {
    assert_eq!(
        parsed("[in a calm voice] good night"),
        (Some("in a calm voice".to_string()), "good night".to_string())
    );
    assert_eq!(parsed("[ loud ]hey"), (Some("loud".to_string()), "hey".to_string()));
    assert_eq!(
        parsed("[a] b ] c"),
        (Some("a".to_string()), "b ] c".to_string())
    );
}

#[test]
fn marker_without_text_is_no_marker() {
    for content in ["\\whisper", "\\whisper ", "\\whisper    ", "[calm]", "[calm]   ", "\\ text"] {
        assert_eq!(parsed(content), (None, content.to_string()));
    }
}

#[test]
fn malformed_markers_leave_the_text_untouched() {
    for content in [
        "",
        " ",
        "\\",
        "[",
        "[]",
        "[] text",
        "[  ] text",
        "[unclosed text",
        "] text",
        " [calm] text",
        " \\whisper text",
        "plain text",
        "text [calm] more",
    ] {
        assert_eq!(parsed(content), (None, content.to_string()));
    }
}

#[test]
fn backslash_form_comes_first() {
    // A backslash marker whose word is a bracket phrase is still one word.
    assert_eq!(parsed("\\[a] b"), (Some("[a]".to_string()), "b".to_string()));
    // The instruction ends at the first space, whatever whitespace follows.
    assert_eq!(parsed("\\a\tb c"), (Some("a\tb".to_string()), "c".to_string()));
}

#[test]
fn instruction_keeps_its_case_and_characters() {
    assert_eq!(
        parsed("[Très CALME] Bonne nuit"),
        (Some("Très CALME".to_string()), "Bonne nuit".to_string())
    );
}

#[test]
fn punctuation_alone_is_not_spoken() {
    for content in ["", " ", "...", "?!", " ?.)'!\":", "\" ' )"] {
        assert!(!has_speakable_content(content));
    }
    for content in ["a", " a ", "...a", "(", "-", "1", "?,"] {
        assert!(has_speakable_content(content));
    }
    for c in " ?.)'!\":".chars() {
        assert!(is_unspoken(c));
    }
    for c in "a(,;-1\n".chars() {
        assert!(!is_unspoken(c));
    }
}
