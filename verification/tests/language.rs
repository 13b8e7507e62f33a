use tts_pipeline::language::{detect_language, language_code, language_or_default};

#[test]
fn backend_codes_for_supported_languages() {
    let table = [
        ("eng", "en"),
        ("spa", "es"),
        ("fra", "fr"),
        ("deu", "de"),
        ("ita", "it"),
        ("por", "pt"),
        ("pol", "pl"),
        ("tur", "tr"),
        ("rus", "ru"),
        ("nld", "nl"),
        ("ces", "cs"),
        ("ara", "ar"),
        ("cmn", "zh-cn"),
        ("jpn", "ja"),
        ("hun", "hu"),
        ("kor", "ko"),
        ("hin", "hi"),
    ];
    for (iso, code) in table {
        assert_eq!(language_code(iso), code);
        assert_eq!(whatlang::Lang::from_code(iso).unwrap().code(), iso);
    }
}

#[test]
fn other_languages_are_spoken_as_english() {
    for iso in ["ukr", "swe", "epo", "", "en", "ENG", "xyz", "engl"] {
        assert_eq!(language_code(iso), "en");
    }
}

#[test]
fn detection_names_the_language_of_the_text() {
    assert_eq!(
        detect_language("Bonjour tout le monde, comment allez-vous aujourd'hui ? Je suis très heureux de vous voir."),
        Some("fr".to_string())
    );
    assert_eq!(
        detect_language("This is a perfectly ordinary sentence written in the English language."),
        Some("en".to_string())
    );
    assert_eq!(
        detect_language("Мы хотим видеть дальше, чем окна дома напротив"),
        Some("ru".to_string())
    );
    assert_eq!(detect_language("これは日本語の文章です。ひらがなとカタカナ"), Some("ja".to_string()));
    assert_eq!(detect_language("안녕하세요 만나서 반갑습니다"), Some("ko".to_string()));
}

#[test]
fn unsupported_detected_language_is_english() {
    // Ukrainian is detected, and the backend has no code for it.
    let text = "Та нічого, все нормально. А в тебе як?";
    assert_eq!(whatlang::detect(text).unwrap().lang(), whatlang::Lang::Ukr);
    assert_eq!(detect_language(text), Some("en".to_string()));
}

#[test]
fn text_without_letters_has_no_language() {
    assert_eq!(detect_language(""), None);
    assert_eq!(detect_language("1234 5678 !!!"), None);
}

#[test]
fn detection_agrees_with_the_detector() {
    for text in [
        "Además de todo lo anteriormente dicho, también encontramos...",
        "Die Ordnung muss für immer in diesem Codebase bleiben",
        "hello",
        "水",
    ] {
        let expected = whatlang::detect(text).map(|info| language_code(info.lang().code()));
        assert_eq!(detect_language(text), expected);
    }
}

#[test]
fn missing_detection_defaults_to_english() {
    assert_eq!(language_or_default(None), "en");
    assert_eq!(language_or_default(Some("fr".to_string())), "fr");
}
