use tts_pipeline::startup::{
    or_empty, prepare_gcloud_voices, standard_variant, to_ascii_lowercase,
    translation_languages, GoogleGender, GoogleLanguage, GoogleVariant, GoogleVoice,
};

fn google(name: &str, language: &str, gender: GoogleGender) -> GoogleVoice {
    GoogleVoice { name: name.to_string(), ssml_gender: gender, language_code: language.to_string() }
}

fn variant(name: &str, gender: GoogleGender) -> GoogleVariant {
    GoogleVariant { variant: name.to_string(), gender }
}

#[test]
fn failed_fetch_gives_an_empty_list() {
    assert_eq!(or_empty::<u8>(None), Vec::<u8>::new());
    assert_eq!(or_empty(Some(vec![1, 2, 3])), vec![1, 2, 3]);
    assert_eq!(or_empty(Some(Vec::<String>::new())), Vec::<String>::new());
}

#[test]
fn variant_follows_the_standard_kind() {
    assert_eq!(standard_variant("en-US-Standard-A"), Some("A".to_string()));
    assert_eq!(standard_variant("cmn-CN-Standard-B"), Some("B".to_string()));
    assert_eq!(standard_variant("en-US-Standard-A-B"), Some("A-B".to_string()));
    assert_eq!(standard_variant("en-US-Standard-"), Some(String::new()));
    assert_eq!(standard_variant("--Standard-x"), Some("x".to_string()));
    for name in [
        "en-US-Wavenet-A",
        "en-US-Neural2-C",
        "en-US-standard-A",
        "en-US-Standard",
        "en-US-StandardA",
        "en-US",
        "en-US-",
        "en",
        "",
        "Standard-A",
        "en-Standard-A",
    ] {
        assert_eq!(standard_variant(name), None);
    }
}

#[test]
fn standard_voices_are_ordered_by_language_and_variant() {
    let table = prepare_gcloud_voices(vec![
        google("en-US-Standard-A", "en-US", GoogleGender::Male),
        google("en-US-Wavenet-A", "en-US", GoogleGender::Female),
        google("de-DE-Standard-B", "de-DE", GoogleGender::Male),
        google("en-US-Standard-C", "en-US", GoogleGender::Female),
        google("en-GB-Standard-A", "en-GB", GoogleGender::Female),
        google("en-US-Standard-A", "en-US", GoogleGender::Female),
        google("broken", "fr-FR", GoogleGender::Male),
    ]);
    assert_eq!(
        table,
        vec![
            GoogleLanguage {
                language: "en-US".to_string(),
                variants: vec![
                    variant("A", GoogleGender::Female),
                    variant("C", GoogleGender::Female),
                ],
            },
            GoogleLanguage {
                language: "de-DE".to_string(),
                variants: vec![variant("B", GoogleGender::Male)],
            },
            GoogleLanguage {
                language: "en-GB".to_string(),
                variants: vec![variant("A", GoogleGender::Female)],
            },
        ]
    );
    assert!(prepare_gcloud_voices(Vec::new()).is_empty());
}

#[test]
fn translation_codes_are_lowered() {
    let pairs = |list: &[(&str, &str)]| -> Vec<(String, String)> {
        list.iter().map(|(a, b)| (a.to_string(), b.to_string())).collect()
    };
    assert_eq!(
        translation_languages(pairs(&[
            ("EN-GB", "English (British)"),
            ("de", "German"),
            ("En-Gb", "English"),
            ("PT-BR", "Portuguese"),
        ])),
        pairs(&[("en-gb", "English"), ("de", "German"), ("pt-br", "Portuguese")])
    );
    assert!(translation_languages(Vec::new()).is_empty());
    let lowered: String = to_ascii_lowercase("AZaz09-ÄÖ").into_iter().collect();
    assert_eq!(lowered, "AZaz09-ÄÖ".to_ascii_lowercase());
    assert_eq!(lowered, "azaz09-ÄÖ");
}
