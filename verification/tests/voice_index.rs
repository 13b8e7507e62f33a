use tts_pipeline::voice_index::{
    clip_language, get_available_voices, get_voice_clip_path, init_voice_cache, ScannedDir,
    ScannedFile, Voice, VoiceClip, VoiceClipIndex,
};

fn voice(name: &str, clips: &[(&str, &str)]) -> Voice {
    let mut v = Voice::new(name);
    for (language, path) in clips {
        v.insert_clip(language, path);
    }
    v
}

fn index_of(voices: Vec<Voice>) -> VoiceClipIndex {
    let mut index = VoiceClipIndex::new();
    for v in voices {
        index.insert_voice(v);
    }
    index
}

fn file(dir: &str, name: &str) -> ScannedFile {
    ScannedFile { file_name: name.to_string(), path: format!("clips/{dir}/{name}"), is_file: true }
}

fn dir(name: &str, files: &[&str]) -> ScannedDir {
    ScannedDir {
        name: name.to_string(),
        is_dir: true,
        files: files.iter().map(|f| file(name, f)).collect(),
    }
}

#[test]
fn english_clip_stands_in_for_a_missing_language() {
    let index = index_of(vec![voice("alice", &[("en", "clips/alice/en.wav")])]);
    assert_eq!(index.resolve("alice", "fr"), Some("clips/alice/en.wav".to_string()));
}

#[test]
fn unknown_voice_without_default_clips_resolves_to_nothing() {
    let index = index_of(vec![voice("alice", &[("en", "clips/alice/en.wav")])]);
    assert_eq!(index.resolve("nonexistent", "en"), None);
    assert_eq!(get_voice_clip_path(&index, "nonexistent", Some("en")), None);
    assert_eq!(get_voice_clip_path(&index, "nonexistent", None), None);
    let empty = VoiceClipIndex::new();
    assert_eq!(empty.resolve("nonexistent", "en"), None);
    assert_eq!(empty.resolve("default", "en"), None);
}

#[test]
fn exact_language_comes_first() {
    let index = index_of(vec![voice(
        "alice",
        &[("de", "a/de.wav"), ("en", "a/en.wav"), ("fr", "a/fr.wav")],
    )]);
    assert_eq!(index.resolve("alice", "fr"), Some("a/fr.wav".to_string()));
    assert_eq!(index.resolve("alice", "en"), Some("a/en.wav".to_string()));
    assert_eq!(index.resolve("alice", "de"), Some("a/de.wav".to_string()));
    assert_eq!(index.resolve("alice", "ja"), Some("a/en.wav".to_string()));
}

#[test]
fn any_clip_stands_in_where_english_is_missing_too() {
    let index = index_of(vec![voice("bob", &[("de", "b/de.wav"), ("it", "b/it.wav")])]);
    assert_eq!(index.resolve("bob", "fr"), Some("b/de.wav".to_string()));
    assert_eq!(get_voice_clip_path(&index, "bob", None), Some("b/de.wav".to_string()));
}

#[test]
fn unknown_voice_falls_back_to_the_default_voice() {
    let index = index_of(vec![
        voice("default", &[("en", "d/en.wav"), ("es", "d/es.wav")]),
        voice("alice", &[("fr", "a/fr.wav")]),
    ]);
    assert_eq!(index.resolve("carol", "es"), Some("d/es.wav".to_string()));
    assert_eq!(index.resolve("carol", "ja"), Some("d/en.wav".to_string()));
    // A known voice does not borrow from the default voice.
    assert_eq!(index.resolve("alice", "es"), Some("a/fr.wav".to_string()));
}

#[test]
fn no_language_detected_goes_to_english() {
    let index = index_of(vec![voice("alice", &[("fr", "a/fr.wav"), ("en", "a/en.wav")])]);
    assert_eq!(get_voice_clip_path(&index, "alice", None), Some("a/en.wav".to_string()));
    assert_eq!(get_voice_clip_path(&index, "alice", Some("fr")), Some("a/fr.wav".to_string()));
}

#[test]
fn resolved_clip_carries_voice_and_language() {
    let index = index_of(vec![voice("alice", &[("en", "a/en.wav")])]);
    let clip = index.resolve_clip("alice", Some("fr")).unwrap();
    assert_eq!(
        *clip,
        VoiceClip {
            voice_name: "alice".to_string(),
            language: "en".to_string(),
            file_path: "a/en.wav".to_string(),
        }
    );
}

#[test]
fn a_language_has_one_clip() {
    let mut v = voice("alice", &[("en", "old.wav"), ("fr", "fr.wav")]);
    v.insert_clip("en", "new.wav");
    assert_eq!(v.clips().len(), 2);
    assert_eq!(v.clip_for("en").unwrap().file_path, "new.wav");
    assert_eq!(v.languages(), vec!["en".to_string(), "fr".to_string()]);
    assert!(v.clip_for("de").is_none());
    assert_eq!(v.name(), "alice");
    assert!(v.has_clips());
    assert!(!Voice::new("x").has_clips());
    let copy = v.clone();
    assert_eq!(copy.name(), "alice");
    assert_eq!(copy.clips(), v.clips());
}

#[test]
fn voices_without_clips_are_not_taken_in() {
    let mut index = VoiceClipIndex::new();
    assert!(!index.insert_voice(Voice::new("ghost")));
    assert!(index.voice("ghost").is_none());
    assert!(index.insert_voice(Voice::new("default")));
    assert!(index.insert_voice(voice("alice", &[("en", "a/en.wav")])));
    assert!(index.insert_voice(voice("alice", &[("fr", "a/fr.wav")])));
    assert_eq!(index.voice("alice").unwrap().languages(), vec!["fr".to_string()]);
    assert_eq!(get_available_voices(&index).len(), 2);
}

#[test]
fn clip_files_are_named_by_language() {
    assert_eq!(clip_language("en.wav"), Some("en".to_string()));
    assert_eq!(clip_language("zh-cn.wav"), Some("zh-cn".to_string()));
    assert_eq!(clip_language("a.b.wav"), Some("a.b".to_string()));
    assert_eq!(clip_language("..wav"), Some(".".to_string()));
    for name in ["en.mp3", "en.WAV", "en", "en.", ".wav", "wav", "", "en.wav.bak", "en.wav "] {
        assert_eq!(clip_language(name), None);
    }
}

#[test]
fn scan_builds_the_index() {
    let entries = vec![
        dir("alice", &["en.wav", "fr.wav", "notes.txt"]),
        ScannedDir { name: "README.md".to_string(), is_dir: false, files: vec![] },
        dir("empty", &[]),
        dir("texts", &["readme.txt"]),
        ScannedDir {
            name: "bob".to_string(),
            is_dir: true,
            files: vec![
                ScannedFile {
                    file_name: "de.wav".to_string(),
                    path: "clips/bob/de.wav".to_string(),
                    is_file: false,
                },
                file("bob", "es.wav"),
            ],
        },
    ];
    let index = init_voice_cache(&entries);
    assert_eq!(
        get_available_voices(&index),
        vec![
            ("default".to_string(), vec![]),
            ("alice".to_string(), vec!["en".to_string(), "fr".to_string()]),
            ("bob".to_string(), vec!["es".to_string()]),
        ]
    );
    assert_eq!(index.resolve("alice", "fr"), Some("clips/alice/fr.wav".to_string()));
    assert_eq!(index.resolve("bob", "en"), Some("clips/bob/es.wav".to_string()));
    assert_eq!(index.resolve("empty", "en"), None);
}

#[test]
fn scan_of_nothing_leaves_the_default_voice() {
    let index = init_voice_cache(&Vec::new());
    assert_eq!(get_available_voices(&index), vec![("default".to_string(), vec![])]);
    assert!(index.voice("default").is_some());
    assert_eq!(index.resolve("anyone", "en"), None);
}

#[test]
fn scanned_default_directory_serves_unknown_voices() {
    let index = init_voice_cache(&vec![dir("default", &["en.wav"]), dir("alice", &["ja.wav"])]);
    assert_eq!(index.resolve("nobody", "fr"), Some("clips/default/en.wav".to_string()));
    assert_eq!(
        get_available_voices(&index),
        vec![
            ("default".to_string(), vec!["en".to_string()]),
            ("alice".to_string(), vec!["ja".to_string()]),
        ]
    );
}
