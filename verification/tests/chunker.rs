use tts_pipeline::chunker::{
    chunk_ranges, is_sentence_end, is_soft_break, split, split_text_for_xtts, TextChunk,
    SOFT_BREAK_MARGIN, XTTS_CHAR_LIMIT,
};

fn texts(chunks: &[TextChunk]) -> Vec<String> {
    chunks.iter().map(|c| c.text.clone()).collect()
}

fn check_numbering(chunks: &[TextChunk]) {
    for (k, chunk) in chunks.iter().enumerate() {
        assert_eq!(chunk.ordinal as usize, k);
        assert_eq!(chunk.char_count, chunk.text.chars().count());
    }
}

fn without_whitespace(text: &str) -> String {
    text.chars().filter(|c| !c.is_whitespace()).collect()
}

#[test]
fn short_text_is_one_trimmed_chunk() {
    let chunks = split("  hello world \n", 250);
    assert_eq!(chunks.len(), 1);
    assert_eq!(chunks[0].ordinal, 0);
    assert_eq!(chunks[0].text, "hello world");
    assert_eq!(chunks[0].char_count, 11);
    assert_eq!(split_text_for_xtts("  hello world \n"), vec!["hello world".to_string()]);
}

#[test]
fn text_of_exactly_the_limit_is_one_chunk() {
    let text = "a".repeat(250);
    let chunks = split(&text, 250);
    assert_eq!(texts(&chunks), vec![text.clone()]);
    let longer = "a".repeat(251);
    assert_eq!(split(&longer, 250).len(), 2);
}

#[test]
fn empty_and_blank_short_texts_are_one_empty_chunk() {
    let chunks = split("", 250);
    assert_eq!(chunks.len(), 1);
    assert_eq!(chunks[0].text, "");
    assert_eq!(chunks[0].char_count, 0);
    let chunks = split(" \t\n ", 250);
    assert_eq!(texts(&chunks), vec![String::new()]);
}

#[test]
fn limit_counts_characters_not_bytes() {
    // 250 characters of three bytes each.
    let text = "あ".repeat(250);
    assert_eq!(text.len(), 750);
    let chunks = split(&text, 250);
    assert_eq!(chunks.len(), 1);
    assert_eq!(chunks[0].char_count, 250);
}

#[test]
fn unicode_whitespace_is_trimmed() {
    let chunks = split("\u{3000}\u{2003}hello\u{00A0}\u{2028}", 250);
    assert_eq!(texts(&chunks), vec!["hello".to_string()]);
}

#[test]
fn three_sentences_of_600_characters_make_three_chunks() {
    let first = format!("{}.", &"lorem ".repeat(40)[..239]);
    let second = format!("{}.", &" ipsum".repeat(40)[..239]);
    let third = " dolor".repeat(20);
    assert_eq!(first.chars().count(), 240);
    assert_eq!(second.chars().count(), 240);
    assert_eq!(third.chars().count(), 120);
    let text = format!("{first}{second}{third}");
    assert_eq!(text.chars().count(), 600);

    let chunks = split(&text, 250);
    check_numbering(&chunks);
    assert_eq!(chunks.len(), 3);
    assert_eq!(chunks[0].text, first);
    assert_eq!(chunks[1].text, second.trim());
    assert_eq!(chunks[2].text, third.trim());
    assert_eq!(chunks[0].char_count, 240);
    assert_eq!(chunks[1].char_count, 239);
    assert_eq!(chunks[2].char_count, 119);
    for chunk in &chunks {
        assert!(chunk.char_count <= 250);
    }
    assert!(chunks[0].text.ends_with('.'));
    assert!(chunks[1].text.ends_with('.'));
    assert_eq!(split_text_for_xtts(&text), texts(&chunks));
}

#[test]
fn sentences_are_gathered_while_they_fit() {
    let text = format!("{}. {}. {}.", "a".repeat(120), "b".repeat(120), "c".repeat(120));
    let chunks = split(&text, 250);
    check_numbering(&chunks);
    assert_eq!(
        texts(&chunks),
        vec![
            format!("{}. {}.", "a".repeat(120), "b".repeat(120)),
            format!("{}.", "c".repeat(120)),
        ]
    );
}

#[test]
fn chunk_closes_at_the_last_soft_break_near_the_limit() {
    let text = format!("{}, {}", "a".repeat(150), "b".repeat(108));
    let chunks = split(&text, 250);
    check_numbering(&chunks);
    assert_eq!(texts(&chunks), vec![format!("{},", "a".repeat(150)), "b".repeat(108)]);
}

#[test]
fn the_later_of_two_soft_breaks_is_taken() {
    let text = format!("{}, {}, {}", "a".repeat(100), "b".repeat(98), "c".repeat(98));
    let chunks = split(&text, 250);
    assert_eq!(
        texts(&chunks),
        vec![format!("{}, {},", "a".repeat(100), "b".repeat(98)), "c".repeat(98)]
    );
    assert_eq!(chunks[0].char_count, 201);
}

#[test]
fn a_soft_break_behind_the_threshold_closes_at_once() {
    let text = format!("{}, {}", "a".repeat(230), "b".repeat(100));
    let chunks = split(&text, 250);
    assert_eq!(texts(&chunks), vec![format!("{},", "a".repeat(230)), "b".repeat(100)]);
}

#[test]
fn a_terminator_wins_over_a_pending_soft_break() {
    // The full stop stands where the open chunk has 201 characters and a
    // comma is pending: the chunk ends with the sentence, not at the comma.
    let text = format!("{},{}.{}", "a".repeat(150), "b".repeat(49), "c".repeat(100));
    assert_eq!(text.chars().count(), 301);
    let chunks = split(&text, 250);
    check_numbering(&chunks);
    assert_eq!(
        texts(&chunks),
        vec![format!("{},{}.", "a".repeat(150), "b".repeat(49)), "c".repeat(100)]
    );
    assert_eq!(chunks[0].char_count, 201);

    let text = format!("{},{}.{}", "a".repeat(180), "b".repeat(19), "c".repeat(100));
    assert_eq!(
        texts(&split(&text, 250)),
        vec![format!("{},{}.", "a".repeat(180), "b".repeat(19)), "c".repeat(100)]
    );
    // Full-width forms behave alike.
    let text = format!("{}、{}。{}", "あ".repeat(150), "い".repeat(49), "う".repeat(100));
    assert_eq!(
        texts(&split(&text, 250)),
        vec![format!("{}、{}。", "あ".repeat(150), "い".repeat(49)), "う".repeat(100)]
    );
}

#[test]
fn a_soft_break_closes_where_no_sentence_ends() {
    // The same text without the full stop: the chunk closes at the comma.
    let text = format!("{},{}{}", "a".repeat(150), "b".repeat(50), "c".repeat(100));
    assert_eq!(
        texts(&split(&text, 250)),
        vec![format!("{},", "a".repeat(150)), format!("{}{}", "b".repeat(50), "c".repeat(100))]
    );
}

#[test]
fn a_run_without_breaks_is_sliced_by_count() {
    let text = "a".repeat(600);
    let chunks = split(&text, 250);
    check_numbering(&chunks);
    assert_eq!(texts(&chunks), vec!["a".repeat(250), "a".repeat(250), "a".repeat(100)]);
}

#[test]
fn a_long_sentence_behind_a_short_one_is_sliced() {
    let text = format!("Hi. {} end.", "x".repeat(300));
    let chunks = split(&text, 250);
    assert_eq!(
        texts(&chunks),
        vec!["Hi.".to_string(), "x".repeat(250), format!("{} end.", "x".repeat(50))]
    );
}

#[test]
fn full_width_terminators_end_sentences() {
    let text = format!("{}。{}。{}", "あ".repeat(100), "い".repeat(200), "う".repeat(50));
    let chunks = split(&text, 250);
    check_numbering(&chunks);
    assert_eq!(
        texts(&chunks),
        vec![
            format!("{}。", "あ".repeat(100)),
            format!("{}。", "い".repeat(200)),
            "う".repeat(50),
        ]
    );
}

#[test]
fn blank_long_text_has_no_chunks() {
    let text = " ".repeat(300);
    assert!(split(&text, 250).is_empty());
    assert!(split_text_for_xtts(&text).is_empty());
}

#[test]
fn small_limits_slice_by_count() {
    let text = "hello world, this is a test. ok";
    assert_eq!(
        texts(&split(text, 5)),
        vec!["hello", "worl", "d, th", "is is", "a te", "st.", "ok"]
    );
    assert_eq!(texts(&split(text, 10)), vec!["hello worl", "d, this is", "a test.", "ok"]);
}

#[test]
fn limit_of_zero_gives_single_characters() {
    assert_eq!(texts(&split("ab c", 0)), vec!["a", "b", "c"]);
    assert_eq!(texts(&split("ab c", 1)), vec!["a", "b", "c"]);
    assert_eq!(texts(&split("", 0)), vec![String::new()]);
}

#[test]
fn no_chunk_exceeds_the_limit() {
    let text = format!(
        "{} {}, {}. {}! {}",
        "one".repeat(70),
        "two".repeat(90),
        "three ".repeat(60),
        "four".repeat(200),
        "five ".repeat(30)
    );
    for limit in [1usize, 2, 7, 49, 50, 51, 100, 250, 400] {
        let chunks = split(&text, limit);
        check_numbering(&chunks);
        for chunk in &chunks {
            assert!(chunk.char_count <= limit);
            assert!(chunk.char_count > 0);
            assert_eq!(chunk.text.trim(), chunk.text);
        }
    }
}

#[test]
fn nothing_but_whitespace_is_lost() {
    let text = format!(
        "  {} {},  {}.\n{}!   {} \t",
        "one".repeat(70),
        "two".repeat(90),
        "three ".repeat(60),
        "four".repeat(200),
        "five ".repeat(30)
    );
    for limit in [0usize, 1, 13, 50, 250, 1000, 5000] {
        let chunks = split(&text, limit);
        let joined: String = chunks.iter().map(|c| c.text.as_str()).collect();
        assert_eq!(without_whitespace(&joined), without_whitespace(&text));
        // The chunks occur in the text in order, with whitespace alone between them.
        let mut rest = text.as_str();
        for chunk in &chunks {
            let at = rest.find(chunk.text.as_str()).unwrap();
            assert!(rest[..at].chars().all(char::is_whitespace));
            rest = &rest[at + chunk.text.len()..];
        }
        assert!(rest.chars().all(char::is_whitespace));
    }
}

#[test]
fn the_backend_budget_is_250_characters() {
    assert_eq!(XTTS_CHAR_LIMIT, 250);
    let text = "word ".repeat(200);
    let chunks = split_text_for_xtts(&text);
    assert!(chunks.len() > 1);
    for chunk in &chunks {
        assert!(chunk.chars().count() <= 250);
    }
    assert_eq!(chunks, texts(&split(&text, XTTS_CHAR_LIMIT)));
}

#[test]
fn terminators_and_soft_breaks_are_told_apart() {
    for c in ['.', '!', '?', '。', '！', '？'] {
        assert!(is_sentence_end(c));
        assert!(!is_soft_break(c));
    }
    for c in [',', '、', '，', ';', '；', ':', '：'] {
        assert!(is_soft_break(c));
        assert!(!is_sentence_end(c));
    }
    for c in ['a', ' ', '-', '…', '\n', '¿', '·', '\''] {
        assert!(!is_sentence_end(c));
        assert!(!is_soft_break(c));
    }
    assert_eq!(SOFT_BREAK_MARGIN, 50);
}

#[test]
fn chunk_ranges_are_positions_in_characters() {
    let chars: Vec<char> = format!("  {}, {}  ", "é".repeat(150), "ü".repeat(108)).chars().collect();
    assert_eq!(chunk_ranges(&chars, 250), vec![(2, 153), (154, 262)]);
    let short: Vec<char> = " ab ".chars().collect();
    assert_eq!(chunk_ranges(&short, 250), vec![(1, 3)]);
    let blank: Vec<char> = "   ".chars().collect();
    assert_eq!(chunk_ranges(&blank, 250), vec![(3, 3)]);
    assert_eq!(chunk_ranges(&blank, 2), vec![]);
}

#[test]
fn chunks_can_be_copied() {
    let chunks = split("hello", 250);
    let copy = chunks[0].clone();
    assert_eq!(copy, chunks[0]);
}
