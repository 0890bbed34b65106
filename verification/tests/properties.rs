use internal_tokenizer::InternalTokenizer;
use internal_tokenizer::Token;
use internal_tokenizer::UnicodeSegmenter;
use internal_tokenizer::UnicodeSegmenterIterator;

fn collect_tokens(mut it: UnicodeSegmenterIterator) -> Vec<Token> {
    let mut out = Vec::new();
    while let Some(t) = it.next() {
        out.push(t);
    }
    out
}

fn check_coverage_and_round_trip(orig: &str) {
    let tokenizer = UnicodeSegmenter;
    let tokens = collect_tokens(tokenizer.tokenize(orig));
    assert_eq!(tokens.is_empty(), orig.is_empty());
    let mut expected_start: usize = 0;
    for t in &tokens {
        assert_eq!(t.byte_start, expected_start);
        assert!(t.byte_start < t.byte_end);
        expected_start = t.byte_end;
    }
    assert_eq!(expected_start, orig.len());
    let rebuilt: String = tokens
        .iter()
        .map(|t| &orig[t.byte_start..t.byte_end])
        .collect();
    assert_eq!(rebuilt, orig);
}

#[test]
fn coverage_latin_punctuation() {
    check_coverage_and_round_trip("The quick (\"brown\") fox can't jump 32.3 feet, right?");
}

#[test]
fn coverage_cjk_without_spaces() {
    check_coverage_and_round_trip("為一包含一千多萬目詞的帶標記平衡語料庫");
}

#[test]
fn coverage_mixed_scripts() {
    check_coverage_and_round_trip("Latin text, 中文字, and digits 42 — §mixed!");
}

#[test]
fn coverage_empty() {
    check_coverage_and_round_trip("");
}

#[test]
fn coverage_emoji_and_combining_characters() {
    check_coverage_and_round_trip("cafe\u{301} 👨\u{200d}👩\u{200d}👧\u{200d}👦 ok🦄!");
}

#[test]
fn tokenizing_twice_gives_equal_sequences() {
    let tokenizer = UnicodeSegmenter;
    let orig = "Brr, it's 29.3°F! 為一包含";
    let first = collect_tokens(tokenizer.tokenize(orig));
    let second = collect_tokens(tokenizer.tokenize(orig));
    assert_eq!(first.len(), second.len());
    for (a, b) in first.iter().zip(second.iter()) {
        assert_eq!(a.kind, b.kind);
        assert_eq!(a.word, b.word);
        assert_eq!(a.byte_start, b.byte_start);
        assert_eq!(a.byte_end, b.byte_end);
    }
}

#[test]
fn normalize_keeps_ascii_unchanged() {
    let s = "The quick brown fox, 32.3 feet!";
    assert_eq!(UnicodeSegmenterIterator::normalize(s), s);
}

#[test]
fn normalize_output_stays_below_del() {
    let out = UnicodeSegmenterIterator::normalize("a\u{7f}b … é 北");
    assert!(!out.is_empty());
    assert!(out.chars().all(|c| (c as u32) < 0x7f));
}

#[test]
fn normalize_is_idempotent() {
    let once = UnicodeSegmenterIterator::normalize("北亰 étude …\u{7f}!");
    let twice = UnicodeSegmenterIterator::normalize(&once);
    assert_eq!(twice, once);
}

#[test]
fn normalize_transliterates_to_ascii() {
    assert_eq!(UnicodeSegmenterIterator::normalize("Æneid"), "AEneid");
    assert_eq!(UnicodeSegmenterIterator::normalize("étude"), "etude");
    assert_eq!(UnicodeSegmenterIterator::normalize("…"), "...");
    let out = UnicodeSegmenterIterator::normalize("為一包含一千多萬目詞");
    assert!(!out.is_empty());
    assert!(out.chars().all(|c| c.is_ascii()));
}
