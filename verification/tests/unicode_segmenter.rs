use internal_tokenizer::InternalTokenizer;
use internal_tokenizer::Token;
use internal_tokenizer::TokenKind;
use internal_tokenizer::UnicodeSegmenter;
use internal_tokenizer::UnicodeSegmenterIterator;

fn collect_tokens(mut it: UnicodeSegmenterIterator) -> Vec<Token> {
    let mut out = Vec::new();
    while let Some(t) = it.next() {
        out.push(t);
    }
    out
}

#[test]
fn test_simple() {
    let tokenizer = UnicodeSegmenter;
    let orig = "The quick (\"brown\") fox can't jump 32.3 feet, right? Brr, it's 29.3°F!";
    let tokens = tokenizer.tokenize(orig);
    assert_eq!(
        orig,
        collect_tokens(tokens)
            .iter()
            .map(|t| &orig[t.byte_start..t.byte_end])
            .collect::<String>()
    );

    let orig = "為一包含一千多萬目詞的帶標記平衡語料庫";
    let tokens = tokenizer.tokenize(orig);
    assert_eq!(
        orig,
        collect_tokens(tokens)
            .iter()
            .map(|t| &orig[t.byte_start..t.byte_end])
            .collect::<String>()
    );
    let tokens = tokenizer.tokenize(orig);
    println!("{:#?}", collect_tokens(tokens));
}

#[test]
fn words_come_out_as_units() {
    let tokenizer = UnicodeSegmenter;
    let orig = "The quick (\"brown\") fox can't jump 32.3 feet, right? Brr, it's 29.3°F!";
    let tokens = collect_tokens(tokenizer.tokenize(orig));
    let words: Vec<&str> = tokens.iter().map(|t| t.word.as_str()).collect();
    assert!(words.contains(&"quick"));
    assert!(words.contains(&"can't"));
    assert!(words.contains(&"32.3"));
    assert!(words.contains(&"29.3"));
}

#[test]
fn every_token_is_a_word_token_slicing_the_input() {
    let tokenizer = UnicodeSegmenter;
    let orig = "Brr, it's 29.3°F!";
    let tokens = collect_tokens(tokenizer.tokenize(orig));
    assert!(!tokens.is_empty());
    for t in &tokens {
        assert_eq!(t.kind, TokenKind::Word);
        assert_eq!(&orig[t.byte_start..t.byte_end], t.word.as_str());
        assert_eq!(t.byte_end - t.byte_start, t.word.len());
    }
}

#[test]
fn empty_input_gives_no_tokens() {
    let tokenizer = UnicodeSegmenter;
    let mut tokens = tokenizer.tokenize("");
    assert!(tokens.next().is_none());
    assert!(tokens.next().is_none());
}

#[test]
fn cursor_yields_none_after_the_end() {
    let tokenizer = UnicodeSegmenter;
    let mut tokens = tokenizer.tokenize("one two");
    let mut n: usize = 0;
    while let Some(_) = tokens.next() {
        n += 1;
    }
    assert_eq!(n, 3);
    assert!(tokens.next().is_none());
}
