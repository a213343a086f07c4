use giflibrary::search::{gif_matches_terms, levenshtein, search_terms, tag_matches_term};
use giflibrary::text::{
    ascii_alphanumeric, ascii_punctuation, chars_of, split_chars, split_words, string_of,
    take_chars, trim_chars, white_space, CharClass,
};

fn s(v: &[&str]) -> Vec<String> {
    v.iter().map(|x| x.to_string()).collect()
}

#[test]
fn char_classes_agree_with_std_on_every_char() {
    for u in 0u32..=0x10FFFF {
        if let Some(c) = char::from_u32(u) {
            assert_eq!(white_space(c), c.is_whitespace(), "whitespace {:x}", u);
            assert_eq!(ascii_punctuation(c), c.is_ascii_punctuation(), "punct {:x}", u);
            assert_eq!(ascii_alphanumeric(c), c.is_ascii_alphanumeric(), "alnum {:x}", u);
        }
    }
}

#[test]
fn trim_and_split_agree_with_std() {
    let samples = [
        "",
        " ",
        "a",
        "  a b  ",
        "a,b,,c,",
        ",",
        "\u{3000}x\u{2003}y\t\n",
        " Suggestive, offensive ",
        "é, ü ,ß",
    ];
    for text in samples {
        let cs = chars_of(text);
        let trimmed: String = string_of(&trim_chars(&cs, CharClass::WhiteSpace));
        assert_eq!(trimmed, text.trim());
        let punct: String = string_of(&trim_chars(&cs, CharClass::AsciiPunctuation));
        assert_eq!(punct, text.trim_matches(|c: char| c.is_ascii_punctuation()));
        let parts: Vec<String> = split_chars(&cs, ',').iter().map(|p| string_of(p)).collect();
        let expected: Vec<String> = text.split(',').map(String::from).collect();
        assert_eq!(parts, expected);
        let words: Vec<String> = split_words(&cs).iter().map(|p| string_of(p)).collect();
        let expected: Vec<String> = text.split_whitespace().map(String::from).collect();
        assert_eq!(words, expected);
    }
}

#[test]
fn take_chars_counts_characters_not_bytes() {
    assert_eq!(take_chars("héllo wörld", 4), "héll");
    assert_eq!(take_chars("ab", 10), "ab");
    assert_eq!(take_chars("", 3), "");
}

#[test]
fn levenshtein_known_distances() {
    assert_eq!(levenshtein("kitten", "sitting"), 3);
    assert_eq!(levenshtein("flaw", "lawn"), 2);
    assert_eq!(levenshtein("same", "same"), 0);
    assert_eq!(levenshtein("a", "b"), 1);
    assert_eq!(levenshtein("dance", "dnace"), 2);
}

#[test]
fn levenshtein_is_symmetric_on_examples() {
    let words = ["", "a", "cat", "cart", "dance", "danse", "ümlaut"];
    for a in words {
        for b in words {
            assert_eq!(levenshtein(a, b), levenshtein(b, a));
        }
    }
}

#[test]
fn levenshtein_with_an_empty_side_counts_bytes() {
    assert_eq!(levenshtein("", "é"), 2);
    assert_eq!(levenshtein("日本", ""), 6);
    assert_eq!(levenshtein("", ""), 0);
}

#[test]
fn tag_matches_exact_prefix_and_infix() {
    assert!(tag_matches_term("Dance", "dance"));
    assert!(tag_matches_term("dancing", "dan"));
    assert!(tag_matches_term("breakdance", "dance"));
    // An infix needs a term of three bytes or more.
    assert!(!tag_matches_term("xab", "ab"));
}

#[test]
fn tag_matches_within_edit_distance() {
    // Four-byte term, lengths equal: one edit allowed.
    assert!(tag_matches_term("cats", "cata"));
    assert!(!tag_matches_term("cats", "cxxa"));
    // Seven-byte term, lengths two apart: two edits allowed.
    assert!(tag_matches_term("ringtone", "ringtoneee"));
    // Four-byte term, lengths two apart: no fuzzy match.
    assert!(!tag_matches_term("catsxx", "cata"));
    // A short term gets no fuzzy matching.
    assert!(!tag_matches_term("cat", "cot"));
}

#[test]
fn search_terms_split_and_lowercase() {
    assert_eq!(search_terms(Some("  Funny  CAT ")), Some(s(&["funny", "cat"])));
    assert_eq!(search_terms(Some("   ")), None);
    assert_eq!(search_terms(None), None);
}

#[test]
fn gif_search_needs_every_term_and_some_tag() {
    let tags = s(&["Funny", "cat"]);
    assert!(gif_matches_terms(&tags, &s(&["fun", "cat"])));
    assert!(!gif_matches_terms(&tags, &s(&["fun", "dog"])));
    assert!(!gif_matches_terms(&[], &s(&["fun"])));
    assert!(gif_matches_terms(&tags, &[]));
}

#[test]
fn a_search_for_a_tag_finds_its_gif() {
    let tags = s(&["Funny", "Über Cat"]);
    for t in &tags {
        assert!(gif_matches_terms(&tags, &[t.to_lowercase()]));
    }
}
