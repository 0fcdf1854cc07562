use proxyjs::fnmatch::{fnmatch, fnmatch_bytes};

#[test]
fn empty_pattern() {
    assert!(fnmatch("", ""));
    assert!(!fnmatch("", "x"));
}

#[test]
fn star_matches_everything() {
    assert!(fnmatch("*", ""));
    assert!(fnmatch("*", "a"));
    assert!(fnmatch("*", "a.b.example.com"));
}

#[test]
fn question_matches_one() {
    assert!(fnmatch("?", "a"));
    assert!(!fnmatch("?", ""));
    assert!(!fnmatch("?", "ab"));
}

#[test]
fn suffix_patterns() {
    assert!(fnmatch("*.example.com", "a.b.example.com"));
    assert!(!fnmatch("*.example.com", "example.com"));
    assert!(fnmatch("*.internal", "a.internal"));
    assert!(!fnmatch("*.internal", "a.example.com"));
}

#[test]
fn whole_text_and_case() {
    assert!(fnmatch("abc", "abc"));
    assert!(!fnmatch("abc", "abcd"));
    assert!(!fnmatch("abc", "xabc"));
    assert!(!fnmatch("abc", "ABC"));
    assert!(fnmatch("a*c?e", "abbbcde"));
    assert!(!fnmatch("a*c?e", "abbbce"));
    assert!(fnmatch("[a]", "[a]"));
    assert!(!fnmatch("[a]", "a"));
}

#[test]
fn many_stars_against_a_long_text() {
    let text = "b".repeat(5000);
    assert!(!fnmatch("****************a", &text));
    assert!(fnmatch("****************b", &text));
    let stars = "*".repeat(200);
    assert!(fnmatch(&stars, &text));
}

#[test]
fn question_mark_on_ascii_texts() {
    for text in ["", "a", "?", "*", " ", "ab", "a.b", "~", "\u{7f}", "\u{0}"] {
        assert_eq!(fnmatch("?", text), text.chars().count() == 1, "{:?}", text);
    }
}

#[test]
fn matching_is_on_bytes() {
    assert!(fnmatch_bytes(b"?", &[0xff]));
    assert!(!fnmatch("?", "\u{e9}"));
    assert!(fnmatch("??", "\u{e9}"));
    assert!(fnmatch("\u{e9}*", "\u{e9}t\u{e9}"));
}

fn plain_match(pattern: &[u8], text: &[u8]) -> bool {
    match pattern.split_first() {
        None => text.is_empty(),
        Some((b'*', rest)) => (0..=text.len()).any(|taken| plain_match(rest, &text[taken..])),
        Some((b'?', rest)) => !text.is_empty() && plain_match(rest, &text[1..]),
        Some((byte, rest)) => text.first() == Some(byte) && plain_match(rest, &text[1..]),
    }
}

fn words(alphabet: &[u8], longest: usize) -> Vec<Vec<u8>> {
    let mut all = vec![vec![]];
    let mut last = vec![vec![]];
    for _ in 0..longest {
        let mut next = Vec::new();
        for word in &last {
            for letter in alphabet {
                let mut longer = word.clone();
                longer.push(*letter);
                next.push(longer);
            }
        }
        all.extend(next.iter().cloned());
        last = next;
    }
    all
}

#[test]
fn agrees_with_trying_every_split() {
    let patterns = words(b"ab*?", 4);
    let texts = words(b"ab", 5);
    for pattern in &patterns {
        for text in &texts {
            assert_eq!(
                fnmatch_bytes(pattern, text),
                plain_match(pattern, text),
                "{:?} against {:?}",
                pattern,
                text
            );
        }
    }
}
