use curl_wrapper::text::{is_whitespace, to_chars, trim};

#[test]
fn whitespace_is_what_std_calls_whitespace() {
    for code in 0..=0x10FFFFu32 {
        if let Some(c) = char::from_u32(code) {
            assert_eq!(is_whitespace(c), c.is_whitespace(), "U+{code:04X}");
        }
    }
}

#[test]
fn whitespace_examples() {
    for c in [' ', '\t', '\n', '\r', '\u{b}', '\u{c}', '\u{85}', '\u{a0}', '\u{2028}', '\u{3000}'] {
        assert!(is_whitespace(c), "{c:?}");
    }
    for c in ['a', '0', '_', '\u{0}', '\u{8}', '\u{e}', '\u{200b}', '\u{feff}', '\u{180e}'] {
        assert!(!is_whitespace(c), "{c:?}");
    }
}

#[test]
fn trim_takes_whitespace_off_both_ends() {
    assert_eq!(trim("  Content-Type: text/html  "), "Content-Type: text/html");
    assert_eq!(trim("\r\n\tbody\u{a0}\n"), "body");
    assert_eq!(trim("a b"), "a b");
    assert_eq!(trim("x"), "x");
    assert_eq!(trim(" x"), "x");
    assert_eq!(trim("x "), "x");
}

#[test]
fn trim_of_whitespace_is_empty() {
    assert_eq!(trim(""), "");
    assert_eq!(trim(" "), "");
    assert_eq!(trim(" \r\n\t \u{3000}"), "");
}

#[test]
fn trim_like_std() {
    for text in ["", " ", "a", " a", "a ", " a b ", "\u{2003}\u{65e5} \u{672c}\u{2003}", "\u{feff} x"] {
        assert_eq!(trim(text), text.trim(), "{text:?}");
    }
}

#[test]
fn to_chars_gives_the_characters() {
    assert_eq!(to_chars(""), Vec::<char>::new());
    assert_eq!(to_chars("a\u{e9}\u{65e5}\u{1f600}"), vec!['a', '\u{e9}', '\u{65e5}', '\u{1f600}']);
}

/// A small deterministic generator of test texts over `alphabet`.
fn texts(alphabet: &[char], count: usize, max_len: usize) -> Vec<String> {
    let mut state: u64 = 0x9E37_79B9_7F4A_7C15;
    let mut next = move || {
        state ^= state << 13;
        state ^= state >> 7;
        state ^= state << 17;
        state
    };
    (0..count)
        .map(|_| {
            let len = (next() % (max_len as u64 + 1)) as usize;
            (0..len).map(|_| alphabet[(next() % alphabet.len() as u64) as usize]).collect()
        })
        .collect()
}

#[test]
fn trim_like_std_on_many_texts() {
    let alphabet = [' ', '\t', '\r', '\n', 'a', 'b', '\u{a0}', '\u{3000}', '\u{200b}', '\u{e9}'];
    for text in texts(&alphabet, 5000, 8) {
        assert_eq!(trim(&text), text.trim(), "{text:?}");
    }
}

#[test]
fn trimming_twice_is_trimming_once() {
    for text in ["", " ", " a ", "\ta b\r\n", "\u{3000}x\u{3000}y\u{3000}"] {
        let once = trim(text);
        assert_eq!(trim(&once), once, "{text:?}");
        assert!(text.contains(once.as_str()), "{text:?}");
        assert!(!once.starts_with(char::is_whitespace), "{text:?}");
        assert!(!once.ends_with(char::is_whitespace), "{text:?}");
    }
}

#[test]
fn padding_is_trimmed_off() {
    for lead in ["", " ", "\r\n", " \t\u{a0}"] {
        for core in ["", "x", "a b", "Content-Type: text/html"] {
            for trail in ["", " ", "\n", "\u{2003} \r"] {
                assert_eq!(trim(&format!("{lead}{core}{trail}")), core);
            }
        }
    }
}
