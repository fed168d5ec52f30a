use bookwriter_core::text::{
    begins_with, chars_of, find, is_whitespace, join, same_text, skip_run, split_lines,
    split_words, trim_bounds,
};

#[test]
fn white_space_is_what_the_standard_library_says() {
    let mut c = 0u32;
    while c <= 0x10FFFF {
        if let Some(ch) = char::from_u32(c) {
            assert_eq!(is_whitespace(ch), ch.is_whitespace(), "U+{:04X}", c);
        }
        c += 1;
    }
}

#[test]
fn words_are_what_the_standard_library_splits() {
    let texts = [
        "",
        " ",
        "a",
        " a ",
        "a b",
        "  one\ttwo  three\nfour\u{2003}five   ",
        "\u{a0}x\u{3000}y\u{85}z",
        "no-break\u{feff}space",
        "héllo wörld 世界",
    ];
    for text in texts {
        let expected: Vec<String> = text.split_whitespace().map(|w| w.to_string()).collect();
        assert_eq!(split_words(text), expected, "{:?}", text);
    }
}

#[test]
fn lines_are_what_the_standard_library_splits() {
    let texts = [
        "",
        "\n",
        "a",
        "a\n",
        "a\nb",
        "a\n\nb\n",
        "a\r\nb\r\n",
        "a\r",
        "a\rb\n",
        "\r\n",
        "\r\r\n",
        "\n\r",
        "a\n\r\nb",
        "ü\r\n世界\n",
    ];
    for text in texts {
        let expected: Vec<String> = text.lines().map(|l| l.to_string()).collect();
        assert_eq!(split_lines(text), expected, "{:?}", text);
    }
}

#[test]
fn join_puts_single_spaces_between_words() {
    let none: Vec<String> = vec![];
    assert_eq!(join(&none), "");
    assert_eq!(join(&["a".to_string()]), "a");
    assert_eq!(join(&["a".to_string(), "bc".to_string(), "d".to_string()]), "a bc d");
}

#[test]
fn chars_of_keeps_the_characters() {
    assert_eq!(chars_of("aé世"), vec!['a', 'é', '世']);
    assert_eq!(chars_of(""), Vec::<char>::new());
}

#[test]
fn trim_bounds_are_those_of_trim() {
    let texts = ["", "   ", "a", "  a b  ", "\t a\u{a0}", "x  ", "  x"];
    for text in texts {
        let chars = chars_of(text);
        let (a, b) = trim_bounds(&chars, 0, chars.len());
        let got: String = chars[a..b].iter().collect();
        assert_eq!(got, text.trim(), "{:?}", text);
    }
    let chars = chars_of("ab  cd  ef");
    assert_eq!(trim_bounds(&chars, 2, 8), (4, 6));
    assert_eq!(trim_bounds(&chars, 2, 4), (4, 4));
}

#[test]
fn searching_helpers() {
    let chars = chars_of("@@key: value: more");
    assert_eq!(find(&chars, 0, chars.len(), ':'), 5);
    assert_eq!(find(&chars, 6, chars.len(), ':'), 12);
    assert_eq!(find(&chars, 13, chars.len(), ':'), chars.len());
    assert_eq!(skip_run(&chars, 0, chars.len(), '@'), 2);
    assert_eq!(skip_run(&chars, 2, chars.len(), '@'), 2);
    assert!(begins_with(&chars, 0, chars.len(), &chars_of("@@key")));
    assert!(begins_with(&chars, 2, chars.len(), &chars_of("key:")));
    assert!(!begins_with(&chars, 2, 4, &chars_of("key")));
    assert!(!begins_with(&chars, 0, chars.len(), &chars_of("@key")));
    assert!(begins_with(&chars, 3, 3, &chars_of("")));
    assert!(same_text(&chars, 2, 5, &chars_of("key")));
    assert!(!same_text(&chars, 2, 6, &chars_of("key")));
    assert!(!same_text(&chars, 2, 5, &chars_of("kex")));
}
