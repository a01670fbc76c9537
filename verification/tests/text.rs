use quote_stream::text::{
    is_white, join, keep_nonempty, same_text, split, split_lines, split_words, to_chars, trim,
    trim_all, Separator,
};

const SAMPLES: [&str; 14] = [
    "",
    " ",
    "a",
    " a ",
    "a b",
    "\u{3000}x\u{a0}y\u{2003}",
    "a,b,,c",
    ",",
    " , a ,",
    "one\ntwo\r\nthree",
    "one\ntwo\r\n",
    "\n\n",
    "tail\r",
    "\r\nb\rc\n\r\n",
];

#[test]
fn white_space_is_that_of_unicode() {
    for u in 0..=0x10ffffu32 {
        if let Some(c) = char::from_u32(u) {
            assert_eq!(is_white(c), c.is_whitespace());
        }
    }
}

#[test]
fn trimming_is_that_of_str() {
    for s in SAMPLES {
        assert_eq!(trim(s), s.trim());
    }
}

#[test]
fn words_are_those_of_str() {
    for s in SAMPLES {
        let expected: Vec<&str> = s.split_whitespace().collect();
        assert_eq!(split_words(s), expected);
    }
}

#[test]
fn commas_split_as_in_str() {
    for s in SAMPLES {
        let expected: Vec<&str> = s.split(',').collect();
        assert_eq!(split(s, Separator::Comma), expected);
    }
}

#[test]
fn lines_are_those_of_str() {
    for s in SAMPLES {
        let expected: Vec<&str> = s.lines().collect();
        assert_eq!(split_lines(s), expected);
    }
}

#[test]
fn joining_undoes_splitting() {
    for s in SAMPLES {
        assert_eq!(join(&split(s, Separator::Comma), ","), s);
    }
    assert_eq!(join(&Vec::new(), ","), "");
}

#[test]
fn helpers_keep_the_order() {
    let all = vec![" a".to_string(), "".to_string(), "b ".to_string()];
    assert_eq!(trim_all(&all), vec!["a", "", "b"]);
    assert_eq!(keep_nonempty(&all), vec![" a", "b "]);
    assert_eq!(to_chars("a\u{e9}"), vec!['a', '\u{e9}']);
    assert!(same_text("abc", "abc"));
    assert!(!same_text("abc", "abd"));
    assert!(!same_text("abc", "ab"));
    assert!(Separator::Feed.is_at('\n'));
    assert!(!Separator::Feed.is_at('\r'));
}
