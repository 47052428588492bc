use tinyproxy::text::{is_whitespace, CharClass, Text};

fn text(s: &str) -> Text {
    Text::from_string(s.to_string())
}

fn whole(t: &Text) -> String {
    t.slice(0, t.len())
}

#[test]
fn whitespace_is_what_std_calls_whitespace() {
    for code in 0..=0x10FFFFu32 {
        if let Some(c) = char::from_u32(code) {
            assert_eq!(is_whitespace(c), c.is_whitespace(), "U+{:04X}", code);
        }
    }
}

#[test]
fn char_classes_hold_of_their_characters() {
    assert!(CharClass::LineFeed.test('\n'));
    assert!(!CharClass::LineFeed.test('\r'));
    assert!(CharClass::Colon.test(':'));
    assert!(!CharClass::Colon.test(';'));
    assert!(CharClass::Blank.test(' '));
    assert!(CharClass::Blank.test('\t'));
    assert!(CharClass::Blank.test('\u{a0}'));
    assert!(!CharClass::Blank.test('a'));
    assert!(CharClass::Visible.test('a'));
    assert!(CharClass::Visible.test('\u{fffd}'));
    assert!(!CharClass::Visible.test('\r'));
}

#[test]
fn text_keeps_the_characters_of_its_string() {
    let t = text("h\u{e9}llo \u{1F600}");
    assert_eq!(t.len(), 7);
    assert_eq!(t.char_at(1), '\u{e9}');
    assert_eq!(t.char_at(6), '\u{1F600}');
    assert_eq!(whole(&t), "h\u{e9}llo \u{1F600}");
    assert_eq!(t.slice(1, 5), "\u{e9}llo");
    assert_eq!(t.slice(3, 3), "");
    assert_eq!(text("").len(), 0);
}

#[test]
fn decode_keeps_valid_utf8() {
    let t = Text::decode("GET / h\u{e9}\u{4e2d}".as_bytes());
    assert_eq!(whole(&t), "GET / h\u{e9}\u{4e2d}");
    assert_eq!(t.len(), 9);
}

#[test]
fn decode_replaces_what_is_no_utf8() {
    let t = Text::decode(&[b'f', 0xff, b'o', 0xc3]);
    assert_eq!(whole(&t), "f\u{fffd}o\u{fffd}");
    assert_eq!(t.len(), 4);
    let t = Text::decode(&[0xe2, 0x82, b'a']);
    assert_eq!(whole(&t), "\u{fffd}a");
}

#[test]
fn find_next_gives_the_first_position_of_the_class() {
    let t = text("ab: cd\nef");
    assert_eq!(t.find_next(CharClass::Colon, 0), 2);
    assert_eq!(t.find_next(CharClass::Colon, 2), 2);
    assert_eq!(t.find_next(CharClass::Colon, 3), 9);
    assert_eq!(t.find_next(CharClass::Blank, 0), 3);
    assert_eq!(t.find_next(CharClass::Blank, 4), 6);
    assert_eq!(t.find_next(CharClass::Visible, 3), 4);
    assert_eq!(t.find_next(CharClass::LineFeed, 0), 6);
    assert_eq!(t.find_next(CharClass::LineFeed, 7), 9);
    assert_eq!(t.find_next(CharClass::Visible, 9), 9);
    assert_eq!(t.find_next(CharClass::Visible, 100), 9);
}

#[test]
fn find_visible_end_skips_the_white_space_at_the_end() {
    assert_eq!(text("ab \t\r\n").find_visible_end(), 2);
    assert_eq!(text("ab").find_visible_end(), 2);
    assert_eq!(text(" \n ").find_visible_end(), 0);
    assert_eq!(text("").find_visible_end(), 0);
    assert_eq!(text(" a b").find_visible_end(), 4);
}

#[test]
fn trimmed_from_agrees_with_std_trim() {
    let samples = [
        "", " ", "a", "  a b  ", "\t example.com:8080 \r", "a\u{a0}", "\u{2003}x\u{3000}", "x  ",
        "   x", " \r\n", "ab  cd",
    ];
    for sample in samples {
        let t = text(sample);
        let chars: Vec<char> = sample.chars().collect();
        for from in 0..=chars.len() {
            let rest: String = chars[from..].iter().collect();
            assert_eq!(t.trimmed_from(from), rest.trim(), "{:?} from {}", sample, from);
        }
        assert_eq!(t.trimmed_from(chars.len() + 3), "");
    }
}

#[test]
fn lines_agree_with_std_lines() {
    let samples = [
        "", "\n", "a", "a\n", "a\r\n", "a\n\nb", "foo\r\nbar\n\nbaz", "\r\n", "a\r\r\nb", "x\ny\n",
        "\n\n", "GET / HTTP/1.1\r\nHost: example.com\r\nAccept: */*", "a\rb\nc", "\r", " \n ",
        "one\u{2028}still one\ntwo",
    ];
    for sample in samples {
        let ours: Vec<String> = text(sample).lines().iter().map(whole).collect();
        let theirs: Vec<String> = sample.lines().map(|l| l.to_string()).collect();
        assert_eq!(ours, theirs, "{:?}", sample);
    }
}

#[test]
fn line_keeps_a_carriage_return_that_no_line_feed_follows() {
    let ours: Vec<String> = text("a\r\nb\r").lines().iter().map(whole).collect();
    assert_eq!(ours, vec!["a".to_string(), "b\r".to_string()]);
}

#[test]
fn line_loses_one_carriage_return_only() {
    let ours: Vec<String> = text("a\r\r\n").lines().iter().map(whole).collect();
    assert_eq!(ours, vec!["a\r".to_string()]);
}
