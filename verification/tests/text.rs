use context_engine_rs::text::contains;
use context_engine_rs::text::ends_with;
use context_engine_rs::text::from_chars;
use context_engine_rs::text::is_blank;
use context_engine_rs::text::is_whitespace;
use context_engine_rs::text::join_range;
use context_engine_rs::text::push_decimal;
use context_engine_rs::text::push_signed;
use context_engine_rs::text::split_lines;
use context_engine_rs::text::tail_start;
use context_engine_rs::text::to_chars;
use context_engine_rs::text::trim;
use context_engine_rs::text::trim_end_char;
use context_engine_rs::text::trim_start_char;
use context_engine_rs::text::width;

const SAMPLES: [&str; 9] = [
    "",
    " ",
    "a",
    "  a b\t",
    "\u{2003}x\u{3000}",
    "line\r\nnext\n\nlast\r",
    "\n\n",
    "é ß ⟨⟩",
    "___x_y__",
];

#[test]
fn trimming_agrees_with_std() {
    for s in SAMPLES {
        assert_eq!(trim(s), s.trim());
        assert_eq!(is_blank(s), s.trim().is_empty());
        assert_eq!(trim_end_char(s, '_'), s.trim_end_matches('_'));
        assert_eq!(trim_start_char(s, '_'), s.trim_start_matches('_'));
    }
}

#[test]
fn white_space_agrees_with_std() {
    for u in 0..0x1_1000u32 {
        if let Some(c) = char::from_u32(u) {
            assert_eq!(is_whitespace(c), c.is_whitespace(), "{u:x}");
            assert_eq!(width(c), c.len_utf8());
        }
    }
}

#[test]
fn lines_agree_with_std() {
    for s in SAMPLES {
        let expected: Vec<&str> = s.lines().collect();
        assert_eq!(split_lines(s), expected);
    }
}

#[test]
fn searching_agrees_with_std() {
    for s in SAMPLES {
        for t in ["", "a", "x", "__", "⟩", "last\r", "nothing"] {
            assert_eq!(contains(s, t), s.contains(t));
            assert_eq!(ends_with(s, t), s.ends_with(t));
        }
    }
}

#[test]
fn characters_round_trip() {
    for s in SAMPLES {
        let chars = to_chars(s);
        assert_eq!(from_chars(&chars, 0, chars.len()), s);
    }
}

#[test]
fn joining() {
    let parts: Vec<String> = ["a", "b", "c"].iter().map(|s| s.to_string()).collect();
    assert_eq!(join_range(&parts, 0, 3, ", "), "a, b, c");
    assert_eq!(join_range(&parts, 1, 2, ", "), "b");
    assert_eq!(join_range(&parts, 1, 1, ", "), "");
}

#[test]
fn numerals() {
    let mut s = String::new();
    push_decimal(&mut s, 0);
    s.push(' ');
    push_decimal(&mut s, u64::MAX);
    s.push(' ');
    push_signed(&mut s, i64::MIN);
    s.push(' ');
    push_signed(&mut s, 42);
    assert_eq!(s, format!("0 {} {} 42", u64::MAX, i64::MIN));
}

#[test]
fn tails_start_at_characters() {
    assert_eq!(tail_start(&to_chars("abcd"), 2), 2);
    assert_eq!(tail_start(&to_chars("abcd"), 4), 0);
    assert_eq!(tail_start(&to_chars("abcd"), usize::MAX), 0);
    assert_eq!(tail_start(&to_chars("abcd"), 0), 4);
    assert_eq!(tail_start(&to_chars("aé"), 2), 1);
    assert_eq!(tail_start(&to_chars("éa"), 2), 1);
}
