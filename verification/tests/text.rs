use ccplus::text::{
    chars_of, is_whitespace, push_decimal, spells, split_lines, split_words, text_between, text_of,
};

fn strings(items: &[&str]) -> Vec<String> {
    items.iter().map(|item| item.to_string()).collect()
}

#[test]
fn words_are_separated_by_any_white_space() {
    assert_eq!(split_words("TXT/ hello world"), strings(&["TXT/", "hello", "world"]));
    assert_eq!(split_words("  TXT/\t\thello \r"), strings(&["TXT/", "hello"]));
    assert_eq!(split_words("a\u{3000}b\u{a0}c\u{2003}d\u{85}e"), strings(&["a", "b", "c", "d", "e"]));
}

#[test]
fn a_line_of_white_space_has_no_words() {
    assert_eq!(split_words(""), Vec::<String>::new());
    assert_eq!(split_words("   \t \u{2028} "), Vec::<String>::new());
}

#[test]
fn words_agree_with_the_standard_library() {
    let samples = [
        "",
        " ",
        "one",
        " one",
        "one ",
        "FIX/ name = value",
        "\u{1680}x\u{180e}y\u{200b}z\u{202f}w\u{205f}v\u{feff}u",
        "tab\there\nnew\u{b}line\u{c}feed\rreturn",
    ];
    for sample in samples {
        let expected: Vec<String> = sample.split_whitespace().map(|word| word.to_string()).collect();
        assert_eq!(split_words(sample), expected, "{:?}", sample);
    }
}

#[test]
fn white_space_agrees_with_the_standard_library() {
    let mut code: u32 = 0;
    while code <= 0x10ffff {
        if let Some(c) = char::from_u32(code) {
            assert_eq!(is_whitespace(c), c.is_whitespace(), "{:x}", code);
        }
        code += 1;
    }
}

#[test]
fn lines_end_at_line_feeds() {
    assert_eq!(split_lines("a\nb\n"), strings(&["a", "b"]));
    assert_eq!(split_lines("a\nb"), strings(&["a", "b"]));
    assert_eq!(split_lines("a\n\nb"), strings(&["a", "", "b"]));
    assert_eq!(split_lines("\n"), strings(&[""]));
    assert_eq!(split_lines("\n\n"), strings(&["", ""]));
}

#[test]
fn an_empty_text_has_no_lines() {
    assert_eq!(split_lines(""), Vec::<String>::new());
}

#[test]
fn a_carriage_return_stays_in_its_line() {
    assert_eq!(split_lines("a\r\nb"), strings(&["a\r", "b"]));
    assert_eq!(split_words(&split_lines("TXT/ a\r\nb")[0]), strings(&["TXT/", "a"]));
}

#[test]
fn lines_are_as_many_as_the_standard_library_counts() {
    let samples = ["", "\n", "a", "a\n", "a\nb", "a\r\nb\r\n", "\n\na\n\n", "x\ry\n"];
    for sample in samples {
        assert_eq!(split_lines(sample).len(), sample.lines().count(), "{:?}", sample);
    }
}

#[test]
fn decimal_numerals() {
    let cases: [(u128, &str); 8] = [
        (0, "0"),
        (7, "7"),
        (9, "9"),
        (10, "10"),
        (42, "42"),
        (1000, "1000"),
        (18446744073709551616, "18446744073709551616"),
        (u128::MAX, "340282366920938463463374607431768211455"),
    ];
    for (number, numeral) in cases {
        let mut text = String::from("n=");
        push_decimal(&mut text, number);
        assert_eq!(text, format!("n={}", numeral));
    }
}

#[test]
fn characters_and_back() {
    let chars = chars_of("héllo, wörld");
    assert_eq!(chars.len(), 12);
    assert_eq!(chars[1], 'é');
    assert_eq!(text_of(&chars), "héllo, wörld");
    assert_eq!(text_between(&chars, 7, 12), "wörld");
    assert_eq!(text_between(&chars, 3, 3), "");
}

#[test]
fn spelling_is_exact() {
    let chars = chars_of("TXT/");
    assert!(spells(&chars, "TXT/"));
    assert!(!spells(&chars, "TXT"));
    assert!(!spells(&chars, "TXT//"));
    assert!(!spells(&chars, "txt/"));
    assert!(!spells(&chars, ""));
    assert!(spells(&chars_of(""), ""));
}
