use napi_typedef::lex::{bytes_lt, str_lt};
use napi_typedef::loader::record_lines;
use napi_typedef::text::{
    chars_of, find_line_end, is_whitespace_char, push_range, push_spaces, trim_bounds,
};

#[test]
fn whitespace_is_what_the_standard_library_calls_whitespace() {
    let mut code: u32 = 0;
    while code <= 0x10FFFF {
        if let Some(c) = char::from_u32(code) {
            assert_eq!(is_whitespace_char(c), c.is_whitespace(), "U+{:04X}", code);
        }
        code += 1;
    }
}

#[test]
fn chars_of_lists_the_characters() {
    assert_eq!(chars_of(""), Vec::<char>::new());
    assert_eq!(chars_of("a\u{e9}\u{1F600}"), vec!['a', '\u{e9}', '\u{1F600}']);
}

#[test]
fn push_range_and_push_spaces_append() {
    let v = vec!['a', 'b', 'c', 'd'];
    let mut s = String::from("x");
    push_range(&mut s, &v, 1, 3);
    assert_eq!(s, "xbc");
    push_spaces(&mut s, 3);
    assert_eq!(s, "xbc   ");
    push_range(&mut s, &v, 2, 2);
    push_spaces(&mut s, 0);
    assert_eq!(s, "xbc   ");
}

#[test]
fn find_line_end_stops_at_the_line_feed() {
    let v = chars_of("ab\ncd");
    assert_eq!(find_line_end(&v, 0), 2);
    assert_eq!(find_line_end(&v, 2), 2);
    assert_eq!(find_line_end(&v, 3), 5);
    assert_eq!(find_line_end(&v, 5), 5);
}

#[test]
fn trim_bounds_agree_with_trim() {
    let samples = ["", " ", "a", "  a b \t", "\u{3000}x\u{2028}", "\r\n", " \u{e9} "];
    for sample in samples {
        let v = chars_of(sample);
        let (a, b) = trim_bounds(&v, 0, v.len());
        let got: String = v[a..b].iter().collect();
        assert_eq!(got, sample.trim());
    }
    let v = chars_of("ab  cd  ef");
    assert_eq!(trim_bounds(&v, 2, 8), (4, 6));
    assert_eq!(trim_bounds(&v, 2, 4), (4, 4));
}

#[test]
fn names_compare_by_their_bytes() {
    let samples = ["", "a", "A", "ab", "b", "_", "Z", "\u{e9}", "z\u{e9}", "\u{1F600}", "\u{ffff}"];
    for a in samples {
        for b in samples {
            assert_eq!(str_lt(a, b), a < b, "{:?} < {:?}", a, b);
            assert_eq!(bytes_lt(a.as_bytes(), b.as_bytes()), a.as_bytes() < b.as_bytes());
        }
    }
    assert!(str_lt("Foo", "Foo2"));
    assert!(!str_lt("Foo", "Foo"));
    assert!(str_lt("Ns", "__TOP_LEVEL__"));
    assert!(str_lt("__TOP_LEVEL__", "ns"));
}

#[test]
fn record_lines_skips_empty_lines() {
    assert_eq!(record_lines(""), Vec::<String>::new());
    assert_eq!(record_lines("\n\n"), Vec::<String>::new());
    assert_eq!(record_lines("a\n\nb\n"), vec!["a", "b"]);
    assert_eq!(record_lines("a\nb"), vec!["a", "b"]);
    assert_eq!(record_lines("a\r\n\r\nb\r\n"), vec!["a", "b"]);
    assert_eq!(record_lines(" \n"), vec![" "]);
}

#[test]
fn record_lines_agree_with_the_standard_library() {
    let samples = [
        "",
        "\n",
        "\r\n",
        "\r",
        "a",
        "a\r",
        "a\r\nb\r",
        "a\r\r\n",
        "{\"kind\":\"fn\"}\n\n{\"kind\":\"const\"}\n",
        "x\n\r\ny\n\n\nz",
    ];
    for sample in samples {
        let expected: Vec<String> =
            sample.lines().filter(|l| !l.is_empty()).map(String::from).collect();
        assert_eq!(record_lines(sample), expected, "{:?}", sample);
    }
}
