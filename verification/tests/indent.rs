use napi_typedef::indent::correct_str_indent;

#[test]
fn should_indent_str_correctly() {
    let raw = r#"
class A {
  foo() {
    a = b
  }

bar = () => {

}
    boz = 1
  }

namespace B {
    namespace C {
type D = A
    }
}
"#;
    let expected = r#"
class A {
  foo() {
    a = b
  }

  bar = () => {

  }
  boz = 1
}

namespace B {
  namespace C {
    type D = A
  }
}
"#;
    assert_eq!(correct_str_indent(raw, 0), expected);
}

#[test]
fn indent_of_empty_text_is_empty() {
    assert_eq!(correct_str_indent("", 0), "");
    assert_eq!(correct_str_indent("", 4), "");
}

#[test]
fn indent_applies_base_to_every_line() {
    assert_eq!(correct_str_indent("a\nb\n", 2), "  a\n  b\n");
    assert_eq!(correct_str_indent("a {\nb\n}\n", 2), "  a {\n    b\n  }\n");
}

#[test]
fn indent_keeps_a_final_line_feed_only_where_there_was_one() {
    assert_eq!(correct_str_indent("a", 0), "a");
    assert_eq!(correct_str_indent("a\n", 0), "a\n");
    assert_eq!(correct_str_indent("a\n\n", 0), "a\n\n");
    assert_eq!(correct_str_indent("\n", 3), "\n");
}

#[test]
fn indent_leaves_blank_lines_empty() {
    assert_eq!(correct_str_indent("a {\n   \t \nb\n}", 2), "  a {\n\n    b\n  }");
    assert_eq!(correct_str_indent("   ", 2), "");
    assert_eq!(correct_str_indent("a\n  ", 0), "a\n");
}

#[test]
fn indent_gives_comment_lines_one_more_space() {
    let raw = "/**\n* doc {\n* more }\n*/\nfoo() {\n/**\n* inner\n*/\nbar\n}\n";
    let expected = "/**\n * doc {\n * more }\n */\nfoo() {\n  /**\n   * inner\n   */\n  bar\n}\n";
    assert_eq!(correct_str_indent(raw, 0), expected);
}

#[test]
fn indent_ignores_a_closing_brace_at_depth_zero() {
    assert_eq!(correct_str_indent("}\na\n}\n", 0), "}\na\n}\n");
    assert_eq!(correct_str_indent("}\na {\nb\n}\n}\nc", 1), " }\n a {\n   b\n }\n }\n c");
}

#[test]
fn indent_trims_carriage_returns_and_wide_spaces() {
    assert_eq!(correct_str_indent("a {\r\n\tb\r\n}\r\n", 0), "a {\n  b\n}\n");
    assert_eq!(correct_str_indent("\u{3000}a\u{a0}\n\u{2003}b\u{85}", 1), " a\n b");
}

#[test]
fn indent_counts_braces_only_at_line_ends() {
    assert_eq!(correct_str_indent("a { b\nc } d\n{ e }\nf", 0), "a { b\nc } d\n{ e }\nf");
    assert_eq!(correct_str_indent("x = {\ny: {},\nz\n}", 0), "x = {\n  y: {},\n  z\n}");
}

#[test]
fn indent_is_idempotent_on_samples() {
    let samples = [
        "",
        "\n",
        "a",
        "  a  \n",
        "class A {\nfoo() {\na = b\n}\n}\n",
        "/**\n* doc\n*/\nx {\n}\n}\n   ",
        "a {\r\n b {\r\n c\r\n }\r\n}",
        "}\n}\n{\n{\n* x {\n",
    ];
    for sample in samples {
        for indent in [0usize, 1, 2, 7] {
            let once = correct_str_indent(sample, indent);
            let twice = correct_str_indent(&once, indent);
            assert_eq!(once, twice);
        }
    }
}
