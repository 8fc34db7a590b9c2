use mdbook_grammar::parse_mode;

fn span(mode: &str) -> String {
    format!("<span class=\"syntax-mode\" mode=\"{mode}\">{mode}</span>")
}

#[test]
fn text_without_tags_stays() {
    for text in ["", "plain text", "{ {#mode a} }", "a }} b", "x {{", "{{other}} and {{ more }}"] {
        assert_eq!(parse_mode(text), text);
    }
}

#[test]
fn modes_become_spans() {
    assert_eq!(parse_mode("{{#mode a}}"), span("a"));
    assert_eq!(
        parse_mode("before {{ \n#mode  one ,two,\tthree  }} after"),
        format!("before {}{}{} after", span("one"), span("two"), span("three"))
    );
    assert_eq!(parse_mode("{{#mode}}"), span(""));
    assert_eq!(parse_mode("{{#mode a,,b,}}"), format!("{}{}{}{}", span("a"), span(""), span("b"), span("")));
    assert_eq!(parse_mode("{{#modes}}"), span("s"));
    assert_eq!(parse_mode("{{#mode a b}}"), span("a b"));
}

#[test]
fn unclosed_tag_ends_with_the_text() {
    assert_eq!(parse_mode("x {{#mode a, b"), format!("x {}{}", span("a"), span("b")));
    assert_eq!(parse_mode("{{#mode a}"), span("a}"));
}

#[test]
fn tags_are_replaced_one_after_the_other() {
    assert_eq!(
        parse_mode("{{#mode a}}{{x}}{{#mode b}}}}"),
        format!("{}{{{{x}}}}{}}}}}", span("a"), span("b"))
    );
    assert_eq!(parse_mode("{{ {{#mode a}}"), format!("{{{{ {}", span("a")));
}

#[test]
fn modes_are_trimmed_of_white_space() {
    for c in '\u{0}'..=char::MAX {
        if c == ',' || c == '}' {
            continue;
        }
        let mode = if c.is_whitespace() { "a".to_string() } else { format!("{c}a{c}") };
        assert_eq!(parse_mode(&format!("{{{{#mode {c}a{c} }}}}")), span(&mode), "{c:?}");
    }
}
