use mdbook_grammar::lexer::{
    is_digit, is_hex_number, is_id_continue, is_id_start, is_newline, Lexer,
};
use mdbook_grammar::{SyntaxKind, SyntaxNode};

fn first(next: &str, more: &str) -> SyntaxNode {
    Lexer::new(format!("{next}{more}").as_str()).next()
}

fn check(kind: SyntaxKind, next: &str, more: &str) {
    let node = first(next, more);
    assert_eq!(node.kind(), kind);
    assert_eq!(node.span(), (0..next.len()));
}

#[test]
fn test_whitespace() {
    check(SyntaxKind::Whitespace, "  \n  ", "123");
}

#[test]
fn test_line_comment() {
    check(SyntaxKind::Comment, "// comment", "\n123");
}

#[test]
fn test_block_comment() {
    check(SyntaxKind::Comment, "/* comment \n comment */", "123");
}

#[test]
fn test_block_comment_unopened() {
    check(SyntaxKind::Error, "*/", "123");
}

#[test]
fn test_block_comment_unclosed() {
    check(SyntaxKind::Error, "/* comment", "");
}

#[test]
fn test_end() {
    check(SyntaxKind::End, "", "");
}

#[test]
fn test_string() {
    check(SyntaxKind::String, r#""str\u{123abc}\n\f123""#, "123");
}

#[test]
fn test_string_invalid_escape() {
    check(SyntaxKind::Error, r#""\a""#, "");
}

#[test]
fn test_string_invalid_unicode() {
    check(SyntaxKind::Error, r#""\u{xyz}""#, "");
}

#[test]
fn test_string_unclosed_unicode() {
    check(SyntaxKind::Error, r#""\u{123abchahahaha""#, "");
}

#[test]
fn test_string_unclosed() {
    check(SyntaxKind::Error, r#""hahahaha"#, "");
}

#[test]
fn test_integer() {
    check(SyntaxKind::Integer, "123", "abc");
}

#[test]
fn test_identifier() {
    check(SyntaxKind::Identifier, "abc_123_haha", "-123");
}

#[test]
fn test_meta() {
    check(SyntaxKind::Meta, "<if1 \n@$%/\\()[]{}:;>", "123");
}

#[test]
fn test_if() {
    check(SyntaxKind::Action, "if hahahaha", "-> 123123;");
    check(SyntaxKind::Action, "if hahahaha", ";");
    check(SyntaxKind::Action, "if hahahaha", "");
}

#[test]
fn test_arrow() {
    check(SyntaxKind::Action, "-> hahahaha", ";");
    check(SyntaxKind::Action, "-> hahahaha", "");
}

#[test]
fn test_symbol() {
    for symbol in [
        ":", ";", "(", ")", "{", "}", ",", "|", "~", ".", "?", "*", "+", "..", "?=", "?!", "?<=",
        "?<!", "?",
    ] {
        let node = Lexer::new(format!("{symbol}abc123").as_str()).next();
        assert!(node.kind().is_operator());
        assert_eq!(node.span(), 0..symbol.len());
        assert_eq!(node.text(), symbol);
    }
}

#[test]
fn test_unexpected() {
    check(SyntaxKind::Error, "%", "");
}

fn error_of(node: &SyntaxNode) -> (String, Vec<String>) {
    let error = node.as_error().unwrap();
    (error.message.clone(), error.hints.clone())
}

#[test]
fn lexer_error_messages() {
    assert_eq!(
        error_of(&first("*/", "")),
        (
            "unexpected end of block comment".to_string(),
            vec!["consider opening the block comment with `/*`".to_string()]
        )
    );
    assert_eq!(
        error_of(&first("/* never", "")),
        (
            "unclosed block comment".to_string(),
            vec!["consider closing the block comment with `*/`".to_string()]
        )
    );
    assert_eq!(
        error_of(&first("<meta", "")),
        ("unclosed meta".to_string(), vec!["consider closing the meta with `>`".to_string()])
    );
    assert_eq!(error_of(&first("%", "rest")), ("unexpected character '%'".to_string(), vec![]));
    assert_eq!(error_of(&first("\u{e9}", "")), ("unexpected character '\u{e9}'".to_string(), vec![]));
    assert_eq!(
        error_of(&first("\"abc", "")),
        (
            "unclosed string literal".to_string(),
            vec!["consider closing the string literal with `\"`".to_string()]
        )
    );
    assert_eq!(error_of(&first(r#""\a""#, "")), ("invalid escape sequence".to_string(), vec![]));
    assert_eq!(
        error_of(&first(r#""\u{xyz}""#, "")),
        ("invalid unicode escape".to_string(), vec!["unicode must be a hex number".to_string()])
    );
    assert_eq!(
        error_of(&first(r#""\u{12"#, "")),
        (
            "unclosed string literal".to_string(),
            vec!["consider closing the string literal with `\"`".to_string()]
        )
    );
    assert_eq!(
        error_of(&first(r#""\u{12""#, " tail")),
        (
            "unclosed unicode escape".to_string(),
            vec!["consider closing the unicode escape with `}`".to_string()]
        )
    );
    assert_eq!(
        error_of(&first(r#""\u{12 " "#, "")),
        (
            "unclosed unicode escape".to_string(),
            vec!["consider closing the unicode escape with `}`".to_string()]
        )
    );
}

#[test]
fn lexer_later_error_replaces_earlier() {
    let node = first(r#""\a\u{zz}""#, "");
    assert_eq!(node.kind(), SyntaxKind::Error);
    assert_eq!(node.as_error().unwrap().message, "invalid unicode escape");
    let node = first(r#""\u{zz}\a""#, "");
    assert_eq!(node.as_error().unwrap().message, "invalid escape sequence");
    assert_eq!(node.as_error().unwrap().hints.len(), 0);
}

#[test]
fn lexer_unicode_escapes() {
    check(SyntaxKind::String, r#""\u00e9""#, "");
    check(SyntaxKind::String, r#""\uABCD""#, " x");
    check(SyntaxKind::Error, r#""\u00g9""#, "");
    check(SyntaxKind::Error, r#""\u+123""#, "");
    check(SyntaxKind::Error, r#""\u{}""#, "");
    check(SyntaxKind::String, r#""\u{ffffffffffffffff}""#, "");
    check(SyntaxKind::Error, r#""\u{10000000000000000}""#, "");
    check(SyntaxKind::String, r#""\u{00000000000000000001}""#, "");
}

#[test]
fn lexer_block_comment_ends_at_first_close() {
    check(SyntaxKind::Comment, "/***/", "*/");
    check(SyntaxKind::Comment, "/* a **/", " b */");
    check(SyntaxKind::Error, "/*/", "");
}

#[test]
fn lexer_spans_are_byte_offsets() {
    let text = "\u{e9}\u{4e2d}";
    let mut lexer = Lexer::new("// \u{e9}\u{4e2d}\u{1f600}\nx");
    let comment = lexer.next();
    assert_eq!(comment.kind(), SyntaxKind::Comment);
    assert_eq!(comment.span(), 0..(3 + text.len() + 4));
    assert_eq!(comment.text(), "// \u{e9}\u{4e2d}\u{1f600}");
    let newline = lexer.next();
    assert_eq!(newline.kind(), SyntaxKind::Whitespace);
    assert_eq!(newline.span(), 12..13);
    let name = lexer.next();
    assert_eq!(name.kind(), SyntaxKind::Identifier);
    assert_eq!(name.span(), 13..14);
}

#[test]
fn lexer_end_is_stable() {
    let mut lexer = Lexer::new("a");
    assert!(!lexer.done());
    assert_eq!(lexer.next().kind(), SyntaxKind::Identifier);
    assert!(lexer.done());
    for _ in 0..3 {
        let end = lexer.next();
        assert_eq!(end.kind(), SyntaxKind::End);
        assert_eq!(end.span(), 1..1);
        assert_eq!(end.text(), "");
        assert!(lexer.done());
    }
}

#[test]
fn lexer_every_step_advances() {
    let text = "foo: (?<= \"a\" .. \"z\")* | ~<m>{2,3}? if x -> y; /* c */ // d\n %\u{e9} \"open";
    let mut lexer = Lexer::new(text);
    let mut at = 0;
    let mut collected = String::new();
    while !lexer.done() {
        let node = lexer.next();
        assert_ne!(node.kind(), SyntaxKind::End);
        assert_eq!(node.span().start, at);
        assert!(node.span().end > at);
        at = node.span().end;
        collected.push_str(&node.source_text());
    }
    assert_eq!(at, text.len());
    assert_eq!(collected, text);
}

#[test]
fn lexer_jump_goes_back() {
    let mut lexer = Lexer::new("ab \u{e9}cd");
    let first = lexer.next();
    assert_eq!(first.text(), "ab");
    lexer.next();
    let error = lexer.next();
    assert_eq!(error.kind(), SyntaxKind::Error);
    assert_eq!(error.span(), 3..5);
    lexer.jump(0);
    assert_eq!(lexer.next().text(), "ab");
    lexer.jump(4);
    let again = lexer.next();
    assert_eq!(again.span(), 3..5);
    lexer.jump(100);
    assert!(lexer.done());
}

#[test]
fn lexer_actions() {
    let node = first("if a -> b; c", "");
    assert_eq!(node.kind(), SyntaxKind::Action);
    assert_eq!(node.text(), "");
    assert_eq!(node.span(), 0..5);
    let children = node.children();
    assert_eq!(children.len(), 2);
    assert_eq!(children[0].kind(), SyntaxKind::If);
    assert_eq!(children[0].text(), "if");
    assert_eq!(children[0].span(), 0..2);
    assert_eq!(children[1].kind(), SyntaxKind::Operation);
    assert_eq!(children[1].text(), " a ");
    assert_eq!(children[1].span(), 2..5);
    let node = first("-> a -> b; c", "");
    let children = node.children();
    assert_eq!(children[0].kind(), SyntaxKind::Arrow);
    assert_eq!(children[1].text(), " a -> b");
    assert!(!node.erroneous());
}

#[test]
fn lexer_numeric_and_identifier_runs() {
    check(SyntaxKind::Integer, "0123456789", " ");
    check(SyntaxKind::Identifier, "_x9", "\u{e9}");
    check(SyntaxKind::Identifier, "iff", " x");
    check(SyntaxKind::Identifier, "i", "");
    check(SyntaxKind::Error, "-", "x");
    check(SyntaxKind::Error, "/", "x");
    check(SyntaxKind::Error, "[", "");
    check(SyntaxKind::Dot, ".", "x");
    check(SyntaxKind::Question, "?", "<x");
}

#[test]
fn lexer_character_classes_follow_unicode() {
    check(SyntaxKind::Whitespace, "\u{a0}\u{2003}\t", "x");
    check(SyntaxKind::Integer, "7", "\u{663}");
    check(SyntaxKind::Error, "\u{663}", "7");
    check(SyntaxKind::Error, "\u{bd}", "");
    check(SyntaxKind::Error, "\u{e9}", "9");
    let node = first("\"\\u{12\u{e9}}\"", "");
    assert_eq!(node.kind(), SyntaxKind::Error);
    assert_eq!(node.as_error().unwrap().message, "invalid unicode escape");
    let node = first("\"\\u{12-}\"", "");
    assert_eq!(node.as_error().unwrap().message, "unclosed unicode escape");
    let node = first("// a\u{2028}b", "");
    assert_eq!(node.text(), "// a");
    let node = first("// a\u{b}b", "");
    assert_eq!(node.text(), "// a");
}

#[test]
fn hex_numbers() {
    for text in ["0", "9", "a", "F", "0123456789abcdefABCDEF"[..16].as_ref(), "ffffffffffffffff", "000000000000000000000"] {
        assert!(is_hex_number(text), "{text}");
    }
    for text in ["", "g", "+1", "-1", " 1", "1 ", "0x1", "10000000000000000", "1_0", "\u{663}"] {
        assert!(!is_hex_number(text), "{text}");
    }
}

#[test]
fn identifier_characters() {
    for c in ['a', 'z', 'A', 'Z', '_'] {
        assert!(is_id_start(c));
        assert!(is_id_continue(c));
    }
    for c in ['0', '9'] {
        assert!(!is_id_start(c));
        assert!(is_id_continue(c));
        assert!(is_digit(c));
    }
    for c in ['a', '/', ':', '\u{663}', '\u{bd}'] {
        assert!(!is_digit(c));
    }
    for c in ['-', ' ', '\u{e9}', '\u{663}', '`', '{'] {
        assert!(!is_id_start(c));
        assert!(!is_id_continue(c));
    }
    for c in ['\n', '\x0B', '\x0C', '\r', '\u{85}', '\u{2028}', '\u{2029}'] {
        assert!(is_newline(c));
    }
    for c in [' ', '\t', 'n', '\u{a0}'] {
        assert!(!is_newline(c));
    }
}

fn has_white_space(c: char) -> bool {
    matches!(
        c,
        '\u{0009}'..='\u{000D}'
            | '\u{0020}'
            | '\u{0085}'
            | '\u{00A0}'
            | '\u{1680}'
            | '\u{2000}'..='\u{200A}'
            | '\u{2028}'
            | '\u{2029}'
            | '\u{202F}'
            | '\u{205F}'
            | '\u{3000}'
    )
}

#[test]
fn whitespace_is_the_white_space_property() {
    let mut count = 0;
    let mut text = String::new();
    for c in '\u{0}'..=char::MAX {
        text.clear();
        text.push(c);
        let node = Lexer::new(&text).next();
        assert_eq!(node.kind() == SyntaxKind::Whitespace, has_white_space(c), "{c:?}");
        if has_white_space(c) {
            count += 1;
            assert_eq!(node.span(), 0..c.len_utf8());
        }
    }
    assert_eq!(count, 25);
}

#[test]
fn whitespace_runs_end_at_other_characters() {
    check(SyntaxKind::Whitespace, "\u{3000}\u{205f}\u{202f}\u{1680}\u{85}\r\n", "\u{200b}");
    check(SyntaxKind::Error, "\u{200b}", " ");
    check(SyntaxKind::Error, "\u{180e}", " ");
    check(SyntaxKind::Error, "\u{feff}", " ");
    check(SyntaxKind::Error, "\u{1f}", " ");
}
