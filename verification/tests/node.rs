use mdbook_grammar::{SyntaxError, SyntaxKind, SyntaxNode};

#[test]
fn kind_predicates() {
    assert!(SyntaxKind::Error.is_error());
    assert!(!SyntaxKind::End.is_error());
    assert!(SyntaxKind::End.is_end());
    assert!(!SyntaxKind::Root.is_end());
    assert!(SyntaxKind::Whitespace.is_trivia());
    assert!(SyntaxKind::Comment.is_trivia());
    assert!(!SyntaxKind::Identifier.is_trivia());
    for kind in [
        SyntaxKind::LookAheadPos,
        SyntaxKind::LookAheadNeg,
        SyntaxKind::LookBehindPos,
        SyntaxKind::LookBehindNeg,
    ] {
        assert!(kind.is_looking());
        assert!(kind.is_operator());
        assert!(!kind.is_prefix());
    }
    for kind in [SyntaxKind::Question, SyntaxKind::Star, SyntaxKind::Plus, SyntaxKind::LeftBrace] {
        assert!(kind.is_prefix());
        assert!(kind.is_operator());
        assert!(!kind.is_looking());
    }
    for kind in [
        SyntaxKind::Root,
        SyntaxKind::Comment,
        SyntaxKind::Whitespace,
        SyntaxKind::End,
        SyntaxKind::Error,
        SyntaxKind::Identifier,
        SyntaxKind::String,
        SyntaxKind::Integer,
        SyntaxKind::Meta,
        SyntaxKind::Operation,
        SyntaxKind::If,
        SyntaxKind::Rule,
        SyntaxKind::Param,
        SyntaxKind::Definition,
        SyntaxKind::Group,
        SyntaxKind::Converse,
        SyntaxKind::Range,
        SyntaxKind::Repeating,
        SyntaxKind::BraceIndicator,
        SyntaxKind::Looking,
        SyntaxKind::Action,
        SyntaxKind::Reference,
    ] {
        assert!(!kind.is_operator());
        assert!(!kind.is_prefix());
    }
    assert!(!SyntaxKind::RightBrace.is_prefix());
    assert!(SyntaxKind::RightBrace.is_operator());
}

#[test]
fn every_symbol_is_an_operator() {
    for kind in [
        SyntaxKind::Colon,
        SyntaxKind::SemiColon,
        SyntaxKind::Arrow,
        SyntaxKind::LeftBracket,
        SyntaxKind::RightBracket,
        SyntaxKind::LeftParen,
        SyntaxKind::RightParen,
        SyntaxKind::LeftBrace,
        SyntaxKind::RightBrace,
        SyntaxKind::Comma,
        SyntaxKind::Bar,
        SyntaxKind::Tilde,
        SyntaxKind::Dot,
        SyntaxKind::Question,
        SyntaxKind::Star,
        SyntaxKind::Plus,
        SyntaxKind::Dots,
        SyntaxKind::LookAheadPos,
        SyntaxKind::LookAheadNeg,
        SyntaxKind::LookBehindPos,
        SyntaxKind::LookBehindNeg,
    ] {
        assert!(kind.is_operator());
        assert!(!kind.is_trivia());
        assert!(!kind.is_error());
        assert!(!kind.is_end());
    }
}

#[test]
fn kind_names() {
    assert_eq!(SyntaxKind::Root.name(), "root");
    assert_eq!(SyntaxKind::Identifier.name(), "identifier");
    assert_eq!(SyntaxKind::If.name(), "if");
    assert_eq!(SyntaxKind::SemiColon.name(), "`;`");
    assert_eq!(SyntaxKind::Arrow.name(), "`->`");
    assert_eq!(SyntaxKind::LookBehindNeg.name(), "`?<!`");
    assert_eq!(SyntaxKind::BraceIndicator.name(), "brace_indicator");
    assert_eq!(SyntaxKind::End.name(), "end");
}

#[test]
fn leaf_holds_what_it_was_given() {
    let node = SyntaxNode::leaf(SyntaxKind::Identifier, "name", 3..7);
    assert_eq!(node.kind(), SyntaxKind::Identifier);
    assert_eq!(node.text(), "name");
    assert_eq!(node.span(), 3..7);
    assert_eq!(node.children().len(), 0);
    assert!(!node.erroneous());
    assert!(node.as_error().is_none());
    assert_eq!(node.source_text(), "name");
}

#[test]
fn inner_spans_and_propagates_errors() {
    let empty = SyntaxNode::inner(SyntaxKind::Definition, vec![]);
    assert_eq!(empty.span(), 0..0);
    assert_eq!(empty.text(), "");
    assert!(!empty.erroneous());

    let clean = SyntaxNode::inner(
        SyntaxKind::Range,
        vec![
            SyntaxNode::leaf(SyntaxKind::String, "\"a\"", 4..7),
            SyntaxNode::leaf(SyntaxKind::Dots, "..", 7..9),
            SyntaxNode::leaf(SyntaxKind::String, "\"b\"", 9..12),
        ],
    );
    assert_eq!(clean.kind(), SyntaxKind::Range);
    assert_eq!(clean.span(), 4..12);
    assert_eq!(clean.text(), "");
    assert_eq!(clean.children().len(), 3);
    assert!(!clean.erroneous());
    assert_eq!(clean.source_text(), "\"a\"..\"b\"");

    let broken = SyntaxNode::inner(
        SyntaxKind::Group,
        vec![
            SyntaxNode::leaf(SyntaxKind::LeftParen, "(", 0..1),
            clean.clone(),
            SyntaxNode::error(SyntaxError::new("m"), "%", 12..13),
        ],
    );
    assert!(broken.erroneous());
    let outer = SyntaxNode::inner(SyntaxKind::Definition, vec![broken]);
    assert!(outer.erroneous());
    assert_eq!(outer.span(), 0..13);
    assert_eq!(outer.source_text(), "(\"a\"..\"b\"%");
    assert_eq!(outer.clone(), outer);
}

#[test]
fn error_node_reports_error() {
    let mut error = SyntaxError::new("message");
    assert_eq!(error.message, "message");
    assert!(error.hints.is_empty());
    error.hint("first");
    error.hint("second");
    assert_eq!(error.hints, vec!["first".to_string(), "second".to_string()]);

    let mut node = SyntaxNode::error(error.clone(), "text", 1..5);
    assert_eq!(node.kind(), SyntaxKind::Error);
    assert_eq!(node.text(), "text");
    assert_eq!(node.span(), 1..5);
    assert!(node.erroneous());
    assert_eq!(node.as_error(), Some(&error));
    node.hints("third");
    assert_eq!(node.as_error().unwrap().hints.len(), 3);
    assert_eq!(node.as_error().unwrap().hints[2], "third");

    node.convert_kind(SyntaxKind::Identifier);
    assert_eq!(node.kind(), SyntaxKind::Error);
    node.convert_to_error("other");
    assert_eq!(node.as_error().unwrap().message, "message");
}

#[test]
fn conversions_keep_text_and_span() {
    let mut node = SyntaxNode::leaf(SyntaxKind::If, "if", 2..4);
    node.hints("ignored");
    assert!(node.as_error().is_none());
    node.convert_kind(SyntaxKind::Identifier);
    assert_eq!(node.kind(), SyntaxKind::Identifier);
    assert_eq!(node.text(), "if");
    assert_eq!(node.span(), 2..4);
    node.convert_to_error("expected");
    assert_eq!(node.kind(), SyntaxKind::Error);
    assert_eq!(node.text(), "if");
    assert_eq!(node.span(), 2..4);
    assert_eq!(node.as_error().unwrap().message, "expected");
    assert!(node.as_error().unwrap().hints.is_empty());
    assert!(node.erroneous());

    let mut action = SyntaxNode::inner(
        SyntaxKind::Action,
        vec![
            SyntaxNode::leaf(SyntaxKind::If, "if", 0..2),
            SyntaxNode::leaf(SyntaxKind::Operation, " x ", 2..5),
        ],
    );
    action.convert_kind(SyntaxKind::Group);
    assert_eq!(action.kind(), SyntaxKind::Group);
    assert_eq!(action.children().len(), 2);
    action.convert_to_error("unexpected action");
    assert_eq!(action.kind(), SyntaxKind::Error);
    assert_eq!(action.children().len(), 0);
    assert_eq!(action.text(), "if x ");
    assert_eq!(action.span(), 0..5);
}
