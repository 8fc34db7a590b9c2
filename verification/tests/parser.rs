use mdbook_grammar::parser::{parse, Marker, Pattern};
use mdbook_grammar::{SyntaxKind, SyntaxNode};

#[derive(Clone, Eq, PartialEq, Hash, Debug)]
struct TestNode {
    kind: SyntaxKind,
    text: String,
    children: Vec<TestNode>,
}

impl TestNode {
    fn text(&self) -> String {
        format!(
            "{}{}",
            self.text,
            self.children.iter().map(|c| c.text()).collect::<String>()
        )
    }

    fn test(&self) {
        let text = self.text();
        let actual = parse(&text);
        assert!(same(&actual, self), "{text}: {actual:?}");
        assert_eq!(actual.source_text(), text);
        assert!(!actual.erroneous(), "{text}");
    }
}

fn same(node: &SyntaxNode, other: &TestNode) -> bool {
    node.kind() == other.kind
        && *node.text() == other.text
        && node.children().len() == other.children.len()
        && node.children().iter().zip(other.children.iter()).all(|(a, b)| same(a, b))
}

fn default(kind: SyntaxKind) -> &'static str {
    match kind {
        SyntaxKind::Whitespace => " ",
        SyntaxKind::Identifier => "identifier",
        SyntaxKind::String => "\"string\"",
        SyntaxKind::Integer => "1",
        SyntaxKind::Meta => "<meta>",
        SyntaxKind::Operation => " operation ",
        SyntaxKind::If => "if",
        SyntaxKind::Colon => ":",
        SyntaxKind::SemiColon => ";",
        SyntaxKind::Arrow => "->",
        SyntaxKind::LeftParen => "(",
        SyntaxKind::RightParen => ")",
        SyntaxKind::LeftBrace => "{",
        SyntaxKind::RightBrace => "}",
        SyntaxKind::Comma => ",",
        SyntaxKind::Bar => "|",
        SyntaxKind::Tilde => "~",
        SyntaxKind::Dot => ".",
        SyntaxKind::Question => "?",
        SyntaxKind::Star => "*",
        SyntaxKind::Plus => "+",
        SyntaxKind::Dots => "..",
        SyntaxKind::LookAheadPos => "?=",
        SyntaxKind::LookAheadNeg => "?!",
        SyntaxKind::LookBehindPos => "?<=",
        SyntaxKind::LookBehindNeg => "?<!",
        _ => "",
    }
}

fn inner(kind: SyntaxKind, children: Vec<TestNode>) -> TestNode {
    TestNode { kind, text: String::new(), children }
}

fn leaf(kind: SyntaxKind) -> TestNode {
    TestNode { kind, text: default(kind).to_string(), children: Vec::new() }
}

fn leaf_of(kind: SyntaxKind, text: &str) -> TestNode {
    TestNode { kind, text: text.to_string(), children: Vec::new() }
}

fn rule_of(definition: Vec<TestNode>) -> TestNode {
    inner(
        SyntaxKind::Rule,
        vec![
            leaf(SyntaxKind::Identifier),
            leaf(SyntaxKind::Colon),
            inner(SyntaxKind::Definition, definition),
            leaf(SyntaxKind::SemiColon),
        ],
    )
}

fn brace_indicator() -> TestNode {
    inner(
        SyntaxKind::BraceIndicator,
        vec![
            leaf(SyntaxKind::LeftBrace),
            leaf(SyntaxKind::Integer),
            leaf(SyntaxKind::Comma),
            leaf(SyntaxKind::Integer),
            leaf(SyntaxKind::RightBrace),
        ],
    )
}

fn looking(marker: SyntaxKind) -> TestNode {
    inner(
        SyntaxKind::Looking,
        vec![
            leaf(SyntaxKind::LeftParen),
            leaf(marker),
            leaf(SyntaxKind::Identifier),
            leaf(SyntaxKind::RightParen),
        ],
    )
}

fn action(trigger: SyntaxKind) -> TestNode {
    inner(SyntaxKind::Action, vec![leaf(trigger), leaf(SyntaxKind::Operation)])
}

#[test]
fn test_empty() {
    inner(SyntaxKind::Root, vec![]).test();
}

#[test]
fn test_rule_empty() {
    inner(SyntaxKind::Root, vec![rule_of(vec![])]).test();
}

#[test]
fn test_rule_whitespace() {
    inner(SyntaxKind::Root, vec![rule_of(vec![leaf(SyntaxKind::Whitespace)])]).test();
}

#[test]
fn test_rule_line_comment() {
    inner(
        SyntaxKind::Root,
        vec![rule_of(vec![
            leaf_of(SyntaxKind::Comment, "// comment"),
            leaf_of(SyntaxKind::Whitespace, "\n"),
        ])],
    )
    .test();
}

#[test]
fn test_rule_block_comment() {
    inner(SyntaxKind::Root, vec![rule_of(vec![leaf_of(SyntaxKind::Comment, "/* comment */")])])
        .test();
}

#[test]
fn test_rule_identifier() {
    inner(SyntaxKind::Root, vec![rule_of(vec![leaf(SyntaxKind::Identifier)])]).test();
}

#[test]
fn test_rule_string() {
    inner(SyntaxKind::Root, vec![rule_of(vec![leaf(SyntaxKind::String)])]).test();
}

#[test]
fn test_rule_meta() {
    inner(SyntaxKind::Root, vec![rule_of(vec![leaf(SyntaxKind::Meta)])]).test();
}

#[test]
fn test_if_action() {
    inner(
        SyntaxKind::Root,
        vec![inner(
            SyntaxKind::Rule,
            vec![
                leaf(SyntaxKind::Identifier),
                leaf(SyntaxKind::Colon),
                inner(SyntaxKind::Definition, vec![]),
                action(SyntaxKind::If),
                leaf(SyntaxKind::SemiColon),
            ],
        )],
    )
    .test()
}

#[test]
fn test_arrow_action() {
    inner(
        SyntaxKind::Root,
        vec![inner(
            SyntaxKind::Rule,
            vec![
                leaf(SyntaxKind::Identifier),
                leaf(SyntaxKind::Colon),
                inner(SyntaxKind::Definition, vec![]),
                action(SyntaxKind::Arrow),
                leaf(SyntaxKind::SemiColon),
            ],
        )],
    )
    .test()
}

#[test]
fn test_rule_group() {
    inner(
        SyntaxKind::Root,
        vec![rule_of(vec![inner(
            SyntaxKind::Group,
            vec![
                leaf(SyntaxKind::LeftParen),
                leaf(SyntaxKind::Identifier),
                leaf(SyntaxKind::RightParen),
            ],
        )])],
    )
    .test();
}

#[test]
fn test_rule_lookahead_pos() {
    inner(SyntaxKind::Root, vec![rule_of(vec![looking(SyntaxKind::LookAheadPos)])]).test();
}

#[test]
fn test_rule_lookahead_neg() {
    inner(SyntaxKind::Root, vec![rule_of(vec![looking(SyntaxKind::LookAheadNeg)])]).test();
}

#[test]
fn test_rule_lookbehind_pos() {
    inner(SyntaxKind::Root, vec![rule_of(vec![looking(SyntaxKind::LookBehindPos)])]).test();
}

#[test]
fn test_rule_lookbehind_neg() {
    inner(SyntaxKind::Root, vec![rule_of(vec![looking(SyntaxKind::LookBehindNeg)])]).test();
}

#[test]
fn test_rule_prefix_brace() {
    inner(
        SyntaxKind::Root,
        vec![rule_of(vec![inner(
            SyntaxKind::Repeating,
            vec![leaf(SyntaxKind::Identifier), brace_indicator()],
        )])],
    )
    .test();
}

fn repeating(indicators: Vec<TestNode>) -> TestNode {
    let mut children = vec![leaf(SyntaxKind::Identifier)];
    children.extend(indicators);
    inner(SyntaxKind::Root, vec![rule_of(vec![inner(SyntaxKind::Repeating, children)])])
}

#[test]
fn test_rule_prefix_question() {
    repeating(vec![leaf(SyntaxKind::Question)]).test();
}

#[test]
fn test_rule_prefix_star() {
    repeating(vec![leaf(SyntaxKind::Star)]).test();
}

#[test]
fn test_rule_prefix_plus() {
    repeating(vec![leaf(SyntaxKind::Plus)]).test();
}

#[test]
fn test_rule_prefix_ungreedy_brace() {
    repeating(vec![brace_indicator(), leaf(SyntaxKind::Question)]).test();
}

#[test]
fn test_rule_prefix_ungreedy_question() {
    repeating(vec![leaf(SyntaxKind::Question), leaf(SyntaxKind::Question)]).test();
}

#[test]
fn test_rule_prefix_ungreedy_star() {
    repeating(vec![leaf(SyntaxKind::Star), leaf(SyntaxKind::Question)]).test();
}

#[test]
fn test_rule_prefix_ungreedy_plus() {
    repeating(vec![leaf(SyntaxKind::Plus), leaf(SyntaxKind::Question)]).test();
}

#[test]
fn test_rule_bar() {
    inner(
        SyntaxKind::Root,
        vec![rule_of(vec![
            leaf(SyntaxKind::Identifier),
            leaf(SyntaxKind::Bar),
            leaf(SyntaxKind::Identifier),
        ])],
    )
    .test();
}

#[test]
fn test_rule_converse() {
    inner(
        SyntaxKind::Root,
        vec![rule_of(vec![inner(
            SyntaxKind::Converse,
            vec![leaf(SyntaxKind::Tilde), leaf(SyntaxKind::Identifier)],
        )])],
    )
    .test();
}

#[test]
fn test_rule_dot() {
    inner(SyntaxKind::Root, vec![rule_of(vec![leaf(SyntaxKind::Dot)])]).test();
}

#[test]
fn test_rule_range() {
    inner(
        SyntaxKind::Root,
        vec![rule_of(vec![inner(
            SyntaxKind::Range,
            vec![leaf(SyntaxKind::String), leaf(SyntaxKind::Dots), leaf(SyntaxKind::String)],
        )])],
    )
    .test();
}

#[test]
fn test_multi_rules() {
    inner(SyntaxKind::Root, vec![rule_of(vec![]), rule_of(vec![])]).test();
}

fn alternatives() -> TestNode {
    inner(
        SyntaxKind::Group,
        vec![
            leaf(SyntaxKind::LeftParen),
            leaf(SyntaxKind::Identifier),
            leaf(SyntaxKind::Bar),
            leaf(SyntaxKind::Identifier),
            leaf(SyntaxKind::RightParen),
        ],
    )
}

#[test]
fn test_mixed_rules() {
    inner(
        SyntaxKind::Root,
        vec![
            leaf(SyntaxKind::Whitespace),
            inner(
                SyntaxKind::Rule,
                vec![
                    leaf(SyntaxKind::Identifier),
                    leaf(SyntaxKind::Whitespace),
                    leaf(SyntaxKind::Colon),
                    inner(
                        SyntaxKind::Definition,
                        vec![
                            inner(
                                SyntaxKind::Repeating,
                                vec![
                                    inner(
                                        SyntaxKind::Converse,
                                        vec![leaf(SyntaxKind::Tilde), alternatives()],
                                    ),
                                    inner(
                                        SyntaxKind::BraceIndicator,
                                        vec![
                                            leaf(SyntaxKind::LeftBrace),
                                            leaf(SyntaxKind::Integer),
                                            leaf(SyntaxKind::Whitespace),
                                            leaf(SyntaxKind::Comma),
                                            leaf(SyntaxKind::Integer),
                                            leaf(SyntaxKind::RightBrace),
                                        ],
                                    ),
                                ],
                            ),
                            leaf(SyntaxKind::Bar),
                            inner(
                                SyntaxKind::Range,
                                vec![
                                    leaf(SyntaxKind::String),
                                    leaf(SyntaxKind::Whitespace),
                                    leaf(SyntaxKind::Dots),
                                    leaf(SyntaxKind::String),
                                ],
                            ),
                        ],
                    ),
                    action(SyntaxKind::If),
                    action(SyntaxKind::Arrow),
                    leaf(SyntaxKind::SemiColon),
                ],
            ),
            leaf(SyntaxKind::Whitespace),
            inner(
                SyntaxKind::Rule,
                vec![
                    leaf(SyntaxKind::Identifier),
                    leaf_of(SyntaxKind::Comment, "/* comment */"),
                    leaf(SyntaxKind::Colon),
                    inner(
                        SyntaxKind::Definition,
                        vec![inner(
                            SyntaxKind::Group,
                            vec![
                                leaf(SyntaxKind::LeftParen),
                                leaf(SyntaxKind::Whitespace),
                                leaf(SyntaxKind::Identifier),
                                leaf(SyntaxKind::Bar),
                                inner(
                                    SyntaxKind::Looking,
                                    vec![
                                        leaf(SyntaxKind::LeftParen),
                                        leaf(SyntaxKind::LookAheadPos),
                                        inner(
                                            SyntaxKind::Repeating,
                                            vec![
                                                inner(
                                                    SyntaxKind::Converse,
                                                    vec![leaf(SyntaxKind::Tilde), alternatives()],
                                                ),
                                                leaf(SyntaxKind::Star),
                                                leaf(SyntaxKind::Question),
                                            ],
                                        ),
                                        leaf(SyntaxKind::RightParen),
                                    ],
                                ),
                                leaf(SyntaxKind::Whitespace),
                                leaf(SyntaxKind::RightParen),
                            ],
                        )],
                    ),
                    action(SyntaxKind::If),
                    leaf(SyntaxKind::SemiColon),
                ],
            ),
            leaf(SyntaxKind::Whitespace),
        ],
    )
    .test();
}

fn shape(node: &SyntaxNode) -> String {
    if node.children().is_empty() && node.as_error().is_none() && !node.text().is_empty() {
        format!("{:?}({:?})", node.kind(), node.text())
    } else if node.as_error().is_some() {
        format!("Error({:?})", node.text())
    } else if node.kind() == SyntaxKind::End {
        "End".to_string()
    } else {
        let children: Vec<String> = node.children().iter().map(shape).collect();
        format!("{:?}{{{}}}", node.kind(), children.join(", "))
    }
}

fn spans_fit(node: &SyntaxNode, text: &str, at: &mut usize) {
    if node.children().is_empty() {
        if node.as_error().is_some() || node.children().is_empty() && !node.text().is_empty() {
            assert_eq!(node.span().start, *at);
            assert_eq!(&text[node.span()], node.text());
            *at = node.span().end;
        }
    } else {
        let start = *at;
        for child in node.children() {
            spans_fit(child, text, at);
        }
        assert_eq!(node.span(), start..*at);
    }
}

fn shape_without_trivia(node: &SyntaxNode) -> String {
    if node.children().is_empty() && node.kind() != SyntaxKind::Definition {
        if node.kind() == SyntaxKind::Identifier {
            format!("Identifier({:?})", node.text())
        } else {
            format!("{:?}", node.kind())
        }
    } else {
        let children: Vec<String> = node
            .children()
            .iter()
            .filter(|child| !child.kind().is_trivia())
            .map(shape_without_trivia)
            .collect();
        format!("{:?}{{ {} }}", node.kind(), children.join(", "))
    }
}

#[test]
fn well_formed_rule() {
    let root = parse("foo: bar;");
    assert_eq!(
        shape_without_trivia(&root),
        "Root{ Rule{ Identifier(\"foo\"), Colon, Definition{ Identifier(\"bar\") }, SemiColon } }"
    );
    assert_eq!(
        shape(&root),
        "Root{Rule{Identifier(\"foo\"), Colon(\":\"), Definition{Whitespace(\" \"), \
         Identifier(\"bar\")}, SemiColon(\";\")}}"
    );
    assert!(!root.erroneous());
    assert_eq!(root.span(), 0..9);
}

#[test]
fn missing_terminator() {
    let root = parse("foo: bar");
    assert_eq!(root.kind(), SyntaxKind::Root);
    assert!(root.erroneous());
    let rule = &root.children()[0];
    assert_eq!(rule.kind(), SyntaxKind::Rule);
    assert!(rule.erroneous());
    let last = rule.children().last().unwrap();
    assert_eq!(last.kind(), SyntaxKind::Error);
    let error = last.as_error().unwrap();
    assert_eq!(error.message, "expected `;`, found end");
    assert_eq!(error.hints, vec!["consider ending the rule with `;`".to_string()]);
    assert_eq!(last.span(), 8..8);
    assert_eq!(root.source_text(), "foo: bar");
}

#[test]
fn unterminated_string() {
    let root = parse("foo: \"abc;");
    assert_eq!(root.source_text(), "foo: \"abc;");
    let rule = &root.children()[0];
    let definition = &rule.children()[2];
    assert_eq!(definition.kind(), SyntaxKind::Definition);
    let error = definition.children().last().unwrap();
    assert_eq!(error.kind(), SyntaxKind::Error);
    assert!(error.children().is_empty());
    assert_eq!(error.text(), "\"abc;");
    assert!(error.as_error().unwrap().message.contains("unclosed string literal"));
    assert!(root.erroneous());
}

#[test]
fn source_is_kept_for_any_input() {
    for text in [
        "",
        " ",
        "if",
        "if x",
        "-> y; a",
        "a: ~ ;",
        "a: ~",
        "a: (b",
        "a: {1} };",
        "a: b{1,};",
        "a: b{,2}?;",
        "a: \"x\" ?;",
        "a: \"x\" .. b;",
        "a: \"x\"..;",
        "a b c",
        ": : :",
        ";;;",
        "a: b* + ?;",
        "a: (?<! b) | (?= c)+? d;",
        "\u{e9}: \u{4e2d};",
        "a: /* open",
        "a: <meta",
        "a: */ b;",
        "a: ~~~b**;",
        "a: ((((",
        "a: ))))",
        "a: b if c -> d if e;",
        "x: \"\\u{zz}\" \"\\q\";",
    ] {
        let root = parse(text);
        assert_eq!(root.kind(), SyntaxKind::Root);
        assert_eq!(root.source_text(), text, "{text}");
        let mut at = 0;
        spans_fit(&root, text, &mut at);
        assert_eq!(at, text.len());
    }
}

#[test]
fn expected_and_unexpected_messages() {
    let root = parse("if x;");
    let rule = &root.children()[0];
    let name = &rule.children()[0];
    assert_eq!(name.as_error().unwrap().message, "expected identifier or if, found action");
    assert_eq!(name.text(), "if x");
    assert_eq!(name.span(), 0..4);

    let root = parse("a b;");
    let colon = &root.children()[0].children()[2];
    assert_eq!(colon.as_error().unwrap().message, "expected `:`, found identifier");

    let root = parse("a: };");
    let brace = &root.children()[0].children()[2].children()[1];
    assert_eq!(brace.as_error().unwrap().message, "unexpected `}`");
    assert_eq!(brace.as_error().unwrap().hints, vec!["consider starting a range with `{`"]);

    let root = parse("a: {;");
    let brace = &root.children()[0].children()[2].children()[1];
    assert_eq!(brace.as_error().unwrap().message, "unexpected `{`");
    assert_eq!(
        brace.as_error().unwrap().hints,
        vec!["range should be attached to an expression"]
    );

    let root = parse("a:~;");
    let tilde = &root.children()[0].children()[2].children()[0];
    assert_eq!(tilde.as_error().unwrap().message, "unexpected `~`");
    assert_eq!(
        tilde.as_error().unwrap().hints,
        vec!["consider using converse indicator `~` before an expression"]
    );

    let root = parse("a:\"x\"..y;");
    let range = &root.children()[0].children()[2].children()[0];
    assert_eq!(range.kind(), SyntaxKind::Range);
    let second = &range.children()[2];
    assert_eq!(second.as_error().unwrap().message, "expected string, found identifier");
    assert_eq!(
        second.as_error().unwrap().hints,
        vec!["`..` can only connect two string literals"]
    );

    let root = parse("a:b{1;");
    let repeating = &root.children()[0].children()[2].children()[0];
    assert_eq!(repeating.kind(), SyntaxKind::Repeating);
    let indicator = &repeating.children()[1];
    assert_eq!(indicator.kind(), SyntaxKind::BraceIndicator);
    let close = &indicator.children()[2];
    assert_eq!(close.as_error().unwrap().message, "expected `}`, found `;`");
    assert_eq!(close.as_error().unwrap().hints, vec!["consider closing the range with `}`"]);

    let root = parse("a:(b;");
    let group = &root.children()[0].children()[2].children()[0];
    assert_eq!(group.kind(), SyntaxKind::Group);
    let close = group.children().last().unwrap();
    assert_eq!(close.as_error().unwrap().message, "expected `)`, found `;`");

    let root = parse("a:[;");
    let bracket = &root.children()[0].children()[2].children()[0];
    assert_eq!(bracket.as_error().unwrap().message, "unexpected character '['");
}

#[test]
fn repetition_wraps_the_item() {
    let root = parse("a: b c? \"x\" * ~d+;");
    assert_eq!(
        shape(&root.children()[0].children()[2]),
        "Definition{Whitespace(\" \"), Identifier(\"b\"), Whitespace(\" \"), \
         Repeating{Identifier(\"c\"), Question(\"?\"), Whitespace(\" \")}, \
         Repeating{String(\"\\\"x\\\"\"), Whitespace(\" \"), Star(\"*\"), Whitespace(\" \")}, \
         Repeating{Converse{Tilde(\"~\"), Identifier(\"d\")}, Plus(\"+\")}}"
    );
    assert!(!root.erroneous());
}

#[test]
fn erroneous_rule_keeps_siblings() {
    let root = parse("a: %; b: c;");
    assert!(root.erroneous());
    let rules: Vec<&SyntaxNode> =
        root.children().iter().filter(|n| n.kind() == SyntaxKind::Rule).collect();
    assert!(rules.len() >= 2);
    assert!(rules[0].erroneous());
    assert!(!rules.last().unwrap().erroneous());
    assert_eq!(root.source_text(), "a: %; b: c;");
}

#[test]
fn patterns_match_kinds() {
    let one = Pattern::Kind(SyntaxKind::Colon);
    assert!(one.matches(SyntaxKind::Colon));
    assert!(!one.matches(SyntaxKind::SemiColon));
    assert_eq!(one.name(), "`:`");
    let two = Pattern::Either(SyntaxKind::Identifier, SyntaxKind::If);
    assert!(two.matches(SyntaxKind::Identifier));
    assert!(two.matches(SyntaxKind::If));
    assert!(!two.matches(SyntaxKind::Action));
    assert_eq!(two.name(), "identifier or if");
    assert!(Pattern::Trivia.matches(SyntaxKind::Comment));
    assert!(!Pattern::Trivia.matches(SyntaxKind::End));
    assert!(Pattern::Looking.matches(SyntaxKind::LookBehindNeg));
    assert!(!Pattern::Looking.matches(SyntaxKind::Question));
    assert!(Pattern::Prefix.matches(SyntaxKind::LeftBrace));
    assert!(!Pattern::Prefix.matches(SyntaxKind::RightBrace));
}

#[test]
fn marker_steps_back() {
    assert_eq!(Marker(1).prev().0, 0);
    assert_eq!(Marker(7).prev().0, 6);
}
