use mdbook_grammar::lexer::Lexer;
use mdbook_grammar::{parse, parse_content, parse_mode, run, Document, Item, SyntaxKind, SyntaxNode};

struct Random(u64);

impl Random {
    fn next(&mut self) -> u64 {
        self.0 = self.0.wrapping_mul(6364136223846793005).wrapping_add(1442695040888963407);
        self.0 >> 33
    }

    fn text(&mut self, alphabet: &[&str], longest: u64) -> String {
        let length = self.next() % (longest + 1);
        let mut text = String::new();
        for _ in 0..length {
            text.push_str(alphabet[(self.next() % alphabet.len() as u64) as usize]);
        }
        text
    }
}

const GRAMMAR: [&str; 40] = [
    "a", "b", "if", "i", "f", "_", "0", "9", "\"", "\\", "u", "n", "{", "}", "(", ")", "<", ">",
    "?", "=", "!", "*", "+", "~", ".", ",", "|", ":", ";", "-", "/", " ", "\n", "\t", "\u{e9}",
    "\u{2028}", "\u{1f600}", "%", "->", "..",
];

const DOCUMENT: [&str; 12] =
    ["`", "``", "```", "````", "syntax\n", "syntax", "\n", "a: b;", "x", " ", "{{", "#mode"];

fn leaves(node: &SyntaxNode, text: &str, at: &mut usize) {
    if node.children().is_empty() {
        if node.as_error().is_none() && node.text().is_empty() {
            assert!(node.span() == (0..0) || node.span() == (*at..*at), "{text:?}");
            return;
        }
        assert_eq!(node.span().start, *at, "{text:?}");
        assert_eq!(&text[node.span()], node.text(), "{text:?}");
        *at = node.span().end;
    } else {
        for child in node.children() {
            leaves(child, text, at);
        }
    }
}

#[test]
fn random_grammars_keep_their_source() {
    let mut random = Random(1);
    for _ in 0..3000 {
        let text = random.text(&GRAMMAR, 30);
        let root = parse(&text);
        assert_eq!(root.kind(), SyntaxKind::Root);
        assert_eq!(root.source_text(), text, "{text:?}");
        let mut at = 0;
        leaves(&root, &text, &mut at);
        assert_eq!(at, text.len(), "{text:?}");
    }
}

#[test]
fn random_texts_are_lexed_to_their_end() {
    let mut random = Random(2);
    for _ in 0..3000 {
        let text = random.text(&GRAMMAR, 30);
        let mut lexer = Lexer::new(&text);
        let mut at = 0;
        while !lexer.done() {
            let node = lexer.next();
            assert!(node.span().end > at, "{text:?}");
            assert_eq!(node.span().start, at, "{text:?}");
            assert_eq!(node.source_text(), &text[node.span()], "{text:?}");
            at = node.span().end;
        }
        assert_eq!(at, text.len());
        assert_eq!(lexer.next().kind(), SyntaxKind::End);
    }
}

#[test]
fn random_documents_are_cut_and_rendered() {
    let mut random = Random(3);
    let mut documents = Vec::new();
    for index in 0..400 {
        let content = random.text(&DOCUMENT, 25);
        let items = parse_content(&content);
        assert_eq!(items.len() % 2, 1, "{content:?}");
        let mut rest = content.as_str();
        for (place, item) in items.iter().enumerate() {
            match item {
                Item::Text(text) => {
                    assert_eq!(place % 2, 0);
                    assert!(rest.starts_with(text.as_str()), "{content:?}");
                    rest = &rest[text.len()..];
                },
                Item::Code(code) => {
                    assert_eq!(place % 2, 1);
                    let ticks = rest.len() - rest.trim_start_matches('`').len();
                    assert!(ticks >= 3, "{content:?}");
                    rest = rest[ticks..].strip_prefix("syntax\n").unwrap();
                    let source = code.source_text();
                    rest = rest.strip_prefix(source.as_str()).unwrap();
                    if !rest.is_empty() {
                        let close = rest.len() - rest.trim_start_matches('`').len();
                        assert_eq!(close, ticks, "{content:?}");
                        rest = &rest[close..];
                    }
                },
            }
        }
        assert_eq!(rest, "", "{content:?}");
        assert_eq!(parse_mode(&content).is_empty(), content.is_empty());
        documents.push(Document { href: format!("d{index}.md"), content });
    }
    let rendered = run(&documents, "/");
    assert_eq!(rendered.len(), documents.len());
    for (document, content) in documents.iter().zip(rendered.iter()) {
        let fences = parse_content(&document.content).len() / 2;
        assert_eq!(content.matches("<pre><code class=\"syntax\">").count(), fences);
    }
}
