//! The lexer: from a position in a text to the token that stands there.

use vstd::prelude::*;
use vstd::string::*;
use unscanny::Scanner;
use crate::kind::SyntaxKind;
use crate::node::{source_of, ErrorView, SyntaxError, SyntaxNode, Tree};
use crate::scan::{
    char_is_alphanumeric, char_is_whitespace, find_at, index_at, is_alphanumeric, is_whitespace,
    lemma_find_at_bounds, lemma_index_at_bounds, lemma_index_at_offset, lemma_run_end,
    lemma_run_end_bounds, lemma_starts_with_char, offset_at, run_end, scan_at, scan_cursor,
    scan_done, scan_eat, scan_eat_if, scan_eat_if_char, scan_eat_until, scan_eat_until_str,
    scan_eat_while, scan_from, scan_jump, scan_new, scanner_index, scanner_text, starts_with_at,
};

verus! {

/// Whether the character ends a line.
pub open spec fn spec_is_newline(c: char) -> bool {
    c == '\n' || c == '\x0B' || c == '\x0C' || c == '\r' || c == '\u{0085}' || c == '\u{2028}'
        || c == '\u{2029}'
}

/// Whether the character can start an identifier: an ASCII letter or `_`.
pub open spec fn spec_is_id_start(c: char) -> bool {
    ('a' <= c && c <= 'z') || ('A' <= c && c <= 'Z') || c == '_'
}

/// Whether the character is a decimal digit, `0` to `9`.
pub open spec fn spec_is_digit(c: char) -> bool {
    '0' <= c && c <= '9'
}

/// Whether the character can continue an identifier: an ASCII letter, a
/// decimal digit or `_`.
pub open spec fn spec_is_id_continue(c: char) -> bool {
    spec_is_id_start(c) || spec_is_digit(c)
}

/// The whitespace characters, as a predicate.
pub open spec fn class_whitespace() -> spec_fn(char) -> bool {
    |c: char| char_is_whitespace(c)
}

/// The decimal digits, as a predicate.
pub open spec fn class_digit() -> spec_fn(char) -> bool {
    |c: char| spec_is_digit(c)
}

/// The alphanumeric characters, as a predicate.
pub open spec fn class_alphanumeric() -> spec_fn(char) -> bool {
    |c: char| char_is_alphanumeric(c)
}

/// The characters that continue an identifier, as a predicate.
pub open spec fn class_id_continue() -> spec_fn(char) -> bool {
    |c: char| spec_is_id_continue(c)
}

/// The characters that do not end a line, as a predicate.
pub open spec fn class_within_line() -> spec_fn(char) -> bool {
    |c: char| !spec_is_newline(c)
}

/// Whether the character with index `i` of `text` is `c`.
pub open spec fn char_at(text: Seq<char>, i: int, c: char) -> bool {
    0 <= i < text.len() && text[i] == c
}

/// The value of a hexadecimal digit.
pub open spec fn hex_digit(c: char) -> Option<nat> {
    if '0' <= c && c <= '9' {
        Some((c as u32 - '0' as u32) as nat)
    } else if 'a' <= c && c <= 'f' {
        Some((c as u32 - 'a' as u32 + 10) as nat)
    } else if 'A' <= c && c <= 'F' {
        Some((c as u32 - 'A' as u32 + 10) as nat)
    } else {
        None
    }
}

/// The number that a sequence of hexadecimal digits writes.
pub open spec fn hex_value(s: Seq<char>) -> nat
    decreases s.len(),
{
    if s.len() == 0 {
        0
    } else {
        16 * hex_value(s.drop_last()) + match hex_digit(s.last()) {
            Some(d) => d,
            None => 0,
        }
    }
}

/// Whether the characters write a hexadecimal number that fits in 64 bits:
/// at least one digit, nothing but digits.
pub open spec fn hex_number(s: Seq<char>) -> bool {
    &&& s.len() > 0
    &&& forall|i: int| 0 <= i < s.len() ==> hex_digit(#[trigger] s[i]) is Some
    &&& hex_value(s) <= u64::MAX
}

/// An error without hints.
pub open spec fn plain_error(message: Seq<char>) -> ErrorView {
    ErrorView { message, hints: Seq::empty() }
}

/// An error with one hint.
pub open spec fn hinted_error(message: Seq<char>, hint: Seq<char>) -> ErrorView {
    ErrorView { message, hints: seq![hint] }
}

/// How far a string literal reaches, whether it was closed, and the error
/// that was found in it last.
pub struct StringScan {
    pub end: int,
    pub closed: bool,
    pub error: Option<ErrorView>,
}

/// The rest of a string literal from the character with index `i` on, where
/// `error` is the error found so far. The literal ends behind the first `"`
/// that is not part of an escape. After `\` one of `n r t b f \ "` is an
/// escape of two characters; `\u{`, a run of alphanumeric characters and `}`
/// is one, as is `\u` with the four characters behind it (fewer where the
/// text ends), and both must hold a hexadecimal number; any other character
/// after `\` makes an invalid escape. A later error replaces an earlier one.
pub open spec fn string_rest(text: Seq<char>, i: int, error: Option<ErrorView>) -> StringScan
    decreases text.len() - i,
    via string_rest_decreases
{
    if !(0 <= i < text.len()) {
        StringScan { end: i, closed: false, error }
    } else if text[i] == '"' {
        StringScan { end: i + 1, closed: true, error }
    } else if text[i] != '\\' || i + 1 >= text.len() {
        string_rest(text, i + 1, error)
    } else {
        let next = text[i + 1];
        if next == 'n' || next == 'r' || next == 't' || next == 'b' || next == 'f' || next == '\\'
            || next == '"' {
            string_rest(text, i + 2, error)
        } else if next != 'u' {
            string_rest(text, i + 2, Some(plain_error("invalid escape sequence"@)))
        } else if char_at(text, i + 2, '{') {
            let j = run_end(text, i + 3, class_alphanumeric());
            if !char_at(text, j, '}') {
                string_rest(text, j, Some(unclosed_unicode()))
            } else if hex_number(text.subrange(i + 3, j)) {
                string_rest(text, j + 1, error)
            } else {
                string_rest(text, j + 1, Some(invalid_unicode()))
            }
        } else {
            let j = if i + 6 <= text.len() {
                i + 6
            } else {
                text.len() as int
            };
            if hex_number(text.subrange(i + 2, j)) {
                string_rest(text, j, error)
            } else {
                string_rest(text, j, Some(invalid_unicode()))
            }
        }
    }
}

#[via_fn]
proof fn string_rest_decreases(text: Seq<char>, i: int, error: Option<ErrorView>) {
    if 0 <= i && i + 3 <= text.len() {
        lemma_run_end_bounds(text, i + 3, class_alphanumeric());
    }
}

/// The error for an escape `\u` that holds no hexadecimal number.
pub open spec fn invalid_unicode() -> ErrorView {
    hinted_error("invalid unicode escape"@, "unicode must be a hex number"@)
}

/// The kind of a symbol of one character that never starts a longer one.
pub open spec fn symbol_kind(c: char) -> Option<SyntaxKind> {
    if c == ':' {
        Some(SyntaxKind::Colon)
    } else if c == ';' {
        Some(SyntaxKind::SemiColon)
    } else if c == '(' {
        Some(SyntaxKind::LeftParen)
    } else if c == ')' {
        Some(SyntaxKind::RightParen)
    } else if c == '{' {
        Some(SyntaxKind::LeftBrace)
    } else if c == '}' {
        Some(SyntaxKind::RightBrace)
    } else if c == ',' {
        Some(SyntaxKind::Comma)
    } else if c == '|' {
        Some(SyntaxKind::Bar)
    } else if c == '~' {
        Some(SyntaxKind::Tilde)
    } else if c == '*' {
        Some(SyntaxKind::Star)
    } else if c == '+' {
        Some(SyntaxKind::Plus)
    } else {
        None
    }
}

/// The leaf of the given kind over the characters from `i` to `j`.
pub open spec fn leaf_at(text: Seq<char>, kind: SyntaxKind, i: int, j: int) -> Tree {
    Tree::Leaf {
        kind,
        text: text.subrange(i, j),
        start: offset_at(text, i) as int,
        end: offset_at(text, j) as int,
    }
}

/// The error node over the characters from `i` to `j`.
pub open spec fn error_at(text: Seq<char>, error: ErrorView, i: int, j: int) -> Tree {
    Tree::Error {
        text: text.subrange(i, j),
        start: offset_at(text, i) as int,
        end: offset_at(text, j) as int,
        error,
    }
}

/// A token and the index of the first character behind it.
pub struct Lexed {
    pub tree: Tree,
    pub next: int,
}

/// A token that is a leaf.
pub open spec fn plain(text: Seq<char>, kind: SyntaxKind, i: int, j: int) -> Lexed {
    Lexed { tree: leaf_at(text, kind, i, j), next: j }
}

/// A token that is an error node.
pub open spec fn failed(text: Seq<char>, error: ErrorView, i: int, j: int) -> Lexed {
    Lexed { tree: error_at(text, error, i, j), next: j }
}

/// Where the free text behind `if` ends: before the first `;` or `->`, or
/// at the end of the text.
pub open spec fn condition_end(text: Seq<char>, i: int) -> int
    decreases text.len() - i,
{
    if 0 <= i < text.len() && text[i] != ';' && !starts_with_at(text, i, "->"@) {
        condition_end(text, i + 1)
    } else {
        i
    }
}

/// The action that the trigger from `i` to `j` opens: the trigger as a leaf
/// of the given kind, and behind it the free text as an `Operation`, which
/// for `->` reaches to the first `;` and for `if` to the first `;` or `->`.
pub open spec fn action(text: Seq<char>, kind: SyntaxKind, i: int, j: int) -> Lexed {
    let end = if kind == SyntaxKind::Arrow {
        find_at(text, j, ";"@)
    } else {
        condition_end(text, j)
    };
    Lexed {
        tree: Tree::inner(
            SyntaxKind::Action,
            seq![leaf_at(text, kind, i, j), leaf_at(text, SyntaxKind::Operation, j, end)],
        ),
        next: end,
    }
}

/// The string literal that opens at `i`.
pub open spec fn string_token(text: Seq<char>, i: int) -> Lexed {
    let scan = string_rest(text, i + 1, None);
    if !scan.closed {
        failed(text, unclosed_string(), i, scan.end)
    } else {
        match scan.error {
            Some(error) => failed(text, error, i, scan.end),
            None => plain(text, SyntaxKind::String, i, scan.end),
        }
    }
}

/// The token that stands in `text` at the character with index `i`, by what
/// that character is: whitespace starts a run of whitespace; `//` a comment
/// up to the end of the line; `/*` a comment up to the first `*/`, without
/// which it is an error; `*/` is an error; `"` starts a string literal; a
/// digit a run of digits; `<` a meta up to the first `>`, without which it is
/// an error; a letter or `_` an identifier, which opens an action if it is
/// `if`; `->` opens an action; anything else is a symbol or an error. Behind
/// the end of the text stands an empty `End`.
pub open spec fn lex(text: Seq<char>, i: int) -> Lexed {
    if !(0 <= i < text.len()) {
        plain(text, SyntaxKind::End, i, i)
    } else {
        let c = text[i];
        if char_is_whitespace(c) {
            plain(text, SyntaxKind::Whitespace, i, run_end(text, i + 1, class_whitespace()))
        } else if c == '/' && char_at(text, i + 1, '/') {
            plain(text, SyntaxKind::Comment, i, run_end(text, i + 2, class_within_line()))
        } else if c == '/' && char_at(text, i + 1, '*') {
            let j = find_at(text, i + 2, "*/"@);
            if j < text.len() {
                plain(text, SyntaxKind::Comment, i, j + 2)
            } else {
                failed(
                    text,
                    hinted_error(
                        "unclosed block comment"@,
                        "consider closing the block comment with `*/`"@,
                    ),
                    i,
                    j,
                )
            }
        } else if c == '*' && char_at(text, i + 1, '/') {
            failed(
                text,
                hinted_error(
                    "unexpected end of block comment"@,
                    "consider opening the block comment with `/*`"@,
                ),
                i,
                i + 2,
            )
        } else if c == '"' {
            string_token(text, i)
        } else if spec_is_digit(c) {
            plain(text, SyntaxKind::Integer, i, run_end(text, i + 1, class_digit()))
        } else if c == '<' {
            let j = find_at(text, i + 1, ">"@);
            if j < text.len() {
                plain(text, SyntaxKind::Meta, i, j + 1)
            } else {
                failed(
                    text,
                    hinted_error("unclosed meta"@, "consider closing the meta with `>`"@),
                    i,
                    j,
                )
            }
        } else if spec_is_id_start(c) {
            let j = run_end(text, i + 1, class_id_continue());
            if text.subrange(i, j) == "if"@ {
                action(text, SyntaxKind::If, i, j)
            } else {
                plain(text, SyntaxKind::Identifier, i, j)
            }
        } else if c == '-' && char_at(text, i + 1, '>') {
            action(text, SyntaxKind::Arrow, i, i + 2)
        } else {
            lex_symbol(text, i)
        }
    }
}

/// The token at the character with index `i` where that character starts
/// neither trivia, a literal, a meta, an identifier nor an action: a symbol,
/// or an error for a character that starts no token.
pub open spec fn lex_symbol(text: Seq<char>, i: int) -> Lexed
    recommends
        0 <= i < text.len(),
{
    let c = text[i];
    if symbol_kind(c) is Some {
        plain(text, symbol_kind(c)->0, i, i + 1)
    } else if c == '.' {
        if char_at(text, i + 1, '.') {
            plain(text, SyntaxKind::Dots, i, i + 2)
        } else {
            plain(text, SyntaxKind::Dot, i, i + 1)
        }
    } else if c == '?' {
        if char_at(text, i + 1, '=') {
            plain(text, SyntaxKind::LookAheadPos, i, i + 2)
        } else if char_at(text, i + 1, '!') {
            plain(text, SyntaxKind::LookAheadNeg, i, i + 2)
        } else if starts_with_at(text, i + 1, "<="@) {
            plain(text, SyntaxKind::LookBehindPos, i, i + 3)
        } else if starts_with_at(text, i + 1, "<!"@) {
            plain(text, SyntaxKind::LookBehindNeg, i, i + 3)
        } else {
            plain(text, SyntaxKind::Question, i, i + 1)
        }
    } else {
        failed(text, plain_error("unexpected character '"@ + seq![c] + "'"@), i, i + 1)
    }
}

/// A token of the given kind, or the error node for `error` if there is one,
/// over the characters from `i` to `j`.
pub open spec fn token(
    text: Seq<char>,
    kind: SyntaxKind,
    error: Option<ErrorView>,
    i: int,
    j: int,
) -> Lexed {
    match error {
        Some(e) => failed(text, e, i, j),
        None => plain(text, kind, i, j),
    }
}

/// Check if the character is a newline.
#[verifier::when_used_as_spec(spec_is_newline)]
pub fn is_newline(c: char) -> (b: bool)
    ensures
        b == spec_is_newline(c),
{
    c == '\n' || c == '\x0B' || c == '\x0C' || c == '\r' || c == '\u{0085}' || c == '\u{2028}'
        || c == '\u{2029}'
}

/// Check if the character is a valid identifier start character.
#[verifier::when_used_as_spec(spec_is_id_start)]
pub fn is_id_start(c: char) -> (b: bool)
    ensures
        b == spec_is_id_start(c),
{
    ('a' <= c && c <= 'z') || ('A' <= c && c <= 'Z') || c == '_'
}

/// Check if the character is a decimal digit.
#[verifier::when_used_as_spec(spec_is_digit)]
pub fn is_digit(c: char) -> (b: bool)
    ensures
        b == spec_is_digit(c),
{
    '0' <= c && c <= '9'
}

/// Check if the character is a valid identifier continuation character.
#[verifier::when_used_as_spec(spec_is_id_continue)]
pub fn is_id_continue(c: char) -> (b: bool)
    ensures
        b == spec_is_id_continue(c),
{
    is_id_start(c) || is_digit(c)
}

/// Whether two strings hold the same characters.
pub(crate) fn str_eq(a: &str, b: &str) -> (equal: bool)
    ensures
        equal == (a@ == b@),
{
    let a = a.to_owned();
    let b = b.to_owned();
    a == b
}

/// The value of a hexadecimal digit, if the character is one.
fn hex_digit_of(c: char) -> (d: Option<u64>)
    ensures
        match d {
            Some(d) => hex_digit(c) == Some(d as nat) && d < 16,
            None => hex_digit(c) is None,
        },
{
    if '0' <= c && c <= '9' {
        Some((c as u32 - '0' as u32) as u64)
    } else if 'a' <= c && c <= 'f' {
        Some((c as u32 - 'a' as u32 + 10) as u64)
    } else if 'A' <= c && c <= 'F' {
        Some((c as u32 - 'A' as u32 + 10) as u64)
    } else {
        None
    }
}

/// A longer sequence of digits does not write a smaller number.
proof fn lemma_hex_value_grows(s: Seq<char>, k: int)
    requires
        0 <= k <= s.len(),
    ensures
        hex_value(s.take(k)) <= hex_value(s),
    decreases s.len() - k,
{
    if k < s.len() {
        lemma_hex_value_grows(s, k + 1);
        assert(s.take(k + 1).drop_last() =~= s.take(k));
    } else {
        assert(s.take(k) =~= s);
    }
}

/// Whether the string writes a hexadecimal number that fits in 64 bits.
pub fn is_hex_number(s: &str) -> (b: bool)
    ensures
        b == hex_number(s@),
{
    let mut chars = scan_new(s);
    let mut value: u64 = 0;
    let mut count: usize = 0;
    loop
        invariant
            scanner_text(chars) == s@,
            scanner_index(chars) <= s@.len(),
            count == 0 <==> scanner_index(chars) == 0,
            value == hex_value(s@.take(scanner_index(chars) as int)),
            forall|i: int| 0 <= i < scanner_index(chars) ==> hex_digit(#[trigger] s@[i]) is Some,
        decreases s@.len() - scanner_index(chars),
    {
        let ghost k = scanner_index(chars) as int;
        match scan_eat(&mut chars) {
            None => {
                assert(s@.take(k) =~= s@);
                return count > 0;
            },
            Some(c) => {
                proof {
                    assert(s@.take(k + 1).drop_last() =~= s@.take(k));
                    lemma_hex_value_grows(s@, k + 1);
                }
                match hex_digit_of(c) {
                    None => {
                        return false;
                    },
                    Some(d) => {
                        if value > (u64::MAX - d) / 16 {
                            return false;
                        }
                        value = value * 16 + d;
                        count = 1;
                    },
                }
            },
        }
    }
}

/// A lexer over a text: a cursor, and the error found in the token that is
/// being read.
pub struct Lexer<'s> {
    s: Scanner<'s>,
    error: Option<SyntaxError>,
}

impl<'s> Lexer<'s> {
    /// The characters of the text.
    pub closed spec fn text(&self) -> Seq<char> {
        scanner_text(self.s)
    }

    /// The index of the character at which the cursor stands.
    pub closed spec fn index(&self) -> int {
        scanner_index(self.s) as int
    }

    /// The error found in the token that is being read.
    pub closed spec fn pending(&self) -> Option<ErrorView> {
        match self.error {
            Some(e) => Some(e@),
            None => None,
        }
    }

    /// The cursor stands inside the text or at its end.
    pub open spec fn inv(&self) -> bool {
        0 <= self.index() <= self.text().len()
    }

    /// The lexer stands between two tokens.
    pub open spec fn wf(&self) -> bool {
        self.inv() && self.pending() is None
    }

    /// A lexer at the start of the given text.
    pub fn new(text: &'s str) -> (lexer: Self)
        ensures
            lexer.wf(),
            lexer.text() == text@,
            lexer.index() == 0,
    {
        Self { s: scan_new(text), error: None }
    }

    /// Move the cursor to the character that holds the byte at `target`, or
    /// to the end of the text if the offset lies behind it.
    pub fn jump(&mut self, target: usize)
        ensures
            final(self).text() == old(self).text(),
            final(self).index() == index_at(old(self).text(), target as int),
            final(self).pending() == old(self).pending(),
            final(self).inv(),
    {
        proof {
            lemma_index_at_bounds(self.text(), target as int);
        }
        scan_jump(&mut self.s, target);
    }

    /// Whether the cursor stands at the end of the text.
    pub fn done(&self) -> (done: bool)
        ensures
            done == (self.index() >= self.text().len()),
    {
        scan_done(&self.s)
    }

    /// Note an error in the token that is being read, in the place of the one
    /// noted before.
    fn error(&mut self, message: &str) -> (kind: SyntaxKind)
        ensures
            kind == SyntaxKind::Error,
            final(self).text() == old(self).text(),
            final(self).index() == old(self).index(),
            final(self).pending() == Some(plain_error(message@)),
    {
        self.error = Some(SyntaxError::new(message));
        SyntaxKind::Error
    }

    /// Add a hint to the error that was noted, if one was.
    fn hint(&mut self, hint: &str)
        ensures
            final(self).text() == old(self).text(),
            final(self).index() == old(self).index(),
            final(self).pending() == match old(self).pending() {
                Some(e) => Some(ErrorView { message: e.message, hints: e.hints.push(hint@) }),
                None => None,
            },
    {
        match &mut self.error {
            Some(error) => {
                error.hint(hint);
            },
            None => {},
        }
    }
}

impl<'s> Lexer<'s> {
    /// Read the next token and move the cursor behind it. At the end of the
    /// text the token is an empty `End` and the cursor stays.
    pub fn next(&mut self) -> (node: SyntaxNode)
        requires
            old(self).wf(),
        ensures
            final(self).wf(),
            final(self).text() == old(self).text(),
            node@ == lex(old(self).text(), old(self).index()).tree,
            final(self).index() == lex(old(self).text(), old(self).index()).next,
            old(self).index() < old(self).text().len() ==> old(self).index() < final(self).index()
                && node@.kind() != SyntaxKind::End,
            old(self).index() == old(self).text().len() ==> final(self).index() == old(self).index()
                && node@ == leaf_at(
                old(self).text(),
                SyntaxKind::End,
                old(self).index(),
                old(self).index(),
            ),
            node@.wf(),
            node@.source() == old(self).text().subrange(old(self).index(), final(self).index()),
    {
        let ghost text = self.text();
        let ghost i = self.index();
        proof {
            lemma_lex(text, i);
        }
        let start = scan_cursor(&self.s);
        match scan_eat(&mut self.s) {
            None => self.finish(SyntaxKind::End, start, Ghost(i)),
            Some(c) => {
                let kind;
                if is_whitespace(c) {
                    kind = self.whitespace();
                } else if c == '/' && scan_eat_if_char(&mut self.s, '/') {
                    kind = self.line_comment();
                } else if c == '/' && scan_eat_if_char(&mut self.s, '*') {
                    kind = self.block_comment();
                } else if c == '*' && scan_eat_if_char(&mut self.s, '/') {
                    self.error("unexpected end of block comment");
                    self.hint("consider opening the block comment with `/*`");
                    kind = SyntaxKind::Error;
                } else if c == '"' {
                    kind = self.string();
                } else if is_digit(c) {
                    kind = self.integer();
                } else if c == '<' {
                    kind = self.meta();
                } else if is_id_start(c) {
                    return self.identifier(start, Ghost(i));
                } else if c == '-' && scan_eat_if_char(&mut self.s, '>') {
                    return self.action(start, SyntaxKind::Arrow, Ghost(i));
                } else {
                    kind = self.symbol(c, start, Ghost(i));
                }
                self.finish(kind, start, Ghost(i))
            },
        }
    }

    /// Make the node of the token that ends at the cursor: an error node if an
    /// error was noted, a leaf of the given kind otherwise.
    fn finish(&mut self, kind: SyntaxKind, start: usize, Ghost(i): Ghost<int>) -> (node: SyntaxNode)
        requires
            old(self).inv(),
            0 <= i <= old(self).index(),
            start == offset_at(old(self).text(), i),
            old(self).pending() is None ==> kind != SyntaxKind::Error,
        ensures
            final(self).wf(),
            final(self).text() == old(self).text(),
            final(self).index() == old(self).index(),
            node@ == token(
                old(self).text(),
                kind,
                old(self).pending(),
                i,
                old(self).index(),
            ).tree,
    {
        proof {
            lemma_index_at_offset(self.text(), i);
        }
        let part = scan_from(&self.s, start);
        let end = scan_cursor(&self.s);
        match self.error.take() {
            Some(error) => SyntaxNode::error(error, part, start..end),
            None => SyntaxNode::leaf(kind, part, start..end),
        }
    }

    /// Read a symbol whose first character, `c`, has been consumed, or note
    /// that the character starts no token.
    fn symbol(&mut self, c: char, start: usize, Ghost(i): Ghost<int>) -> (kind: SyntaxKind)
        requires
            old(self).wf(),
            0 <= i < old(self).text().len(),
            old(self).index() == i + 1,
            c == old(self).text()[i],
            start == offset_at(old(self).text(), i),
        ensures
            final(self).inv(),
            old(self).index() <= final(self).index(),
            final(self).text() == old(self).text(),
            final(self).pending() is None ==> kind != SyntaxKind::Error,
            lex_symbol(old(self).text(), i) == token(
                old(self).text(),
                kind,
                final(self).pending(),
                i,
                final(self).index(),
            ),
    {
        let ghost text = self.text();
        if c == ':' {
            SyntaxKind::Colon
        } else if c == ';' {
            SyntaxKind::SemiColon
        } else if c == '(' {
            SyntaxKind::LeftParen
        } else if c == ')' {
            SyntaxKind::RightParen
        } else if c == '{' {
            SyntaxKind::LeftBrace
        } else if c == '}' {
            SyntaxKind::RightBrace
        } else if c == ',' {
            SyntaxKind::Comma
        } else if c == '|' {
            SyntaxKind::Bar
        } else if c == '~' {
            SyntaxKind::Tilde
        } else if c == '.' {
            if scan_eat_if_char(&mut self.s, '.') {
                SyntaxKind::Dots
            } else {
                SyntaxKind::Dot
            }
        } else if c == '*' {
            SyntaxKind::Star
        } else if c == '+' {
            SyntaxKind::Plus
        } else if c == '?' {
            proof {
                reveal_strlit("<=");
                reveal_strlit("<!");
            }
            if scan_eat_if_char(&mut self.s, '=') {
                SyntaxKind::LookAheadPos
            } else if scan_eat_if_char(&mut self.s, '!') {
                SyntaxKind::LookAheadNeg
            } else if scan_eat_if(&mut self.s, "<=") {
                SyntaxKind::LookBehindPos
            } else if scan_eat_if(&mut self.s, "<!") {
                SyntaxKind::LookBehindNeg
            } else {
                SyntaxKind::Question
            }
        } else {
            proof {
                lemma_index_at_offset(text, i);
            }
            let found = scan_from(&self.s, start);
            assert(found@ =~= seq![c]);
            let mut message = "unexpected character '".to_owned();
            message.append(found);
            message.append("'");
            self.error(message.as_str())
        }
    }

    /// Read the rest of a run of whitespace.
    fn whitespace(&mut self) -> (kind: SyntaxKind)
        requires
            old(self).inv(),
        ensures
            kind == SyntaxKind::Whitespace,
            final(self).text() == old(self).text(),
            final(self).pending() == old(self).pending(),
            final(self).index() == run_end(old(self).text(), old(self).index(), class_whitespace()),
            final(self).inv(),
            old(self).index() <= final(self).index(),
    {
        scan_eat_while(&mut self.s, is_whitespace);
        proof {
            lemma_run_end(self.text(), old(self).index(), self.index(), class_whitespace());
        }
        SyntaxKind::Whitespace
    }

    /// Read the rest of a run of digits.
    fn integer(&mut self) -> (kind: SyntaxKind)
        requires
            old(self).inv(),
        ensures
            kind == SyntaxKind::Integer,
            final(self).text() == old(self).text(),
            final(self).pending() == old(self).pending(),
            final(self).index() == run_end(old(self).text(), old(self).index(), class_digit()),
            final(self).inv(),
            old(self).index() <= final(self).index(),
    {
        scan_eat_while(&mut self.s, is_digit);
        proof {
            lemma_run_end(self.text(), old(self).index(), self.index(), class_digit());
        }
        SyntaxKind::Integer
    }

    /// Read the rest of a comment that ends with its line.
    fn line_comment(&mut self) -> (kind: SyntaxKind)
        requires
            old(self).inv(),
        ensures
            kind == SyntaxKind::Comment,
            final(self).text() == old(self).text(),
            final(self).pending() == old(self).pending(),
            final(self).index() == run_end(
                old(self).text(),
                old(self).index(),
                class_within_line(),
            ),
            final(self).inv(),
            old(self).index() <= final(self).index(),
    {
        scan_eat_until(&mut self.s, is_newline);
        proof {
            lemma_run_end(self.text(), old(self).index(), self.index(), class_within_line());
        }
        SyntaxKind::Comment
    }

    /// Read the rest of a comment up to the first `*/`.
    fn block_comment(&mut self) -> (kind: SyntaxKind)
        requires
            old(self).inv(),
            old(self).pending() is None,
        ensures
            final(self).text() == old(self).text(),
            final(self).inv(),
            old(self).index() <= final(self).index(),
            ({
                let j = find_at(old(self).text(), old(self).index(), "*/"@);
                if j < old(self).text().len() {
                    &&& kind == SyntaxKind::Comment
                    &&& final(self).pending() is None
                    &&& final(self).index() == j + 2
                } else {
                    &&& kind == SyntaxKind::Error
                    &&& final(self).pending() == Some(
                        hinted_error(
                            "unclosed block comment"@,
                            "consider closing the block comment with `*/`"@,
                        ),
                    )
                    &&& final(self).index() == j
                }
            }),
    {
        proof {
            reveal_strlit("*/");
            lemma_find_at_bounds(self.text(), self.index(), "*/"@);
        }
        scan_eat_until_str(&mut self.s, "*/");
        if scan_eat_if(&mut self.s, "*/") {
            SyntaxKind::Comment
        } else {
            self.error("unclosed block comment");
            self.hint("consider closing the block comment with `*/`");
            SyntaxKind::Error
        }
    }

    /// Read the rest of a meta up to the first `>`.
    fn meta(&mut self) -> (kind: SyntaxKind)
        requires
            old(self).inv(),
            old(self).pending() is None,
        ensures
            final(self).text() == old(self).text(),
            final(self).inv(),
            old(self).index() <= final(self).index(),
            ({
                let j = find_at(old(self).text(), old(self).index(), ">"@);
                if j < old(self).text().len() {
                    &&& kind == SyntaxKind::Meta
                    &&& final(self).pending() is None
                    &&& final(self).index() == j + 1
                } else {
                    &&& kind == SyntaxKind::Error
                    &&& final(self).pending() == Some(
                        hinted_error("unclosed meta"@, "consider closing the meta with `>`"@),
                    )
                    &&& final(self).index() == j
                }
            }),
    {
        proof {
            lemma_find_at_bounds(self.text(), self.index(), ">"@);
        }
        scan_eat_until_str(&mut self.s, ">");
        if scan_eat(&mut self.s).is_none() {
            self.error("unclosed meta");
            self.hint("consider closing the meta with `>`");
            SyntaxKind::Error
        } else {
            SyntaxKind::Meta
        }
    }

    /// Read the rest of an identifier, and the action that it opens if it is
    /// `if`.
    fn identifier(&mut self, start: usize, Ghost(i): Ghost<int>) -> (node: SyntaxNode)
        requires
            old(self).wf(),
            0 <= i < old(self).text().len(),
            old(self).index() == i + 1,
            start == offset_at(old(self).text(), i),
        ensures
            final(self).wf(),
            final(self).text() == old(self).text(),
            ({
                let j = run_end(old(self).text(), i + 1, class_id_continue());
                let lexed = if old(self).text().subrange(i, j) == "if"@ {
                    action(old(self).text(), SyntaxKind::If, i, j)
                } else {
                    plain(old(self).text(), SyntaxKind::Identifier, i, j)
                };
                node@ == lexed.tree && final(self).index() == lexed.next
            }),
    {
        scan_eat_while(&mut self.s, is_id_continue);
        proof {
            lemma_run_end(self.text(), i + 1, self.index(), class_id_continue());
            lemma_index_at_offset(self.text(), i);
        }
        let text = scan_from(&self.s, start);
        if str_eq(text, "if") {
            self.action(start, SyntaxKind::If, Ghost(i))
        } else {
            let end = scan_cursor(&self.s);
            SyntaxNode::leaf(SyntaxKind::Identifier, text, start..end)
        }
    }

    /// Read the free text of an action behind its trigger, which has been
    /// consumed, and make the node of the action.
    fn action(&mut self, start: usize, kind: SyntaxKind, Ghost(i): Ghost<int>) -> (node: SyntaxNode)
        requires
            old(self).wf(),
            0 <= i <= old(self).index(),
            start == offset_at(old(self).text(), i),
            kind == SyntaxKind::If || kind == SyntaxKind::Arrow,
        ensures
            final(self).wf(),
            final(self).text() == old(self).text(),
            node@ == action(old(self).text(), kind, i, old(self).index()).tree,
            final(self).index() == action(old(self).text(), kind, i, old(self).index()).next,
    {
        let ghost j = self.index();
        proof {
            lemma_index_at_offset(self.text(), i);
            lemma_index_at_offset(self.text(), j);
        }
        let text = scan_from(&self.s, start);
        let cursor = scan_cursor(&self.s);
        if kind == SyntaxKind::Arrow {
            proof {
                lemma_find_at_bounds(self.text(), j, ";"@);
            }
            scan_eat_until_str(&mut self.s, ";");
        } else {
            loop
                invariant
                    self.inv(),
                    self.pending() is None,
                    self.text() == old(self).text(),
                    j <= self.index(),
                    condition_end(self.text(), self.index()) == condition_end(self.text(), j),
                ensures
                    self.index() == condition_end(self.text(), j),
                decreases self.text().len() - self.index(),
            {
                proof {
                    reveal_strlit(";");
                    lemma_starts_with_char(self.text(), self.index(), ';');
                    assert(";"@ =~= seq![';']);
                }
                if scan_done(&self.s) || scan_at(&self.s, ";") || scan_at(&self.s, "->") {
                    break ;
                }
                scan_eat(&mut self.s);
            }
        }
        let operation = scan_from(&self.s, cursor);
        let end = scan_cursor(&self.s);
        let mut children: Vec<SyntaxNode> = Vec::new();
        children.push(SyntaxNode::leaf(kind, text, start..cursor));
        children.push(SyntaxNode::leaf(SyntaxKind::Operation, operation, cursor..end));
        proof {
            let e = self.index();
            assert(crate::node::trees_of(children@) =~= seq![
                leaf_at(self.text(), kind, i, j),
                leaf_at(self.text(), SyntaxKind::Operation, j, e),
            ]);
        }
        SyntaxNode::inner(SyntaxKind::Action, children)
    }
}

/// The error for a string literal that the text ends in.
pub open spec fn unclosed_string() -> ErrorView {
    hinted_error("unclosed string literal"@, "consider closing the string literal with `\"`"@)
}

/// The error for an escape `\u{` that no `}` closes.
pub open spec fn unclosed_unicode() -> ErrorView {
    hinted_error("unclosed unicode escape"@, "consider closing the unicode escape with `}`"@)
}

impl<'s> Lexer<'s> {
    /// Read the rest of a string literal behind its opening quote.
    fn string(&mut self) -> (kind: SyntaxKind)
        requires
            old(self).inv(),
            old(self).pending() is None,
        ensures
            final(self).text() == old(self).text(),
            final(self).inv(),
            old(self).index() <= final(self).index(),
            ({
                let scan = string_rest(old(self).text(), old(self).index(), None);
                &&& final(self).index() == scan.end
                &&& scan.closed ==> kind == SyntaxKind::String && final(self).pending()
                    == scan.error
                &&& !scan.closed ==> kind == SyntaxKind::Error && final(self).pending() == Some(
                    unclosed_string(),
                )
            }),
    {
        let ghost text = self.text();
        let ghost from = self.index();
        loop
            invariant
                self.inv(),
                self.text() == text,
                text == old(self).text(),
                from == old(self).index(),
                from <= self.index(),
                string_rest(text, self.index(), self.pending()) == string_rest(text, from, None),
            ensures
                self.inv(),
                self.text() == text,
                from <= self.index(),
                self.index() == string_rest(text, from, None).end,
                !string_rest(text, from, None).closed,
            decreases text.len() - self.index(),
        {
            match scan_eat(&mut self.s) {
                None => {
                    break ;
                },
                Some(c) => {
                    if c == '"' {
                        return SyntaxKind::String;
                    } else if c == '\\' {
                        match scan_eat(&mut self.s) {
                            None => {},
                            Some(next) => {
                                if next == 'n' || next == 'r' || next == 't' || next == 'b' || next
                                    == 'f' || next == '\\' || next == '"' {
                                } else if next == 'u' {
                                    self.unicode_escape();
                                } else {
                                    self.error("invalid escape sequence");
                                }
                            },
                        }
                    }
                },
            }
        }
        self.error("unclosed string literal");
        self.hint("consider closing the string literal with `\"`");
        SyntaxKind::Error
    }

    /// Read the rest of an escape behind `\u`.
    fn unicode_escape(&mut self)
        requires
            old(self).inv(),
        ensures
            final(self).text() == old(self).text(),
            final(self).inv(),
            old(self).index() <= final(self).index(),
            ({
                let text = old(self).text();
                let k = old(self).index();
                if char_at(text, k, '{') {
                    let j = run_end(text, k + 1, class_alphanumeric());
                    if !char_at(text, j, '}') {
                        final(self).index() == j && final(self).pending() == Some(
                            unclosed_unicode(),
                        )
                    } else {
                        final(self).index() == j + 1 && final(self).pending() == if hex_number(
                            text.subrange(k + 1, j),
                        ) {
                            old(self).pending()
                        } else {
                            Some(invalid_unicode())
                        }
                    }
                } else {
                    let j = if k + 4 <= text.len() {
                        k + 4
                    } else {
                        text.len() as int
                    };
                    final(self).index() == j && final(self).pending() == if hex_number(
                        text.subrange(k, j),
                    ) {
                        old(self).pending()
                    } else {
                        Some(invalid_unicode())
                    }
                }
            }),
    {
        let ghost text = self.text();
        let ghost k = self.index();
        let unicode = if scan_eat_if_char(&mut self.s, '{') {
            let from = scan_cursor(&self.s);
            scan_eat_while(&mut self.s, is_alphanumeric);
            proof {
                lemma_run_end(text, k + 1, self.index(), class_alphanumeric());
                lemma_index_at_offset(text, k + 1);
            }
            let unicode = scan_from(&self.s, from);
            if !scan_eat_if_char(&mut self.s, '}') {
                self.error("unclosed unicode escape");
                self.hint("consider closing the unicode escape with `}`");
                return ;
            }
            unicode
        } else {
            let from = scan_cursor(&self.s);
            let mut n: usize = 0;
            while n < 4
                invariant
                    n <= 4,
                    self.text() == text,
                    self.pending() == old(self).pending(),
                    self.index() == k + n || (self.index() == text.len() && self.index() <= k + n),
                    self.inv(),
                    k <= self.index(),
                decreases 4 - n,
            {
                scan_eat(&mut self.s);
                n = n + 1;
            }
            proof {
                lemma_index_at_offset(text, k);
            }
            scan_from(&self.s, from)
        };
        if !is_hex_number(unicode) {
            self.error("invalid unicode escape");
            self.hint("unicode must be a hex number");
        }
    }
}

/// A string literal ends inside the text, behind where its rest began.
pub proof fn lemma_string_rest_bounds(text: Seq<char>, i: int, error: Option<ErrorView>)
    requires
        0 <= i <= text.len(),
    ensures
        i <= string_rest(text, i, error).end <= text.len(),
    decreases text.len() - i,
{
    if i < text.len() && text[i] != '"' {
        if text[i] != '\\' || i + 1 >= text.len() {
            lemma_string_rest_bounds(text, i + 1, error);
        } else {
            let next = text[i + 1];
            if next == 'n' || next == 'r' || next == 't' || next == 'b' || next == 'f' || next
                == '\\' || next == '"' {
                lemma_string_rest_bounds(text, i + 2, error);
            } else if next != 'u' {
                lemma_string_rest_bounds(
                    text,
                    i + 2,
                    Some(plain_error("invalid escape sequence"@)),
                );
            } else if char_at(text, i + 2, '{') {
                let j = run_end(text, i + 3, class_alphanumeric());
                lemma_run_end_bounds(text, i + 3, class_alphanumeric());
                if !char_at(text, j, '}') {
                    lemma_string_rest_bounds(text, j, Some(unclosed_unicode()));
                } else if hex_number(text.subrange(i + 3, j)) {
                    lemma_string_rest_bounds(text, j + 1, error);
                } else {
                    lemma_string_rest_bounds(text, j + 1, Some(invalid_unicode()));
                }
            } else {
                let j = if i + 6 <= text.len() {
                    i + 6
                } else {
                    text.len() as int
                };
                if hex_number(text.subrange(i + 2, j)) {
                    lemma_string_rest_bounds(text, j, error);
                } else {
                    lemma_string_rest_bounds(text, j, Some(invalid_unicode()));
                }
            }
        }
    }
}

/// The free text behind `if` ends inside the text, not before its start.
pub proof fn lemma_condition_end_bounds(text: Seq<char>, i: int)
    requires
        0 <= i <= text.len(),
    ensures
        i <= condition_end(text, i) <= text.len(),
    decreases text.len() - i,
{
    if i < text.len() && text[i] != ';' && !starts_with_at(text, i, "->"@) {
        lemma_condition_end_bounds(text, i + 1);
    }
}

/// What holds of an action: it is a well-formed composite of two leaves that
/// stands at `i` and reaches to the end of its free text.
pub proof fn lemma_action_stands(text: Seq<char>, kind: SyntaxKind, i: int, j: int)
    requires
        0 <= i <= j <= text.len(),
        kind == SyntaxKind::If || kind == SyntaxKind::Arrow,
    ensures
        j <= action(text, kind, i, j).next <= text.len(),
        action(text, kind, i, j).tree.wf(),
        action(text, kind, i, j).tree.anchored_at(text, i),
        action(text, kind, i, j).tree.source() == text.subrange(i, action(text, kind, i, j).next),
        action(text, kind, i, j).tree.kind() == SyntaxKind::Action,
        !action(text, kind, i, j).tree.erroneous(),
{
    lemma_find_at_bounds(text, j, ";"@);
    lemma_condition_end_bounds(text, j);
    let end = action(text, kind, i, j).next;
    let children = seq![leaf_at(text, kind, i, j), leaf_at(text, SyntaxKind::Operation, j, end)];
    reveal_with_fuel(source_of, 3);
    assert(source_of(children, 2) =~= text.subrange(i, end));
    assert forall|k: int| 0 <= k < children.len() implies !(#[trigger] children[k]).erroneous()
        && children[k].wf() && children[k].stands_at(
        text,
        i + source_of(children, k as nat).len(),
    ) by {
        assert(k == 0 || k == 1);
    }
}

/// What holds of each token. It lies inside the text, is well formed and
/// stands where it was read, and its source is what was consumed. Before the
/// end of the text a token consumes at least one character and is no `End`;
/// at the end it is an empty `End` leaf and nothing is consumed, however
/// often it is read.
#[verifier::rlimit(30)]
pub proof fn lemma_lex(text: Seq<char>, i: int)
    requires
        0 <= i <= text.len(),
    ensures
        i <= lex(text, i).next <= text.len(),
        i < text.len() ==> i < lex(text, i).next && lex(text, i).tree.kind() != SyntaxKind::End,
        i == text.len() ==> lex(text, i) == plain(text, SyntaxKind::End, i, i),
        lex(text, i).tree.wf(),
        lex(text, i).tree.anchored_at(text, i),
        lex(text, i).tree.source() == text.subrange(i, lex(text, i).next),
        lex(text, i).tree is Inner ==> lex(text, i).tree.kind() == SyntaxKind::Action && !lex(
            text,
            i,
        ).tree.erroneous(),
{
    if i < text.len() {
        reveal_strlit("*/");
        reveal_strlit("<=");
        reveal_strlit("<!");
        lemma_run_end_bounds(text, i + 1, class_whitespace());
        lemma_run_end_bounds(text, i + 1, class_digit());
        lemma_run_end_bounds(text, i + 1, class_id_continue());
        lemma_find_at_bounds(text, i + 1, ">"@);
        lemma_string_rest_bounds(text, i + 1, None);
        lemma_action_stands(text, SyntaxKind::If, i, run_end(text, i + 1, class_id_continue()));
        if i + 2 <= text.len() {
            lemma_run_end_bounds(text, i + 2, class_within_line());
            lemma_find_at_bounds(text, i + 2, "*/"@);
            lemma_action_stands(text, SyntaxKind::Arrow, i, i + 2);
        }
    }
}

} // verus!
