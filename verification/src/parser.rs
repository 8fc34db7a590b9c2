//! The parser: from a text to its syntax tree. The nodes read so far are kept
//! in a flat list; a marker is an index into that list, and wrapping replaces
//! the nodes from a marker on by one composite over them.

use vstd::prelude::*;
use vstd::string::*;
use crate::kind::SyntaxKind;
use crate::fidelity::{
    lemma_atom, lemma_convert, lemma_eat, lemma_eat_if, lemma_eat_while, lemma_error, lemma_expect,
    lemma_hint, lemma_item, lemma_parse_tree, lemma_rule, lemma_start, lemma_valid_drop,
    lemma_valid_wrap,
};
use crate::lexer::{lemma_lex, lex, Lexer};
use crate::node::{all_wf, sources, stand_at, trees_of, SyntaxNode, Tree};
use crate::scan::lemma_index_at_offset;

verus! {

/// What a parser holds: the index of the character at which its lexer stands
/// and the nodes read so far.
pub struct State {
    pub index: int,
    pub nodes: Seq<Tree>,
}

/// A pattern to match a token kind.
#[derive(Clone, Copy)]
pub enum Pattern {
    /// The given kind.
    Kind(SyntaxKind),
    /// One of the two given kinds.
    Either(SyntaxKind, SyntaxKind),
    /// Whitespace or a comment.
    Trivia,
    /// One of the four lookaround markers.
    Looking,
    /// A kind that starts a repetition indicator.
    Prefix,
}

impl Pattern {
    /// Whether the pattern matches the kind.
    pub open spec fn spec_matches(self, kind: SyntaxKind) -> bool {
        match self {
            Pattern::Kind(k) => k == kind,
            Pattern::Either(a, b) => a == kind || b == kind,
            Pattern::Trivia => kind.spec_is_trivia(),
            Pattern::Looking => kind.spec_is_looking(),
            Pattern::Prefix => kind.spec_is_prefix(),
        }
    }

    /// How the pattern is written in messages: the name of the kind, or the
    /// names of the two kinds with ` or ` between them.
    pub open spec fn spec_name(self) -> Seq<char> {
        match self {
            Pattern::Kind(k) => k.spec_name(),
            Pattern::Either(a, b) => a.spec_name() + " or "@ + b.spec_name(),
            _ => Seq::empty(),
        }
    }

    /// Whether the pattern has a name: those that stand for kinds have.
    pub open spec fn named(self) -> bool {
        self is Kind || self is Either
    }

    /// Whether the pattern matches the kind.
    #[verifier::when_used_as_spec(spec_matches)]
    pub fn matches(self, kind: SyntaxKind) -> (b: bool)
        ensures
            b == self.spec_matches(kind),
    {
        match self {
            Pattern::Kind(k) => k == kind,
            Pattern::Either(a, b) => a == kind || b == kind,
            Pattern::Trivia => kind.is_trivia(),
            Pattern::Looking => kind.is_looking(),
            Pattern::Prefix => kind.is_prefix(),
        }
    }

    /// The name of the pattern, as it is written in messages.
    pub fn name(self) -> (name: String)
        requires
            self.named(),
        ensures
            name@ == self.spec_name(),
    {
        match self {
            Pattern::Kind(k) => k.name().to_owned(),
            Pattern::Either(a, b) => {
                let mut name = a.name().to_owned();
                name.append(" or ");
                name.append(b.name());
                name
            },
            _ => String::new(),
        }
    }
}

/// The invariant of a parser over `text`: the lexer stands inside the text,
/// the nodes are well formed and stand in the text one behind the other from
/// its start, and together they hold what has been consumed.
#[verifier::opaque]
pub open spec fn valid(text: Seq<char>, st: State) -> bool {
    &&& 0 <= st.index <= text.len()
    &&& all_wf(st.nodes)
    &&& stand_at(st.nodes, text, 0)
    &&& sources(st.nodes) =~= text.take(st.index)
}

/// Whether the last node has the span of what it holds, as a token has when
/// it comes from the lexer.
pub open spec fn fresh(text: Seq<char>, st: State) -> bool {
    &&& st.nodes.len() > 0
    &&& st.nodes.last().anchored_at(text, st.index - st.nodes.last().source().len())
}

/// The kind of the last node.
pub open spec fn last_kind(st: State) -> SyntaxKind {
    st.nodes.last().kind()
}

/// The state with another node in the place of the last.
pub open spec fn with_last(st: State, tree: Tree) -> State {
    State { index: st.index, nodes: st.nodes.update(st.nodes.len() - 1, tree) }
}

/// Eating: tokens are read and appended up to the first that is neither
/// whitespace nor a comment, which is the last one appended.
pub open spec fn spec_eat(text: Seq<char>, st: State) -> State
    decreases text.len() - st.index,
    via spec_eat_decreases
{
    let token = lex(text, st.index);
    let next = State { index: token.next, nodes: st.nodes.push(token.tree) };
    if token.tree.kind().spec_is_trivia() {
        spec_eat(text, next)
    } else {
        next
    }
}

#[via_fn]
proof fn spec_eat_decreases(text: Seq<char>, st: State) {
    if 0 <= st.index <= text.len() {
        lemma_lex(text, st.index);
    }
}

/// Uneating: the last node leaves the list and the lexer goes back to where
/// that node began.
pub open spec fn spec_uneat(st: State) -> State {
    State { index: st.index - st.nodes.last().source().len(), nodes: st.nodes.drop_last() }
}

/// Eating if the token matches: otherwise the token is uneaten, while the
/// whitespace and the comments before it stay.
pub open spec fn spec_eat_if(text: Seq<char>, st: State, pattern: Pattern) -> (State, bool) {
    let eaten = spec_eat(text, st);
    if pattern.spec_matches(last_kind(eaten)) {
        (eaten, true)
    } else {
        (spec_uneat(eaten), false)
    }
}

/// Eating while the tokens match: the first token that does not match is
/// uneaten. A token that matches is behind the one before it; at the end of
/// the text, where nothing is consumed any more, eating stops.
pub open spec fn spec_eat_while(text: Seq<char>, st: State, pattern: Pattern) -> State
    decreases text.len() - st.index,
{
    let eaten = spec_eat(text, st);
    if pattern.spec_matches(last_kind(eaten)) && st.index < eaten.index <= text.len() {
        spec_eat_while(text, eaten, pattern)
    } else {
        spec_uneat(eaten)
    }
}

/// Wrapping: the nodes from the marker on, which is brought down to the
/// length of the list, are replaced by one composite over them.
pub open spec fn spec_wrap(st: State, from: int, kind: SyntaxKind) -> State {
    let from = if from <= st.nodes.len() {
        from
    } else {
        st.nodes.len() as int
    };
    State {
        index: st.index,
        nodes: st.nodes.take(from).push(Tree::inner(kind, st.nodes.skip(from))),
    }
}

/// The last node turned into an error with the given message.
pub open spec fn spec_error(st: State, message: Seq<char>) -> State {
    with_last(st, st.nodes.last().to_error(message))
}

/// The message for a token of the kind `found` where `pattern` was expected.
pub open spec fn expected_message(pattern: Pattern, found: SyntaxKind) -> Seq<char> {
    "expected "@ + pattern.spec_name() + ", found "@ + found.spec_name()
}

/// The message for a token of the kind `found` that has no place where it
/// stands.
pub open spec fn unexpected_message(found: SyntaxKind) -> Seq<char> {
    "unexpected "@ + found.spec_name()
}

/// Expecting: a token is eaten, and turned into an error if it does not
/// match.
pub open spec fn spec_expect(text: Seq<char>, st: State, pattern: Pattern) -> State {
    let eaten = spec_eat(text, st);
    if pattern.spec_matches(last_kind(eaten)) {
        eaten
    } else {
        spec_error(eaten, expected_message(pattern, last_kind(eaten)))
    }
}

/// The last node turned into an error that calls it unexpected.
pub open spec fn spec_unexpected(st: State) -> State {
    spec_error(st, unexpected_message(last_kind(st)))
}

/// The last node with one more hint, if there is a node and it is an error.
pub open spec fn spec_hint(st: State, hint: Seq<char>) -> State {
    if st.nodes.len() == 0 {
        st
    } else {
        with_last(st, st.nodes.last().with_hint(hint))
    }
}

/// The last node under another kind, if it is no error.
pub open spec fn spec_convert(st: State, kind: SyntaxKind) -> State {
    with_last(st, st.nodes.last().with_kind(kind))
}

/// Marks a position in the parser's node list.
#[derive(Clone, Copy)]
pub struct Marker(pub usize);

impl Marker {
    /// The previous position in the list.
    pub fn prev(self) -> (marker: Marker)
        requires
            self.0 > 0,
        ensures
            marker.0 == self.0 - 1,
    {
        Marker(self.0 - 1)
    }
}

/// Manages parsing a stream of tokens into a tree of [`SyntaxNode`]s.
struct Parser<'s> {
    lexer: Lexer<'s>,
    nodes: Vec<SyntaxNode>,
}

impl<'s> Parser<'s> {
    /// The characters of the text.
    spec fn text(&self) -> Seq<char> {
        self.lexer.text()
    }

    /// Where the lexer stands, and the values of the nodes read so far.
    spec fn state(&self) -> State {
        State { index: self.lexer.index(), nodes: trees_of(self.nodes@) }
    }

    /// The lexer stands between two tokens, and the state is valid.
    spec fn inv(&self) -> bool {
        self.lexer.wf() && valid(self.text(), self.state())
    }

    /// Create a new parser for the given text.
    fn new(text: &'s str) -> (p: Self)
        ensures
            p.inv(),
            p.text() == text@,
            p.state() == (State { index: 0, nodes: Seq::empty() }),
    {
        let p = Self { lexer: Lexer::new(text), nodes: Vec::new() };
        proof {
            lemma_start(text@);
            assert(p.state().nodes =~= Seq::empty());
        }
        p
    }

    /// Finish parsing and return the resulting nodes as a single node.
    fn finish(self, kind: SyntaxKind) -> (node: SyntaxNode)
        requires
            kind != SyntaxKind::Error,
        ensures
            node@ == Tree::inner(kind, self.state().nodes),
    {
        SyntaxNode::inner(kind, self.nodes)
    }

    /// Eat tokens until a non-trivia token is found.
    /// Return the kind of the first non-trivia token.
    fn eat(&mut self) -> (kind: SyntaxKind)
        requires
            old(self).inv(),
        ensures
            final(self).inv(),
            final(self).text() == old(self).text(),
            final(self).state() == spec_eat(old(self).text(), old(self).state()),
            kind == last_kind(final(self).state()),
    {
        let ghost text = self.text();
        proof {
            lemma_eat(text, self.state());
        }
        loop
            invariant
                self.lexer.wf(),
                self.text() == text,
                text == old(self).text(),
                spec_eat(text, self.state()) == spec_eat(text, old(self).state()),
                valid(text, spec_eat(text, old(self).state())),
            decreases text.len() - self.state().index,
        {
            let ghost before = self.state();
            let node = self.lexer.next();
            let kind = node.kind();
            self.nodes.push(node);
            assert(self.state().nodes =~= before.nodes.push(lex(text, before.index).tree));
            if !kind.is_trivia() {
                return kind;
            }
        }
    }

    /// Pop the last node and jump the lexer back to its start.
    fn uneat(&mut self) -> (node: SyntaxNode)
        requires
            old(self).inv(),
            fresh(old(self).text(), old(self).state()),
        ensures
            final(self).inv(),
            final(self).text() == old(self).text(),
            final(self).state() == spec_uneat(old(self).state()),
            node@ == old(self).state().nodes.last(),
    {
        let ghost text = self.text();
        let ghost before = self.state();
        proof {
            lemma_valid_drop(text, before);
            lemma_index_at_offset(text, before.index - before.nodes.last().source().len());
        }
        let node = self.nodes.pop().unwrap();
        self.lexer.jump(node.span().start);
        assert(self.state().nodes =~= before.nodes.drop_last());
        node
    }

    /// Eat the next token if it matches the given pattern.
    fn eat_if(&mut self, pattern: Pattern) -> (eaten: bool)
        requires
            old(self).inv(),
        ensures
            final(self).inv(),
            final(self).text() == old(self).text(),
            final(self).state() == spec_eat_if(old(self).text(), old(self).state(), pattern).0,
            eaten == spec_eat_if(old(self).text(), old(self).state(), pattern).1,
    {
        proof {
            lemma_eat(self.text(), self.state());
        }
        let kind = self.eat();
        if pattern.matches(kind) {
            true
        } else {
            self.uneat();
            false
        }
    }

    /// Eat tokens while the pattern matches.
    fn eat_while(&mut self, pattern: Pattern)
        requires
            old(self).inv(),
            !pattern.spec_matches(SyntaxKind::End),
        ensures
            final(self).inv(),
            final(self).text() == old(self).text(),
            final(self).state() == spec_eat_while(old(self).text(), old(self).state(), pattern),
    {
        let ghost text = self.text();
        loop
            invariant
                self.inv(),
                self.text() == text,
                text == old(self).text(),
                !pattern.spec_matches(SyntaxKind::End),
                spec_eat_while(text, self.state(), pattern) == spec_eat_while(
                    text,
                    old(self).state(),
                    pattern,
                ),
            decreases text.len() - self.state().index,
        {
            proof {
                lemma_eat(text, self.state());
            }
            let kind = self.eat();
            if !pattern.matches(kind) {
                self.uneat();
                return ;
            }
        }
    }

    /// Convert the last node to the given kind.
    fn convert(&mut self, kind: SyntaxKind)
        requires
            old(self).inv(),
            old(self).state().nodes.len() > 0,
            kind != SyntaxKind::Error,
        ensures
            final(self).inv(),
            final(self).text() == old(self).text(),
            final(self).state() == spec_convert(old(self).state(), kind),
    {
        let ghost before = self.state();
        proof {
            lemma_convert(self.text(), before, kind);
        }
        let mut node = self.nodes.pop().unwrap();
        node.convert_kind(kind);
        self.nodes.push(node);
        assert(self.state().nodes =~= before.nodes.update(before.nodes.len() - 1, node@));
    }

    /// The kind of the last token.
    fn kind(&self) -> (kind: SyntaxKind)
        requires
            self.state().nodes.len() > 0,
        ensures
            kind == last_kind(self.state()),
    {
        self.nodes[self.nodes.len() - 1].kind()
    }

    /// Wrap the nodes after `from` into a new node of the given kind.
    fn wrap(&mut self, from: Marker, kind: SyntaxKind)
        requires
            old(self).inv(),
            kind != SyntaxKind::Error,
        ensures
            final(self).inv(),
            final(self).text() == old(self).text(),
            final(self).state() == spec_wrap(old(self).state(), from.0 as int, kind),
    {
        let ghost before = self.state();
        proof {
            lemma_valid_wrap(self.text(), before, from.0 as int, kind);
        }
        let to = self.marker().0;
        let from = if from.0 <= to {
            from.0
        } else {
            to
        };
        let children = self.nodes.split_off(from);
        assert(trees_of(children@) =~= before.nodes.skip(from as int));
        let node = SyntaxNode::inner(kind, children);
        self.nodes.push(node);
        assert(self.state().nodes =~= spec_wrap(before, from as int, kind).nodes);
    }

    /// Return the marker pointing to the next node.
    fn marker(&self) -> (marker: Marker)
        ensures
            marker.0 == self.state().nodes.len(),
    {
        Marker(self.nodes.len())
    }

    /// Report an error at the current position.
    fn error(&mut self, message: &str)
        requires
            old(self).inv(),
            fresh(old(self).text(), old(self).state()),
        ensures
            final(self).inv(),
            final(self).text() == old(self).text(),
            final(self).state() == spec_error(old(self).state(), message@),
    {
        let ghost before = self.state();
        proof {
            lemma_error(self.text(), before, message@);
        }
        let mut node = self.nodes.pop().unwrap();
        node.convert_to_error(message);
        self.nodes.push(node);
        assert(self.state().nodes =~= before.nodes.update(before.nodes.len() - 1, node@));
    }

    /// Expect the next token to match the given pattern.
    /// If it does not match, report an error.
    fn expect(&mut self, pattern: Pattern) -> (matched: bool)
        requires
            old(self).inv(),
            pattern.named(),
        ensures
            final(self).inv(),
            final(self).text() == old(self).text(),
            final(self).state() == spec_expect(old(self).text(), old(self).state(), pattern),
    {
        proof {
            lemma_eat(self.text(), self.state());
        }
        let kind = self.eat();
        if pattern.matches(kind) {
            true
        } else {
            self.expected(pattern);
            false
        }
    }

    /// Report an error saying that the token is not what is expected.
    fn expected(&mut self, pattern: Pattern)
        requires
            old(self).inv(),
            fresh(old(self).text(), old(self).state()),
            pattern.named(),
        ensures
            final(self).inv(),
            final(self).text() == old(self).text(),
            final(self).state() == spec_error(
                old(self).state(),
                expected_message(pattern, last_kind(old(self).state())),
            ),
    {
        let mut message = "expected ".to_owned();
        message.append(pattern.name().as_str());
        message.append(", found ");
        message.append(self.kind().name());
        self.error(message.as_str());
    }

    /// Report an error saying that the token is unexpected.
    fn unexpected(&mut self)
        requires
            old(self).inv(),
            fresh(old(self).text(), old(self).state()),
        ensures
            final(self).inv(),
            final(self).text() == old(self).text(),
            final(self).state() == spec_unexpected(old(self).state()),
    {
        let mut message = "unexpected ".to_owned();
        message.append(self.kind().name());
        self.error(message.as_str());
    }

    /// Add a hint to the last node if it is an error.
    fn hint(&mut self, hint: &str)
        requires
            old(self).inv(),
        ensures
            final(self).inv(),
            final(self).text() == old(self).text(),
            final(self).state() == spec_hint(old(self).state(), hint@),
    {
        let ghost before = self.state();
        proof {
            lemma_hint(self.text(), before, hint@);
        }
        if self.nodes.len() > 0 {
            let mut node = self.nodes.pop().unwrap();
            node.hints(hint);
            self.nodes.push(node);
            assert(self.state().nodes =~= before.nodes.update(before.nodes.len() - 1, node@));
        }
    }
}

/// Where eating leads: not back, and not behind the end of the text.
pub proof fn lemma_spec_eat(text: Seq<char>, st: State)
    requires
        0 <= st.index <= text.len(),
    ensures
        st.index <= spec_eat(text, st).index <= text.len(),
        spec_eat(text, st).nodes.len() > st.nodes.len(),
        last_kind(spec_eat(text, st)) != SyntaxKind::End ==> st.index < spec_eat(text, st).index,
        st.index <= spec_uneat(spec_eat(text, st)).index <= spec_eat(text, st).index,
    decreases text.len() - st.index,
{
    lemma_lex(text, st.index);
    let token = lex(text, st.index);
    let next = State { index: token.next, nodes: st.nodes.push(token.tree) };
    if token.tree.kind().spec_is_trivia() {
        lemma_spec_eat(text, next);
    }
}

/// The repetition indicator behind an item, if there is one. A `?`, `*` or
/// `+`, or a range between braces, which holds an integer and may hold a
/// comma and a second integer and is wrapped as `BraceIndicator`, may be
/// followed by a `?`; the item at the marker `atom`, what lies between, and
/// the indicator are wrapped as `Repeating`.
pub open spec fn spec_repeat(text: Seq<char>, st: State, atom: int) -> State {
    let start = st.nodes.len() as int;
    let (prefixed, found) = spec_eat_if(text, st, Pattern::Prefix);
    if !found {
        prefixed
    } else {
        let indicated = if last_kind(prefixed) == SyntaxKind::LeftBrace {
            let low = spec_expect(text, prefixed, Pattern::Kind(SyntaxKind::Integer));
            let (comma, separated) = spec_eat_if(text, low, Pattern::Kind(SyntaxKind::Comma));
            let high = if separated {
                spec_eat_if(text, comma, Pattern::Kind(SyntaxKind::Integer)).0
            } else {
                comma
            };
            let closed = spec_expect(text, high, Pattern::Kind(SyntaxKind::RightBrace));
            spec_wrap(
                spec_hint(closed, "consider closing the range with `}`"@),
                start,
                SyntaxKind::BraceIndicator,
            )
        } else {
            prefixed
        };
        let lazy = spec_eat_if(text, indicated, Pattern::Kind(SyntaxKind::Question)).0;
        spec_wrap(lazy, atom, SyntaxKind::Repeating)
    }
}

/// A string literal that has been eaten, and the range that it may open: if
/// `..` follows, a second string is expected and the whole is wrapped from
/// the marker `start` as `Range`.
pub open spec fn spec_range(text: Seq<char>, eaten: State, start: int) -> State {
    let (dots, ranged) = spec_eat_if(text, eaten, Pattern::Kind(SyntaxKind::Dots));
    if ranged {
        spec_wrap(
            spec_hint(
                spec_expect(text, dots, Pattern::Kind(SyntaxKind::String)),
                "`..` can only connect two string literals"@,
            ),
            start,
            SyntaxKind::Range,
        )
    } else {
        dots
    }
}

/// The converse that the `~` that has just been eaten opens: it takes the
/// item behind it, which is wrapped with it from the marker `start` as
/// `Converse`. Where no item follows, the last node is turned into an error.
pub open spec fn spec_converse(text: Seq<char>, eaten: State, start: int) -> State
    decreases text.len() - eaten.index, 1nat,
{
    let (inner, more) = spec_item(text, eaten, Some((start, SyntaxKind::Converse)));
    if more {
        inner
    } else {
        spec_hint(
            spec_unexpected(inner),
            "consider using converse indicator `~` before an expression"@,
        )
    }
}

/// The group that the `(` that has just been eaten opens: it takes an
/// expression up to `)` and is wrapped from the marker `start`, as `Looking`
/// if a lookaround marker follows the `(` and as `Group` otherwise.
pub open spec fn spec_group(text: Seq<char>, eaten: State, start: int) -> State
    decreases text.len() - eaten.index, 2nat,
    when 0 <= eaten.index <= text.len()
    via spec_group_decreases
{
    let (opened, looking) = spec_eat_if(text, eaten, Pattern::Looking);
    spec_wrap(
        spec_expect(text, spec_expression(text, opened), Pattern::Kind(SyntaxKind::RightParen)),
        start,
        if looking {
            SyntaxKind::Looking
        } else {
            SyntaxKind::Group
        },
    )
}

/// The item whose first token has just been eaten, where `start` is the
/// marker from before that token. A meta, an identifier, `.` and `|` are
/// items as they are; a string may open a range, `~` a converse and `(` a
/// group; any other token is turned into an error.
pub open spec fn spec_atom(text: Seq<char>, eaten: State, start: int) -> State
    decreases text.len() - eaten.index, 3nat,
{
    let kind = last_kind(eaten);
    if kind == SyntaxKind::Meta || kind == SyntaxKind::Identifier || kind == SyntaxKind::Dot
        || kind == SyntaxKind::Bar {
        eaten
    } else if kind == SyntaxKind::String {
        spec_range(text, eaten, start)
    } else if kind == SyntaxKind::Tilde {
        spec_converse(text, eaten, start)
    } else if kind == SyntaxKind::LeftParen {
        spec_group(text, eaten, start)
    } else if kind == SyntaxKind::LeftBrace {
        spec_hint(spec_unexpected(eaten), "range should be attached to an expression"@)
    } else if kind == SyntaxKind::RightBrace {
        spec_hint(spec_unexpected(eaten), "consider starting a range with `{`"@)
    } else {
        spec_unexpected(eaten)
    }
}

/// The next item of an expression, and whether there was one. The tokens
/// `)`, `;` and an action, and the end of the text, end the expression: the
/// token is uneaten and there is no item. Any other token starts an item,
/// which is wrapped from the marker that `wrapper` gives, if it gives one,
/// and may be followed by a repetition indicator. The indicator is wrapped
/// together with the item: with the last node, or with the string itself
/// where the item is a string that opens no range.
pub open spec fn spec_item(
    text: Seq<char>,
    st: State,
    wrapper: Option<(int, SyntaxKind)>,
) -> (State, bool)
    decreases text.len() - st.index, 0nat,
    via spec_item_decreases
{
    let start = st.nodes.len() as int;
    let eaten = spec_eat(text, st);
    let kind = last_kind(eaten);
    if kind == SyntaxKind::RightParen || kind == SyntaxKind::Action || kind == SyntaxKind::End
        || kind == SyntaxKind::SemiColon {
        (spec_uneat(eaten), false)
    } else {
        let item = spec_atom(text, eaten, start);
        match wrapper {
            Some((from, wrap)) => {
                let wrapped = spec_wrap(item, from, wrap);
                (spec_repeat(text, wrapped, wrapped.nodes.len() - 1), true)
            },
            None => {
                let plain_string = kind == SyntaxKind::String && !spec_eat_if(
                    text,
                    eaten,
                    Pattern::Kind(SyntaxKind::Dots),
                ).1;
                (
                    spec_repeat(
                        text,
                        item,
                        if plain_string {
                            eaten.nodes.len() - 1
                        } else {
                            item.nodes.len() - 1
                        },
                    ),
                    true,
                )
            },
        }
    }
}

/// An expression: items, as long as there is one. Each item consumes at
/// least one character.
pub open spec fn spec_expression(text: Seq<char>, st: State) -> State
    decreases text.len() - st.index, 1nat,
{
    let (next, more) = spec_item(text, st, None);
    if more && st.index < next.index <= text.len() {
        spec_expression(text, next)
    } else {
        next
    }
}

#[via_fn]
proof fn spec_item_decreases(text: Seq<char>, st: State, wrapper: Option<(int, SyntaxKind)>) {
    if 0 <= st.index <= text.len() {
        lemma_spec_eat(text, st);
    }
}

#[via_fn]
proof fn spec_group_decreases(text: Seq<char>, eaten: State, start: int) {
    lemma_spec_eat(text, eaten);
}

/// A rule: a name, `:`, an expression wrapped as `Definition`, the actions
/// that follow, and `;`, all wrapped as `Rule`. A token that is not the one
/// expected is turned into an error; the one in the place of `;` gets a hint.
#[verifier::opaque]
pub open spec fn spec_rule(text: Seq<char>, st: State) -> State {
    let start = st.nodes.len() as int;
    let name = spec_convert(
        spec_expect(text, st, Pattern::Either(SyntaxKind::Identifier, SyntaxKind::If)),
        SyntaxKind::Identifier,
    );
    let colon = spec_expect(text, name, Pattern::Kind(SyntaxKind::Colon));
    let marker = colon.nodes.len() as int;
    let definition = spec_wrap(spec_expression(text, colon), marker, SyntaxKind::Definition);
    let actions = spec_eat_while(text, definition, Pattern::Kind(SyntaxKind::Action));
    let end = spec_hint(
        spec_expect(text, actions, Pattern::Kind(SyntaxKind::SemiColon)),
        "consider ending the rule with `;`"@,
    );
    spec_wrap(end, start, SyntaxKind::Rule)
}

/// The rules of a text: whitespace and comments are skipped and a rule is
/// read, until the text ends. Each rule consumes at least one character.
#[verifier::opaque]
pub open spec fn spec_rules(text: Seq<char>, st: State) -> State
    decreases text.len() - st.index,
{
    let skipped = spec_eat_while(text, st, Pattern::Trivia);
    if skipped.index >= text.len() {
        skipped
    } else {
        let next = spec_rule(text, skipped);
        if st.index < next.index <= text.len() {
            spec_rules(text, next)
        } else {
            next
        }
    }
}

/// The syntax tree of a text: a `Root` over its rules and over the
/// whitespace and the comments between them.
pub open spec fn parse_tree(text: Seq<char>) -> Tree {
    Tree::inner(SyntaxKind::Root, spec_rules(text, State { index: 0, nodes: Seq::empty() }).nodes)
}

/// The marker and the kind that an item is to be wrapped with, as numbers.
pub open spec fn wrapper_view(wrapper: Option<(Marker, SyntaxKind)>) -> Option<(int, SyntaxKind)> {
    match wrapper {
        Some((from, kind)) => Some((from.0 as int, kind)),
        None => None,
    }
}

/// Parse a grammar from the input string: its rules, with the whitespace and
/// the comments around them, under one `Root`. Every character of the input
/// is held by exactly one leaf or error node, in order.
pub fn parse(input: &str) -> (root: SyntaxNode)
    ensures
        root@ == parse_tree(input@),
        root@.kind() == SyntaxKind::Root,
        root@.wf(),
        root@.source() == input@,
        root@.stands_at(input@, 0),
{
    let mut p = Parser::new(input);
    rules(&mut p);
    proof {
        lemma_parse_tree(input@);
    }
    p.finish(SyntaxKind::Root)
}

/// Parse rules until the text ends.
fn rules(p: &mut Parser<'_>)
    requires
        old(p).inv(),
    ensures
        final(p).inv(),
        final(p).text() == old(p).text(),
        final(p).state() == spec_rules(old(p).text(), old(p).state()),
{
    let ghost text = p.text();
    loop
        invariant_except_break
            spec_rules(text, p.state()) == spec_rules(text, old(p).state()),
        invariant
            p.inv(),
            p.text() == text,
            text == old(p).text(),
        ensures
            p.state() == spec_rules(text, old(p).state()),
        decreases text.len() - p.state().index,
    {
        let ghost before = p.state();
        proof {
            reveal(spec_rules);
            lemma_eat_while(text, before, Pattern::Trivia);
            lemma_rule(text, spec_eat_while(text, before, Pattern::Trivia));
        }
        p.eat_while(Pattern::Trivia);
        if p.lexer.done() {
            break ;
        }
        rule(p);
    }
}

/// Parse the next rule.
fn rule(p: &mut Parser<'_>)
    requires
        old(p).inv(),
    ensures
        final(p).inv(),
        final(p).text() == old(p).text(),
        final(p).state() == spec_rule(old(p).text(), old(p).state()),
{
    proof {
        reveal(spec_rule);
        lemma_expect(
            p.text(),
            p.state(),
            Pattern::Either(SyntaxKind::Identifier, SyntaxKind::If),
        );
    }
    let start = p.marker();

    p.expect(Pattern::Either(SyntaxKind::Identifier, SyntaxKind::If));
    p.convert(SyntaxKind::Identifier);
    p.expect(Pattern::Kind(SyntaxKind::Colon));

    let marker = p.marker();
    expression(p);
    p.wrap(marker, SyntaxKind::Definition);

    p.eat_while(Pattern::Kind(SyntaxKind::Action));
    p.expect(Pattern::Kind(SyntaxKind::SemiColon));
    p.hint("consider ending the rule with `;`");

    p.wrap(start, SyntaxKind::Rule);
}

/// Parse an expression greedily.
fn expression(p: &mut Parser<'_>)
    requires
        old(p).inv(),
    ensures
        final(p).inv(),
        final(p).text() == old(p).text(),
        final(p).state() == spec_expression(old(p).text(), old(p).state()),
    decreases old(p).text().len() - old(p).state().index, 1nat,
{
    let ghost text = p.text();
    loop
        invariant
            p.inv(),
            p.text() == text,
            text == old(p).text(),
            spec_expression(text, p.state()) == spec_expression(text, old(p).state()),
            old(p).state().index <= p.state().index,
        decreases text.len() - p.state().index,
    {
        proof {
            lemma_item(text, p.state(), None);
        }
        if !item(p, None) {
            return ;
        }
    }
}

/// Parse the next item in an expression.
///
/// This will detect the followed repeating indicator automatically.
///
/// If `wrapper` is assigned, wrap the item from the given marker into the given
/// kind before detecting repeating indicator.
fn item(p: &mut Parser<'_>, wrapper: Option<(Marker, SyntaxKind)>) -> (more: bool)
    requires
        old(p).inv(),
        wrapper matches Some((_, kind)) ==> kind != SyntaxKind::Error,
    ensures
        final(p).inv(),
        final(p).text() == old(p).text(),
        final(p).state() == spec_item(old(p).text(), old(p).state(), wrapper_view(wrapper)).0,
        more == spec_item(old(p).text(), old(p).state(), wrapper_view(wrapper)).1,
    decreases old(p).text().len() - old(p).state().index, 0nat,
{
    let ghost text = p.text();
    proof {
        lemma_eat(text, p.state());
    }
    let start = p.marker();
    let kind = p.eat();
    if kind == SyntaxKind::RightParen || kind == SyntaxKind::Action || kind == SyntaxKind::End
        || kind == SyntaxKind::SemiColon {
        p.uneat();
        return false;
    }
    let single = p.marker().prev();
    let plain_string = atom(p, start);
    proof {
        lemma_atom(text, spec_eat(text, old(p).state()), start.0 as int);
    }

    let atom = match wrapper {
        Some((from, wrap)) => {
            p.wrap(from, wrap);
            p.marker().prev()
        },
        None => {
            if plain_string {
                single
            } else {
                p.marker().prev()
            }
        },
    };
    repeat(p, atom);
    true
}

/// Parse the item whose first token has just been eaten, where `start` is
/// the marker from before that token. Say whether the item is a string that
/// opens no range.
fn atom(p: &mut Parser<'_>, start: Marker) -> (plain_string: bool)
    requires
        old(p).inv(),
        fresh(old(p).text(), old(p).state()),
    ensures
        final(p).inv(),
        final(p).text() == old(p).text(),
        final(p).state() == spec_atom(old(p).text(), old(p).state(), start.0 as int),
        plain_string == (last_kind(old(p).state()) == SyntaxKind::String && !spec_eat_if(
            old(p).text(),
            old(p).state(),
            Pattern::Kind(SyntaxKind::Dots),
        ).1),
    decreases old(p).text().len() - old(p).state().index, 3nat,
{
    let kind = p.kind();
    if kind == SyntaxKind::Meta || kind == SyntaxKind::Identifier || kind == SyntaxKind::Dot
        || kind == SyntaxKind::Bar {
    } else if kind == SyntaxKind::String {
        if p.eat_if(Pattern::Kind(SyntaxKind::Dots)) {
            p.expect(Pattern::Kind(SyntaxKind::String));
            p.hint("`..` can only connect two string literals");
            p.wrap(start, SyntaxKind::Range);
        } else {
            return true;
        }
    } else if kind == SyntaxKind::Tilde {
        converse(p, start);
    } else if kind == SyntaxKind::LeftParen {
        group(p, start);
    } else if kind == SyntaxKind::LeftBrace {
        p.unexpected();
        p.hint("range should be attached to an expression");
    } else if kind == SyntaxKind::RightBrace {
        p.unexpected();
        p.hint("consider starting a range with `{`");
    } else {
        p.unexpected();
    }
    false
}

/// Parse the converse whose `~` has just been eaten.
fn converse(p: &mut Parser<'_>, start: Marker)
    requires
        old(p).inv(),
        fresh(old(p).text(), old(p).state()),
    ensures
        final(p).inv(),
        final(p).text() == old(p).text(),
        final(p).state() == spec_converse(old(p).text(), old(p).state(), start.0 as int),
    decreases old(p).text().len() - old(p).state().index, 1nat,
{
    proof {
        lemma_item(p.text(), p.state(), Some((start.0 as int, SyntaxKind::Converse)));
    }
    if !item(p, Some((start, SyntaxKind::Converse))) {
        p.unexpected();
        p.hint("consider using converse indicator `~` before an expression");
    }
}

/// Parse the group whose `(` has just been eaten.
fn group(p: &mut Parser<'_>, start: Marker)
    requires
        old(p).inv(),
    ensures
        final(p).inv(),
        final(p).text() == old(p).text(),
        final(p).state() == spec_group(old(p).text(), old(p).state(), start.0 as int),
    decreases old(p).text().len() - old(p).state().index, 2nat,
{
    proof {
        lemma_eat_if(p.text(), p.state(), Pattern::Looking);
    }
    let kind = if p.eat_if(Pattern::Looking) {
        SyntaxKind::Looking
    } else {
        SyntaxKind::Group
    };
    expression(p);
    p.expect(Pattern::Kind(SyntaxKind::RightParen));
    p.wrap(start, kind);
}

/// Parse the repeating indicator behind an item, if there is one, and wrap
/// the item at `atom` together with it.
fn repeat(p: &mut Parser<'_>, atom: Marker)
    requires
        old(p).inv(),
    ensures
        final(p).inv(),
        final(p).text() == old(p).text(),
        final(p).state() == spec_repeat(old(p).text(), old(p).state(), atom.0 as int),
{
    proof {
        lemma_eat_if(p.text(), p.state(), Pattern::Prefix);
    }
    let start = p.marker();

    if p.eat_if(Pattern::Prefix) {
        // there is a repeating prefix
        if p.kind() == SyntaxKind::LeftBrace {
            // parse the range
            p.expect(Pattern::Kind(SyntaxKind::Integer));
            if p.eat_if(Pattern::Kind(SyntaxKind::Comma)) {
                p.eat_if(Pattern::Kind(SyntaxKind::Integer));
            }
            p.expect(Pattern::Kind(SyntaxKind::RightBrace));
            p.hint("consider closing the range with `}`");
            p.wrap(start, SyntaxKind::BraceIndicator);
        }
        p.eat_if(Pattern::Kind(SyntaxKind::Question));
        p.wrap(atom, SyntaxKind::Repeating);
    }
}

} // verus!
