//! What parsing keeps: every step leaves the parser in a valid state, so the
//! tree of a text is well formed and holds the text, character by character.

use vstd::prelude::*;
use crate::kind::SyntaxKind;
use crate::lexer::{lemma_lex, lex};
use crate::node::{
    lemma_source_of_agree, lemma_source_of_split, lemma_source_of_step, source_of, sources,
    stand_at, Tree,
};
use crate::parser::{
    expected_message, fresh, last_kind, parse_tree, spec_atom, spec_converse, spec_convert,
    spec_eat, spec_eat_if, spec_eat_while, spec_error, spec_expect, spec_expression, spec_group,
    spec_hint, spec_item, spec_range, spec_repeat, spec_rule, spec_rules, spec_uneat,
    spec_unexpected, spec_wrap, unexpected_message, valid, with_last, Pattern, State,
};

verus! {

/// A state stays valid when a node that stands behind what was consumed is
/// appended.
pub proof fn lemma_valid_push(text: Seq<char>, st: State, tree: Tree, next: int)
    requires
        valid(text, st),
        tree.wf(),
        tree.stands_at(text, st.index),
        st.index <= next <= text.len(),
        tree.source() == text.subrange(st.index, next),
    ensures
        valid(text, State { index: next, nodes: st.nodes.push(tree) }),
        source_of(st.nodes.push(tree), st.nodes.len()) == sources(st.nodes),
{
    reveal(valid);
    let nodes = st.nodes.push(tree);
    assert forall|k: int| 0 <= k < nodes.len() implies (#[trigger] nodes[k]).stands_at(
        text,
        0int + source_of(nodes, k as nat).len(),
    ) by {
        lemma_source_of_agree(nodes, st.nodes, k as nat);
    }
    lemma_source_of_agree(nodes, st.nodes, st.nodes.len());
    lemma_source_of_step(nodes, nodes.len());
}

/// A state stays valid when its last node leaves, and that node held the
/// characters that were consumed last.
pub proof fn lemma_valid_drop(text: Seq<char>, st: State)
    requires
        valid(text, st),
        st.nodes.len() > 0,
    ensures
        valid(text, spec_uneat(st)),
        st.nodes.last().source().len() <= st.index,
        st.nodes.last().source() =~= text.subrange(
            st.index - st.nodes.last().source().len(),
            st.index,
        ),
        st.nodes.last().stands_at(text, st.index - st.nodes.last().source().len()),
        st.nodes.last().wf(),
        source_of(st.nodes, (st.nodes.len() - 1) as nat).len() == st.index
            - st.nodes.last().source().len(),
{
    reveal(valid);
    let rest = st.nodes.drop_last();
    let last = st.nodes.last();
    let n = st.nodes.len();
    lemma_source_of_agree(rest, st.nodes, (n - 1) as nat);
    lemma_source_of_step(st.nodes, n);
    assert(sources(st.nodes) == source_of(st.nodes, (n - 1) as nat) + last.source());
    assert(sources(rest) =~= text.take(st.index - last.source().len())) by {
        let whole = sources(st.nodes);
        assert forall|k: int| 0 <= k < sources(rest).len() implies sources(rest)[k] == text[k] by {
            assert(whole[k] == sources(rest)[k]);
        }
    }
    assert(last.source() =~= text.subrange(st.index - last.source().len(), st.index)) by {
        let whole = sources(st.nodes);
        assert forall|k: int| 0 <= k < last.source().len() implies last.source()[k] == text[st.index
            - last.source().len() + k] by {
            assert(whole[sources(rest).len() + k] == last.source()[k]);
        }
    }
    assert forall|k: int| 0 <= k < rest.len() implies (#[trigger] rest[k]).stands_at(
        text,
        0int + source_of(rest, k as nat).len(),
    ) by {
        lemma_source_of_agree(rest, st.nodes, k as nat);
    }
}

/// A state stays valid when its last node gives way to a well-formed node
/// with the same source that stands where it stood.
pub proof fn lemma_valid_replace(text: Seq<char>, st: State, tree: Tree)
    requires
        valid(text, st),
        st.nodes.len() > 0,
        tree.wf(),
        tree.source() == st.nodes.last().source(),
        tree.stands_at(text, st.index - tree.source().len()),
    ensures
        valid(text, with_last(st, tree)),
{
    reveal(valid);
    lemma_valid_drop(text, st);
    let dropped = spec_uneat(st);
    lemma_valid_push(text, dropped, tree, st.index);
    assert(dropped.nodes.push(tree) =~= st.nodes.update(st.nodes.len() - 1, tree));
}

/// A state stays valid under wrapping.
pub proof fn lemma_valid_wrap(text: Seq<char>, st: State, from: int, kind: SyntaxKind)
    requires
        valid(text, st),
        0 <= from,
        kind != SyntaxKind::Error,
    ensures
        valid(text, spec_wrap(st, from, kind)),
{
    reveal(valid);
    let from = if from <= st.nodes.len() {
        from
    } else {
        st.nodes.len() as int
    };
    let n = st.nodes.len();
    let kept = st.nodes.take(from);
    let children = st.nodes.skip(from);
    let parent = Tree::inner(kind, children);
    let nodes = kept.push(parent);
    let base = source_of(st.nodes, from as nat);
    lemma_source_of_split(st.nodes, from as nat, n);
    assert(stand_at(children, text, base.len() as int)) by {
        assert forall|k: int| 0 <= k < children.len() implies (#[trigger] children[k]).stands_at(
            text,
            base.len() as int + source_of(children, k as nat).len(),
        ) by {
            lemma_source_of_split(st.nodes, from as nat, (from + k) as nat);
        }
    }
    assert forall|k: int| 0 <= k < nodes.len() implies (#[trigger] nodes[k]).stands_at(
        text,
        0int + source_of(nodes, k as nat).len(),
    ) by {
        lemma_source_of_agree(nodes, st.nodes, if k < from {
            k as nat
        } else {
            from as nat
        });
    }
    lemma_source_of_agree(nodes, st.nodes, from as nat);
    lemma_source_of_step(nodes, nodes.len());
}

/// What eating leaves behind when its last token is taken away again: the
/// state from before, or a state whose last node is a token.
pub open spec fn tail_kept(text: Seq<char>, before: State, after: State) -> bool {
    &&& after.nodes.len() >= before.nodes.len()
    &&& after.nodes.len() > before.nodes.len() ==> fresh(text, after)
    &&& after.nodes.len() == before.nodes.len() ==> after == before
}

/// In a valid state the lexer stands inside the text or at its end.
pub proof fn lemma_within(text: Seq<char>, st: State)
    requires
        valid(text, st),
    ensures
        0 <= st.index <= text.len(),
{
    reveal(valid);
}

/// The state before anything is read is valid.
pub proof fn lemma_start(text: Seq<char>)
    ensures
        valid(text, State { index: 0, nodes: Seq::empty() }),
{
    reveal(valid);
    lemma_source_of_step(Seq::<Tree>::empty(), 0);
}

/// Eating keeps the state valid and ends on a token that is neither
/// whitespace nor a comment. All but that token is kept by uneating it, and
/// the token holds at least one character unless it is the end of the text.
pub proof fn lemma_eat(text: Seq<char>, st: State)
    requires
        valid(text, st),
    ensures
        valid(text, spec_eat(text, st)),
        fresh(text, spec_eat(text, st)),
        !last_kind(spec_eat(text, st)).spec_is_trivia(),
        valid(text, spec_uneat(spec_eat(text, st))),
        tail_kept(text, st, spec_uneat(spec_eat(text, st))),
        st.index <= spec_uneat(spec_eat(text, st)).index <= spec_eat(text, st).index,
        last_kind(spec_eat(text, st)) != SyntaxKind::End ==> spec_uneat(spec_eat(text, st)).index
            < spec_eat(text, st).index,
        last_kind(spec_eat(text, st)) == SyntaxKind::End ==> spec_eat(text, st).index
            == text.len(),
    decreases text.len() - st.index,
{
    lemma_within(text, st);
    lemma_lex(text, st.index);
    let token = lex(text, st.index);
    let next = State { index: token.next, nodes: st.nodes.push(token.tree) };
    lemma_valid_push(text, st, token.tree, token.next);
    assert(next.nodes.drop_last() =~= st.nodes);
    if token.tree.kind().spec_is_trivia() {
        lemma_eat(text, next);
    }
}

/// Eating a token if it matches keeps the state valid.
pub proof fn lemma_eat_if(text: Seq<char>, st: State, pattern: Pattern)
    requires
        valid(text, st),
    ensures
        valid(text, spec_eat_if(text, st, pattern).0),
        st.index <= spec_eat_if(text, st, pattern).0.index,
        spec_eat_if(text, st, pattern).1 ==> fresh(text, spec_eat_if(text, st, pattern).0)
            && pattern.spec_matches(last_kind(spec_eat_if(text, st, pattern).0)),
        !spec_eat_if(text, st, pattern).1 ==> tail_kept(
            text,
            st,
            spec_eat_if(text, st, pattern).0,
        ),
        spec_eat_if(text, st, pattern).1 && !pattern.spec_matches(SyntaxKind::End) ==> st.index
            < spec_eat_if(text, st, pattern).0.index,
        spec_eat_if(text, st, pattern).0.nodes.len() >= st.nodes.len(),
{
    lemma_eat(text, st);
}

/// Eating while the tokens match keeps the state valid.
pub proof fn lemma_eat_while(text: Seq<char>, st: State, pattern: Pattern)
    requires
        valid(text, st),
    ensures
        valid(text, spec_eat_while(text, st, pattern)),
        st.index <= spec_eat_while(text, st, pattern).index,
    decreases text.len() - st.index,
{
    lemma_eat(text, st);
    let eaten = spec_eat(text, st);
    if pattern.spec_matches(last_kind(eaten)) && st.index < eaten.index <= text.len() {
        lemma_eat_while(text, eaten, pattern);
    }
}

/// Turning the last node into an error keeps the state valid, where that
/// node has the span of what it holds.
pub proof fn lemma_error(text: Seq<char>, st: State, message: Seq<char>)
    requires
        valid(text, st),
        fresh(text, st),
    ensures
        valid(text, spec_error(st, message)),
        fresh(text, spec_error(st, message)),
        spec_error(st, message).index == st.index,
        spec_error(st, message).nodes.len() == st.nodes.len(),
{
    lemma_valid_drop(text, st);
    let last = st.nodes.last();
    let error = last.to_error(message);
    lemma_within(text, st);
    lemma_valid_replace(text, st, error);
}

/// Expecting a token keeps the state valid and consumes at least one
/// character unless the text has ended.
pub proof fn lemma_expect(text: Seq<char>, st: State, pattern: Pattern)
    requires
        valid(text, st),
    ensures
        valid(text, spec_expect(text, st, pattern)),
        fresh(text, spec_expect(text, st, pattern)),
        st.index <= spec_expect(text, st, pattern).index,
        st.index < text.len() ==> st.index < spec_expect(text, st, pattern).index,
        spec_expect(text, st, pattern).nodes.len() > 0,
{
    lemma_eat(text, st);
    let eaten = spec_eat(text, st);
    if !pattern.spec_matches(last_kind(eaten)) {
        lemma_error(
            text,
            eaten,
            expected_message(pattern, last_kind(eaten)),
        );
    }
}

/// A hint keeps the state valid.
pub proof fn lemma_hint(text: Seq<char>, st: State, hint: Seq<char>)
    requires
        valid(text, st),
    ensures
        valid(text, spec_hint(st, hint)),
        fresh(text, st) ==> fresh(text, spec_hint(st, hint)),
        spec_hint(st, hint).index == st.index,
        spec_hint(st, hint).nodes.len() == st.nodes.len(),
{
    if st.nodes.len() > 0 {
        lemma_valid_drop(text, st);
        lemma_valid_replace(text, st, st.nodes.last().with_hint(hint));
    }
}

/// Another kind for the last node keeps the state valid.
pub proof fn lemma_convert(text: Seq<char>, st: State, kind: SyntaxKind)
    requires
        valid(text, st),
        st.nodes.len() > 0,
        kind != SyntaxKind::Error,
    ensures
        valid(text, spec_convert(st, kind)),
        spec_convert(st, kind).index == st.index,
        spec_convert(st, kind).nodes.len() == st.nodes.len(),
{
    lemma_valid_drop(text, st);
    lemma_valid_replace(text, st, st.nodes.last().with_kind(kind));
}

/// A repetition indicator keeps the state valid.
pub proof fn lemma_repeat(text: Seq<char>, st: State, atom: int)
    requires
        valid(text, st),
        0 <= atom,
    ensures
        valid(text, spec_repeat(text, st, atom)),
        st.index <= spec_repeat(text, st, atom).index,
        st.nodes.len() > 0 ==> spec_repeat(text, st, atom).nodes.len() > 0,
{
    let start = st.nodes.len() as int;
    lemma_eat_if(text, st, Pattern::Prefix);
    let (prefixed, found) = spec_eat_if(text, st, Pattern::Prefix);
    if found {
        let indicated = if last_kind(prefixed) == SyntaxKind::LeftBrace {
            let number = Pattern::Kind(SyntaxKind::Integer);
            lemma_expect(text, prefixed, number);
            let low = spec_expect(text, prefixed, number);
            lemma_eat_if(text, low, Pattern::Kind(SyntaxKind::Comma));
            let (comma, separated) = spec_eat_if(text, low, Pattern::Kind(SyntaxKind::Comma));
            if separated {
                lemma_eat_if(text, comma, number);
            }
            let high = if separated {
                spec_eat_if(text, comma, number).0
            } else {
                comma
            };
            lemma_expect(text, high, Pattern::Kind(SyntaxKind::RightBrace));
            let closed = spec_expect(text, high, Pattern::Kind(SyntaxKind::RightBrace));
            lemma_hint(text, closed, "consider closing the range with `}`"@);
            let hinted = spec_hint(closed, "consider closing the range with `}`"@);
            lemma_valid_wrap(text, hinted, start, SyntaxKind::BraceIndicator);
            spec_wrap(hinted, start, SyntaxKind::BraceIndicator)
        } else {
            prefixed
        };
        lemma_eat_if(text, indicated, Pattern::Kind(SyntaxKind::Question));
        let lazy = spec_eat_if(text, indicated, Pattern::Kind(SyntaxKind::Question)).0;
        lemma_valid_wrap(text, lazy, atom, SyntaxKind::Repeating);
    }
}

/// A range keeps the state valid.
pub proof fn lemma_range(text: Seq<char>, eaten: State, start: int)
    requires
        valid(text, eaten),
        0 <= start,
        eaten.nodes.len() > 0,
    ensures
        valid(text, spec_range(text, eaten, start)),
        eaten.index <= spec_range(text, eaten, start).index,
        spec_range(text, eaten, start).nodes.len() > 0,
{
    lemma_eat_if(text, eaten, Pattern::Kind(SyntaxKind::Dots));
    let (dots, ranged) = spec_eat_if(text, eaten, Pattern::Kind(SyntaxKind::Dots));
    if ranged {
        lemma_expect(text, dots, Pattern::Kind(SyntaxKind::String));
        let second = spec_expect(text, dots, Pattern::Kind(SyntaxKind::String));
        lemma_hint(text, second, "`..` can only connect two string literals"@);
        let hinted = spec_hint(second, "`..` can only connect two string literals"@);
        lemma_valid_wrap(text, hinted, start, SyntaxKind::Range);
    }
}

/// A converse keeps the state valid.
pub proof fn lemma_converse(text: Seq<char>, eaten: State, start: int)
    requires
        valid(text, eaten),
        fresh(text, eaten),
        0 <= start,
    ensures
        valid(text, spec_converse(text, eaten, start)),
        eaten.index <= spec_converse(text, eaten, start).index,
        spec_converse(text, eaten, start).nodes.len() > 0,
    decreases text.len() - eaten.index, 1nat,
{
    lemma_item(text, eaten, Some((start, SyntaxKind::Converse)));
    let (inner, more) = spec_item(text, eaten, Some((start, SyntaxKind::Converse)));
    if !more {
        lemma_error(text, inner, unexpected_message(last_kind(inner)));
        lemma_hint(
            text,
            spec_unexpected(inner),
            "consider using converse indicator `~` before an expression"@,
        );
    }
}

/// A group keeps the state valid.
pub proof fn lemma_group(text: Seq<char>, eaten: State, start: int)
    requires
        valid(text, eaten),
        0 <= start,
    ensures
        valid(text, spec_group(text, eaten, start)),
        eaten.index <= spec_group(text, eaten, start).index,
        spec_group(text, eaten, start).nodes.len() > 0,
    decreases text.len() - eaten.index, 2nat,
{
    lemma_eat_if(text, eaten, Pattern::Looking);
    let (opened, looking) = spec_eat_if(text, eaten, Pattern::Looking);
    lemma_within(text, opened);
    lemma_expression(text, opened);
    let inside = spec_expression(text, opened);
    lemma_expect(text, inside, Pattern::Kind(SyntaxKind::RightParen));
    let closed = spec_expect(text, inside, Pattern::Kind(SyntaxKind::RightParen));
    lemma_valid_wrap(
        text,
        closed,
        start,
        if looking {
            SyntaxKind::Looking
        } else {
            SyntaxKind::Group
        },
    );
}

/// The item behind its first token keeps the state valid.
pub proof fn lemma_atom(text: Seq<char>, eaten: State, start: int)
    requires
        valid(text, eaten),
        fresh(text, eaten),
        0 <= start,
    ensures
        valid(text, spec_atom(text, eaten, start)),
        eaten.index <= spec_atom(text, eaten, start).index,
        spec_atom(text, eaten, start).nodes.len() > 0,
    decreases text.len() - eaten.index, 3nat,
{
    lemma_within(text, eaten);
    let kind = last_kind(eaten);
    if kind == SyntaxKind::Meta || kind == SyntaxKind::Identifier || kind == SyntaxKind::Dot
        || kind == SyntaxKind::Bar {
    } else if kind == SyntaxKind::String {
        lemma_range(text, eaten, start);
    } else if kind == SyntaxKind::Tilde {
        lemma_converse(text, eaten, start);
    } else if kind == SyntaxKind::LeftParen {
        lemma_group(text, eaten, start);
    } else if kind == SyntaxKind::LeftBrace {
        lemma_error(text, eaten, unexpected_message(kind));
        lemma_hint(text, spec_unexpected(eaten), "range should be attached to an expression"@);
    } else if kind == SyntaxKind::RightBrace {
        lemma_error(text, eaten, unexpected_message(kind));
        lemma_hint(text, spec_unexpected(eaten), "consider starting a range with `{`"@);
    } else {
        lemma_error(text, eaten, unexpected_message(kind));
    }
}

/// An item keeps the state valid, and consumes at least one character if
/// there is one.
pub proof fn lemma_item(text: Seq<char>, st: State, wrapper: Option<(int, SyntaxKind)>)
    requires
        valid(text, st),
        wrapper matches Some((from, kind)) ==> 0 <= from && kind != SyntaxKind::Error,
    ensures
        valid(text, spec_item(text, st, wrapper).0),
        st.index <= spec_item(text, st, wrapper).0.index,
        spec_item(text, st, wrapper).1 ==> st.index < spec_item(text, st, wrapper).0.index
            && spec_item(text, st, wrapper).0.nodes.len() > 0,
        !spec_item(text, st, wrapper).1 ==> tail_kept(text, st, spec_item(text, st, wrapper).0),
    decreases text.len() - st.index, 0nat,
{
    let start = st.nodes.len() as int;
    lemma_eat(text, st);
    let eaten = spec_eat(text, st);
    let kind = last_kind(eaten);
    lemma_within(text, eaten);
    if !(kind == SyntaxKind::RightParen || kind == SyntaxKind::Action || kind == SyntaxKind::End
        || kind == SyntaxKind::SemiColon) {
        lemma_atom(text, eaten, start);
        let item = spec_atom(text, eaten, start);
        match wrapper {
            Some((from, wrap)) => {
                lemma_valid_wrap(text, item, from, wrap);
                let wrapped = spec_wrap(item, from, wrap);
                lemma_repeat(text, wrapped, wrapped.nodes.len() - 1);
            },
            None => {
                let plain_string = kind == SyntaxKind::String && !spec_eat_if(
                    text,
                    eaten,
                    Pattern::Kind(SyntaxKind::Dots),
                ).1;
                lemma_repeat(
                    text,
                    item,
                    if plain_string {
                        eaten.nodes.len() - 1
                    } else {
                        item.nodes.len() - 1
                    },
                );
            },
        }
    }
}

/// An expression keeps the state valid.
pub proof fn lemma_expression(text: Seq<char>, st: State)
    requires
        valid(text, st),
    ensures
        valid(text, spec_expression(text, st)),
        st.index <= spec_expression(text, st).index,
    decreases text.len() - st.index, 1nat,
{
    lemma_item(text, st, None);
    let (next, more) = spec_item(text, st, None);
    lemma_within(text, next);
    if more && st.index < next.index <= text.len() {
        lemma_expression(text, next);
    }
}

/// A rule keeps the state valid and consumes at least one character unless
/// the text has ended.
pub proof fn lemma_rule(text: Seq<char>, st: State)
    requires
        valid(text, st),
    ensures
        valid(text, spec_rule(text, st)),
        st.index <= spec_rule(text, st).index,
        st.index < text.len() ==> st.index < spec_rule(text, st).index,
{
    reveal(spec_rule);
    let start = st.nodes.len() as int;
    let names = Pattern::Either(SyntaxKind::Identifier, SyntaxKind::If);
    lemma_expect(text, st, names);
    let expected = spec_expect(text, st, names);
    lemma_convert(text, expected, SyntaxKind::Identifier);
    let name = spec_convert(expected, SyntaxKind::Identifier);
    lemma_expect(text, name, Pattern::Kind(SyntaxKind::Colon));
    let colon = spec_expect(text, name, Pattern::Kind(SyntaxKind::Colon));
    let marker = colon.nodes.len() as int;
    lemma_expression(text, colon);
    let body = spec_expression(text, colon);
    lemma_valid_wrap(text, body, marker, SyntaxKind::Definition);
    let definition = spec_wrap(body, marker, SyntaxKind::Definition);
    lemma_eat_while(text, definition, Pattern::Kind(SyntaxKind::Action));
    let actions = spec_eat_while(text, definition, Pattern::Kind(SyntaxKind::Action));
    lemma_expect(text, actions, Pattern::Kind(SyntaxKind::SemiColon));
    let semicolon = spec_expect(text, actions, Pattern::Kind(SyntaxKind::SemiColon));
    lemma_hint(text, semicolon, "consider ending the rule with `;`"@);
    let end = spec_hint(semicolon, "consider ending the rule with `;`"@);
    lemma_valid_wrap(text, end, start, SyntaxKind::Rule);
}

/// Reading the rules of a text keeps the state valid and ends at the end of
/// the text.
pub proof fn lemma_rules(text: Seq<char>, st: State)
    requires
        valid(text, st),
    ensures
        valid(text, spec_rules(text, st)),
        spec_rules(text, st).index == text.len(),
    decreases text.len() - st.index,
{
    reveal(spec_rules);
    lemma_eat_while(text, st, Pattern::Trivia);
    let skipped = spec_eat_while(text, st, Pattern::Trivia);
    lemma_within(text, skipped);
    if skipped.index < text.len() {
        lemma_rule(text, skipped);
        let next = spec_rule(text, skipped);
        lemma_within(text, next);
        lemma_rules(text, next);
    }
}

/// The tree of a text is a well-formed `Root` whose leaves and error nodes
/// stand in the text one behind the other, each with the bytes of its text as
/// its span, and hold the text from its first character to its last.
pub proof fn lemma_parse_tree(text: Seq<char>)
    ensures
        parse_tree(text).kind() == SyntaxKind::Root,
        parse_tree(text).wf(),
        parse_tree(text).stands_at(text, 0),
        parse_tree(text).source() == text,
{
    lemma_start(text);
    lemma_rules(text, State { index: 0, nodes: Seq::empty() });
    reveal(valid);
}

} // verus!
