//! Mode tags: `{{#mode a, b}}` in a text becomes one span for each mode.

use vstd::prelude::*;
use vstd::string::*;
use crate::lexer::class_whitespace;
use crate::scan::{
    char_is_whitespace, find_at, is_whitespace, lemma_find_at_bounds, lemma_index_at_offset,
    lemma_run_end, lemma_run_end_bounds, run_end, run_len, scan_cursor, scan_eat_if,
    scan_eat_until_str, scan_eat_while, scan_from, scan_new, scanner_index, scanner_text,
    starts_with_at,
};

verus! {

/// A text without the whitespace at its end.
pub open spec fn trimmed_end(text: Seq<char>) -> Seq<char>
    decreases text.len(),
{
    if text.len() > 0 && char_is_whitespace(text.last()) {
        trimmed_end(text.drop_last())
    } else {
        text
    }
}

/// A text without the whitespace at its start and at its end.
pub open spec fn trimmed(text: Seq<char>) -> Seq<char> {
    trimmed_end(text.skip(run_len(text, 0, class_whitespace()) as int))
}

/// `str::trim`: the string without the whitespace at its start and at its
/// end, where whitespace is a character of the Unicode property
/// `White_Space`.
#[verifier::external_body]
fn trim(text: &str) -> (inner: &str)
    ensures
        inner@ == trimmed(text@),
{
    text.trim()
}

/// The span of a mode.
pub open spec fn mode_span(mode: Seq<char>) -> Seq<char> {
    "<span class=\"syntax-mode\" mode=\""@ + mode + "\">"@ + mode + "</span>"@
}

/// The spans of the modes in a list from the character with index `i` on:
/// the list is cut at each comma, and each part is a mode once the
/// whitespace around it is taken away.
pub open spec fn mode_spans(list: Seq<char>, i: int) -> Seq<char>
    decreases list.len() - i,
    via mode_spans_decreases
{
    let comma = find_at(list, i, ","@);
    let span = mode_span(trimmed(list.subrange(i, comma)));
    if 0 <= i && comma < list.len() {
        span + mode_spans(list, comma + 1)
    } else {
        span
    }
}

#[via_fn]
proof fn mode_spans_decreases(list: Seq<char>, i: int) {
}

/// The text from the character with index `i` on, with each mode tag
/// replaced. A tag is `{{`, whitespace if any, `#mode`, a list of modes, and
/// `}}`; a tag that the text ends in is taken as closed there. Anything else
/// stays as it is, and so does `{{` where no `#mode` follows.
pub open spec fn mode_markup(text: Seq<char>, i: int) -> Seq<char>
    decreases text.len() - i,
    via mode_markup_decreases
{
    let open = find_at(text, i, "{{"@);
    if !(0 <= i && open < text.len()) {
        text.subrange(i, text.len() as int)
    } else {
        let tag = run_end(text, open + 2, class_whitespace());
        if starts_with_at(text, tag, "#mode"@) {
            let close = find_at(text, tag + 5, "}}"@);
            text.subrange(i, open) + mode_spans(text.subrange(tag + 5, close), 0) + mode_markup(
                text,
                if close < text.len() {
                    close + 2
                } else {
                    close
                },
            )
        } else {
            text.subrange(i, tag) + mode_markup(text, tag)
        }
    }
}

#[via_fn]
proof fn mode_markup_decreases(text: Seq<char>, i: int) {
    reveal_strlit("{{");
    reveal_strlit("}}");
    reveal_strlit("#mode");
    let open = find_at(text, i, "{{"@);
    if 0 <= i && open < text.len() {
        lemma_find_at_bounds(text, i, "{{"@);
        lemma_run_end_bounds(text, open + 2, class_whitespace());
        let tag = run_end(text, open + 2, class_whitespace());
        if starts_with_at(text, tag, "#mode"@) {
            lemma_find_at_bounds(text, tag + 5, "}}"@);
        }
    }
}

/// Add the spans of the modes in the list to the content.
fn append_modes(content: &mut String, list: &str)
    ensures
        final(content)@ == old(content)@ + mode_spans(list@, 0),
{
    let mut s = scan_new(list);
    loop
        invariant_except_break
            content@ + mode_spans(list@, scanner_index(s) as int) == old(content)@ + mode_spans(
                list@,
                0,
            ),
        invariant
            scanner_text(s) == list@,
            scanner_index(s) <= list@.len(),
        ensures
            content@ == old(content)@ + mode_spans(list@, 0),
        decreases list@.len() - scanner_index(s),
    {
        let ghost i = scanner_index(s) as int;
        proof {
            reveal_strlit(",");
            lemma_find_at_bounds(list@, i, ","@);
            lemma_index_at_offset(list@, i);
        }
        let from = scan_cursor(&s);
        scan_eat_until_str(&mut s, ",");
        let mode = trim(scan_from(&s, from));
        content.append("<span class=\"syntax-mode\" mode=\"");
        content.append(mode);
        content.append("\">");
        content.append(mode);
        content.append("</span>");
        if !scan_eat_if(&mut s, ",") {
            break ;
        }
    }
}

/// Replace each mode tag of the text by the spans of its modes.
pub fn parse_mode(text: &str) -> (content: String)
    ensures
        content@ == mode_markup(text@, 0),
{
    let mut s = scan_new(text);
    let mut content = String::new();

    loop
        invariant_except_break
            content@ + mode_markup(text@, scanner_index(s) as int) == mode_markup(text@, 0),
        invariant
            scanner_text(s) == text@,
            scanner_index(s) <= text@.len(),
        ensures
            content@ == mode_markup(text@, 0),
        decreases text@.len() - scanner_index(s),
    {
        let ghost i = scanner_index(s) as int;
        proof {
            reveal_strlit("{{");
            reveal_strlit("}}");
            reveal_strlit("#mode");
            lemma_find_at_bounds(text@, i, "{{"@);
            lemma_index_at_offset(text@, i);
        }
        // Treat as normal text until we find a "{{"
        let from = scan_cursor(&s);
        scan_eat_until_str(&mut s, "{{");
        content.append(scan_from(&s, from));
        let start = scan_cursor(&s);
        let ghost open = scanner_index(s) as int;

        if !scan_eat_if(&mut s, "{{") {
            // If we don't find a "{{", we are done
            break ;
        }
        scan_eat_while(&mut s, is_whitespace);
        let ghost tag = scanner_index(s) as int;
        proof {
            lemma_run_end(text@, open + 2, tag, class_whitespace());
            lemma_index_at_offset(text@, open);
        }
        if scan_eat_if(&mut s, "#mode") {
            // If we find "#mode", we expect a list of modes
            proof {
                lemma_find_at_bounds(text@, tag + 5, "}}"@);
                lemma_index_at_offset(text@, tag + 5);
            }
            let begin = scan_cursor(&s);
            scan_eat_until_str(&mut s, "}}");
            let list = scan_from(&s, begin);
            append_modes(&mut content, list);
            scan_eat_if(&mut s, "}}");
        } else {
            // This is not a mode, so just treat as normal text
            content.append(scan_from(&s, start));
        }
    }

    content
}

} // verus!
