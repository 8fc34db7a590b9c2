//! The string scanner that the lexer and the document segmenter drive, with
//! the model of a text as characters and byte offsets, and what is taken on
//! trust about the scanner and about the character classes of the standard
//! library.

use vstd::prelude::*;
use unscanny::Scanner;

verus! {

/// The number of bytes that a character occupies in UTF-8.
pub open spec fn char_width(c: char) -> nat {
    if (c as u32) < 0x80 {
        1
    } else if (c as u32) < 0x800 {
        2
    } else if (c as u32) < 0x10000 {
        3
    } else {
        4
    }
}

/// The number of bytes that a sequence of characters occupies in UTF-8.
pub open spec fn byte_len(s: Seq<char>) -> nat
    decreases s.len(),
{
    if s.len() == 0 {
        0
    } else {
        byte_len(s.drop_last()) + char_width(s.last())
    }
}

/// The byte offset at which the character with index `i` starts.
pub open spec fn offset_at(text: Seq<char>, i: int) -> nat {
    byte_len(text.take(i))
}

/// The index of the character that holds the byte at `offset`, or the length
/// of the text if the offset lies behind it: the number of characters that end
/// at or before the offset.
pub open spec fn index_at(text: Seq<char>, offset: int) -> int
    decreases text.len(),
{
    if text.len() == 0 || byte_len(text) <= offset {
        text.len() as int
    } else {
        index_at(text.drop_last(), offset)
    }
}

/// Whether `pat` stands in `text` from the character with index `i` on.
pub open spec fn starts_with_at(text: Seq<char>, i: int, pat: Seq<char>) -> bool {
    0 <= i && i + pat.len() <= text.len() && text.subrange(i, i + pat.len()) == pat
}

/// The length of the longest run of characters from index `i` on that all
/// satisfy `p`.
pub open spec fn run_len(text: Seq<char>, i: int, p: spec_fn(char) -> bool) -> nat
    decreases text.len() - i,
{
    if 0 <= i < text.len() && p(text[i]) {
        1 + run_len(text, i + 1, p)
    } else {
        0
    }
}

/// The end of the longest run of characters from index `i` on that all
/// satisfy `p`.
pub open spec fn run_end(text: Seq<char>, i: int, p: spec_fn(char) -> bool) -> int {
    i + run_len(text, i, p)
}

/// The number of characters from index `i` on that come before the first
/// place at which `pat` stands in `text`, or before the end of the text.
pub open spec fn gap_len(text: Seq<char>, i: int, pat: Seq<char>) -> nat
    decreases text.len() - i,
{
    if 0 <= i < text.len() && !starts_with_at(text, i, pat) {
        1 + gap_len(text, i + 1, pat)
    } else {
        0
    }
}

/// The first index from `i` on at which `pat` stands in `text`, or the end of
/// the text.
pub open spec fn find_at(text: Seq<char>, i: int, pat: Seq<char>) -> int {
    i + gap_len(text, i, pat)
}

/// Offsets add up over a prefix and the character behind it.
pub proof fn lemma_offset_step(text: Seq<char>, i: int)
    requires
        0 <= i < text.len(),
    ensures
        offset_at(text, i + 1) == offset_at(text, i) + char_width(text[i]),
        offset_at(text, i + 1) > offset_at(text, i),
{
    assert(text.take(i + 1).drop_last() =~= text.take(i));
}

/// Over characters of one byte each, offsets grow as indices do.
pub proof fn lemma_offset_narrow(text: Seq<char>, i: int, j: int)
    requires
        0 <= i <= j <= text.len(),
        forall|k: int| i <= k < j ==> char_width(#[trigger] text[k]) == 1,
    ensures
        offset_at(text, j) - offset_at(text, i) == j - i,
    decreases j - i,
{
    if i < j {
        lemma_offset_narrow(text, i, j - 1);
        lemma_offset_step(text, j - 1);
    }
}

/// The index that belongs to the offset of a character is that character's.
pub proof fn lemma_index_at_offset(text: Seq<char>, k: int)
    requires
        0 <= k <= text.len(),
    ensures
        index_at(text, offset_at(text, k) as int) == k,
    decreases text.len(),
{
    if text.len() == 0 {
    } else if k == text.len() {
        assert(text.take(k) =~= text);
    } else {
        assert(text.drop_last().take(k) =~= text.take(k));
        lemma_index_at_offset(text.drop_last(), k);
    }
}

/// The index that belongs to an offset lies inside the text or at its end.
pub proof fn lemma_index_at_bounds(text: Seq<char>, offset: int)
    ensures
        0 <= index_at(text, offset) <= text.len(),
    decreases text.len(),
{
    if text.len() > 0 && byte_len(text) > offset {
        lemma_index_at_bounds(text.drop_last(), offset);
    }
}

/// A pattern of one character stands where that character is.
pub proof fn lemma_starts_with_char(text: Seq<char>, i: int, c: char)
    ensures
        starts_with_at(text, i, seq![c]) <==> (0 <= i < text.len() && text[i] == c),
{
    if 0 <= i < text.len() {
        if text[i] == c {
            assert(text.subrange(i, i + 1) =~= seq![c]);
        } else {
            assert(text.subrange(i, i + 1)[0] == text[i]);
        }
    }
}

/// A run ends where the first character stands that does not satisfy the
/// predicate, or at the end of the text.
pub proof fn lemma_run_end(text: Seq<char>, i: int, j: int, p: spec_fn(char) -> bool)
    requires
        0 <= i <= j <= text.len(),
        forall|k: int| i <= k < j ==> p(#[trigger] text[k]),
        j < text.len() ==> !p(text[j]),
    ensures
        run_end(text, i, p) == j,
    decreases j - i,
{
    if i < j {
        lemma_run_end(text, i + 1, j, p);
    }
}

/// A run stays inside the text and does not go back.
pub proof fn lemma_run_end_bounds(text: Seq<char>, i: int, p: spec_fn(char) -> bool)
    requires
        0 <= i <= text.len(),
    ensures
        i <= run_end(text, i, p) <= text.len(),
    decreases text.len() - i,
{
    if i < text.len() && p(text[i]) {
        lemma_run_end_bounds(text, i + 1, p);
    }
}

/// A search stays inside the text and does not go back.
pub proof fn lemma_find_at_bounds(text: Seq<char>, i: int, pat: Seq<char>)
    requires
        0 <= i <= text.len(),
    ensures
        i <= find_at(text, i, pat) <= text.len(),
        find_at(text, i, pat) < text.len() ==> starts_with_at(text, find_at(text, i, pat), pat),
    decreases text.len() - i,
{
    if i < text.len() && !starts_with_at(text, i, pat) {
        lemma_find_at_bounds(text, i + 1, pat);
    }
}

/// The scanner of `unscanny`: a string and a cursor into it. Nothing of it is
/// visible here but what the two names below say of it.
#[verifier::external_type_specification]
#[verifier::external_body]
pub struct ExScanner<'a>(Scanner<'a>);

/// The characters of the string that a scanner walks over.
pub uninterp spec fn scanner_text(s: Scanner) -> Seq<char>;

/// The number of characters that lie before a scanner's cursor.
pub uninterp spec fn scanner_index(s: Scanner) -> nat;

/// Whether a character is whitespace: whether it has the Unicode property
/// `White_Space`, which the controls from tab to carriage return, the space,
/// the next-line control, the no-break spaces, the Ogham space mark, the
/// spaces of fixed width, the line and the paragraph separator, the medium
/// mathematical space and the ideographic space have.
#[verifier::opaque]
pub open spec fn char_is_whitespace(c: char) -> bool {
    ||| '\u{0009}' <= c <= '\u{000D}'
    ||| c == '\u{0020}'
    ||| c == '\u{0085}'
    ||| c == '\u{00A0}'
    ||| c == '\u{1680}'
    ||| '\u{2000}' <= c <= '\u{200A}'
    ||| c == '\u{2028}'
    ||| c == '\u{2029}'
    ||| c == '\u{202F}'
    ||| c == '\u{205F}'
    ||| c == '\u{3000}'
}

/// Whether `char::is_alphanumeric` holds of a character.
pub uninterp spec fn char_is_alphanumeric(c: char) -> bool;

/// `char::is_whitespace`: whether the character has the Unicode property
/// `White_Space`, as `char_is_whitespace` lists it.
#[verifier::external_body]
pub(crate) fn is_whitespace(c: char) -> (b: bool)
    ensures
        b == char_is_whitespace(c),
{
    c.is_whitespace()
}

/// `char::is_alphanumeric`, whose result has the name
/// `char_is_alphanumeric`.
#[verifier::external_body]
pub(crate) fn is_alphanumeric(c: char) -> (b: bool)
    ensures
        b == char_is_alphanumeric(c),
{
    c.is_alphanumeric()
}

/// `Scanner::new`: a scanner over `text` whose cursor stands before the
/// first character.
#[verifier::external_body]
pub(crate) fn scan_new<'a>(text: &'a str) -> (s: Scanner<'a>)
    ensures
        scanner_text(s) == text@,
        scanner_index(s) == 0,
{
    Scanner::new(text)
}

/// `Scanner::cursor`: the cursor as a byte offset, which is the offset of the
/// first character that has not been consumed.
#[verifier::external_body]
pub(crate) fn scan_cursor(s: &Scanner) -> (cursor: usize)
    ensures
        cursor == offset_at(scanner_text(*s), scanner_index(*s) as int),
{
    s.cursor()
}

/// `Scanner::done`: whether every character has been consumed.
#[verifier::external_body]
pub(crate) fn scan_done(s: &Scanner) -> (done: bool)
    ensures
        done == (scanner_index(*s) >= scanner_text(*s).len()),
{
    s.done()
}

/// `Scanner::jump`: moves the cursor to a byte offset, which is first brought
/// down to the length of the string and then to the start of the character
/// that holds it.
#[verifier::external_body]
pub(crate) fn scan_jump(s: &mut Scanner, target: usize)
    ensures
        scanner_text(*final(s)) == scanner_text(*old(s)),
        scanner_index(*final(s)) == index_at(scanner_text(*old(s)), target as int),
{
    s.jump(target)
}

/// `Scanner::from`: the part of the string from a byte offset, brought down
/// as in `scan_jump` and to the cursor at most, up to the cursor.
#[verifier::external_body]
pub(crate) fn scan_from<'a>(s: &Scanner<'a>, start: usize) -> (part: &'a str)
    ensures
        part@ == scanner_text(*s).subrange(
            if index_at(scanner_text(*s), start as int) <= scanner_index(*s) {
                index_at(scanner_text(*s), start as int)
            } else {
                scanner_index(*s) as int
            },
            scanner_index(*s) as int,
        ),
{
    s.from(start)
}

/// `Scanner::eat`: hands out the character behind the cursor and steps over
/// it; at the end of the string it hands out nothing and stays.
#[verifier::external_body]
pub(crate) fn scan_eat(s: &mut Scanner) -> (c: Option<char>)
    ensures
        scanner_text(*final(s)) == scanner_text(*old(s)),
        scanner_index(*old(s)) < scanner_text(*old(s)).len() ==> c == Some(
            scanner_text(*old(s))[scanner_index(*old(s)) as int],
        ) && scanner_index(*final(s)) == scanner_index(*old(s)) + 1,
        scanner_index(*old(s)) >= scanner_text(*old(s)).len() ==> c.is_none() && scanner_index(
            *final(s),
        ) == scanner_index(*old(s)),
{
    s.eat()
}

/// `Scanner::eat_if` with a character: steps over the character behind the
/// cursor if it is `c`, and says whether it did.
#[verifier::external_body]
pub(crate) fn scan_eat_if_char(s: &mut Scanner, c: char) -> (eaten: bool)
    ensures
        scanner_text(*final(s)) == scanner_text(*old(s)),
        eaten == (scanner_index(*old(s)) < scanner_text(*old(s)).len() && scanner_text(
            *old(s),
        )[scanner_index(*old(s)) as int] == c),
        scanner_index(*final(s)) == scanner_index(*old(s)) + if eaten {
            1nat
        } else {
            0nat
        },
{
    s.eat_if(c)
}

/// `Scanner::eat_if` with a string: steps over `pat` if it stands behind the
/// cursor, and says whether it did.
#[verifier::external_body]
pub(crate) fn scan_eat_if(s: &mut Scanner, pat: &str) -> (eaten: bool)
    ensures
        scanner_text(*final(s)) == scanner_text(*old(s)),
        eaten == starts_with_at(scanner_text(*old(s)), scanner_index(*old(s)) as int, pat@),
        scanner_index(*final(s)) == scanner_index(*old(s)) + if eaten {
            pat@.len()
        } else {
            0nat
        },
{
    s.eat_if(pat)
}

/// `Scanner::at` with a string: whether `pat` stands behind the cursor.
#[verifier::external_body]
pub(crate) fn scan_at(s: &Scanner, pat: &str) -> (at: bool)
    ensures
        at == starts_with_at(scanner_text(*s), scanner_index(*s) as int, pat@),
{
    s.at(pat)
}

/// `Scanner::eat_while` with a predicate: steps over characters as long as
/// the predicate answers `true`. Each character stepped over got that answer,
/// and the character at which the scanner stopped, if there is one, got the
/// answer `false`.
#[verifier::external_body]
pub(crate) fn scan_eat_while<F: Fn(char) -> bool>(s: &mut Scanner, f: F)
    requires
        forall|c: char| call_requires(f, (c,)),
    ensures
        scanner_text(*final(s)) == scanner_text(*old(s)),
        scanner_index(*old(s)) <= scanner_index(*final(s)),
        scanner_index(*old(s)) <= scanner_text(*old(s)).len() ==> scanner_index(*final(s))
            <= scanner_text(*old(s)).len(),
        forall|i: int|
            scanner_index(*old(s)) <= i < scanner_index(*final(s)) ==> call_ensures(
                f,
                (#[trigger] scanner_text(*old(s))[i],),
                true,
            ),
        scanner_index(*final(s)) < scanner_text(*old(s)).len() ==> call_ensures(
            f,
            (scanner_text(*old(s))[scanner_index(*final(s)) as int],),
            false,
        ),
{
    s.eat_while(f);
}

/// `Scanner::eat_until` with a predicate: steps over characters until the
/// predicate answers `true` or the string ends. Each character stepped over
/// got the answer `false`, and the character at which the scanner stopped, if
/// there is one, got the answer `true`.
#[verifier::external_body]
pub(crate) fn scan_eat_until<F: Fn(char) -> bool>(s: &mut Scanner, f: F)
    requires
        forall|c: char| call_requires(f, (c,)),
    ensures
        scanner_text(*final(s)) == scanner_text(*old(s)),
        scanner_index(*old(s)) <= scanner_index(*final(s)),
        scanner_index(*old(s)) <= scanner_text(*old(s)).len() ==> scanner_index(*final(s))
            <= scanner_text(*old(s)).len(),
        forall|i: int|
            scanner_index(*old(s)) <= i < scanner_index(*final(s)) ==> call_ensures(
                f,
                (#[trigger] scanner_text(*old(s))[i],),
                false,
            ),
        scanner_index(*final(s)) < scanner_text(*old(s)).len() ==> call_ensures(
            f,
            (scanner_text(*old(s))[scanner_index(*final(s)) as int],),
            true,
        ),
{
    s.eat_until(f);
}

/// `Scanner::eat_until` with a string: steps over characters until `pat`
/// stands behind the cursor or the string ends.
#[verifier::external_body]
pub(crate) fn scan_eat_until_str(s: &mut Scanner, pat: &str)
    ensures
        scanner_text(*final(s)) == scanner_text(*old(s)),
        scanner_index(*old(s)) <= scanner_text(*old(s)).len() ==> scanner_index(*final(s))
            == find_at(scanner_text(*old(s)), scanner_index(*old(s)) as int, pat@),
{
    s.eat_until(pat);
}

} // verus!
