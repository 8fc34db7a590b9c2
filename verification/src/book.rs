//! Documents: a page is a document cut into plain text and grammar snippets.

use vstd::prelude::*;
use vstd::string::*;
use unscanny::Scanner;
use crate::code::{book_entries, code_markup, find_rules, parse_code, strings_of, table_of, Rules};
use crate::node::{SyntaxNode, Tree};
use crate::parser::{parse, parse_tree};
use crate::scan::{
    lemma_index_at_offset, lemma_offset_narrow, lemma_run_end, lemma_run_end_bounds, offset_at,
    run_end, run_len, scan_cursor, scan_done, scan_eat, scan_eat_if, scan_eat_while, scan_from,
    scan_new, scanner_index, scanner_text, starts_with_at,
};

verus! {

/// The value of an [`Item`].
pub enum ItemView {
    /// Text that is kept as it is.
    Text(Seq<char>),
    /// The syntax tree of a grammar snippet.
    Code(Tree),
}

/// The value of a [`Page`].
pub struct PageView {
    pub href: Seq<char>,
    pub items: Seq<ItemView>,
}

/// A piece of a document: plain text, or a parsed grammar snippet.
#[derive(Clone, Debug)]
pub enum Item {
    Text(String),
    Code(SyntaxNode),
}

impl View for Item {
    type V = ItemView;

    open spec fn view(&self) -> ItemView {
        match self {
            Item::Text(text) => ItemView::Text(text@),
            Item::Code(code) => ItemView::Code(code@),
        }
    }
}

/// A document: where it is found, and its pieces in order.
#[derive(Clone, Debug)]
pub struct Page {
    pub href: String,
    pub items: Vec<Item>,
}

impl View for Page {
    type V = PageView;

    open spec fn view(&self) -> PageView {
        PageView { href: self.href@, items: Seq::new(self.items@.len(), |i: int| self.items@[i]@) }
    }
}

/// The values of a sequence of pages.
pub open spec fn pages_of(pages: Seq<Page>) -> Seq<PageView> {
    Seq::new(pages.len(), |i: int| pages[i]@)
}

/// The values of a sequence of items.
pub open spec fn items_of(items: Seq<Item>) -> Seq<ItemView> {
    Seq::new(items.len(), |i: int| items[i]@)
}

/// Whether the character is a backtick.
pub open spec fn spec_is_backtick(c: char) -> bool {
    c == '`'
}

/// The backtick, as a predicate.
pub open spec fn class_backtick() -> spec_fn(char) -> bool {
    |c: char| spec_is_backtick(c)
}

/// Whether the character is a backtick.
#[verifier::when_used_as_spec(spec_is_backtick)]
pub fn is_backtick(c: char) -> (b: bool)
    ensures
        b == spec_is_backtick(c),
{
    c == '`'
}

/// Whether a fence opens at the character with index `i`: a run of three or
/// more backticks with `syntax` and a newline right behind it.
pub open spec fn fence_at(text: Seq<char>, i: int) -> bool {
    run_len(text, i, class_backtick()) >= 3 && starts_with_at(
        text,
        run_end(text, i, class_backtick()),
        "syntax\n"@,
    )
}

/// Where the fence closes: the start of the first run of exactly `n`
/// backticks from the index `i` on, or the end of the text if there is none.
pub open spec fn closing(text: Seq<char>, i: int, n: nat) -> int
    decreases text.len() - i,
    via closing_decreases
{
    if !(0 <= i < text.len()) {
        text.len() as int
    } else {
        let run = run_len(text, i, class_backtick());
        if run == n {
            i
        } else if run == 0 {
            closing(text, i + 1, n)
        } else {
            closing(text, i + run, n)
        }
    }
}

#[via_fn]
proof fn closing_decreases(text: Seq<char>, i: int, n: nat) {
    if 0 <= i < text.len() {
        lemma_run_end_bounds(text, i, class_backtick());
    }
}

/// A fence closes inside the text, not before the index from which its end
/// is looked for, and only where a run of exactly as many backticks stands
/// as opened it, unless it reaches to the end of the text.
pub proof fn lemma_closing_bounds(text: Seq<char>, i: int, n: nat)
    requires
        0 <= i <= text.len(),
    ensures
        i <= closing(text, i, n) <= text.len(),
        closing(text, i, n) < text.len() ==> run_len(text, closing(text, i, n), class_backtick())
            == n && closing(text, i, n) + n <= text.len(),
    decreases text.len() - i,
{
    if i < text.len() {
        lemma_run_end_bounds(text, i, class_backtick());
        let run = run_len(text, i, class_backtick());
        if run == n {
        } else if run == 0 {
            lemma_closing_bounds(text, i + 1, n);
        } else {
            lemma_closing_bounds(text, i + run, n);
        }
    }
}

/// The items of a text from the character with index `i` on, where the text
/// from `start` on has not been put into an item yet. Where a fence opens,
/// the text before it is an item, and so is the tree of what stands between
/// the fence and its closing run; the run is passed over. Where the text
/// ends, what is left is the last item.
pub open spec fn segments(text: Seq<char>, i: int, start: int) -> Seq<ItemView>
    decreases text.len() - i,
    via segments_decreases
{
    if !(0 <= i < text.len()) {
        seq![ItemView::Text(text.subrange(start, text.len() as int))]
    } else if fence_at(text, i) {
        let run = run_len(text, i, class_backtick());
        let open = i + run + "syntax\n"@.len();
        let close = closing(text, open, run);
        let end = if close < text.len() {
            close + run
        } else {
            text.len() as int
        };
        seq![
            ItemView::Text(text.subrange(start, i)),
            ItemView::Code(parse_tree(text.subrange(open, close))),
        ] + segments(text, end, end)
    } else {
        segments(text, i + 1, start)
    }
}

#[via_fn]
proof fn segments_decreases(text: Seq<char>, i: int, start: int) {
    if 0 <= i < text.len() && fence_at(text, i) {
        let run = run_len(text, i, class_backtick());
        let open = i + run + "syntax\n"@.len();
        lemma_closing_bounds(text, open, run);
    }
}

/// A text in which no fence opens is one item: the text itself.
pub proof fn lemma_segments_plain(text: Seq<char>, i: int)
    requires
        0 <= i <= text.len(),
        forall|k: int| 0 <= k < text.len() ==> !fence_at(text, k),
    ensures
        segments(text, i, 0) == seq![ItemView::Text(text)],
    decreases text.len() - i,
{
    if i < text.len() {
        lemma_segments_plain(text, i + 1);
    } else {
        assert(text.subrange(0, text.len() as int) =~= text);
    }
}

/// Move the scanner to where the fence closes: to the first run of exactly
/// `width` backticks, or to the end of the text.
fn find_closing(s: &mut Scanner, width: usize)
    requires
        scanner_index(*old(s)) <= scanner_text(*old(s)).len(),
    ensures
        scanner_text(*final(s)) == scanner_text(*old(s)),
        scanner_index(*final(s)) == closing(
            scanner_text(*old(s)),
            scanner_index(*old(s)) as int,
            width as nat,
        ),
{
    let ghost text = scanner_text(*s);
    let ghost open = scanner_index(*s) as int;
    loop
        invariant_except_break
            closing(text, scanner_index(*s) as int, width as nat) == closing(
                text,
                open,
                width as nat,
            ),
        invariant
            scanner_text(*s) == text,
            text == scanner_text(*old(s)),
            open == scanner_index(*old(s)),
            open <= scanner_index(*s) <= text.len(),
        ensures
            scanner_index(*s) == closing(text, open, width as nat),
        decreases text.len() - scanner_index(*s),
    {
        let ghost i = scanner_index(*s) as int;
        if scan_done(s) {
            break ;
        }
        let at = scan_cursor(s);
        let mut probe = *s;
        scan_eat_while(&mut probe, is_backtick);
        proof {
            lemma_run_end(text, i, scanner_index(probe) as int, class_backtick());
            lemma_offset_narrow(text, i, scanner_index(probe) as int);
        }
        let run = scan_cursor(&probe) - at;
        if run == width {
            break ;
        }
        if run == 0 {
            scan_eat(s);
        } else {
            *s = probe;
        }
    }
}

/// Cut a document into its items: plain text, and the grammar snippets
/// between a fence of three or more backticks tagged `syntax` and the next
/// run of as many backticks, each parsed into its tree.
pub fn parse_content(content: &str) -> (items: Vec<Item>)
    ensures
        items_of(items@) == segments(content@, 0, 0),
{
    let ghost text = content@;
    let mut items: Vec<Item> = Vec::new();
    let mut s = scan_new(content);
    let mut start = scan_cursor(&s);
    let ghost mut from: int = 0;
    loop
        invariant_except_break
            items_of(items@) + segments(text, scanner_index(s) as int, from) == segments(
                text,
                0,
                0,
            ),
        invariant
            scanner_text(s) == text,
            text == content@,
            0 <= from <= scanner_index(s) <= text.len(),
            start == offset_at(text, from),
        ensures
            items_of(items@) == segments(text, 0, 0),
        decreases text.len() - scanner_index(s),
    {
        let ghost i = scanner_index(s) as int;
        proof {
            lemma_index_at_offset(text, from);
        }
        if scan_done(&s) {
            let rest = scan_from(&s, start);
            items.push(Item::Text(rest.to_owned()));
            break ;
        }
        let mut cs = s;
        let here = scan_cursor(&cs);
        scan_eat_while(&mut cs, is_backtick);
        let ghost run = scanner_index(cs) - i;
        proof {
            lemma_run_end(text, i, scanner_index(cs) as int, class_backtick());
            lemma_offset_narrow(text, i, scanner_index(cs) as int);
        }
        let there = scan_cursor(&cs);
        if there - here >= 3 && scan_eat_if(&mut cs, "syntax\n") {
            let before = scan_from(&s, start);
            items.push(Item::Text(before.to_owned()));
            let opened = scan_cursor(&cs);
            let ghost open = scanner_index(cs) as int;
            let width = there - here;
            proof {
                lemma_closing_bounds(text, open, run as nat);
            }
            find_closing(&mut cs, width);
            proof {
                lemma_index_at_offset(text, open);
            }
            let code = scan_from(&cs, opened);
            items.push(Item::Code(parse(code)));
            let ghost close = scanner_index(cs) as int;
            scan_eat_while(&mut cs, is_backtick);
            proof {
                if close < text.len() {
                    lemma_run_end(text, close, scanner_index(cs) as int, class_backtick());
                }
            }
            start = scan_cursor(&cs);
            s = cs;
            proof {
                from = scanner_index(s) as int;
            }
        } else {
            scan_eat(&mut s);
        }
    }
    items
}

/// The value of a [`Document`].
pub struct DocumentView {
    pub href: Seq<char>,
    pub content: Seq<char>,
}

/// A document as it comes in: where it is found, and its text.
#[derive(Clone, Debug)]
pub struct Document {
    pub href: String,
    pub content: String,
}

impl View for Document {
    type V = DocumentView;

    open spec fn view(&self) -> DocumentView {
        DocumentView { href: self.href@, content: self.content@ }
    }
}

/// The values of a sequence of documents.
pub open spec fn documents_of(documents: Seq<Document>) -> Seq<DocumentView> {
    Seq::new(documents.len(), |i: int| documents[i]@)
}

/// The page of a document: its href and the items of its text.
pub open spec fn page_of(document: DocumentView) -> PageView {
    PageView { href: document.href, items: segments(document.content, 0, 0) }
}

/// The pages of the documents.
pub open spec fn book_of(documents: Seq<DocumentView>) -> Seq<PageView> {
    Seq::new(documents.len(), |i: int| page_of(documents[i]))
}

/// What an item becomes: text stays, a snippet is rendered.
pub open spec fn item_markup(table: Map<Seq<char>, Seq<Seq<char>>>, item: ItemView) -> Seq<char> {
    match item {
        ItemView::Text(text) => text,
        ItemView::Code(code) => code_markup(table, code),
    }
}

/// What the first `n` items become, one behind the other.
pub open spec fn page_markup(
    table: Map<Seq<char>, Seq<Seq<char>>>,
    items: Seq<ItemView>,
    n: nat,
) -> Seq<char>
    decreases n,
{
    if n == 0 || n > items.len() {
        Seq::empty()
    } else {
        page_markup(table, items, (n - 1) as nat) + item_markup(table, items[n - 1])
    }
}

/// The new text of each document: its items as they are rendered with the
/// rule table of all the documents.
pub open spec fn spec_run(documents: Seq<DocumentView>, root: Seq<char>) -> Seq<Seq<char>> {
    let book = book_of(documents);
    let table = table_of(book_entries(root, book, book.len()));
    Seq::new(
        documents.len(),
        |i: int| page_markup(table, book[i].items, book[i].items.len()),
    )
}

/// Render a page: its text as it is and its snippets as markup, with the
/// references to rules resolved in the table.
pub fn render_page(rules: &Rules, page: &Page) -> (content: String)
    ensures
        content@ == page_markup(rules@, page@.items, page@.items.len()),
{
    let mut content = String::new();
    let mut i: usize = 0;
    while i < page.items.len()
        invariant
            i <= page.items@.len(),
            content@ == page_markup(rules@, page@.items, i as nat),
        decreases page.items@.len() - i,
    {
        match &page.items[i] {
            Item::Text(text) => {
                content.append(text.as_str());
            },
            Item::Code(code) => {
                content.append(parse_code(rules, code).as_str());
            },
        }
        i = i + 1;
    }
    content
}

/// Rewrite the documents: each is cut into text and grammar snippets, the
/// rule table is built over the snippets of all of them, and then each
/// snippet gives way to its markup. `root` is put before each link.
pub fn run(documents: &Vec<Document>, root: &str) -> (contents: Vec<String>)
    ensures
        strings_of(contents@) == spec_run(documents_of(documents@), root@),
        contents@.len() == documents@.len(),
{
    let ghost book = book_of(documents_of(documents@));
    let mut pages: Vec<Page> = Vec::new();
    let mut i: usize = 0;
    while i < documents.len()
        invariant
            i <= documents@.len(),
            pages@.len() == i,
            forall|k: int| 0 <= k < i ==> (#[trigger] pages@[k])@ == page_of(documents@[k]@),
        decreases documents@.len() - i,
    {
        let document = &documents[i];
        let items = parse_content(document.content.as_str());
        let page = Page { href: document.href.clone(), items };
        pages.push(page);
        i = i + 1;
    }

    let rules = find_rules(&pages, root);

    let mut contents: Vec<String> = Vec::new();
    let mut j: usize = 0;
    while j < pages.len()
        invariant
            j <= pages@.len(),
            pages@.len() == documents@.len(),
            pages_of(pages@) == book,
            contents@.len() == j,
            forall|k: int|
                0 <= k < j ==> (#[trigger] contents@[k])@ == page_markup(
                    rules@,
                    book[k].items,
                    book[k].items.len(),
                ),
        decreases pages@.len() - j,
    {
        contents.push(render_page(&rules, &pages[j]));
        j = j + 1;
    }
    contents
}

} // verus!
