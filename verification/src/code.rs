//! The rule table, which says where each rule is defined, and the renderer,
//! which turns a syntax tree into annotated markup.

use vstd::prelude::*;
use vstd::hash_map::StringHashMap;
use vstd::string::*;
use crate::book::{pages_of, Item, ItemView, Page, PageView};
use crate::kind::SyntaxKind;
use crate::lexer::plain_error;
use crate::node::{trees_of, ErrorView, SyntaxError, SyntaxNode, Tree};
use crate::scan::{
    char_is_whitespace, is_whitespace, scan_done, scan_eat_if_char, scan_eat_while, scan_new,
};

verus! {

/// A definition of a rule: the name of the rule and where it is defined.
pub struct Entry {
    pub name: Seq<char>,
    pub location: Seq<char>,
}

/// The anchor of a rule: `syntax-rule-` and the name.
pub open spec fn spec_rule_hash(name: Seq<char>) -> Seq<char> {
    "syntax-rule-"@ + name
}

/// The location of a rule in a document: the root prefix, the document's
/// href, `#` and the rule's anchor.
pub open spec fn location(root: Seq<char>, href: Seq<char>, name: Seq<char>) -> Seq<char> {
    root + href + "#"@ + spec_rule_hash(name)
}

/// The text of the first identifier among the trees from index `from` on.
pub open spec fn first_identifier(trees: Seq<Tree>, from: int) -> Option<Seq<char>>
    decreases trees.len() - from,
{
    if from < 0 || from >= trees.len() {
        None
    } else if trees[from].kind() == SyntaxKind::Identifier {
        Some(trees[from].text())
    } else {
        first_identifier(trees, from + 1)
    }
}

/// The name that a tree defines: that of a rule without errors, which is the
/// text of its first identifier.
pub open spec fn defined_name(tree: Tree) -> Option<Seq<char>> {
    if tree.kind() == SyntaxKind::Rule && !tree.erroneous() {
        first_identifier(tree.children(), 0)
    } else {
        None
    }
}

/// The definitions among the first `n` of the given trees, in order.
pub open spec fn tree_entries(root: Seq<char>, href: Seq<char>, trees: Seq<Tree>, n: nat) -> Seq<
    Entry,
>
    decreases n,
{
    if n == 0 || n > trees.len() {
        Seq::empty()
    } else {
        let before = tree_entries(root, href, trees, (n - 1) as nat);
        match defined_name(trees[n - 1]) {
            Some(name) => before.push(Entry { name, location: location(root, href, name) }),
            None => before,
        }
    }
}

/// The definitions in an item: those among the children of a snippet's tree.
pub open spec fn item_entries(root: Seq<char>, href: Seq<char>, item: ItemView) -> Seq<Entry> {
    match item {
        ItemView::Text(_) => Seq::empty(),
        ItemView::Code(tree) => tree_entries(root, href, tree.children(), tree.children().len()),
    }
}

/// The definitions in the first `n` items of a page, in order.
pub open spec fn page_entries(root: Seq<char>, page: PageView, n: nat) -> Seq<Entry>
    decreases n,
{
    if n == 0 || n > page.items.len() {
        Seq::empty()
    } else {
        page_entries(root, page, (n - 1) as nat) + item_entries(root, page.href, page.items[n - 1])
    }
}

/// The definitions in the first `n` pages, in order.
pub open spec fn book_entries(root: Seq<char>, pages: Seq<PageView>, n: nat) -> Seq<Entry>
    decreases n,
{
    if n == 0 || n > pages.len() {
        Seq::empty()
    } else {
        book_entries(root, pages, (n - 1) as nat) + page_entries(
            root,
            pages[n - 1],
            pages[n - 1].items.len(),
        )
    }
}

/// The locations at which the definitions define `name`, in order.
pub open spec fn locations_of(entries: Seq<Entry>, name: Seq<char>) -> Seq<Seq<char>>
    decreases entries.len(),
{
    if entries.len() == 0 {
        Seq::empty()
    } else if entries.last().name == name {
        locations_of(entries.drop_last(), name).push(entries.last().location)
    } else {
        locations_of(entries.drop_last(), name)
    }
}

/// The rule table of the definitions: each name that is defined, with the
/// locations of its definitions in order.
pub open spec fn table_of(entries: Seq<Entry>) -> Map<Seq<char>, Seq<Seq<char>>> {
    Map::new(
        |name: Seq<char>| locations_of(entries, name).len() > 0,
        |name: Seq<char>| locations_of(entries, name),
    )
}

/// The locations that a table holds for a name: none if it does not hold the
/// name.
pub open spec fn found(table: Map<Seq<char>, Seq<Seq<char>>>, name: Seq<char>) -> Seq<Seq<char>> {
    if table.dom().contains(name) {
        table[name]
    } else {
        Seq::empty()
    }
}

/// The characters of each of the strings.
pub open spec fn strings_of(strings: Seq<String>) -> Seq<Seq<char>> {
    Seq::new(strings.len(), |i: int| strings[i]@)
}

/// The locations of a name in two lists of definitions, one behind the other,
/// are those in the first followed by those in the second: what one document
/// defines is added to what the documents before it define.
pub proof fn lemma_locations_concat(first: Seq<Entry>, second: Seq<Entry>, name: Seq<char>)
    ensures
        locations_of(first + second, name) == locations_of(first, name) + locations_of(
            second,
            name,
        ),
    decreases second.len(),
{
    if second.len() > 0 {
        lemma_locations_concat(first, second.drop_last(), name);
        assert((first + second).drop_last() =~= first + second.drop_last());
    }
}

/// One more definition adds its location to those of its name.
pub proof fn lemma_table_push(entries: Seq<Entry>, entry: Entry)
    ensures
        table_of(entries.push(entry)) == table_of(entries).insert(
            entry.name,
            found(table_of(entries), entry.name).push(entry.location),
        ),
{
    let more = entries.push(entry);
    assert(more.drop_last() =~= entries);
    let target = table_of(entries).insert(
        entry.name,
        found(table_of(entries), entry.name).push(entry.location),
    );
    assert forall|name: Seq<char>| #[trigger]
        table_of(more).dom().contains(name) implies table_of(more)[name] == target[name] by {
    }
}

/// The rule table: for each rule name, the locations of its definitions,
/// held in a hash map under the name.
pub struct Rules {
    map: StringHashMap<Vec<String>>,
}

impl View for Rules {
    type V = Map<Seq<char>, Seq<Seq<char>>>;

    closed spec fn view(&self) -> Map<Seq<char>, Seq<Seq<char>>> {
        Map::new(
            |name: Seq<char>| self.map@.contains_key(name),
            |name: Seq<char>| strings_of(self.map@[name]@),
        )
    }
}

impl Rules {
    /// A table without rules.
    pub fn new() -> (rules: Self)
        ensures
            rules@ == Map::<Seq<char>, Seq<Seq<char>>>::empty(),
    {
        Rules { map: StringHashMap::new() }
    }

    /// The locations at which the rule is defined, if it is defined at all.
    pub fn get(&self, name: &str) -> (locations: Option<&Vec<String>>)
        ensures
            match locations {
                Some(list) => {
                    &&& self@.dom().contains(name@)
                    &&& strings_of(list@) == self@[name@]
                    &&& list@.len() == self@[name@].len()
                },
                None => !self@.dom().contains(name@),
            },
    {
        self.map.get(name)
    }

    /// Add a location to those of a rule, behind the ones it has.
    pub fn add(&mut self, name: &str, location: String)
        ensures
            final(self)@ == old(self)@.insert(name@, found(old(self)@, name@).push(location@)),
    {
        let mut list = match self.map.get(name) {
            Some(held) => clone_all(held),
            None => Vec::new(),
        };
        list.push(location);
        assert(strings_of(list@) =~= found(old(self)@, name@).push(location@));
        self.map.insert(name.to_owned(), list);
        assert(self@ =~= old(self)@.insert(name@, found(old(self)@, name@).push(location@)));
    }
}

/// The anchor of a rule.
pub fn rule_hash(name: &str) -> (hash: String)
    ensures
        hash@ == spec_rule_hash(name@),
{
    let mut hash = "syntax-rule-".to_owned();
    hash.append(name);
    hash
}

/// What a character becomes in markup: `&`, `<`, `>`, `"`, `'` and `/` are
/// written as entities, any other character stays.
pub open spec fn escape_char(c: char) -> Seq<char> {
    if c == '&' {
        "&amp;"@
    } else if c == '<' {
        "&lt;"@
    } else if c == '>' {
        "&gt;"@
    } else if c == '"' {
        "&quot;"@
    } else if c == '\'' {
        "&#x27;"@
    } else if c == '/' {
        "&#x2F;"@
    } else {
        seq![c]
    }
}

/// A text with each character escaped for markup.
pub open spec fn html_safe(text: Seq<char>) -> Seq<char>
    decreases text.len(),
{
    if text.len() == 0 {
        Seq::empty()
    } else {
        html_safe(text.drop_last()) + escape_char(text.last())
    }
}

/// The code that `str::escape_default` writes for a character that it does
/// not write as itself or behind a backslash: what `char::escape_unicode`
/// writes, the number of the character in hexadecimal digits between `\u{`
/// and `}`.
pub uninterp spec fn char_escape_unicode(c: char) -> Seq<char>;

/// What a character becomes in an escaped text: tab, carriage return and
/// line feed are written `\t`, `\r` and `\n`; a quote, a double quote and a
/// backslash get a backslash before them; any other character from the
/// space to `~` stays; every other character is written as its code, which
/// `code` gives.
pub open spec fn char_escape_default(c: char, code: spec_fn(char) -> Seq<char>) -> Seq<char> {
    if c == '\t' {
        seq!['\\', 't']
    } else if c == '\r' {
        seq!['\\', 'r']
    } else if c == '\n' {
        seq!['\\', 'n']
    } else if c == '\'' || c == '"' || c == '\\' {
        seq!['\\', c]
    } else if ' ' <= c <= '~' {
        seq![c]
    } else {
        code(c)
    }
}

/// A text with each character escaped, where `code` gives the code of a
/// character.
pub open spec fn escaped_with(text: Seq<char>, code: spec_fn(char) -> Seq<char>) -> Seq<char>
    decreases text.len(),
{
    if text.len() == 0 {
        Seq::empty()
    } else {
        escaped_with(text.drop_last(), code) + char_escape_default(text.last(), code)
    }
}

/// A text with each character escaped.
pub open spec fn str_escape_default(text: Seq<char>) -> Seq<char> {
    escaped_with(text, |c: char| char_escape_unicode(c))
}

/// `html_escape::encode_safe`: the text with `&`, `<`, `>`, `"`, `'` and `/`
/// replaced by `&amp;`, `&lt;`, `&gt;`, `&quot;`, `&#x27;` and `&#x2F;`.
#[verifier::external_body]
fn encode_safe(text: &str) -> (encoded: String)
    ensures
        encoded@ == html_safe(text@),
{
    html_escape::encode_safe(text).into_owned()
}

/// `str::escape_default`: the text with each character escaped as
/// `char::escape_default` escapes it, which `char_escape_default` states but
/// for the digits of a code, which have the name `char_escape_unicode`.
#[verifier::external_body]
fn escape_default(text: &str) -> (escaped: String)
    ensures
        escaped@ == escaped_with(text@, |c: char| char_escape_unicode(c)),
{
    text.escape_default().to_string()
}

/// A text in a span of the given class, escaped for markup.
pub open spec fn class_span(class: Seq<char>, text: Seq<char>) -> Seq<char> {
    "<span class=\"syntax-"@ + class + "\">"@ + html_safe(text) + "</span>"@
}

/// The first `n` hints, each between double quotes, with commas between
/// them.
pub open spec fn quoted_list(hints: Seq<Seq<char>>, n: nat) -> Seq<char>
    decreases n,
{
    if n == 0 || n > hints.len() {
        Seq::empty()
    } else if n == 1 {
        "\""@ + hints[0] + "\""@
    } else {
        quoted_list(hints, (n - 1) as nat) + ","@ + "\""@ + hints[n - 1] + "\""@
    }
}

/// The span that shows an error: the message and the list of hints, which is
/// escaped for markup, as attributes around what is shown.
pub open spec fn spec_error_span(
    shown: Seq<char>,
    message: Seq<char>,
    hints: Seq<Seq<char>>,
) -> Seq<char> {
    "<span class=\"syntax-error\" message=\""@ + message + "\" hints=\"["@ + html_safe(
        quoted_list(hints, hints.len()),
    ) + "]\">"@ + shown + "</span>"@
}

/// Each of the texts as `str::escape_default` writes it.
pub open spec fn escaped_all(texts: Seq<Seq<char>>) -> Seq<Seq<char>> {
    Seq::new(texts.len(), |i: int| str_escape_default(texts[i]))
}

/// Whether a text is empty or holds nothing but whitespace.
pub open spec fn blank(text: Seq<char>) -> bool {
    forall|i: int| 0 <= i < text.len() ==> char_is_whitespace(#[trigger] text[i])
}

/// The markup of an error on the given source text: the text, or `[error]`
/// if the text is blank, in the span for the escaped message and hints.
pub open spec fn error_markup(text: Seq<char>, error: ErrorView) -> Seq<char> {
    spec_error_span(
        if blank(text) {
            "[error]"@
        } else {
            text
        },
        str_escape_default(error.message),
        escaped_all(error.hints),
    )
}

/// The markup of a reference to a rule. A name with one definition is a link
/// to it; a name without definition and a name with several are errors, the
/// latter with the locations of the definitions as hints.
pub open spec fn identifier_markup(table: Map<Seq<char>, Seq<Seq<char>>>, name: Seq<char>) -> Seq<
    char,
> {
    let locations = found(table, name);
    if locations.len() == 0 {
        error_markup(name, plain_error("rule '"@ + name + "' does not exist"@))
    } else if locations.len() == 1 {
        "<a class=\"syntax-link\" href=\""@ + locations[0] + "\">"@ + class_span(
            "identifier"@,
            name,
        ) + "</a>"@
    } else {
        error_markup(
            name,
            ErrorView {
                message: "found multiple definitions for rule '"@ + name + "'"@,
                hints: locations,
            },
        )
    }
}

/// The class of the span in which a leaf of the given kind is shown, if it
/// is shown in one.
pub open spec fn class_of(kind: SyntaxKind) -> Option<Seq<char>> {
    if kind == SyntaxKind::Comment {
        Some("comment"@)
    } else if kind == SyntaxKind::String {
        Some("string"@)
    } else if kind == SyntaxKind::Integer {
        Some("integer"@)
    } else if kind == SyntaxKind::Meta {
        Some("meta"@)
    } else if kind == SyntaxKind::Operation {
        Some("action"@)
    } else if kind == SyntaxKind::If {
        Some("keyword"@)
    } else if kind.spec_is_operator() {
        Some("operator"@)
    } else {
        None
    }
}

/// The markup of a rule that gets an anchor: the content in a span that
/// carries the anchor of the name, behind an anchor of that name.
pub open spec fn anchored(name: Seq<char>, content: Seq<char>) -> Seq<char> {
    "<span class=\"syntax-rule\" rule=\""@ + spec_rule_hash(name) + "\"><a name=\""@
        + spec_rule_hash(name) + "\"></a>"@ + content + "</span>"@
}

/// The markup of a tree. An error node is shown as an error; whitespace is
/// kept as it is; an identifier is resolved in the table; the kinds that
/// have a class are shown in a span of it; any other node is shown as its
/// children, one behind the other, and a rule without errors gets an anchor
/// around them unless its name is ignored.
pub open spec fn markup(table: Map<Seq<char>, Seq<Seq<char>>>, tree: Tree) -> Seq<char>
    decreases tree, 0nat,
{
    match tree {
        Tree::Error { text, error, .. } => error_markup(text, error),
        _ => {
            if tree.kind() == SyntaxKind::Whitespace {
                tree.text()
            } else if tree.kind() == SyntaxKind::Identifier {
                identifier_markup(table, tree.text())
            } else if class_of(tree.kind()) is Some {
                class_span(class_of(tree.kind())->0, tree.text())
            } else {
                let content = match tree {
                    Tree::Inner { children, .. } => markup_of(table, children, children.len()),
                    _ => Seq::empty(),
                };
                match defined_name(tree) {
                    Some(name) => if ignored(name) {
                        content
                    } else {
                        anchored(name, content)
                    },
                    None => content,
                }
            }
        },
    }
}

/// The markup of the first `n` trees, one behind the other.
pub open spec fn markup_of(table: Map<Seq<char>, Seq<Seq<char>>>, trees: Seq<Tree>, n: nat) -> Seq<
    char,
>
    decreases trees, n,
{
    if n == 0 || n > trees.len() {
        Seq::empty()
    } else {
        markup_of(table, trees, (n - 1) as nat) + markup(table, trees[n - 1])
    }
}

/// Whether a rule of this name is kept out of the anchors: its name starts
/// with `_`.
pub open spec fn ignored(name: Seq<char>) -> bool {
    name.len() > 0 && name[0] == '_'
}

/// The markup of a snippet: that of the children of its tree, in the
/// container for code.
pub open spec fn code_markup(table: Map<Seq<char>, Seq<Seq<char>>>, code: Tree) -> Seq<char> {
    "<pre><code class=\"syntax\">"@ + markup_of(table, code.children(), code.children().len())
        + "</code></pre>"@
}

/// A definition adds one to the locations that the definitions before it
/// give for its name.
pub proof fn lemma_definition_counts(entries: Seq<Entry>, i: int)
    requires
        0 <= i < entries.len(),
    ensures
        locations_of(entries, entries[i].name).len() > locations_of(
            entries.take(i),
            entries[i].name,
        ).len(),
    decreases entries.len(),
{
    let name = entries[i].name;
    if i == entries.len() - 1 {
        assert(entries.take(i) =~= entries.drop_last());
    } else {
        assert(entries.drop_last().take(i) =~= entries.take(i));
        lemma_definition_counts(entries.drop_last(), i);
    }
}

/// A reference to a rule that two definitions define, in one document or in
/// two, is shown as an error that names the locations of the definitions,
/// and not as a link.
pub proof fn lemma_ambiguous_reference(entries: Seq<Entry>, i: int, j: int)
    requires
        0 <= i < j < entries.len(),
        entries[i].name == entries[j].name,
    ensures
        found(table_of(entries), entries[i].name) == locations_of(entries, entries[i].name),
        locations_of(entries, entries[i].name).len() >= 2,
        identifier_markup(table_of(entries), entries[i].name) == error_markup(
            entries[i].name,
            ErrorView {
                message: "found multiple definitions for rule '"@ + entries[i].name + "'"@,
                hints: locations_of(entries, entries[i].name),
            },
        ),
{
    lemma_definition_counts(entries, j);
    lemma_definition_counts(entries.take(j), i);
}

/// A reference to a rule that no definition defines is shown as an error
/// that says so.
pub proof fn lemma_undefined_reference(entries: Seq<Entry>, name: Seq<char>)
    requires
        forall|i: int| 0 <= i < entries.len() ==> (#[trigger] entries[i]).name != name,
    ensures
        !table_of(entries).dom().contains(name),
        identifier_markup(table_of(entries), name) == error_markup(
            name,
            plain_error("rule '"@ + name + "' does not exist"@),
        ),
    decreases entries.len(),
{
    if entries.len() > 0 {
        assert(entries.last() == entries[entries.len() - 1]);
        assert forall|i: int| 0 <= i < entries.drop_last().len() implies (
        #[trigger] entries.drop_last()[i]).name != name by {
            assert(entries.drop_last()[i] == entries[i]);
        }
        lemma_undefined_reference(entries.drop_last(), name);
    }
}

/// The text of the first child that is an identifier.
fn rule_name(rule: &SyntaxNode) -> (name: Option<&str>)
    ensures
        match name {
            Some(text) => first_identifier(rule@.children(), 0) == Some(text@),
            None => first_identifier(rule@.children(), 0) is None,
        },
{
    let children = rule.children();
    let mut i: usize = 0;
    while i < children.len()
        invariant
            i <= children@.len(),
            trees_of(children@) == rule@.children(),
            first_identifier(rule@.children(), 0) == first_identifier(rule@.children(), i as int),
        decreases children@.len() - i,
    {
        if children[i].kind() == SyntaxKind::Identifier {
            return Some(children[i].text());
        }
        i = i + 1;
    }
    None
}

/// The name that the node defines, if it is a rule without errors.
fn rule_defined(node: &SyntaxNode) -> (name: Option<&str>)
    ensures
        match name {
            Some(text) => defined_name(node@) == Some(text@),
            None => defined_name(node@) is None,
        },
{
    if node.kind() == SyntaxKind::Rule && !node.erroneous() {
        rule_name(node)
    } else {
        None
    }
}

/// Add the rules that the children of a snippet's tree define.
fn add_rules(
    rules: &mut Rules,
    root: &str,
    href: &str,
    code: &SyntaxNode,
    Ghost(before): Ghost<Seq<Entry>>,
)
    requires
        old(rules)@ == table_of(before),
    ensures
        final(rules)@ == table_of(
            before + tree_entries(root@, href@, code@.children(), code@.children().len()),
        ),
{
    let children = code.children();
    let ghost trees = code@.children();
    let mut i: usize = 0;
    while i < children.len()
        invariant
            i <= children@.len(),
            trees_of(children@) == trees,
            rules@ == table_of(before + tree_entries(root@, href@, trees, i as nat)),
        decreases children@.len() - i,
    {
        let ghost so_far = before + tree_entries(root@, href@, trees, i as nat);
        match rule_defined(&children[i]) {
            Some(name) => {
                let mut place = root.to_owned();
                place.append(href);
                place.append("#");
                place.append(rule_hash(name).as_str());
                proof {
                    let entry = Entry { name: name@, location: location(root@, href@, name@) };
                    lemma_table_push(so_far, entry);
                }
                rules.add(name, place);
            },
            None => {},
        }
        i = i + 1;
    }
}

/// Build the rule table of the pages: for each name, the locations of the
/// rules without errors that define it, in the order of the pages, of their
/// snippets and of the rules in them. `root` is put before each location.
pub fn find_rules(pages: &Vec<Page>, root: &str) -> (rules: Rules)
    ensures
        rules@ == table_of(book_entries(root@, pages_of(pages@), pages@.len())),
{
    let mut rules = Rules::new();
    let ghost book = pages_of(pages@);
    let mut i: usize = 0;
    while i < pages.len()
        invariant
            i <= pages@.len(),
            book == pages_of(pages@),
            rules@ == table_of(book_entries(root@, book, i as nat)),
        decreases pages@.len() - i,
    {
        let page = &pages[i];
        let ghost done = book_entries(root@, book, i as nat);
        let mut j: usize = 0;
        while j < page.items.len()
            invariant
                j <= page.items@.len(),
                rules@ == table_of(done + page_entries(root@, page@, j as nat)),
            decreases page.items@.len() - j,
        {
            let ghost so_far = done + page_entries(root@, page@, j as nat);
            match &page.items[j] {
                Item::Code(code) => {
                    add_rules(&mut rules, root, page.href.as_str(), code, Ghost(so_far));
                    assert(done + page_entries(root@, page@, (j + 1) as nat) =~= so_far
                        + tree_entries(
                        root@,
                        page@.href,
                        code@.children(),
                        code@.children().len(),
                    ));
                },
                Item::Text(_) => {},
            }
            j = j + 1;
        }
        i = i + 1;
    }
    rules
}

/// Whether the text is empty or holds nothing but whitespace.
fn is_blank(text: &str) -> (b: bool)
    ensures
        b == blank(text@),
{
    let mut s = scan_new(text);
    scan_eat_while(&mut s, is_whitespace);
    scan_done(&s)
}

/// Whether the name starts with `_`.
fn is_ignored(name: &str) -> (b: bool)
    ensures
        b == ignored(name@),
{
    let mut s = scan_new(name);
    scan_eat_if_char(&mut s, '_')
}

/// Put a text, escaped for markup, into a span of the given class.
fn wrap_node_raw(code: &str, cls: &str) -> (markup: String)
    ensures
        markup@ == class_span(cls@, code@),
{
    let mut markup = "<span class=\"syntax-".to_owned();
    markup.append(cls);
    markup.append("\">");
    markup.append(encode_safe(code).as_str());
    markup.append("</span>");
    markup
}

/// The span that shows an error, from what is shown in it, the message as
/// it is to be written, and the hints as they are to be written between
/// quotes and escaped for markup.
pub fn error_span(shown: &str, message: &str, hints: &Vec<String>) -> (markup: String)
    ensures
        markup@ == spec_error_span(shown@, message@, strings_of(hints@)),
{
    let mut list = String::new();
    let mut i: usize = 0;
    let ghost all = strings_of(hints@);
    while i < hints.len()
        invariant
            i <= hints@.len(),
            all == strings_of(hints@),
            list@ == quoted_list(all, i as nat),
        decreases hints@.len() - i,
    {
        if i > 0 {
            list.append(",");
        }
        list.append("\"");
        list.append(hints[i].as_str());
        list.append("\"");
        i = i + 1;
    }
    let mut markup = "<span class=\"syntax-error\" message=\"".to_owned();
    markup.append(message);
    markup.append("\" hints=\"[");
    markup.append(encode_safe(list.as_str()).as_str());
    markup.append("]\">");
    markup.append(shown);
    markup.append("</span>");
    markup
}

/// Render an error on the given source text.
fn wrap_error_raw(code: &str, error: &SyntaxError) -> (markup: String)
    ensures
        markup@ == error_markup(code@, error@),
{
    let text = if is_blank(code) {
        "[error]"
    } else {
        code
    };
    let message = escape_default(error.message.as_str());
    let mut hints: Vec<String> = Vec::new();
    let mut i: usize = 0;
    while i < error.hints.len()
        invariant
            i <= error.hints@.len(),
            hints@.len() == i,
            forall|k: int| 0 <= k < i ==> hints@[k]@ == str_escape_default(error.hints@[k]@),
        decreases error.hints@.len() - i,
    {
        hints.push(escape_default(error.hints[i].as_str()));
        i = i + 1;
    }
    assert(strings_of(hints@) =~= escaped_all(error@.hints));
    error_span(text, message.as_str(), &hints)
}

/// Render an error node.
fn wrap_error(error: &SyntaxNode) -> (markup: String)
    requires
        error@ is Error,
    ensures
        markup@ == error_markup(error@.text(), error@->error),
{
    wrap_error_raw(error.text(), error.as_error().unwrap())
}

/// Render a reference to a rule.
fn wrap_identifier(rules: &Rules, rule: &SyntaxNode) -> (markup: String)
    ensures
        markup@ == identifier_markup(rules@, rule@.text()),
{
    let name = rule.text();
    match rules.get(name) {
        Some(locations) => {
            if locations.len() == 1 {
                let mut markup = "<a class=\"syntax-link\" href=\"".to_owned();
                markup.append(locations[0].as_str());
                markup.append("\">");
                markup.append(wrap_node_raw(name, "identifier").as_str());
                markup.append("</a>");
                markup
            } else if locations.len() == 0 {
                undefined_rule(name)
            } else {
                let mut message = "found multiple definitions for rule '".to_owned();
                message.append(name);
                message.append("'");
                let error = SyntaxError { message, hints: clone_all(locations) };
                wrap_error_raw(name, &error)
            }
        },
        None => undefined_rule(name),
    }
}

/// The markup of a reference to a rule that no document defines.
fn undefined_rule(name: &str) -> (markup: String)
    ensures
        markup@ == error_markup(name@, plain_error("rule '"@ + name@ + "' does not exist"@)),
{
    let mut message = "rule '".to_owned();
    message.append(name);
    message.append("' does not exist");
    let error = SyntaxError::new(message.as_str());
    wrap_error_raw(name, &error)
}

/// A copy of a list of strings.
fn clone_all(strings: &Vec<String>) -> (copy: Vec<String>)
    ensures
        copy@ == strings@,
{
    let mut copy: Vec<String> = Vec::new();
    let mut i: usize = 0;
    while i < strings.len()
        invariant
            i <= strings@.len(),
            copy@ == strings@.take(i as int),
        decreases strings@.len() - i,
    {
        copy.push(strings[i].clone());
        i = i + 1;
    }
    copy
}

/// The class of the span in which a leaf of the given kind is shown.
fn class_name(kind: SyntaxKind) -> (class: Option<&'static str>)
    ensures
        match class {
            Some(name) => class_of(kind) == Some(name@),
            None => class_of(kind) is None,
        },
{
    if kind == SyntaxKind::Comment {
        Some("comment")
    } else if kind == SyntaxKind::String {
        Some("string")
    } else if kind == SyntaxKind::Integer {
        Some("integer")
    } else if kind == SyntaxKind::Meta {
        Some("meta")
    } else if kind == SyntaxKind::Operation {
        Some("action")
    } else if kind == SyntaxKind::If {
        Some("keyword")
    } else if kind.is_operator() {
        Some("operator")
    } else {
        None
    }
}

/// Render a tree as markup, with the references to rules resolved in the
/// table.
pub fn wrap(rules: &Rules, node: &SyntaxNode) -> (text: String)
    ensures
        text@ == markup(rules@, node@),
    decreases node@,
{
    if node.as_error().is_some() {
        return wrap_error(node);
    }
    let kind = node.kind();
    if kind == SyntaxKind::Whitespace {
        return node.text().to_owned();
    }
    if kind == SyntaxKind::Identifier {
        return wrap_identifier(rules, node);
    }
    match class_name(kind) {
        Some(class) => wrap_node_raw(node.text(), class),
        None => {
            let children = node.children();
            let ghost trees = node@.children();
            let mut text = String::new();
            let mut i: usize = 0;
            while i < children.len()
                invariant
                    i <= children@.len(),
                    trees_of(children@) == trees,
                    trees == node@.children(),
                    text@ == markup_of(rules@, trees, i as nat),
                decreases children@.len() - i,
            {
                assert(trees[i as int] == children@[i as int]@);
                let part = wrap(rules, &children[i]);
                text.append(part.as_str());
                i = i + 1;
            }
            parse_rule(node, text)
        },
    }
}

/// Put the content of a node between the anchor of the rule that the node
/// defines, if it defines one and its name is not ignored.
fn parse_rule(rule: &SyntaxNode, content: String) -> (text: String)
    ensures
        text@ == match defined_name(rule@) {
            Some(name) => if ignored(name) {
                content@
            } else {
                anchored(name, content@)
            },
            None => content@,
        },
{
    match rule_defined(rule) {
        Some(name) => {
            if is_ignored(name) {
                // Ignored rule.
                content
            } else {
                let hash = rule_hash(name);
                let mut text = "<span class=\"syntax-rule\" rule=\"".to_owned();
                text.append(hash.as_str());
                text.append("\"><a name=\"");
                text.append(hash.as_str());
                text.append("\"></a>");
                text.append(content.as_str());
                text.append("</span>");
                text
            }
        },
        None => content,
    }
}

/// Render a snippet as markup: its rules, each with its anchor, and what
/// stands between them, in the container for code.
pub fn parse_code(rules: &Rules, code: &SyntaxNode) -> (text: String)
    ensures
        text@ == code_markup(rules@, code@),
{
    let children = code.children();
    let ghost trees = code@.children();
    let mut text = "<pre><code class=\"syntax\">".to_owned();
    let mut i: usize = 0;
    while i < children.len()
        invariant
            i <= children@.len(),
            trees_of(children@) == trees,
            text@ == "<pre><code class=\"syntax\">"@ + markup_of(rules@, trees, i as nat),
        decreases children@.len() - i,
    {
        let part = wrap(rules, &children[i]);
        text.append(part.as_str());
        i = i + 1;
    }
    text.append("</code></pre>");
    text
}

} // verus!
