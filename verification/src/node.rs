//! The syntax tree: leaves, composite nodes and error nodes.

use vstd::prelude::*;
use vstd::string::*;
use std::ops::Range;
use crate::kind::SyntaxKind;
use crate::scan::{offset_at, starts_with_at};

verus! {

/// What a [`SyntaxError`] holds, as plain sequences.
pub struct ErrorView {
    pub message: Seq<char>,
    pub hints: Seq<Seq<char>>,
}

/// A syntactical error.
#[derive(Clone, Eq, PartialEq, Hash, Debug)]
pub struct SyntaxError {
    pub message: String,
    pub hints: Vec<String>,
}

impl View for SyntaxError {
    type V = ErrorView;

    open spec fn view(&self) -> ErrorView {
        ErrorView {
            message: self.message@,
            hints: Seq::new(self.hints@.len(), |i: int| self.hints@[i]@),
        }
    }
}

impl SyntaxError {
    /// Create a new syntax error without hints.
    pub fn new(message: &str) -> (e: Self)
        ensures
            e@ == (ErrorView { message: message@, hints: Seq::empty() }),
    {
        let e = SyntaxError { message: message.to_owned(), hints: Vec::new() };
        assert(e@.hints =~= Seq::empty());
        e
    }

    /// Add a hint to the error, after those it has.
    pub fn hint(&mut self, hint: &str)
        ensures
            final(self)@ == (ErrorView {
                message: old(self)@.message,
                hints: old(self)@.hints.push(hint@),
            }),
    {
        self.hints.push(hint.to_owned());
        assert(self@.hints =~= old(self)@.hints.push(hint@));
    }
}

/// The mathematical value of a [`SyntaxNode`].
pub enum Tree {
    /// A token: its kind, its exact source text and its byte span.
    Leaf { kind: SyntaxKind, text: Seq<char>, start: int, end: int },
    /// A composite: its kind, its children in order, and the span and the
    /// flag that were computed from the children when it was built.
    Inner { kind: SyntaxKind, children: Seq<Tree>, start: int, end: int, erroneous: bool },
    /// An error: the source text it stands for, its byte span and the error.
    Error { text: Seq<char>, start: int, end: int, error: ErrorView },
}

impl Tree {
    /// The kind of the node; an error node reports `Error` whatever it was
    /// before.
    pub open spec fn kind(self) -> SyntaxKind {
        match self {
            Tree::Leaf { kind, .. } => kind,
            Tree::Inner { kind, .. } => kind,
            Tree::Error { .. } => SyntaxKind::Error,
        }
    }

    /// The text held by the node itself: empty for a composite.
    pub open spec fn text(self) -> Seq<char> {
        match self {
            Tree::Leaf { text, .. } => text,
            Tree::Inner { .. } => Seq::empty(),
            Tree::Error { text, .. } => text,
        }
    }

    /// Where the span starts, as a byte offset.
    pub open spec fn start(self) -> int {
        match self {
            Tree::Leaf { start, .. } => start,
            Tree::Inner { start, .. } => start,
            Tree::Error { start, .. } => start,
        }
    }

    /// Where the span ends, as a byte offset.
    pub open spec fn end(self) -> int {
        match self {
            Tree::Leaf { end, .. } => end,
            Tree::Inner { end, .. } => end,
            Tree::Error { end, .. } => end,
        }
    }

    /// The children of the node: none for a leaf or an error.
    pub open spec fn children(self) -> Seq<Tree> {
        match self {
            Tree::Inner { children, .. } => children,
            _ => Seq::empty(),
        }
    }

    /// Whether the node is an error or was built over one.
    pub open spec fn erroneous(self) -> bool {
        match self {
            Tree::Leaf { .. } => false,
            Tree::Inner { erroneous, .. } => erroneous,
            Tree::Error { .. } => true,
        }
    }

    /// The composite of the given kind over the given children: it spans from
    /// the start of the first child to the end of the last (from 0 to 0
    /// without children) and is erroneous exactly if a child is.
    pub open spec fn inner(kind: SyntaxKind, children: Seq<Tree>) -> Tree {
        Tree::Inner {
            kind,
            children,
            start: if children.len() == 0 {
                0
            } else {
                children.first().start()
            },
            end: if children.len() == 0 {
                0
            } else {
                children.last().end()
            },
            erroneous: any_erroneous(children),
        }
    }

    /// The same node under another kind; an error node stays as it is.
    pub open spec fn with_kind(self, kind: SyntaxKind) -> Tree {
        match self {
            Tree::Leaf { text, start, end, .. } => Tree::Leaf { kind, text, start, end },
            Tree::Inner { children, start, end, erroneous, .. } => Tree::Inner {
                kind,
                children,
                start,
                end,
                erroneous,
            },
            Tree::Error { .. } => self,
        }
    }

    /// The same node with one more hint, if it is an error node.
    pub open spec fn with_hint(self, hint: Seq<char>) -> Tree {
        match self {
            Tree::Error { text, start, end, error } => Tree::Error {
                text,
                start,
                end,
                error: ErrorView { message: error.message, hints: error.hints.push(hint) },
            },
            _ => self,
        }
    }

    /// The node turned into an error node with the given message: it keeps
    /// its span and stands for the same source text. An error node stays as
    /// it is.
    pub open spec fn to_error(self, message: Seq<char>) -> Tree {
        match self {
            Tree::Error { .. } => self,
            _ => Tree::Error {
                text: self.source(),
                start: self.start(),
                end: self.end(),
                error: ErrorView { message, hints: Seq::empty() },
            },
        }
    }

    /// The source text that the node stands for: the texts of its leaves and
    /// error nodes, in order.
    pub open spec fn source(self) -> Seq<char>
        decreases self, 0nat,
    {
        match self {
            Tree::Leaf { text, .. } => text,
            Tree::Inner { children, .. } => source_of(children, children.len()),
            Tree::Error { text, .. } => text,
        }
    }

    /// Whether the node stands in `text` from the character with index `i`
    /// on: each leaf and each error node holds the text that is there and
    /// spans the bytes of that text, one behind the other.
    pub open spec fn stands_at(self, text: Seq<char>, i: int) -> bool
        decreases self, 0nat,
    {
        match self {
            Tree::Inner { children, .. } => forall|k: int|
                0 <= k < children.len() ==> (#[trigger] children[k]).stands_at(
                    text,
                    i + source_of(children, k as nat).len(),
                ),
            _ => {
                &&& starts_with_at(text, i, self.text())
                &&& self.start() == offset_at(text, i)
                &&& self.end() == offset_at(text, i + self.text().len())
            },
        }
    }

    /// Whether the node stands in `text` at index `i` and its own span is
    /// the byte range of its source text there.
    pub open spec fn anchored_at(self, text: Seq<char>, i: int) -> bool {
        &&& self.stands_at(text, i)
        &&& self.start() == offset_at(text, i)
        &&& self.end() == offset_at(text, i + self.source().len())
    }

    /// The invariant of the tree: no leaf and no composite has the kind
    /// `Error`, and each composite holds the span and the flag that its
    /// children give.
    pub open spec fn wf(self) -> bool
        decreases self, 0nat,
    {
        match self {
            Tree::Leaf { kind, .. } => kind != SyntaxKind::Error,
            Tree::Inner { kind, children, .. } => {
                &&& kind != SyntaxKind::Error
                &&& self == Tree::inner(kind, children)
                &&& forall|k: int| 0 <= k < children.len() ==> (#[trigger] children[k]).wf()
            },
            Tree::Error { .. } => true,
        }
    }
}

/// Whether one of the trees is erroneous.
pub open spec fn any_erroneous(trees: Seq<Tree>) -> bool {
    exists|i: int| 0 <= i < trees.len() && (#[trigger] trees[i]).erroneous()
}

/// The source text of the first `n` trees, in order.
#[verifier::opaque]
pub open spec fn source_of(trees: Seq<Tree>, n: nat) -> Seq<char>
    decreases trees, n,
{
    if n == 0 || n > trees.len() {
        Seq::empty()
    } else {
        source_of(trees, (n - 1) as nat) + trees[n - 1].source()
    }
}

/// The source text of all the trees, in order.
pub open spec fn sources(trees: Seq<Tree>) -> Seq<char> {
    source_of(trees, trees.len())
}

/// Whether the trees stand in `text` one behind the other, from the character
/// with index `i` on.
pub open spec fn stand_at(trees: Seq<Tree>, text: Seq<char>, i: int) -> bool {
    forall|k: int|
        0 <= k < trees.len() ==> (#[trigger] trees[k]).stands_at(
            text,
            i + source_of(trees, k as nat).len(),
        )
}

/// Whether all the trees are well formed.
pub open spec fn all_wf(trees: Seq<Tree>) -> bool {
    forall|k: int| 0 <= k < trees.len() ==> (#[trigger] trees[k]).wf()
}

/// The source of the first `n` trees depends on those trees alone.
pub proof fn lemma_source_of_agree(a: Seq<Tree>, b: Seq<Tree>, n: nat)
    requires
        n <= a.len(),
        n <= b.len(),
        forall|k: int| 0 <= k < n ==> a[k] == b[k],
    ensures
        source_of(a, n) == source_of(b, n),
    decreases n,
{
    reveal(source_of);
    if n > 0 {
        lemma_source_of_agree(a, b, (n - 1) as nat);
    }
}

/// The source of a sequence is the source of a prefix followed by the source
/// of what comes behind the prefix.
pub proof fn lemma_source_of_split(trees: Seq<Tree>, k: nat, m: nat)
    requires
        k <= m <= trees.len(),
    ensures
        source_of(trees, m) =~= source_of(trees, k) + source_of(
            trees.skip(k as int),
            (m - k) as nat,
        ),
    decreases m - k,
{
    reveal(source_of);
    if k < m {
        lemma_source_of_split(trees, k, (m - 1) as nat);
    }
}

/// What a composite is made of: its source is that of its children, it
/// stands where its children stand, and it is well formed if its kind is not
/// `Error` and its children are well formed.
pub proof fn lemma_inner(kind: SyntaxKind, children: Seq<Tree>, text: Seq<char>, i: int)
    ensures
        Tree::inner(kind, children).source() == sources(children),
        Tree::inner(kind, children).stands_at(text, i) == stand_at(children, text, i),
        Tree::inner(kind, children).wf() == (kind != SyntaxKind::Error && all_wf(children)),
        Tree::inner(kind, children).kind() == kind,
        Tree::inner(kind, children).children() == children,
{
    reveal(source_of);
}

/// The source of no trees is empty, and each further tree adds its source.
pub proof fn lemma_source_of_step(trees: Seq<Tree>, n: nat)
    requires
        n <= trees.len(),
    ensures
        source_of(trees, 0) =~= Seq::<char>::empty(),
        n > 0 ==> source_of(trees, n) == source_of(trees, (n - 1) as nat) + trees[n - 1].source(),
{
    reveal(source_of);
}

/// The values of a sequence of nodes.
pub open spec fn trees_of(nodes: Seq<SyntaxNode>) -> Seq<Tree> {
    Seq::new(nodes.len(), |i: int| nodes[i]@)
}

/// A node in the untyped syntax tree.
#[derive(Eq, PartialEq, Hash, Debug)]
pub struct SyntaxNode(Repr);

#[derive(Eq, PartialEq, Hash, Debug)]
enum Repr {
    Leaf(LeafNode),
    Inner(InnerNode),
    Error(ErrorNode),
}

#[derive(Clone, Eq, PartialEq, Hash, Debug)]
struct LeafNode {
    kind: SyntaxKind,
    text: String,
    start: usize,
    end: usize,
}

#[derive(Eq, PartialEq, Hash, Debug)]
struct InnerNode {
    kind: SyntaxKind,
    start: usize,
    end: usize,
    erroneous: bool,
    children: Vec<SyntaxNode>,
}

#[derive(Clone, Eq, PartialEq, Hash, Debug)]
struct ErrorNode {
    text: String,
    start: usize,
    end: usize,
    error: SyntaxError,
}

impl View for SyntaxNode {
    type V = Tree;

    closed spec fn view(&self) -> Tree
        decreases self, 0nat,
    {
        match self.0 {
            Repr::Leaf(node) => Tree::Leaf {
                kind: node.kind,
                text: node.text@,
                start: node.start as int,
                end: node.end as int,
            },
            Repr::Inner(node) => Tree::Inner {
                kind: node.kind,
                children: views_of(node.children@, node.children@.len()),
                start: node.start as int,
                end: node.end as int,
                erroneous: node.erroneous,
            },
            Repr::Error(node) => Tree::Error {
                text: node.text@,
                start: node.start as int,
                end: node.end as int,
                error: node.error@,
            },
        }
    }
}

/// The values of the first `n` nodes.
spec fn views_of(nodes: Seq<SyntaxNode>, n: nat) -> Seq<Tree>
    decreases nodes, n,
{
    if n == 0 || n > nodes.len() {
        Seq::empty()
    } else {
        views_of(nodes, (n - 1) as nat).push(nodes[n - 1]@)
    }
}

impl SyntaxNode {
    /// Create a new leaf node.
    pub fn leaf(kind: SyntaxKind, text: &str, span: Range<usize>) -> (node: Self)
        requires
            kind != SyntaxKind::Error,
        ensures
            node@ == (Tree::Leaf {
                kind,
                text: text@,
                start: span.start as int,
                end: span.end as int,
            }),
            node@.wf(),
    {
        SyntaxNode(
            Repr::Leaf(LeafNode { kind, text: text.to_owned(), start: span.start, end: span.end }),
        )
    }

    /// Create a new inner node over the given children.
    pub fn inner(kind: SyntaxKind, children: Vec<SyntaxNode>) -> (node: Self)
        requires
            kind != SyntaxKind::Error,
        ensures
            node@ == Tree::inner(kind, trees_of(children@)),
            all_wf(trees_of(children@)) ==> node@.wf(),
    {
        let n = children.len();
        let mut erroneous = false;
        let mut i: usize = 0;
        while i < n
            invariant
                n == children.len(),
                i <= n,
                erroneous == any_erroneous(trees_of(children@).take(i as int)),
            decreases n - i,
        {
            let child_erroneous = children[i].erroneous();
            proof {
                let before = trees_of(children@).take(i as int);
                let after = trees_of(children@).take(i + 1);
                assert(after[i as int] == children@[i as int]@);
                if any_erroneous(before) {
                    let j = choose|j: int|
                        0 <= j < before.len() && (#[trigger] before[j]).erroneous();
                    assert(after[j].erroneous());
                }
                if any_erroneous(after) && !child_erroneous {
                    let j = choose|j: int|
                        0 <= j < after.len() && (#[trigger] after[j]).erroneous();
                    assert(before[j].erroneous());
                }
            }
            erroneous = erroneous || child_erroneous;
            i = i + 1;
        }
        assert(trees_of(children@).take(n as int) =~= trees_of(children@));
        let start = if n == 0 {
            0
        } else {
            children[0].span().start
        };
        let end = if n == 0 {
            0
        } else {
            children[n - 1].span().end
        };
        proof {
            lemma_views_of(children@, children@.len());
            assert(views_of(children@, children@.len()) =~= trees_of(children@));
        }
        SyntaxNode(Repr::Inner(InnerNode { kind, start, end, erroneous, children }))
    }

    /// Create a new error node.
    pub fn error(error: SyntaxError, text: &str, span: Range<usize>) -> (node: Self)
        ensures
            node@ == (Tree::Error {
                text: text@,
                start: span.start as int,
                end: span.end as int,
                error: error@,
            }),
            node@.wf(),
    {
        SyntaxNode(
            Repr::Error(
                ErrorNode { text: text.to_owned(), start: span.start, end: span.end, error },
            ),
        )
    }

    /// The kind of the node.
    pub fn kind(&self) -> (kind: SyntaxKind)
        ensures
            kind == self@.kind(),
    {
        match &self.0 {
            Repr::Leaf(node) => node.kind,
            Repr::Inner(node) => node.kind,
            Repr::Error(_) => SyntaxKind::Error,
        }
    }

    /// The text of the node.
    pub fn text(&self) -> (text: &str)
        ensures
            text@ == self@.text(),
    {
        match &self.0 {
            Repr::Leaf(node) => node.text.as_str(),
            Repr::Inner(_) => {
                proof {
                    reveal_strlit("");
                }
                ""
            },
            Repr::Error(node) => node.text.as_str(),
        }
    }

    /// The span of the node.
    pub fn span(&self) -> (span: Range<usize>)
        ensures
            span.start == self@.start(),
            span.end == self@.end(),
    {
        match &self.0 {
            Repr::Leaf(node) => node.start..node.end,
            Repr::Inner(node) => node.start..node.end,
            Repr::Error(node) => node.start..node.end,
        }
    }

    /// The children of this node.
    pub fn children(&self) -> (children: &[SyntaxNode])
        ensures
            trees_of(children@) == self@.children(),
    {
        match &self.0 {
            Repr::Leaf(_) => {
                let none: &[SyntaxNode] = &[];
                none
            },
            Repr::Inner(node) => {
                proof {
                    lemma_views_of(node.children@, node.children@.len());
                }
                node.children.as_slice()
            },
            Repr::Error(_) => {
                let none: &[SyntaxNode] = &[];
                none
            },
        }
    }

    /// Whether this node or its children contains an error.
    pub fn erroneous(&self) -> (erroneous: bool)
        ensures
            erroneous == self@.erroneous(),
    {
        match &self.0 {
            Repr::Leaf(_) => false,
            Repr::Inner(node) => node.erroneous,
            Repr::Error(_) => true,
        }
    }

    /// Add a hint to the error node; any other node stays as it is.
    pub fn hints(&mut self, hint: &str)
        ensures
            final(self)@ == old(self)@.with_hint(hint@),
            old(self)@.wf() ==> final(self)@.wf(),
    {
        match &mut self.0 {
            Repr::Error(node) => {
                node.error.hint(hint);
            },
            _ => {},
        }
    }

    /// Get the error if this is an error node.
    pub fn as_error(&self) -> (error: Option<&SyntaxError>)
        ensures
            match error {
                Some(e) => self@ is Error && e@ == self@->error,
                None => !(self@ is Error),
            },
    {
        match &self.0 {
            Repr::Error(node) => Some(&node.error),
            _ => None,
        }
    }

    /// Give the node another kind, without touching its text or its span; an
    /// error node stays as it is.
    pub fn convert_kind(&mut self, kind: SyntaxKind)
        ensures
            final(self)@ == old(self)@.with_kind(kind),
            old(self)@.wf() && kind != SyntaxKind::Error ==> final(self)@.wf(),
    {
        match &mut self.0 {
            Repr::Leaf(node) => {
                node.kind = kind;
            },
            Repr::Inner(node) => {
                node.kind = kind;
            },
            Repr::Error(_) => {},
        }
    }

    /// Turn the node into an error node with the given message, which keeps
    /// the span and the source text; an error node stays as it is.
    pub fn convert_to_error(&mut self, message: &str)
        ensures
            final(self)@ == old(self)@.to_error(message@),
            old(self)@.wf() ==> final(self)@.wf(),
    {
        if self.as_error().is_some() {
            return ;
        }
        let text = self.source_text();
        let span = self.span();
        self.0 = Repr::Error(
            ErrorNode {
                text,
                start: span.start,
                end: span.end,
                error: SyntaxError::new(message),
            },
        );
    }

    /// The source text that the node stands for.
    pub fn source_text(&self) -> (text: String)
        ensures
            text@ == self@.source(),
        decreases self,
    {
        match &self.0 {
            Repr::Leaf(node) => node.text.clone(),
            Repr::Inner(node) => {
                let mut text = String::new();
                let mut i: usize = 0;
                proof {
                    lemma_views_of(node.children@, node.children@.len());
                    lemma_source_of_step(self@.children(), 0);
                    lemma_inner(
                        self@.kind(),
                        self@.children(),
                        Seq::<char>::empty(),
                        0,
                    );
                }
                while i < node.children.len()
                    invariant
                        i <= node.children.len(),
                        self.0 == Repr::Inner(*node),
                        text@ == source_of(self@.children(), i as nat),
                        self@.children().len() == node.children@.len(),
                        forall|j: int|
                            0 <= j < node.children@.len() ==> (#[trigger] self@.children()[j])
                                == node.children@[j]@,
                    decreases node.children.len() - i,
                {
                    proof {
                        vstd::std_specs::vec::axiom_vec_index_decreases(node.children, i as int);
                        lemma_source_of_step(self@.children(), (i + 1) as nat);
                    }
                    let part = node.children[i].source_text();
                    text.append(part.as_str());
                    i = i + 1;
                }
                text
            },
            Repr::Error(node) => node.text.clone(),
        }
    }
}

impl Clone for SyntaxNode {
    /// A copy of the node with the same value.
    fn clone(&self) -> (res: Self)
        ensures
            res@ == self@,
        decreases self,
    {
        match &self.0 {
            Repr::Leaf(node) => SyntaxNode(
                Repr::Leaf(
                    LeafNode {
                        kind: node.kind,
                        text: node.text.clone(),
                        start: node.start,
                        end: node.end,
                    },
                ),
            ),
            Repr::Inner(node) => {
                let mut children: Vec<SyntaxNode> = Vec::new();
                let mut i: usize = 0;
                while i < node.children.len()
                    invariant
                        i <= node.children.len(),
                        self.0 == Repr::Inner(*node),
                        children@.len() == i,
                        forall|j: int| 0 <= j < i ==> children@[j]@ == node.children@[j]@,
                    decreases node.children.len() - i,
                {
                    proof {
                        vstd::std_specs::vec::axiom_vec_index_decreases(node.children, i as int);
                        assert(self.0->Inner_0 == *node);
                    }
                    let child = node.children[i].clone();
                    children.push(child);
                    i = i + 1;
                }
                proof {
                    lemma_views_of(children@, children@.len());
                    lemma_views_of(node.children@, children@.len());
                    assert(views_of(children@, children@.len()) =~= views_of(
                        node.children@,
                        children@.len(),
                    ));
                }
                SyntaxNode(
                    Repr::Inner(
                        InnerNode {
                            kind: node.kind,
                            start: node.start,
                            end: node.end,
                            erroneous: node.erroneous,
                            children,
                        },
                    ),
                )
            },
            Repr::Error(node) => SyntaxNode(
                Repr::Error(
                    ErrorNode {
                        text: node.text.clone(),
                        start: node.start,
                        end: node.end,
                        error: SyntaxError {
                            message: node.error.message.clone(),
                            hints: clone_strings(&node.error.hints),
                        },
                    },
                ),
            ),
        }
    }
}

/// A copy of a list of strings.
fn clone_strings(v: &Vec<String>) -> (res: Vec<String>)
    ensures
        res@ == v@,
{
    let mut res: Vec<String> = Vec::new();
    let mut i: usize = 0;
    while i < v.len()
        invariant
            i <= v.len(),
            res@ == v@.take(i as int),
        decreases v.len() - i,
    {
        res.push(v[i].clone());
        i = i + 1;
    }
    res
}

/// What `views_of` holds: the value of each of the first `n` nodes.
proof fn lemma_views_of(nodes: Seq<SyntaxNode>, n: nat)
    requires
        n <= nodes.len(),
    ensures
        views_of(nodes, n).len() == n,
        forall|i: int| 0 <= i < n ==> (#[trigger] views_of(nodes, n)[i]) == nodes[i]@,
    decreases n,
{
    if n > 0 {
        lemma_views_of(nodes, (n - 1) as nat);
        assert(views_of(nodes, n) == views_of(nodes, (n - 1) as nat).push(nodes[n - 1]@));
    }
}

} // verus!
