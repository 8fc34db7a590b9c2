//! The closed set of tags carried by tokens and tree nodes.

use vstd::prelude::*;

verus! {

/// The tag of a token or of a node in the syntax tree.
#[derive(Clone, Copy, Debug, PartialEq, Eq, Hash, Structural)]
pub enum SyntaxKind {
    /// the root of the syntax tree
    Root,
    /// comment (`// ...` or `/* ... */`)
    Comment,
    /// white spaces
    Whitespace,
    /// end of input
    End,
    /// error
    Error,
    /// name of rules
    Identifier,
    /// string literal
    String,
    /// integer literal
    Integer,
    /// meta description
    Meta,
    /// operation after `if` and `->`
    Operation,
    /// `if`
    If,
    /// `:`
    Colon,
    /// `;`
    SemiColon,
    /// `->`
    Arrow,
    /// `[`
    LeftBracket,
    /// `]`
    RightBracket,
    /// `(`
    LeftParen,
    /// `)`
    RightParen,
    /// `{`
    LeftBrace,
    /// `}`
    RightBrace,
    /// `,`
    Comma,
    /// `|`
    Bar,
    /// `~`
    Tilde,
    /// `.`
    Dot,
    /// `?`
    Question,
    /// `*`
    Star,
    /// `+`
    Plus,
    /// `..`
    Dots,
    /// `?=`
    LookAheadPos,
    /// `?!`
    LookAheadNeg,
    /// `?<=`
    LookBehindPos,
    /// `?<!`
    LookBehindNeg,
    /// a grammar rule
    Rule,
    /// the param of a rule
    Param,
    /// the definition of a rule
    Definition,
    /// a group expression
    Group,
    /// a converse expression
    Converse,
    /// a range expression
    Range,
    /// a repeating expression
    Repeating,
    /// the brace repeating indicator
    BraceIndicator,
    /// a lookahead or lookbehind expression
    Looking,
    /// an action expression
    Action,
    /// rule reference with argument
    Reference,
}

impl SyntaxKind {
    /// Whether the kind is `Error`.
    pub open spec fn spec_is_error(self) -> bool {
        self == SyntaxKind::Error
    }

    /// Whether the kind is `End`.
    pub open spec fn spec_is_end(self) -> bool {
        self == SyntaxKind::End
    }

    /// Whether the kind is whitespace or a comment.
    pub open spec fn spec_is_trivia(self) -> bool {
        self == SyntaxKind::Whitespace || self == SyntaxKind::Comment
    }

    /// Whether the kind is one of the four lookaround markers.
    pub open spec fn spec_is_looking(self) -> bool {
        self == SyntaxKind::LookAheadPos || self == SyntaxKind::LookAheadNeg || self
            == SyntaxKind::LookBehindPos || self == SyntaxKind::LookBehindNeg
    }

    /// Whether the kind starts a repetition indicator.
    pub open spec fn spec_is_prefix(self) -> bool {
        self == SyntaxKind::Question || self == SyntaxKind::Star || self == SyntaxKind::Plus
            || self == SyntaxKind::LeftBrace
    }

    /// Whether the kind is a symbol, which is rendered as an operator: every
    /// kind whose name is written between backticks.
    pub open spec fn spec_is_operator(self) -> bool {
        match self {
            SyntaxKind::Colon
            | SyntaxKind::SemiColon
            | SyntaxKind::Arrow
            | SyntaxKind::LeftBracket
            | SyntaxKind::RightBracket
            | SyntaxKind::LeftParen
            | SyntaxKind::RightParen
            | SyntaxKind::LeftBrace
            | SyntaxKind::RightBrace
            | SyntaxKind::Comma
            | SyntaxKind::Bar
            | SyntaxKind::Tilde
            | SyntaxKind::Dot
            | SyntaxKind::Question
            | SyntaxKind::Star
            | SyntaxKind::Plus
            | SyntaxKind::Dots
            | SyntaxKind::LookAheadPos
            | SyntaxKind::LookAheadNeg
            | SyntaxKind::LookBehindPos
            | SyntaxKind::LookBehindNeg => true,
            _ => false,
        }
    }

    /// The name under which the kind appears in messages.
    pub open spec fn spec_name(self) -> Seq<char> {
        match self {
            SyntaxKind::Root => "root"@,
            SyntaxKind::Comment => "comment"@,
            SyntaxKind::Whitespace => "whitespace"@,
            SyntaxKind::End => "end"@,
            SyntaxKind::Error => "error"@,
            SyntaxKind::Identifier => "identifier"@,
            SyntaxKind::String => "string"@,
            SyntaxKind::Integer => "integer"@,
            SyntaxKind::Meta => "meta"@,
            SyntaxKind::Operation => "operation"@,
            SyntaxKind::If => "if"@,
            SyntaxKind::Colon => "`:`"@,
            SyntaxKind::SemiColon => "`;`"@,
            SyntaxKind::Arrow => "`->`"@,
            SyntaxKind::LeftBracket => "`[`"@,
            SyntaxKind::RightBracket => "`]`"@,
            SyntaxKind::LeftParen => "`(`"@,
            SyntaxKind::RightParen => "`)`"@,
            SyntaxKind::LeftBrace => "`{`"@,
            SyntaxKind::RightBrace => "`}`"@,
            SyntaxKind::Comma => "`,`"@,
            SyntaxKind::Bar => "`|`"@,
            SyntaxKind::Tilde => "`~`"@,
            SyntaxKind::Dot => "`.`"@,
            SyntaxKind::Question => "`?`"@,
            SyntaxKind::Star => "`*`"@,
            SyntaxKind::Plus => "`+`"@,
            SyntaxKind::Dots => "`..`"@,
            SyntaxKind::LookAheadPos => "`?=`"@,
            SyntaxKind::LookAheadNeg => "`?!`"@,
            SyntaxKind::LookBehindPos => "`?<=`"@,
            SyntaxKind::LookBehindNeg => "`?<!`"@,
            SyntaxKind::Rule => "rule"@,
            SyntaxKind::Param => "param"@,
            SyntaxKind::Definition => "definition"@,
            SyntaxKind::Group => "group"@,
            SyntaxKind::Converse => "converse"@,
            SyntaxKind::Range => "range"@,
            SyntaxKind::Repeating => "repeating"@,
            SyntaxKind::BraceIndicator => "brace_indicator"@,
            SyntaxKind::Looking => "looking"@,
            SyntaxKind::Action => "action"@,
            SyntaxKind::Reference => "reference"@,
        }
    }

    /// Whether the kind is `Error`.
    #[verifier::when_used_as_spec(spec_is_error)]
    pub fn is_error(self) -> (b: bool)
        ensures
            b == self.spec_is_error(),
    {
        matches!(self, SyntaxKind::Error)
    }

    /// Whether the kind is `End`.
    #[verifier::when_used_as_spec(spec_is_end)]
    pub fn is_end(self) -> (b: bool)
        ensures
            b == self.spec_is_end(),
    {
        matches!(self, SyntaxKind::End)
    }

    /// Whether the kind is whitespace or a comment.
    #[verifier::when_used_as_spec(spec_is_trivia)]
    pub fn is_trivia(self) -> (b: bool)
        ensures
            b == self.spec_is_trivia(),
    {
        matches!(self, SyntaxKind::Whitespace | SyntaxKind::Comment)
    }

    /// Whether the kind is one of the four lookaround markers.
    #[verifier::when_used_as_spec(spec_is_looking)]
    pub fn is_looking(self) -> (b: bool)
        ensures
            b == self.spec_is_looking(),
    {
        matches!(
            self,
            SyntaxKind::LookAheadPos
                | SyntaxKind::LookAheadNeg
                | SyntaxKind::LookBehindPos
                | SyntaxKind::LookBehindNeg
        )
    }

    /// Whether the kind starts a repetition indicator.
    #[verifier::when_used_as_spec(spec_is_prefix)]
    pub fn is_prefix(self) -> (b: bool)
        ensures
            b == self.spec_is_prefix(),
    {
        matches!(
            self,
            SyntaxKind::Question | SyntaxKind::Star | SyntaxKind::Plus | SyntaxKind::LeftBrace
        )
    }

    /// Whether the kind is a symbol, which is rendered as an operator.
    #[verifier::when_used_as_spec(spec_is_operator)]
    pub fn is_operator(self) -> (b: bool)
        ensures
            b == self.spec_is_operator(),
    {
        matches!(
            self,
            SyntaxKind::Colon
                | SyntaxKind::SemiColon
                | SyntaxKind::Arrow
                | SyntaxKind::LeftBracket
                | SyntaxKind::RightBracket
                | SyntaxKind::LeftParen
                | SyntaxKind::RightParen
                | SyntaxKind::LeftBrace
                | SyntaxKind::RightBrace
                | SyntaxKind::Comma
                | SyntaxKind::Bar
                | SyntaxKind::Tilde
                | SyntaxKind::Dot
                | SyntaxKind::Question
                | SyntaxKind::Star
                | SyntaxKind::Plus
                | SyntaxKind::Dots
                | SyntaxKind::LookAheadPos
                | SyntaxKind::LookAheadNeg
                | SyntaxKind::LookBehindPos
                | SyntaxKind::LookBehindNeg
        )
    }

    /// The name of the kind, as it is written in messages: a plain word for
    /// the named kinds, the symbol between backticks for the symbolic ones.
    pub fn name(self) -> (s: &'static str)
        ensures
            s@ == self.spec_name(),
    {
        match self {
            SyntaxKind::Root => "root",
            SyntaxKind::Comment => "comment",
            SyntaxKind::Whitespace => "whitespace",
            SyntaxKind::End => "end",
            SyntaxKind::Error => "error",
            SyntaxKind::Identifier => "identifier",
            SyntaxKind::String => "string",
            SyntaxKind::Integer => "integer",
            SyntaxKind::Meta => "meta",
            SyntaxKind::Operation => "operation",
            SyntaxKind::If => "if",
            SyntaxKind::Colon => "`:`",
            SyntaxKind::SemiColon => "`;`",
            SyntaxKind::Arrow => "`->`",
            SyntaxKind::LeftBracket => "`[`",
            SyntaxKind::RightBracket => "`]`",
            SyntaxKind::LeftParen => "`(`",
            SyntaxKind::RightParen => "`)`",
            SyntaxKind::LeftBrace => "`{`",
            SyntaxKind::RightBrace => "`}`",
            SyntaxKind::Comma => "`,`",
            SyntaxKind::Bar => "`|`",
            SyntaxKind::Tilde => "`~`",
            SyntaxKind::Dot => "`.`",
            SyntaxKind::Question => "`?`",
            SyntaxKind::Star => "`*`",
            SyntaxKind::Plus => "`+`",
            SyntaxKind::Dots => "`..`",
            SyntaxKind::LookAheadPos => "`?=`",
            SyntaxKind::LookAheadNeg => "`?!`",
            SyntaxKind::LookBehindPos => "`?<=`",
            SyntaxKind::LookBehindNeg => "`?<!`",
            SyntaxKind::Rule => "rule",
            SyntaxKind::Param => "param",
            SyntaxKind::Definition => "definition",
            SyntaxKind::Group => "group",
            SyntaxKind::Converse => "converse",
            SyntaxKind::Range => "range",
            SyntaxKind::Repeating => "repeating",
            SyntaxKind::BraceIndicator => "brace_indicator",
            SyntaxKind::Looking => "looking",
            SyntaxKind::Action => "action",
            SyntaxKind::Reference => "reference",
        }
    }
}

} // verus!
