//! A front end for a small grammar-description language: rules with
//! alternation, sequences, repetition, lookaround, converse and free-form
//! actions.
//!
//! The [`lexer`] turns a text into tokens, the [`parser`] builds an
//! error-tolerant syntax tree of [`node`]s whose leaves hold every character
//! of the text, which [`fidelity`] proves, [`book`] cuts documents into plain
//! text and grammar snippets, and [`code`] collects where each rule is
//! defined and renders the snippets as markup in which each reference to a
//! rule links to its definition. Nothing here fails on a malformed text: what
//! cannot be read becomes an error node, which is rendered with its message.
//!
//! Each type has a mathematical value, its view, and each function says in
//! its contract what it returns in terms of those values. The module
//! [`scan`] holds the model of a text as characters and byte offsets, and
//! what is taken on trust about the string scanner underneath.

pub mod book;
pub mod code;
pub mod fidelity;
pub mod kind;
pub mod lexer;
pub mod mode;
pub mod node;
pub mod parser;
pub mod scan;

pub use crate::book::{parse_content, run, Document, Item, Page};
pub use crate::code::{find_rules, parse_code, rule_hash, wrap, Rules};
pub use crate::kind::SyntaxKind;
pub use crate::mode::parse_mode;
pub use crate::node::{SyntaxError, SyntaxNode};
pub use crate::parser::parse;
