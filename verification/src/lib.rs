//! Syntactic analysis engine for AL source files: symbol extraction, scoped
//! name resolution, cross-document navigation, refactorings and formatting.
//!
//! The engine reads plain syntax trees ([`syntax`]) and texts as UTF-8 bytes
//! ([`text`]). From a tree it derives the symbols of a document ([`ast`]),
//! indexes them ([`symbols`]) and answers queries on one document
//! ([`navigation`], [`diagnostics`], [`formatting`], [`spacing`]). A
//! document ([`document`]) keeps text, tree, symbols and diagnostics
//! together; the known documents ([`state`]) are what the requests of an
//! editor ([`handlers`]) are answered from, in the plain values of
//! [`protocol`]. The text of a document lives in a rope ([`rope`]), the
//! known documents in a map ([`store`]).

pub mod ast;
pub mod diagnostics;
pub mod document;
pub mod formatting;
pub mod handlers;
pub mod navigation;
pub mod protocol;
pub mod rope;
pub mod spacing;
pub mod state;
pub mod store;
pub mod symbols;
pub mod syntax;
pub mod text;
