//! The state of one document: its text, its syntax tree, and the symbols
//! and diagnostics derived from them.

use crate::ast::{extract_symbols, models, symbols_of, AlSymbol};
use crate::diagnostics::extract_diagnostics;
use crate::protocol::{diagnostic_models, Diagnostic, Range};
use crate::rope::{
    byte_offset_of, lsp_position_to_byte_offset, rope_bytes, rope_from_str, rope_text,
};
use crate::symbols::DocumentSymbolTable;
use crate::syntax::SyntaxNode;
use crate::text::append;
use vstd::prelude::*;
use vstd::string::StringSliceAdditionalSpecFns;

verus! {

/// A document's state: source text (as a rope), parse tree, symbols, and
/// diagnostics. The symbols and the diagnostics are always those of the
/// tree and the text: all four are replaced together.
pub struct DocumentState {
    pub(crate) rope: ropey::Rope,
    pub(crate) tree: SyntaxNode,
    pub(crate) symbol_table: DocumentSymbolTable,
    pub(crate) diagnostics: Vec<Diagnostic>,
}

/// The text of a document after a change: with a range, the text with the
/// bytes of the range replaced, where the range lies inside the text and
/// its ends are in order; without a range, the new text.
pub open spec fn changed_text(text: Seq<u8>, range: Option<Range>, new_text: Seq<u8>) -> Seq<u8> {
    match range {
        Some(r) => match (byte_offset_of(text, r.start), byte_offset_of(text, r.end)) {
            (Some(start), Some(end)) => if start <= end && end <= text.len() {
                text.take(start as int) + new_text + text.skip(end as int)
            } else {
                text
            },
            _ => text,
        },
        None => new_text,
    }
}

impl DocumentState {
    /// The text of the document.
    pub closed spec fn text(&self) -> Seq<u8> {
        rope_text(self.rope)
    }

    /// The syntax tree of the document.
    pub closed spec fn syntax(&self) -> SyntaxNode {
        self.tree
    }

    /// The top-level symbols of the document.
    pub closed spec fn table(&self) -> Seq<AlSymbol> {
        self.symbol_table@
    }

    /// The diagnostics of the document.
    pub closed spec fn findings(&self) -> Seq<Diagnostic> {
        self.diagnostics@
    }

    /// The symbols and the diagnostics are those of the tree and the text.
    pub open spec fn derived(&self) -> bool {
        &&& models(self.table()) == symbols_of(self.syntax(), self.text())
        &&& diagnostic_models(self.findings()) == self.syntax().diagnostics(self.text())
    }

    #[verifier::type_invariant]
    closed spec fn inv(&self) -> bool {
        self.derived()
    }

    fn build(source: &str, tree: SyntaxNode) -> (doc: Self)
        ensures
            doc.text() == source.spec_bytes(),
            doc.syntax() == tree,
            doc.derived(),
    {
        let symbols = extract_symbols(&tree, source.as_bytes());
        let diagnostics = extract_diagnostics(&tree, source.as_bytes());
        let symbol_table = DocumentSymbolTable::new(symbols);
        let rope = rope_from_str(source);
        DocumentState { rope, tree, symbol_table, diagnostics }
    }

    /// Create a new document state from full source text and its parse
    /// tree. Without a tree there is no document.
    pub fn new(source: &str, tree: Option<SyntaxNode>) -> (r: Option<Self>)
        ensures
            match (r, tree) {
                (Some(doc), Some(t)) => doc.text() == source.spec_bytes() && doc.syntax() == t
                    && doc.derived(),
                (None, None) => true,
                _ => false,
            },
    {
        match tree {
            Some(t) => Some(Self::build(source, t)),
            None => None,
        }
    }

    /// Replace the document by the given text and its parse tree. Without a
    /// tree the document stays as it is.
    pub fn reparse_full(&mut self, source: &str, tree: Option<SyntaxNode>)
        ensures
            match tree {
                Some(t) => final(self).text() == source.spec_bytes() && final(self).syntax() == t
                    && final(self).derived(),
                None => *final(self) == *old(self),
            },
    {
        match tree {
            Some(t) => {
                *self = Self::build(source, t);
            },
            None => {},
        }
    }

    /// The text of the document after a change.
    pub fn text_after_change(&self, range: Option<Range>, new_text: &[u8]) -> (r: Vec<u8>)
        ensures
            r@ == changed_text(self.text(), range, new_text@),
    {
        match range {
            Some(r) => {
                let source = rope_bytes(&self.rope);
                let start = lsp_position_to_byte_offset(&self.rope, r.start);
                let end = lsp_position_to_byte_offset(&self.rope, r.end);
                match (start, end) {
                    (Some(s), Some(e)) => {
                        if s <= e && e <= source.len() {
                            let mut out: Vec<u8> = Vec::new();
                            append(&mut out, vstd::slice::slice_subrange(source.as_slice(), 0, s));
                            append(&mut out, new_text);
                            append(
                                &mut out,
                                vstd::slice::slice_subrange(source.as_slice(), e, source.len()),
                            );
                            assert(out@ =~= source@.take(s as int) + new_text@ + source@.skip(
                                e as int,
                            ));
                            out
                        } else {
                            source
                        }
                    },
                    _ => source,
                }
            },
            None => crate::text::copy_of(new_text),
        }
    }

    /// Get all top-level symbols.
    pub fn symbols(&self) -> (r: &Vec<AlSymbol>)
        ensures
            r@ == self.table(),
            self.derived(),
    {
        proof {
            use_type_invariant(self);
        }
        self.symbol_table.symbols()
    }

    /// Get current source text.
    pub fn source(&self) -> (r: Vec<u8>)
        ensures
            r@ == self.text(),
    {
        rope_bytes(&self.rope)
    }

    /// The rope that holds the text.
    pub fn rope(&self) -> (r: &ropey::Rope)
        ensures
            rope_text(*r) == self.text(),
    {
        &self.rope
    }

    /// The parse tree.
    pub fn tree(&self) -> (r: &SyntaxNode)
        ensures
            *r == self.syntax(),
    {
        &self.tree
    }

    /// The symbol table.
    pub fn symbol_table(&self) -> (r: &DocumentSymbolTable)
        ensures
            r@ == self.table(),
            self.derived(),
    {
        proof {
            use_type_invariant(self);
        }
        &self.symbol_table
    }

    /// The diagnostics derived from the error nodes of the tree.
    pub fn diagnostics(&self) -> (r: &Vec<Diagnostic>)
        ensures
            r@ == self.findings(),
            self.derived(),
    {
        proof {
            use_type_invariant(self);
        }
        &self.diagnostics
    }
}

/// In every document whose tree is well formed, no two symbols that are
/// nested in the same symbol overlap.
pub proof fn law_document_symbols_apart(doc: DocumentState)
    requires
        doc.derived(),
        doc.syntax().well_formed(),
    ensures
        crate::ast::all_apart(models(doc.table())),
{
    crate::ast::law_symbols_apart(doc.syntax(), doc.text());
}

/// In every document whose tree is well formed and whose declarations span
/// more than their children and grandchildren, the byte range of every
/// symbol is strictly contained in the range of the symbol it is nested in.
pub proof fn law_document_symbols_nested(doc: DocumentState)
    requires
        doc.derived(),
        doc.syntax().well_formed(),
        crate::ast::declarations_proper(doc.syntax()),
    ensures
        crate::ast::all_nested(models(doc.table())),
{
    crate::ast::law_symbols_nested(doc.syntax(), doc.text());
}

} // verus!
