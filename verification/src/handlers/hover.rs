//! Hover.

use crate::document::DocumentState;
use crate::navigation::{
    first_of, first_symbol, identifier_at_offset, identifier_node, is_own_name, resolution,
    resolve_at_offset,
};
use crate::protocol::Position;
use crate::rope::{byte_offset_of, lsp_position_to_byte_offset};
use crate::state::{position_of_uri, DocumentEntry, WorldState};
use crate::symbols::{flatten_all, format_hover, hover_text, keyed};
use crate::text::lowercase_of;
use vstd::prelude::*;

verus! {

/// The hover text at `offset`: that of the symbol that the identifier there
/// resolves to; on the name of a declaration, and where the identifier
/// resolves to nothing, that of the first symbol of the document with the
/// identifier's name.
pub open spec fn hover_at(doc: DocumentState, offset: usize) -> Option<Seq<u8>> {
    match identifier_node(doc.syntax(), offset) {
        Some(node) => {
            let name = node.name(doc.text());
            let resolved = match resolution(doc.table(), name, offset) {
                Some(symbol) => if is_own_name(node, symbol) {
                    None
                } else {
                    Some(symbol)
                },
                None => None,
            };
            match resolved {
                Some(symbol) => Some(hover_text(symbol)),
                None => match first_of(keyed(flatten_all(doc.table()), lowercase_of(name))) {
                    Some(symbol) => Some(hover_text(symbol)),
                    None => None,
                },
            }
        },
        None => None,
    }
}

/// The answer to a hover request.
pub open spec fn hover_answer(entries: Seq<DocumentEntry>, uri: Seq<char>, position: Position)
    -> Option<Seq<u8>> {
    match position_of_uri(entries, uri, 0) {
        Some(i) => match byte_offset_of(entries[i].document.text(), position) {
            Some(offset) => hover_at(entries[i].document, offset),
            None => None,
        },
        None => None,
    }
}

/// The hover text, as Markdown, for what stands at a position of a document.
pub fn handle_hover(state: &WorldState, uri: &String, position: Position) -> (r: Option<Vec<u8>>)
    ensures
        match r {
            Some(text) => hover_answer(state@, uri@, position) == Some(text@),
            None => hover_answer(state@, uri@, position) is None,
        },
{
    let doc = match state.get(uri.as_str()) {
        Some(d) => d,
        None => {
            return None;
        },
    };
    let byte_offset = match lsp_position_to_byte_offset(doc.rope(), position) {
        Some(o) => o,
        None => {
            return None;
        },
    };
    let source = doc.source();
    let table = doc.symbol_table();
    if let Some(resolved) = resolve_at_offset(doc.tree(), source.as_slice(), table, byte_offset) {
        return Some(format_hover(resolved.symbol));
    }
    let name = match identifier_at_offset(doc.tree(), source.as_slice(), byte_offset) {
        Some(n) => n,
        None => {
            return None;
        },
    };
    let symbols = table.lookup(name.as_slice());
    match first_symbol(&symbols) {
        Some(symbol) => Some(format_hover(symbol)),
        None => None,
    }
}

} // verus!
