//! Document highlight.

use crate::handlers::{ranges_from_spans, ranges_of};
use crate::navigation::{all_references, find_all_references};
use crate::protocol::{Position, Range};
use crate::rope::{byte_offset_of, lsp_position_to_byte_offset};
use crate::state::{position_of_uri, DocumentEntry, WorldState};
use vstd::prelude::*;

verus! {

/// The answer to a highlight request: the references inside the document
/// to what stands at the position, its declaration included; nothing where
/// there are none.
pub open spec fn highlight_answer(entries: Seq<DocumentEntry>, uri: Seq<char>, position: Position)
    -> Option<Seq<Range>> {
    match position_of_uri(entries, uri, 0) {
        Some(i) => {
            let doc = entries[i].document;
            match byte_offset_of(doc.text(), position) {
                Some(offset) => {
                    let found = all_references(
                        doc.syntax(),
                        doc.text(),
                        doc.table(),
                        offset,
                        true,
                    );
                    if found.len() > 0 {
                        Some(ranges_of(found))
                    } else {
                        None
                    }
                },
                None => None,
            }
        },
        None => None,
    }
}

/// The ranges to highlight for what stands at a position of a document.
/// All of them are read accesses as far as the engine tells.
pub fn handle_document_highlight(state: &WorldState, uri: &String, position: Position) -> (r:
    Option<Vec<Range>>)
    ensures
        match r {
            Some(ranges) => highlight_answer(state@, uri@, position) == Some(ranges@),
            None => highlight_answer(state@, uri@, position) is None,
        },
{
    let doc = match state.get(uri.as_str()) {
        Some(d) => d,
        None => {
            return None;
        },
    };
    let byte_offset = match lsp_position_to_byte_offset(doc.rope(), position) {
        Some(o) => o,
        None => {
            return None;
        },
    };
    let source = doc.source();
    let refs = find_all_references(
        doc.tree(),
        source.as_slice(),
        doc.symbol_table(),
        byte_offset,
        true,
    );
    if refs.len() == 0 {
        return None;
    }
    Some(ranges_from_spans(&refs))
}

} // verus!
