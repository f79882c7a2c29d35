//! Go to type definition.

use crate::document::DocumentState;
use crate::handlers::{range_of_symbol, symbol_range};
use crate::navigation::{
    extract_type_object_name, identifier_context_at_offset, identifier_node, resolution,
    type_object_name,
};
use crate::protocol::{Location, LocationModel, Position};
use crate::rope::{byte_offset_of, lsp_position_to_byte_offset};
use crate::state::{position_of_uri, str_eq, DocumentEntry, WorldState};
use crate::symbols::first_object;
use crate::text::lowercase_of;
use vstd::prelude::*;

verus! {

/// The object that the type of what stands at `offset` names.
pub open spec fn type_name_at(doc: DocumentState, offset: usize) -> Option<Seq<u8>> {
    match identifier_node(doc.syntax(), offset) {
        Some(node) => match resolution(doc.table(), node.name(doc.text()), offset) {
            Some(symbol) => match symbol.type_info {
                Some(t) => type_object_name(t@),
                None => None,
            },
            None => None,
        },
        None => None,
    }
}

/// Where a document declares the object with the key `key`.
pub open spec fn object_location(uri: Seq<char>, doc: DocumentState, key: Seq<u8>) -> Option<
    LocationModel,
> {
    match first_object(doc.table(), key, 0) {
        Some(i) => Some(LocationModel { uri, range: symbol_range(doc.table()[i], false) }),
        None => None,
    }
}

/// Where the first document at or after `from`, other than `uri`, declares
/// the object with the key `key`.
pub open spec fn object_elsewhere(
    entries: Seq<DocumentEntry>,
    uri: Seq<char>,
    key: Seq<u8>,
    from: int,
) -> Option<LocationModel>
    decreases entries.len() - from,
{
    if from < 0 || from >= entries.len() {
        None
    } else if entries[from].uri@ != uri && object_location(
        entries[from].uri@,
        entries[from].document,
        key,
    ) is Some {
        object_location(entries[from].uri@, entries[from].document, key)
    } else {
        object_elsewhere(entries, uri, key, from + 1)
    }
}

/// The answer to go-to-type-definition: the declaration of the object that
/// the type of what stands at the position names, looked for in the
/// document itself, then in the other documents.
pub open spec fn type_definition_answer(
    entries: Seq<DocumentEntry>,
    uri: Seq<char>,
    position: Position,
) -> Option<LocationModel> {
    match position_of_uri(entries, uri, 0) {
        Some(i) => match byte_offset_of(entries[i].document.text(), position) {
            Some(offset) => match type_name_at(entries[i].document, offset) {
                Some(name) => match object_location(uri, entries[i].document, lowercase_of(name)) {
                    Some(l) => Some(l),
                    None => object_elsewhere(entries, uri, lowercase_of(name), 0),
                },
                None => None,
            },
            None => None,
        },
        None => None,
    }
}

fn locate_object(uri: &String, doc: &DocumentState, name: &[u8]) -> (r: Option<Location>)
    ensures
        match r {
            Some(l) => object_location(uri@, *doc, lowercase_of(name@)) == Some(l@),
            None => object_location(uri@, *doc, lowercase_of(name@)) is None,
        },
{
    match doc.symbol_table().find_object_by_name(name) {
        Some(object) => Some(Location { uri: uri.clone(), range: range_of_symbol(object, false) }),
        None => None,
    }
}

/// Go to the declaration of the type of what stands at a position.
pub fn handle_goto_type_definition(state: &WorldState, uri: &String, position: Position) -> (r:
    Option<Location>)
    ensures
        match r {
            Some(found) => type_definition_answer(state@, uri@, position) == Some(found@),
            None => type_definition_answer(state@, uri@, position) is None,
        },
{
    let doc = match state.get(uri.as_str()) {
        Some(d) => d,
        None => {
            return None;
        },
    };
    let byte_offset = match lsp_position_to_byte_offset(doc.rope(), position) {
        Some(o) => o,
        None => {
            return None;
        },
    };
    let source = doc.source();
    let ctx = match identifier_context_at_offset(
        doc.tree(),
        source.as_slice(),
        doc.symbol_table(),
        byte_offset,
    ) {
        Some(c) => c,
        None => {
            return None;
        },
    };
    let symbol = match ctx.symbol {
        Some(s) => s,
        None => {
            return None;
        },
    };
    let type_info = match &symbol.type_info {
        Some(t) => t,
        None => {
            return None;
        },
    };
    let object_name = match extract_type_object_name(type_info.as_slice()) {
        Some(n) => n,
        None => {
            return None;
        },
    };
    if let Some(location) = locate_object(uri, doc, object_name) {
        return Some(location);
    }
    let count = state.document_count();
    let ghost key = lowercase_of(object_name@);
    let ghost answer = type_definition_answer(state@, uri@, position);
    assert(answer == object_elsewhere(state@, uri@, key, 0));
    let mut i: usize = 0;
    while i < count
        invariant
            i <= count,
            count == state@.len(),
            key == lowercase_of(object_name@),
            answer == type_definition_answer(state@, uri@, position),
            answer == object_elsewhere(state@, uri@, key, 0),
            object_elsewhere(state@, uri@, key, 0) == object_elsewhere(
                state@,
                uri@,
                key,
                i as int,
            ),
        decreases count - i,
    {
        if let Some((other, document)) = state.entry(i) {
            if !str_eq(other.as_str(), uri.as_str()) {
                if let Some(location) = locate_object(other, document, object_name) {
                    return Some(location);
                }
            }
        }
        i += 1;
    }
    None
}

} // verus!
