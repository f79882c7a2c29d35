//! Go to definition.

use crate::document::DocumentState;
use crate::handlers::references::implemented_methods;
use crate::handlers::{
    cursor_on_procedure, gather, method_parts, on_procedure, range_of_symbol, symbol_range,
    PartKind,
};
use crate::navigation::{identifier_node, is_own_name, resolution, resolve_at_offset};
use crate::protocol::{
    lemma_location_models, lemma_location_models_push, location_models, Location, LocationModel,
    Position,
};
use crate::rope::{byte_offset_of, lsp_position_to_byte_offset};
use crate::state::{position_of_uri, DocumentEntry, WorldState};
use vstd::prelude::*;

verus! {

/// Where the identifier at `offset` is declared: the declaration of the
/// first symbol that it resolves to, unless the identifier is the very name
/// of that declaration.
pub open spec fn declaration_location(uri: Seq<char>, doc: DocumentState, offset: usize) -> Seq<
    LocationModel,
> {
    match identifier_node(doc.syntax(), offset) {
        Some(node) => match resolution(doc.table(), node.name(doc.text()), offset) {
            Some(symbol) => if is_own_name(node, symbol) {
                Seq::empty()
            } else {
                seq![LocationModel { uri, range: symbol_range(symbol, false) }]
            },
            None => Seq::empty(),
        },
        None => Seq::empty(),
    }
}

/// Where go-to-definition leads from `offset`: from a procedure that
/// implements interface methods to the definitions of those methods in all
/// documents, where there are any; else to the declaration of what the
/// identifier resolves to.
pub open spec fn definition_locations(
    entries: Seq<DocumentEntry>,
    uri: Seq<char>,
    doc: DocumentState,
    offset: usize,
) -> Seq<LocationModel> {
    let methods = if on_procedure(doc, offset) {
        implemented_methods(entries, doc, offset, PartKind::MethodDefinition)
    } else {
        Seq::empty()
    };
    if methods.len() > 0 {
        methods
    } else {
        declaration_location(uri, doc, offset)
    }
}

/// The answer to go-to-definition: nothing for an unknown document, for a
/// position outside the document, and where nothing is found.
pub open spec fn definition_answer(entries: Seq<DocumentEntry>, uri: Seq<char>, position: Position)
    -> Option<Seq<LocationModel>> {
    match position_of_uri(entries, uri, 0) {
        Some(i) => match byte_offset_of(entries[i].document.text(), position) {
            Some(offset) => {
                let found = definition_locations(entries, uri, entries[i].document, offset);
                if found.len() > 0 {
                    Some(found)
                } else {
                    None
                }
            },
            None => None,
        },
        None => None,
    }
}

/// Go to the definition of what stands at a position of a document.
pub fn handle_goto_definition(state: &WorldState, uri: &String, position: Position) -> (r: Option<
    Vec<Location>,
>)
    ensures
        match r {
            Some(found) => definition_answer(state@, uri@, position) == Some(
                location_models(found@),
            ),
            None => definition_answer(state@, uri@, position) is None,
        },
{
    let doc = match state.get(uri.as_str()) {
        Some(d) => d,
        None => {
            return None;
        },
    };
    let byte_offset = match lsp_position_to_byte_offset(doc.rope(), position) {
        Some(o) => o,
        None => {
            return None;
        },
    };
    let source = doc.source();
    let table = doc.symbol_table();
    if cursor_on_procedure(doc, source.as_slice(), byte_offset) {
        match table.implementation_procedure_at(byte_offset) {
            Some(found) => {
                let parts = method_parts(found.0, found.1, false);
                let locations = gather(state, &parts);
                proof {
                    lemma_location_models(locations@);
                }
                if locations.len() > 0 {
                    return Some(locations);
                }
            },
            None => {},
        }
    }
    match resolve_at_offset(doc.tree(), source.as_slice(), table, byte_offset) {
        Some(resolved) => {
            let location = Location {
                uri: uri.clone(),
                range: range_of_symbol(resolved.symbol, false),
            };
            let mut locations: Vec<Location> = Vec::new();
            proof {
                lemma_location_models_push(locations@, location);
            }
            locations.push(location);
            assert(location_models(locations@) =~= seq![location@]);
            Some(locations)
        },
        None => None,
    }
}

/// From a procedure that implements interfaces, go-to-definition reaches
/// the method of that name in each of the interfaces, in whichever
/// document the interface is declared.
///
/// Let the identifier at `offset` of document `d` resolve to a procedure,
/// and let `offset` lie in a procedure of an object whose header names
/// interfaces. For each interface `k` of the header and each document `e`
/// that declares a method of the procedure's name in that interface, the
/// declaration of that method is among the locations that
/// go-to-definition gives.
pub proof fn law_definition_reaches_interface_method(
    entries: Seq<DocumentEntry>,
    d: int,
    offset: usize,
    k: int,
    e: int,
)
    requires
        0 <= d < entries.len(),
        0 <= e < entries.len(),
        on_procedure(entries[d].document, offset),
        crate::symbols::procedure_at(
            entries[d].document.table(),
            offset,
            crate::symbols::Owner::Implementer,
            0,
        ) is Some,
        0 <= k < implementing_object(entries[d].document, offset).implements@.len(),
        crate::symbols::procedure_in(
            entries[e].document.table(),
            crate::text::lowercase_of(
                implementing_object(entries[d].document, offset).implements@[k]@,
            ),
            crate::text::lowercase_of(implementing_procedure(entries[d].document, offset).name@),
            true,
            0,
        ) is Some,
    ensures
        definition_locations(entries, entries[d].uri@, entries[d].document, offset).contains(
            LocationModel {
                uri: entries[e].uri@,
                range: symbol_range(
                    interface_method(
                        entries[e].document,
                        implementing_object(entries[d].document, offset).implements@[k]@,
                        implementing_procedure(entries[d].document, offset).name@,
                    ),
                    false,
                ),
            },
        ),
{
    let doc = entries[d].document;
    let object = implementing_object(doc, offset);
    let procedure = implementing_procedure(doc, offset);
    let parts = crate::handlers::parts_for(
        object.implements@,
        procedure.name@,
        PartKind::MethodDefinition,
        object.implements@.len() as int,
    );
    crate::handlers::lemma_parts_for(
        object.implements@,
        procedure.name@,
        PartKind::MethodDefinition,
        object.implements@.len() as int,
    );
    let method = interface_method(entries[e].document, object.implements@[k]@, procedure.name@);
    let range = symbol_range(method, false);
    crate::handlers::lemma_symbol_ranges_contain(seq![method], method, false);
    assert(seq![method][0] == method);
    assert(crate::handlers::part_ranges(entries[e].document, parts[k]).contains(range));
    crate::handlers::lemma_gathered_contains(
        entries,
        parts,
        entries.len() as int,
        e,
        k,
        range,
    );
}

/// The object in whose procedure `offset` lies, where its header names interfaces.
pub open spec fn implementing_object(doc: DocumentState, offset: usize) -> crate::ast::AlSymbol {
    doc.table()[crate::symbols::procedure_at(
        doc.table(),
        offset,
        crate::symbols::Owner::Implementer,
        0,
    ).unwrap().object as int]
}

/// The procedure in which `offset` lies, inside an object whose header
/// names interfaces.
pub open spec fn implementing_procedure(doc: DocumentState, offset: usize) -> crate::ast::AlSymbol {
    implementing_object(doc, offset).children@[crate::symbols::procedure_at(
        doc.table(),
        offset,
        crate::symbols::Owner::Implementer,
        0,
    ).unwrap().child as int]
}

/// The method `method` of the interface `interface` in a document that
/// declares it.
pub open spec fn interface_method(doc: DocumentState, interface: Seq<u8>, method: Seq<u8>)
    -> crate::ast::AlSymbol {
    let m = crate::symbols::procedure_in(
        doc.table(),
        crate::text::lowercase_of(interface),
        crate::text::lowercase_of(method),
        true,
        0,
    ).unwrap();
    doc.table()[m.object as int].children@[m.child as int]
}

} // verus!
