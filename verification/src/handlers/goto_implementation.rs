//! Go to implementation.

use crate::document::DocumentState;
use crate::handlers::{gather, gathered_all, one_part, some_locations, Part, PartKind, PartModel};
use crate::protocol::{lemma_location_models, location_models, Location, LocationModel, Position};
use crate::rope::{byte_offset_of, lsp_position_to_byte_offset};
use crate::state::{position_of_uri, DocumentEntry, WorldState};
use crate::symbols::{procedure_at, Owner};
use crate::text::copy_of;
use vstd::prelude::*;

verus! {

/// The procedures, in all documents, that implement the interface method
/// in which `offset` lies.
pub open spec fn implementation_locations(
    entries: Seq<DocumentEntry>,
    doc: DocumentState,
    offset: usize,
) -> Seq<LocationModel> {
    match procedure_at(doc.table(), offset, Owner::Interface, 0) {
        Some(m) => gathered_all(
            entries,
            seq![
                PartModel {
                    kind: PartKind::Implementations,
                    object: doc.table()[m.object as int].name@,
                    method: doc.table()[m.object as int].children@[m.child as int].name@,
                },
            ],
        ),
        None => Seq::empty(),
    }
}

/// The answer to go-to-implementation: nothing for an unknown document,
/// for a position outside the document or outside every interface method,
/// and where nothing implements the method.
pub open spec fn implementation_answer(
    entries: Seq<DocumentEntry>,
    uri: Seq<char>,
    position: Position,
) -> Option<Seq<LocationModel>> {
    match position_of_uri(entries, uri, 0) {
        Some(i) => match byte_offset_of(entries[i].document.text(), position) {
            Some(offset) => {
                let found = implementation_locations(entries, entries[i].document, offset);
                if found.len() > 0 {
                    Some(found)
                } else {
                    None
                }
            },
            None => None,
        },
        None => None,
    }
}

/// Go to the procedures that implement the interface method at a position.
pub fn handle_goto_implementation(state: &WorldState, uri: &String, position: Position) -> (r:
    Option<Vec<Location>>)
    ensures
        match r {
            Some(found) => implementation_answer(state@, uri@, position) == Some(
                location_models(found@),
            ),
            None => implementation_answer(state@, uri@, position) is None,
        },
{
    let doc = match state.get(uri.as_str()) {
        Some(d) => d,
        None => {
            return None;
        },
    };
    let byte_offset = match lsp_position_to_byte_offset(doc.rope(), position) {
        Some(o) => o,
        None => {
            return None;
        },
    };
    match doc.symbol_table().interface_method_at(byte_offset) {
        Some(names) => {
            let parts = one_part(
                Part::Implementations { interface: copy_of(names.0), method: copy_of(names.1) },
            );
            let locations = gather(state, &parts);
            proof {
                lemma_location_models(locations@);
            }
            some_locations(locations)
        },
        None => None,
    }
}

/// From a method of an interface, go-to-implementation reaches every
/// procedure of that name in every object whose header names the interface.
///
/// Let `offset` lie in a method of an interface in document `e`. For each
/// document `d`, each object `i` of it whose header names the interface,
/// and each procedure `j` of the object with the method's name, the
/// declaration of the procedure is among the locations that
/// go-to-implementation gives.
pub proof fn law_implementation_reaches_procedure(
    entries: Seq<DocumentEntry>,
    e: int,
    offset: usize,
    d: int,
    i: int,
    j: int,
)
    requires
        0 <= e < entries.len(),
        0 <= d < entries.len(),
        procedure_at(entries[e].document.table(), offset, Owner::Interface, 0) is Some,
        0 <= i < entries[d].document.table().len(),
        0 <= j < entries[d].document.table()[i].children@.len(),
        entries[d].document.table()[i].children@[j].is_procedure(),
        crate::symbols::lists_key(
            entries[d].document.table()[i].implements@,
            crate::text::lowercase_of(method_owner(entries[e].document, offset).name@),
        ),
        crate::text::same_name(
            entries[d].document.table()[i].children@[j].name@,
            method_at(entries[e].document, offset).name@,
        ),
    ensures
        implementation_locations(entries, entries[e].document, offset).contains(
            LocationModel {
                uri: entries[d].uri@,
                range: crate::handlers::symbol_range(
                    entries[d].document.table()[i].children@[j],
                    false,
                ),
            },
        ),
{
    let interface = method_owner(entries[e].document, offset);
    let method = method_at(entries[e].document, offset);
    let part = PartModel {
        kind: PartKind::Implementations,
        object: interface.name@,
        method: method.name@,
    };
    let table = entries[d].document.table();
    let procedure = table[i].children@[j];
    crate::symbols::lemma_implementations_contain(
        table,
        crate::text::lowercase_of(interface.name@),
        crate::text::lowercase_of(method.name@),
        table.len() as int,
        i,
        j,
    );
    crate::handlers::lemma_symbol_ranges_contain(
        crate::symbols::implementations(
            table,
            crate::text::lowercase_of(interface.name@),
            crate::text::lowercase_of(method.name@),
            table.len() as int,
        ),
        procedure,
        false,
    );
    let range = crate::handlers::symbol_range(procedure, false);
    assert(seq![part][0] == part);
    crate::handlers::lemma_gathered_contains(entries, seq![part], entries.len() as int, d, 0, range);
}

/// The interface in whose method `offset` lies.
pub open spec fn method_owner(doc: DocumentState, offset: usize) -> crate::ast::AlSymbol {
    doc.table()[procedure_at(doc.table(), offset, Owner::Interface, 0).unwrap().object as int]
}

/// The method of an interface in which `offset` lies.
pub open spec fn method_at(doc: DocumentState, offset: usize) -> crate::ast::AlSymbol {
    method_owner(doc, offset).children@[procedure_at(
        doc.table(),
        offset,
        Owner::Interface,
        0,
    ).unwrap().child as int]
}

} // verus!
