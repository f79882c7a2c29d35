//! Find references.

use crate::document::DocumentState;
use crate::handlers::{
    cursor_on_procedure, gather, gather_into, gathered_all, located, method_parts, on_procedure,
    one_part, parts_for, push_located, ranges_from_spans, ranges_of, some_locations, two_parts,
    Part, PartKind, PartModel,
};
use crate::navigation::{
    all_references, call_target_at, codeunit_method_call_at_offset, find_all_references,
    interface_method_call_at_offset,
};
use crate::protocol::{location_models, lemma_location_models, Location, LocationModel, Position};
use crate::rope::{byte_offset_of, lsp_position_to_byte_offset};
use crate::state::{position_of_uri, DocumentEntry, WorldState};
use crate::symbols::{procedure_at, Owner};
use crate::text::copy_of;
use vstd::prelude::*;

verus! {

/// The calls through interface-typed variables of the method of an
/// interface in which `offset` lies, in all documents.
pub open spec fn interface_call_sites(
    entries: Seq<DocumentEntry>,
    doc: DocumentState,
    offset: usize,
) -> Seq<LocationModel> {
    match procedure_at(doc.table(), offset, Owner::Interface, 0) {
        Some(m) => gathered_all(
            entries,
            seq![
                PartModel {
                    kind: PartKind::InterfaceCalls,
                    object: doc.table()[m.object as int].name@,
                    method: doc.table()[m.object as int].children@[m.child as int].name@,
                },
            ],
        ),
        None => Seq::empty(),
    }
}

/// The definitions, in all documents, of the interface methods that the
/// procedure in which `offset` lies implements.
pub open spec fn implemented_methods(
    entries: Seq<DocumentEntry>,
    doc: DocumentState,
    offset: usize,
    kind: PartKind,
) -> Seq<LocationModel> {
    match procedure_at(doc.table(), offset, Owner::Implementer, 0) {
        Some(m) => gathered_all(
            entries,
            parts_for(
                doc.table()[m.object as int].implements@,
                doc.table()[m.object as int].children@[m.child as int].name@,
                kind,
                doc.table()[m.object as int].implements@.len() as int,
            ),
        ),
        None => Seq::empty(),
    }
}

/// The calls through codeunit-typed variables of the procedure in which
/// `offset` lies, in all documents.
pub open spec fn codeunit_call_sites(
    entries: Seq<DocumentEntry>,
    doc: DocumentState,
    offset: usize,
) -> Seq<LocationModel> {
    match procedure_at(doc.table(), offset, Owner::Concrete, 0) {
        Some(m) => gathered_all(
            entries,
            seq![
                PartModel {
                    kind: PartKind::CodeunitCalls,
                    object: doc.table()[m.object as int].name@,
                    method: doc.table()[m.object as int].children@[m.child as int].name@,
                },
            ],
        ),
        None => Seq::empty(),
    }
}

/// The references to what stands at `offset` of the document `doc`, known
/// under `uri`, where that is no method name of a call through a variable:
/// the references inside the document; and where the identifier resolves to
/// a procedure, also the calls through interface-typed variables if the
/// procedure is an interface method, the definitions of the interface
/// methods that it implements, and the calls of it through codeunit-typed
/// variables.
pub open spec fn plain_references(
    entries: Seq<DocumentEntry>,
    uri: Seq<char>,
    doc: DocumentState,
    offset: usize,
    include_declaration: bool,
) -> Seq<LocationModel> {
    let own = located(
        uri,
        ranges_of(
            all_references(doc.syntax(), doc.text(), doc.table(), offset, include_declaration),
        ),
    );
    if on_procedure(doc, offset) {
        own + interface_call_sites(entries, doc, offset) + implemented_methods(
            entries,
            doc,
            offset,
            PartKind::MethodDefinition,
        ) + codeunit_call_sites(entries, doc, offset)
    } else {
        own
    }
}

/// The references to what stands at `offset` of the document `doc`, known
/// under `uri`.
///
/// On the method name of a call through an interface-typed variable: in
/// every document the definition of the interface method, where
/// declarations count, and the calls of the method through variables of
/// that interface. On the method name of a call through a codeunit-typed
/// variable: in every document the name of the procedure in that codeunit,
/// where declarations count, and the calls of it through variables of that
/// codeunit. Else the references inside the document; and where the
/// identifier resolves to a procedure, also the calls through
/// interface-typed variables if the procedure is an interface method, the
/// definitions of the interface methods that it implements, and the calls
/// of it through codeunit-typed variables.
pub open spec fn reference_locations(
    entries: Seq<DocumentEntry>,
    uri: Seq<char>,
    doc: DocumentState,
    offset: usize,
    include_declaration: bool,
) -> Seq<LocationModel> {
    match call_target_at(doc.syntax(), doc.text(), doc.table(), offset, "Interface") {
        Some(t) => gathered_all(
            entries,
            if include_declaration {
                seq![
                    PartModel {
                        kind: PartKind::MethodDefinition,
                        object: t.object,
                        method: t.method,
                    },
                    PartModel { kind: PartKind::InterfaceCalls, object: t.object, method: t.method },
                ]
            } else {
                seq![
                    PartModel { kind: PartKind::InterfaceCalls, object: t.object, method: t.method },
                ]
            },
        ),
        None => match call_target_at(doc.syntax(), doc.text(), doc.table(), offset, "Codeunit") {
            Some(t) => gathered_all(
                entries,
                if include_declaration {
                    seq![
                        PartModel {
                            kind: PartKind::ProcedureName,
                            object: t.object,
                            method: t.method,
                        },
                        PartModel {
                            kind: PartKind::CodeunitCalls,
                            object: t.object,
                            method: t.method,
                        },
                    ]
                } else {
                    seq![
                        PartModel {
                            kind: PartKind::CodeunitCalls,
                            object: t.object,
                            method: t.method,
                        },
                    ]
                },
            ),
            None => plain_references(entries, uri, doc, offset, include_declaration),
        },
    }
}

/// The answer to a request for references: nothing for an unknown
/// document, for a position outside the document, and where there are no
/// references.
pub open spec fn references_answer(
    entries: Seq<DocumentEntry>,
    uri: Seq<char>,
    position: Position,
    include_declaration: bool,
) -> Option<Seq<LocationModel>> {
    match position_of_uri(entries, uri, 0) {
        Some(i) => match byte_offset_of(entries[i].document.text(), position) {
            Some(offset) => {
                let found = reference_locations(
                    entries,
                    uri,
                    entries[i].document,
                    offset,
                    include_declaration,
                );
                if found.len() > 0 {
                    Some(found)
                } else {
                    None
                }
            },
            None => None,
        },
        None => None,
    }
}

fn plain_references_at(
    state: &WorldState,
    uri: &String,
    doc: &DocumentState,
    byte_offset: usize,
    include_declaration: bool,
) -> (r: Vec<Location>)
    ensures
        location_models(r@) == plain_references(
            state@,
            uri@,
            *doc,
            byte_offset,
            include_declaration,
        ),
{
    let source = doc.source();
    let tree = doc.tree();
    let table = doc.symbol_table();
    let refs = find_all_references(tree, source.as_slice(), table, byte_offset, include_declaration);
    let ranges = ranges_from_spans(&refs);
    let mut locations: Vec<Location> = Vec::new();
    assert(location_models(locations@) =~= Seq::empty());
    push_located(&mut locations, uri, &ranges);
    let ghost own = located(uri@, ranges@);
    assert(location_models(locations@) =~= own);
    if !cursor_on_procedure(doc, source.as_slice(), byte_offset) {
        return locations;
    }
    match table.interface_method_at(byte_offset) {
        Some(names) => {
            let parts = one_part(
                Part::InterfaceCalls { interface: copy_of(names.0), method: copy_of(names.1) },
            );
            gather_into(&mut locations, state, &parts);
        },
        None => {},
    }
    let ghost first = interface_call_sites(state@, *doc, byte_offset);
    assert(location_models(locations@) =~= own + first);
    match table.implementation_procedure_at(byte_offset) {
        Some(found) => {
            let parts = method_parts(found.0, found.1, false);
            gather_into(&mut locations, state, &parts);
        },
        None => {},
    }
    let ghost second = implemented_methods(state@, *doc, byte_offset, PartKind::MethodDefinition);
    assert(location_models(locations@) =~= own + first + second);
    match table.codeunit_procedure_at(byte_offset) {
        Some(names) => {
            let parts = one_part(
                Part::CodeunitCalls { object: copy_of(names.0), method: copy_of(names.1) },
            );
            gather_into(&mut locations, state, &parts);
        },
        None => {},
    }
    assert(location_models(locations@) =~= own + first + second + codeunit_call_sites(
        state@,
        *doc,
        byte_offset,
    ));
    locations
}

fn references_at(
    state: &WorldState,
    uri: &String,
    doc: &DocumentState,
    byte_offset: usize,
    include_declaration: bool,
) -> (r: Vec<Location>)
    ensures
        location_models(r@) == reference_locations(
            state@,
            uri@,
            *doc,
            byte_offset,
            include_declaration,
        ),
{
    let source = doc.source();
    let tree = doc.tree();
    let table = doc.symbol_table();
    if let Some(call) = interface_method_call_at_offset(tree, source.as_slice(), table, byte_offset) {
        let parts = two_parts(
            Part::MethodDefinition {
                interface: copy_of(call.object.as_slice()),
                method: copy_of(call.method.as_slice()),
            },
            include_declaration,
            Part::InterfaceCalls { interface: call.object, method: call.method },
        );
        return gather(state, &parts);
    }
    if let Some(call) = codeunit_method_call_at_offset(tree, source.as_slice(), table, byte_offset) {
        let parts = two_parts(
            Part::ProcedureName {
                object: copy_of(call.object.as_slice()),
                method: copy_of(call.method.as_slice()),
            },
            include_declaration,
            Part::CodeunitCalls { object: call.object, method: call.method },
        );
        return gather(state, &parts);
    }
    plain_references_at(state, uri, doc, byte_offset, include_declaration)
}

/// Find the references to what stands at a position of a document.
pub fn handle_references(
    state: &WorldState,
    uri: &String,
    position: Position,
    include_declaration: bool,
) -> (r: Option<Vec<Location>>)
    ensures
        match r {
            Some(found) => references_answer(state@, uri@, position, include_declaration) == Some(
                location_models(found@),
            ),
            None => references_answer(state@, uri@, position, include_declaration) is None,
        },
{
    let doc = match state.get(uri.as_str()) {
        Some(d) => d,
        None => {
            return None;
        },
    };
    let byte_offset = match lsp_position_to_byte_offset(doc.rope(), position) {
        Some(o) => o,
        None => {
            return None;
        },
    };
    let locations = references_at(state, uri, doc, byte_offset, include_declaration);
    proof {
        lemma_location_models(locations@);
    }
    some_locations(locations)
}

} // verus!
