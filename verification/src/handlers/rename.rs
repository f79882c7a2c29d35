//! Rename, and the check that precedes it.

use crate::ast::AlSymbolKind;
use crate::document::DocumentState;
use crate::handlers::{
    gather, gather_into, gathered_all, located, method_parts, on_procedure, parts_for,
    push_located, range_of_symbol, ranges_from_spans, ranges_of, symbol_range, Part, PartKind,
    PartModel,
};
use crate::navigation::{
    all_references, call_target_at, codeunit_method_call_at_offset, find_all_references,
    identifier_context_at_offset, identifier_node, interface_method_call_at_offset, resolution,
};
use crate::protocol::{
    change_models, insert_edit, lemma_location_models, location_models, range_of,
    ts_range_to_lsp_range, with_edit, DocumentEdits, EditModel, FileEdits, Location,
    LocationModel, Position, Range, TextEdit, WorkspaceEdit,
};
use crate::rope::{byte_offset_of, lsp_position_to_byte_offset};
use crate::state::{position_of_uri, DocumentEntry, WorldState};
use crate::symbols::{procedure_at, Owner};
use crate::syntax::Point;
use crate::text::{append, copy_of, has_space, holds_space};
use vstd::prelude::*;
use vstd::string::StringSliceAdditionalSpecFns;

verus! {

/// A new name as it is written into the source: between double quotes
/// where it holds white space, bare otherwise.
pub open spec fn written_name(name: Seq<u8>) -> Seq<u8> {
    if holds_space(name) {
        seq![0x22u8] + name + seq![0x22u8]
    } else {
        name
    }
}

/// A new name as it is written into the source.
pub fn written(new_name: &[u8]) -> (r: Vec<u8>)
    ensures
        r@ == written_name(new_name@),
{
    let mut out: Vec<u8> = Vec::new();
    if has_space(new_name) {
        out.push(0x22);
        append(&mut out, new_name);
        out.push(0x22);
        assert(out@ =~= seq![0x22u8] + new_name@ + seq![0x22u8]);
    } else {
        append(&mut out, new_name);
        assert(out@ =~= new_name@);
    }
    out
}

/// Create a text edit for renaming, handling AL quoting rules.
pub fn make_rename_edit(start: Point, end: Point, new_name: &[u8]) -> (r: TextEdit)
    ensures
        r@ == (EditModel { range: range_of(start, end), new_text: written_name(new_name@) }),
{
    TextEdit { range: ts_range_to_lsp_range(start, end), new_text: written(new_name) }
}

/// The changes that put `text` at the first `n` locations, location by location.
pub open spec fn placed(locations: Seq<LocationModel>, text: Seq<u8>, n: int) -> Seq<FileEdits>
    decreases n,
{
    if n <= 0 || n > locations.len() {
        Seq::empty()
    } else {
        with_edit(
            placed(locations, text, n - 1),
            locations[n - 1].uri,
            EditModel { range: locations[n - 1].range, new_text: text },
        )
    }
}

/// The changes that write the new name at every location.
pub open spec fn renamed(locations: Seq<LocationModel>, new_name: Seq<u8>) -> Seq<FileEdits> {
    placed(locations, written_name(new_name), locations.len() as int)
}

/// The changes that write the new name at every location.
pub fn rename_at(locations: &Vec<Location>, new_name: &[u8]) -> (edit: WorkspaceEdit)
    ensures
        edit@ == renamed(location_models(locations@), new_name@),
{
    let text = written(new_name);
    let ghost models = location_models(locations@);
    proof {
        lemma_location_models(locations@);
    }
    let mut changes: Vec<DocumentEdits> = Vec::new();
    let mut i: usize = 0;
    assert(change_models(changes@) =~= placed(models, text@, 0));
    while i < locations.len()
        invariant
            i <= locations.len(),
            models == location_models(locations@),
            models.len() == locations@.len(),
            forall|k: int| 0 <= k < locations@.len() ==> #[trigger] models[k] == locations@[k]@,
            change_models(changes@) == placed(models, text@, i as int),
        decreases locations.len() - i,
    {
        let edit = TextEdit { range: locations[i].range, new_text: copy_of(text.as_slice()) };
        insert_edit(&mut changes, locations[i].uri.clone(), edit);
        i += 1;
    }
    WorkspaceEdit { changes }
}

/// The parts that a rename of an interface method touches in a document:
/// the name of the method in the interface, the names of the procedures
/// that implement it, and the calls of it through interface-typed variables.
pub open spec fn interface_method_parts(interface: Seq<u8>, method: Seq<u8>) -> Seq<PartModel> {
    seq![
        PartModel { kind: PartKind::MethodName, object: interface, method },
        PartModel { kind: PartKind::ImplementationNames, object: interface, method },
        PartModel { kind: PartKind::InterfaceCalls, object: interface, method },
    ]
}

/// The parts that a rename of a procedure of a codeunit touches in a
/// document: the name of the procedure, its unqualified uses, and the calls
/// of it through codeunit-typed variables.
pub open spec fn codeunit_procedure_parts(object: Seq<u8>, method: Seq<u8>) -> Seq<PartModel> {
    seq![
        PartModel { kind: PartKind::ProcedureName, object, method },
        PartModel { kind: PartKind::ProcedureUses, object, method },
        PartModel { kind: PartKind::CodeunitCalls, object, method },
    ]
}

/// Where a rename of an interface method writes: in all documents the name
/// of the method in the interface, the names of the procedures that
/// implement it, and the calls of it through interface-typed variables.
fn rename_interface_method(state: &WorldState, interface_name: &[u8], method_name: &[u8]) -> (r:
    Vec<Location>)
    ensures
        location_models(r@) == gathered_all(
            state@,
            interface_method_parts(interface_name@, method_name@),
        ),
{
    let mut parts: Vec<Part> = Vec::new();
    parts.push(
        Part::MethodName { interface: copy_of(interface_name), method: copy_of(method_name) },
    );
    parts.push(
        Part::ImplementationNames {
            interface: copy_of(interface_name),
            method: copy_of(method_name),
        },
    );
    parts.push(
        Part::InterfaceCalls { interface: copy_of(interface_name), method: copy_of(method_name) },
    );
    proof {
        crate::handlers::lemma_part_models(parts@);
        assert(crate::handlers::part_models(parts@) =~= interface_method_parts(
            interface_name@,
            method_name@,
        ));
    }
    gather(state, &parts)
}

/// Where a rename of a procedure of a codeunit writes: in all documents the
/// name of the procedure, its unqualified uses, and the calls of it through
/// codeunit-typed variables.
fn rename_codeunit_procedure(state: &WorldState, codeunit_name: &[u8], method_name: &[u8]) -> (r:
    Vec<Location>)
    ensures
        location_models(r@) == gathered_all(
            state@,
            codeunit_procedure_parts(codeunit_name@, method_name@),
        ),
{
    let mut parts: Vec<Part> = Vec::new();
    parts.push(
        Part::ProcedureName { object: copy_of(codeunit_name), method: copy_of(method_name) },
    );
    parts.push(
        Part::ProcedureUses { object: copy_of(codeunit_name), method: copy_of(method_name) },
    );
    parts.push(
        Part::CodeunitCalls { object: copy_of(codeunit_name), method: copy_of(method_name) },
    );
    proof {
        crate::handlers::lemma_part_models(parts@);
        assert(crate::handlers::part_models(parts@) =~= codeunit_procedure_parts(
            codeunit_name@,
            method_name@,
        ));
    }
    gather(state, &parts)
}

/// Where a rename of the implementation procedure in which `offset` lies
/// writes: the name of the procedure, its uses inside its document, and in
/// all documents the names of the interface methods that it implements.
/// Procedures that implement the same methods elsewhere stay as they are.
pub open spec fn implementation_rename(
    entries: Seq<DocumentEntry>,
    uri: Seq<char>,
    doc: DocumentState,
    offset: usize,
) -> Seq<LocationModel> {
    match procedure_at(doc.table(), offset, Owner::Implementer, 0) {
        Some(m) => {
            let object = doc.table()[m.object as int];
            let procedure = object.children@[m.child as int];
            located(
                uri,
                seq![symbol_range(procedure, true)] + ranges_of(
                    all_references(
                        doc.syntax(),
                        doc.text(),
                        doc.table(),
                        procedure.name_start_byte,
                        false,
                    ),
                ),
            ) + gathered_all(
                entries,
                parts_for(
                    object.implements@,
                    procedure.name@,
                    PartKind::MethodName,
                    object.implements@.len() as int,
                ),
            )
        },
        None => Seq::empty(),
    }
}

/// Where a rename at `offset` of the document `doc` writes the new name;
/// nothing where the rename is refused.
///
/// On the method name of a call through an interface-typed variable, and on
/// a method of an interface: what a rename of that interface method
/// touches. On the method name of a call through a codeunit-typed variable,
/// and on a procedure that implements no interface: what a rename of that
/// procedure touches. On a procedure that implements interfaces: see
/// `implementation_rename`. On any other identifier: its references inside
/// the document, its declaration included. A rename of a trigger or of an
/// object is refused, as is one where there is no identifier.
pub open spec fn rename_locations(
    entries: Seq<DocumentEntry>,
    uri: Seq<char>,
    doc: DocumentState,
    offset: usize,
) -> Option<Seq<LocationModel>> {
    match call_target_at(doc.syntax(), doc.text(), doc.table(), offset, "Interface") {
        Some(t) => Some(gathered_all(entries, interface_method_parts(t.object, t.method))),
        None => match call_target_at(doc.syntax(), doc.text(), doc.table(), offset, "Codeunit") {
            Some(t) => Some(gathered_all(entries, codeunit_procedure_parts(t.object, t.method))),
            None => match identifier_node(doc.syntax(), offset) {
                None => None,
                Some(node) => {
                    let symbol = resolution(doc.table(), node.name(doc.text()), offset);
                    if refused(symbol) {
                        None
                    } else if on_procedure(doc, offset) && procedure_at(
                        doc.table(),
                        offset,
                        Owner::Interface,
                        0,
                    ) is Some {
                        let m = procedure_at(doc.table(), offset, Owner::Interface, 0).unwrap();
                        Some(
                            gathered_all(
                                entries,
                                interface_method_parts(
                                    doc.table()[m.object as int].name@,
                                    doc.table()[m.object as int].children@[m.child as int].name@,
                                ),
                            ),
                        )
                    } else if on_procedure(doc, offset) && procedure_at(
                        doc.table(),
                        offset,
                        Owner::Implementer,
                        0,
                    ) is Some {
                        Some(implementation_rename(entries, uri, doc, offset))
                    } else if on_procedure(doc, offset) && procedure_at(
                        doc.table(),
                        offset,
                        Owner::Concrete,
                        0,
                    ) is Some {
                        let m = procedure_at(doc.table(), offset, Owner::Concrete, 0).unwrap();
                        Some(
                            gathered_all(
                                entries,
                                codeunit_procedure_parts(
                                    doc.table()[m.object as int].name@,
                                    doc.table()[m.object as int].children@[m.child as int].name@,
                                ),
                            ),
                        )
                    } else {
                        let own = all_references(
                            doc.syntax(),
                            doc.text(),
                            doc.table(),
                            offset,
                            true,
                        );
                        if own.len() > 0 {
                            Some(located(uri, ranges_of(own)))
                        } else {
                            None
                        }
                    }
                },
            },
        },
    }
}

/// Whether a rename of what an identifier resolves to is refused: triggers
/// and objects are not renamed.
pub open spec fn refused(symbol: Option<crate::ast::AlSymbol>) -> bool {
    match symbol {
        Some(s) => s.kind == AlSymbolKind::Trigger || s.kind is Object,
        None => false,
    }
}

/// The answer to a rename request: nothing for an unknown document, for a
/// position outside the document, and where the rename is refused.
pub open spec fn rename_answer(
    entries: Seq<DocumentEntry>,
    uri: Seq<char>,
    position: Position,
    new_name: Seq<u8>,
) -> Option<Seq<FileEdits>> {
    match position_of_uri(entries, uri, 0) {
        Some(i) => match byte_offset_of(entries[i].document.text(), position) {
            Some(offset) => match rename_locations(entries, uri, entries[i].document, offset) {
                Some(locations) => Some(renamed(locations, new_name)),
                None => None,
            },
            None => None,
        },
        None => None,
    }
}

/// The range of the identifier that a rename at `offset` would rename;
/// nothing where there is no identifier or the rename is refused.
pub open spec fn prepared_range(doc: DocumentState, offset: usize) -> Option<Range> {
    match identifier_node(doc.syntax(), offset) {
        Some(node) => {
            let range = Some(range_of(node.start_point, node.end_point));
            if call_target_at(doc.syntax(), doc.text(), doc.table(), offset, "Interface") is Some
                || call_target_at(doc.syntax(), doc.text(), doc.table(), offset, "Codeunit")
                is Some {
                range
            } else if refused(resolution(doc.table(), node.name(doc.text()), offset)) {
                None
            } else {
                range
            }
        },
        None => None,
    }
}

/// The answer to the check that precedes a rename.
pub open spec fn prepare_answer(entries: Seq<DocumentEntry>, uri: Seq<char>, position: Position)
    -> Option<Range> {
    match position_of_uri(entries, uri, 0) {
        Some(i) => match byte_offset_of(entries[i].document.text(), position) {
            Some(offset) => prepared_range(entries[i].document, offset),
            None => None,
        },
        None => None,
    }
}

/// Says which identifier a rename at a position would rename.
pub fn handle_prepare_rename(state: &WorldState, uri: &String, position: Position) -> (r: Option<
    Range,
>)
    ensures
        r == prepare_answer(state@, uri@, position),
{
    let doc = match state.get(uri.as_str()) {
        Some(d) => d,
        None => {
            return None;
        },
    };
    let byte_offset = match lsp_position_to_byte_offset(doc.rope(), position) {
        Some(o) => o,
        None => {
            return None;
        },
    };
    let source = doc.source();
    let tree = doc.tree();
    let table = doc.symbol_table();
    let ctx = match identifier_context_at_offset(tree, source.as_slice(), table, byte_offset) {
        Some(c) => c,
        None => {
            return None;
        },
    };
    let range = ts_range_to_lsp_range(ctx.node.start_point, ctx.node.end_point);
    if interface_method_call_at_offset(tree, source.as_slice(), table, byte_offset).is_some() {
        return Some(range);
    }
    if codeunit_method_call_at_offset(tree, source.as_slice(), table, byte_offset).is_some() {
        return Some(range);
    }
    match ctx.symbol {
        Some(symbol) => match symbol.kind {
            AlSymbolKind::Trigger | AlSymbolKind::Object(_) => None,
            _ => Some(range),
        },
        None => Some(range),
    }
}

fn rename_implementation_procedure(
    state: &WorldState,
    uri: &String,
    doc: &DocumentState,
    byte_offset: usize,
) -> (r: Vec<Location>)
    requires
        procedure_at(doc.table(), byte_offset, Owner::Implementer, 0) is Some,
    ensures
        location_models(r@) == implementation_rename(state@, uri@, *doc, byte_offset),
{
    let table = doc.symbol_table();
    let mut locations: Vec<Location> = Vec::new();
    assert(location_models(locations@) =~= Seq::empty());
    match table.implementation_procedure_at(byte_offset) {
        Some(found) => {
            let ghost m = procedure_at(doc.table(), byte_offset, Owner::Implementer, 0).unwrap();
            let ghost procedure = doc.table()[m.object as int].children@[m.child as int];
            match table.find_implementer(byte_offset) {
                Some(procedure_symbol) => {
                    let source = doc.source();
                    let mut ranges: Vec<Range> = Vec::new();
                    ranges.push(range_of_symbol(procedure_symbol, true));
                    let uses = find_all_references(
                        doc.tree(),
                        source.as_slice(),
                        table,
                        procedure_symbol.name_start_byte,
                        false,
                    );
                    let mut more = ranges_from_spans(&uses);
                    ranges.append(&mut more);
                    push_located(&mut locations, uri, &ranges);
                    assert(ranges@ =~= seq![symbol_range(procedure, true)] + ranges_of(uses@));
                    let parts = method_parts(found.0, found.1, true);
                    gather_into(&mut locations, state, &parts);
                },
                None => {},
            }
        },
        None => {},
    }
    locations
}

fn rename_targets(state: &WorldState, uri: &String, doc: &DocumentState, byte_offset: usize) -> (r:
    Option<Vec<Location>>)
    ensures
        match r {
            Some(found) => rename_locations(state@, uri@, *doc, byte_offset) == Some(
                location_models(found@),
            ),
            None => rename_locations(state@, uri@, *doc, byte_offset) is None,
        },
{
    let source = doc.source();
    let tree = doc.tree();
    let table = doc.symbol_table();
    if let Some(call) = interface_method_call_at_offset(tree, source.as_slice(), table, byte_offset) {
        return Some(
            rename_interface_method(state, call.object.as_slice(), call.method.as_slice()),
        );
    }
    if let Some(call) = codeunit_method_call_at_offset(tree, source.as_slice(), table, byte_offset) {
        return Some(
            rename_codeunit_procedure(state, call.object.as_slice(), call.method.as_slice()),
        );
    }
    let ctx = match identifier_context_at_offset(tree, source.as_slice(), table, byte_offset) {
        Some(c) => c,
        None => {
            return None;
        },
    };
    let mut is_procedure = false;
    match ctx.symbol {
        Some(symbol) => match symbol.kind {
            AlSymbolKind::Trigger | AlSymbolKind::Object(_) => {
                return None;
            },
            AlSymbolKind::Procedure => {
                is_procedure = true;
            },
            _ => {},
        },
        None => {},
    }
    if is_procedure {
        if let Some(names) = table.interface_method_at(byte_offset) {
            return Some(rename_interface_method(state, names.0, names.1));
        }
        if table.implementation_procedure_at(byte_offset).is_some() {
            return Some(rename_implementation_procedure(state, uri, doc, byte_offset));
        }
        if let Some(names) = table.codeunit_procedure_at(byte_offset) {
            return Some(rename_codeunit_procedure(state, names.0, names.1));
        }
    }
    let refs = find_all_references(tree, source.as_slice(), table, byte_offset, true);
    if refs.len() == 0 {
        return None;
    }
    let ranges = ranges_from_spans(&refs);
    let mut locations: Vec<Location> = Vec::new();
    assert(location_models(locations@) =~= Seq::empty());
    push_located(&mut locations, uri, &ranges);
    assert(location_models(locations@) =~= located(uri@, ranges@));
    Some(locations)
}

/// Rename what stands at a position of a document.
pub fn handle_rename(state: &WorldState, uri: &String, position: Position, new_name: &[u8]) -> (r:
    Option<WorkspaceEdit>)
    ensures
        match r {
            Some(edit) => rename_answer(state@, uri@, position, new_name@) == Some(edit@),
            None => rename_answer(state@, uri@, position, new_name@) is None,
        },
{
    let doc = match state.get(uri.as_str()) {
        Some(d) => d,
        None => {
            return None;
        },
    };
    let byte_offset = match lsp_position_to_byte_offset(doc.rope(), position) {
        Some(o) => o,
        None => {
            return None;
        },
    };
    match rename_targets(state, uri, doc, byte_offset) {
        Some(locations) => Some(rename_at(&locations, new_name)),
        None => None,
    }
}

} // verus!
