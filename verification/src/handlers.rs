//! The features of the language server, each as a function from the known
//! documents and a request to an answer.
//!
//! Features that span documents walk the documents in the order in which
//! they became known. What each document contributes is described by a list
//! of parts; the answer lists, document by document, what the parts give.

pub mod code_action;
pub mod completion;
pub mod document_highlight;
pub mod document_symbol;
pub mod folding_range;
pub mod formatting;
pub mod goto_definition;
pub mod goto_implementation;
pub mod goto_type_definition;
pub mod hover;
pub mod references;
pub mod rename;
pub mod signature_help;
pub mod workspace_symbol;

use crate::ast::AlSymbol;
use crate::document::DocumentState;
use crate::navigation::{
    all_references, find_all_references, find_codeunit_method_calls, find_interface_method_calls,
    identifier_context_at_offset, identifier_node, method_calls, resolution, Span,
};
use crate::protocol::{
    lemma_location_models_push, location_models, range_of, ts_range_to_lsp_range, Location,
    LocationModel, Range,
};
use crate::state::{DocumentEntry, WorldState};
use crate::symbols::{implementations, procedure_in, targets, Member};
use crate::text::{copy_of, lowercase_of};
use vstd::prelude::*;

verus! {

/// What a document contributes to an answer that spans documents.
pub enum Part {
    /// The range of the declaration of a method of an interface.
    MethodDefinition { interface: Vec<u8>, method: Vec<u8> },
    /// The range of the name of a method of an interface.
    MethodName { interface: Vec<u8>, method: Vec<u8> },
    /// The range of the name of a procedure of an object.
    ProcedureName { object: Vec<u8>, method: Vec<u8> },
    /// The ranges of the unqualified uses of a procedure of an object.
    ProcedureUses { object: Vec<u8>, method: Vec<u8> },
    /// The ranges of the declarations of the procedures that implement a
    /// method of an interface.
    Implementations { interface: Vec<u8>, method: Vec<u8> },
    /// The ranges of the names of the procedures that implement a method of
    /// an interface.
    ImplementationNames { interface: Vec<u8>, method: Vec<u8> },
    /// The ranges of the method names of the calls of a method through
    /// variables typed as an interface.
    InterfaceCalls { interface: Vec<u8>, method: Vec<u8> },
    /// The ranges of the method names of the calls of a procedure through
    /// variables typed as a codeunit.
    CodeunitCalls { object: Vec<u8>, method: Vec<u8> },
}

/// The kinds of part.
#[derive(Clone, Copy, Debug, PartialEq, Eq, Structural)]
pub enum PartKind {
    MethodDefinition,
    MethodName,
    ProcedureName,
    ProcedureUses,
    Implementations,
    ImplementationNames,
    InterfaceCalls,
    CodeunitCalls,
}

/// The mathematical value of a part: its kind, and the names of the object
/// and of the method that it speaks of.
pub struct PartModel {
    pub kind: PartKind,
    pub object: Seq<u8>,
    pub method: Seq<u8>,
}

impl View for Part {
    type V = PartModel;

    open spec fn view(&self) -> PartModel {
        match self {
            Part::MethodDefinition { interface, method } => PartModel {
                kind: PartKind::MethodDefinition,
                object: interface@,
                method: method@,
            },
            Part::MethodName { interface, method } => PartModel {
                kind: PartKind::MethodName,
                object: interface@,
                method: method@,
            },
            Part::ProcedureName { object, method } => PartModel {
                kind: PartKind::ProcedureName,
                object: object@,
                method: method@,
            },
            Part::ProcedureUses { object, method } => PartModel {
                kind: PartKind::ProcedureUses,
                object: object@,
                method: method@,
            },
            Part::Implementations { interface, method } => PartModel {
                kind: PartKind::Implementations,
                object: interface@,
                method: method@,
            },
            Part::ImplementationNames { interface, method } => PartModel {
                kind: PartKind::ImplementationNames,
                object: interface@,
                method: method@,
            },
            Part::InterfaceCalls { interface, method } => PartModel {
                kind: PartKind::InterfaceCalls,
                object: interface@,
                method: method@,
            },
            Part::CodeunitCalls { object, method } => PartModel {
                kind: PartKind::CodeunitCalls,
                object: object@,
                method: method@,
            },
        }
    }
}

/// The mathematical values of a list of parts.
pub open spec fn part_models(parts: Seq<Part>) -> Seq<PartModel>
    decreases parts.len(),
{
    if parts.len() == 0 {
        Seq::empty()
    } else {
        part_models(parts.drop_last()).push(parts.last()@)
    }
}

/// The values of a list of parts, part by part.
pub proof fn lemma_part_models(parts: Seq<Part>)
    ensures
        part_models(parts).len() == parts.len(),
        forall|i: int| 0 <= i < parts.len() ==> #[trigger] part_models(parts)[i] == parts[i]@,
    decreases parts.len(),
{
    if parts.len() > 0 {
        lemma_part_models(parts.drop_last());
    }
}

/// The values of a list of parts with one more part.
pub proof fn lemma_part_models_push(parts: Seq<Part>, part: Part)
    ensures
        part_models(parts.push(part)) == part_models(parts).push(part@),
{
    assert(parts.push(part).drop_last() =~= parts);
}

/// The ranges of a sequence of spans.
pub open spec fn ranges_of(spans: Seq<Span>) -> Seq<Range>
    decreases spans.len(),
{
    if spans.len() == 0 {
        Seq::empty()
    } else {
        ranges_of(spans.drop_last()).push(range_of(spans.last().0, spans.last().1))
    }
}

/// The ranges of the declarations of symbols, or of their names.
pub open spec fn symbol_ranges(symbols: Seq<AlSymbol>, names: bool) -> Seq<Range>
    decreases symbols.len(),
{
    if symbols.len() == 0 {
        Seq::empty()
    } else {
        symbol_ranges(symbols.drop_last(), names).push(symbol_range(symbols.last(), names))
    }
}

/// The range of the declaration of a symbol, or of its name.
pub open spec fn symbol_range(symbol: AlSymbol, names: bool) -> Range {
    if names {
        range_of(symbol.name_start_point, symbol.name_end_point)
    } else {
        range_of(symbol.start_point, symbol.end_point)
    }
}

/// The symbol that a member names, if there is one.
pub open spec fn member_symbol(symbols: Seq<AlSymbol>, member: Option<Member>) -> Seq<AlSymbol> {
    match member {
        Some(m) => seq![symbols[m.object as int].children@[m.child as int]],
        None => Seq::empty(),
    }
}

/// What a document contributes for one part.
pub open spec fn part_ranges(doc: DocumentState, part: PartModel) -> Seq<Range> {
    let object = lowercase_of(part.object);
    let method = lowercase_of(part.method);
    match part.kind {
        PartKind::MethodDefinition => symbol_ranges(
            member_symbol(doc.table(), procedure_in(doc.table(), object, method, true, 0)),
            false,
        ),
        PartKind::MethodName => symbol_ranges(
            member_symbol(doc.table(), procedure_in(doc.table(), object, method, true, 0)),
            true,
        ),
        PartKind::ProcedureName => symbol_ranges(
            member_symbol(doc.table(), procedure_in(doc.table(), object, method, false, 0)),
            true,
        ),
        PartKind::ProcedureUses => match procedure_in(doc.table(), object, method, false, 0) {
            Some(m) => ranges_of(
                all_references(
                    doc.syntax(),
                    doc.text(),
                    doc.table(),
                    doc.table()[m.object as int].children@[m.child as int].name_start_byte,
                    false,
                ),
            ),
            None => Seq::empty(),
        },
        PartKind::Implementations => symbol_ranges(
            implementations(doc.table(), object, method, doc.table().len() as int),
            false,
        ),
        PartKind::ImplementationNames => symbol_ranges(
            implementations(doc.table(), object, method, doc.table().len() as int),
            true,
        ),
        PartKind::InterfaceCalls => ranges_of(
            method_calls(
                doc.syntax(),
                doc.text(),
                doc.table(),
                part.object,
                part.method,
                "Interface",
            ),
        ),
        PartKind::CodeunitCalls => ranges_of(
            method_calls(doc.syntax(), doc.text(), doc.table(), part.object, part.method, "Codeunit"),
        ),
    }
}

/// What a document contributes for the first `n` parts, part by part.
pub open spec fn document_ranges(doc: DocumentState, parts: Seq<PartModel>, n: int) -> Seq<Range>
    decreases n,
{
    if n <= 0 || n > parts.len() {
        Seq::empty()
    } else {
        document_ranges(doc, parts, n - 1) + part_ranges(doc, parts[n - 1])
    }
}

/// The ranges, each as a location in the document `uri`.
pub open spec fn located(uri: Seq<char>, ranges: Seq<Range>) -> Seq<LocationModel>
    decreases ranges.len(),
{
    if ranges.len() == 0 {
        Seq::empty()
    } else {
        located(uri, ranges.drop_last()).push(LocationModel { uri, range: ranges.last() })
    }
}

/// What the first `n` documents contribute for the parts, document by document.
pub open spec fn gathered(entries: Seq<DocumentEntry>, parts: Seq<PartModel>, n: int) -> Seq<
    LocationModel,
>
    decreases n,
{
    if n <= 0 || n > entries.len() {
        Seq::empty()
    } else {
        gathered(entries, parts, n - 1) + located(
            entries[n - 1].uri@,
            document_ranges(entries[n - 1].document, parts, parts.len() as int),
        )
    }
}

/// What all documents contribute for the parts.
pub open spec fn gathered_all(entries: Seq<DocumentEntry>, parts: Seq<PartModel>) -> Seq<
    LocationModel,
> {
    gathered(entries, parts, entries.len() as int)
}

/// The ranges of spans with one more span.
pub proof fn lemma_ranges_push(spans: Seq<Span>, span: Span)
    ensures
        ranges_of(spans.push(span)) == ranges_of(spans).push(range_of(span.0, span.1)),
{
    assert(spans.push(span).drop_last() =~= spans);
}

/// The ranges of symbols with one more symbol.
pub proof fn lemma_symbol_ranges_push(symbols: Seq<AlSymbol>, symbol: AlSymbol, names: bool)
    ensures
        symbol_ranges(symbols.push(symbol), names) == symbol_ranges(symbols, names).push(
            symbol_range(symbol, names),
        ),
{
    assert(symbols.push(symbol).drop_last() =~= symbols);
}

/// The locations of ranges with one more range.
pub proof fn lemma_located_push(uri: Seq<char>, ranges: Seq<Range>, range: Range)
    ensures
        located(uri, ranges.push(range)) == located(uri, ranges).push(
            LocationModel { uri, range },
        ),
{
    assert(ranges.push(range).drop_last() =~= ranges);
}

/// The locations of two lists of ranges, one after the other.
pub proof fn lemma_located_add(uri: Seq<char>, a: Seq<Range>, b: Seq<Range>)
    ensures
        located(uri, a + b) == located(uri, a) + located(uri, b),
    decreases b.len(),
{
    if b.len() == 0 {
        assert(a + b =~= a);
        assert(located(uri, a) + located(uri, b) =~= located(uri, a));
    } else {
        lemma_located_add(uri, a, b.drop_last());
        assert((a + b).drop_last() =~= a + b.drop_last());
        assert((a + b).last() == b.last());
        assert(located(uri, a + b) =~= located(uri, a) + located(uri, b));
    }
}

/// The ranges of the spans.
pub fn ranges_from_spans(spans: &Vec<Span>) -> (r: Vec<Range>)
    ensures
        r@ == ranges_of(spans@),
{
    let mut out: Vec<Range> = Vec::new();
    let mut i: usize = 0;
    assert(spans@.take(0) =~= Seq::empty());
    while i < spans.len()
        invariant
            i <= spans.len(),
            out@ == ranges_of(spans@.take(i as int)),
        decreases spans.len() - i,
    {
        proof {
            lemma_ranges_push(spans@.take(i as int), spans@[i as int]);
            assert(spans@.take(i + 1) =~= spans@.take(i as int).push(spans@[i as int]));
        }
        out.push(ts_range_to_lsp_range(spans[i].0, spans[i].1));
        i += 1;
    }
    assert(spans@.take(spans@.len() as int) =~= spans@);
    out
}

/// The ranges of the declarations of the symbols, or of their names.
pub fn ranges_from_symbols(symbols: &Vec<&AlSymbol>, names: bool) -> (r: Vec<Range>)
    ensures
        r@ == symbol_ranges(targets(symbols@), names),
{
    let mut out: Vec<Range> = Vec::new();
    let mut i: usize = 0;
    let ghost all = targets(symbols@);
    assert(all.take(0) =~= Seq::empty());
    while i < symbols.len()
        invariant
            i <= symbols.len(),
            all == targets(symbols@),
            out@ == symbol_ranges(all.take(i as int), names),
        decreases symbols.len() - i,
    {
        proof {
            lemma_symbol_ranges_push(all.take(i as int), all[i as int], names);
            assert(all.take(i + 1) =~= all.take(i as int).push(all[i as int]));
        }
        out.push(range_of_symbol(symbols[i], names));
        i += 1;
    }
    assert(all.take(all.len() as int) =~= all);
    out
}

/// The range of the declaration of a symbol, or of its name.
pub fn range_of_symbol(symbol: &AlSymbol, names: bool) -> (r: Range)
    ensures
        r == symbol_range(*symbol, names),
{
    if names {
        ts_range_to_lsp_range(symbol.name_start_point, symbol.name_end_point)
    } else {
        ts_range_to_lsp_range(symbol.start_point, symbol.end_point)
    }
}

fn range_of_member(symbol: Option<&AlSymbol>, names: bool, Ghost(symbols): Ghost<Seq<AlSymbol>>, Ghost(
    member,
): Ghost<Option<Member>>) -> (r: Vec<Range>)
    requires
        match (symbol, member) {
            (Some(s), Some(m)) => *s == symbols[m.object as int].children@[m.child as int],
            (None, None) => true,
            _ => false,
        },
    ensures
        r@ == symbol_ranges(member_symbol(symbols, member), names),
{
    let mut out: Vec<Range> = Vec::new();
    match symbol {
        Some(s) => {
            proof {
                lemma_symbol_ranges_push(Seq::empty(), *s, names);
                assert(member_symbol(symbols, member) =~= Seq::<AlSymbol>::empty().push(*s));
            }
            out.push(range_of_symbol(s, names));
        },
        None => {},
    }
    out
}

/// What a document contributes for one part.
pub fn ranges_of_part(doc: &DocumentState, part: &Part) -> (r: Vec<Range>)
    ensures
        r@ == part_ranges(*doc, part@),
{
    let table = doc.symbol_table();
    let ghost symbols = doc.table();
    match part {
        Part::MethodDefinition { interface, method } => {
            let found = table.find_interface_method(interface.as_slice(), method.as_slice());
            range_of_member(
                found,
                false,
                Ghost(symbols),
                Ghost(
                    procedure_in(symbols, lowercase_of(interface@), lowercase_of(method@), true, 0),
                ),
            )
        },
        Part::MethodName { interface, method } => {
            let found = table.find_interface_method(interface.as_slice(), method.as_slice());
            range_of_member(
                found,
                true,
                Ghost(symbols),
                Ghost(
                    procedure_in(symbols, lowercase_of(interface@), lowercase_of(method@), true, 0),
                ),
            )
        },
        Part::ProcedureName { object, method } => {
            let found = table.find_object_procedure(object.as_slice(), method.as_slice());
            range_of_member(
                found,
                true,
                Ghost(symbols),
                Ghost(procedure_in(symbols, lowercase_of(object@), lowercase_of(method@), false, 0)),
            )
        },
        Part::ProcedureUses { object, method } => {
            match table.find_object_procedure(object.as_slice(), method.as_slice()) {
                Some(procedure) => {
                    let source = doc.source();
                    let spans = find_all_references(
                        doc.tree(),
                        source.as_slice(),
                        table,
                        procedure.name_start_byte,
                        false,
                    );
                    ranges_from_spans(&spans)
                },
                None => Vec::new(),
            }
        },
        Part::Implementations { interface, method } => {
            let found = table.find_implementation_procedures(
                interface.as_slice(),
                method.as_slice(),
            );
            ranges_from_symbols(&found, false)
        },
        Part::ImplementationNames { interface, method } => {
            let found = table.find_implementation_procedures(
                interface.as_slice(),
                method.as_slice(),
            );
            ranges_from_symbols(&found, true)
        },
        Part::InterfaceCalls { interface, method } => {
            let source = doc.source();
            let spans = find_interface_method_calls(
                doc.tree(),
                source.as_slice(),
                table,
                interface.as_slice(),
                method.as_slice(),
            );
            ranges_from_spans(&spans)
        },
        Part::CodeunitCalls { object, method } => {
            let source = doc.source();
            let spans = find_codeunit_method_calls(
                doc.tree(),
                source.as_slice(),
                table,
                object.as_slice(),
                method.as_slice(),
            );
            ranges_from_spans(&spans)
        },
    }
}

/// Appends the ranges, each as a location in the document `uri`.
pub fn push_located(out: &mut Vec<Location>, uri: &String, ranges: &Vec<Range>)
    ensures
        location_models(final(out)@) == location_models(old(out)@) + located(uri@, ranges@),
{
    let mut i: usize = 0;
    assert(ranges@.take(0) =~= Seq::empty());
    assert(location_models(out@) =~= location_models(old(out)@) + located(uri@, ranges@.take(0)));
    while i < ranges.len()
        invariant
            i <= ranges.len(),
            location_models(out@) == location_models(old(out)@) + located(
                uri@,
                ranges@.take(i as int),
            ),
        decreases ranges.len() - i,
    {
        let location = Location { uri: uri.clone(), range: ranges[i] };
        proof {
            lemma_location_models_push(out@, location);
            lemma_located_push(uri@, ranges@.take(i as int), ranges@[i as int]);
            assert(ranges@.take(i + 1) =~= ranges@.take(i as int).push(ranges@[i as int]));
        }
        let ghost before = located(uri@, ranges@.take(i as int));
        out.push(location);
        assert(location_models(out@) =~= location_models(old(out)@) + before.push(location@));
        i += 1;
    }
    assert(ranges@.take(ranges@.len() as int) =~= ranges@);
}

/// Appends what one document contributes for the parts, part by part.
fn gather_document(
    out: &mut Vec<Location>,
    uri: &String,
    document: &DocumentState,
    parts: &Vec<Part>,
)
    ensures
        location_models(final(out)@) == location_models(old(out)@) + located(
            uri@,
            document_ranges(*document, part_models(parts@), parts@.len() as int),
        ),
{
    let ghost models = part_models(parts@);
    proof {
        lemma_part_models(parts@);
    }
    let ghost start = location_models(out@);
    let mut j: usize = 0;
    assert(location_models(out@) =~= start + located(uri@, document_ranges(*document, models, 0)));
    while j < parts.len()
        invariant
            j <= parts.len(),
            models == part_models(parts@),
            models.len() == parts@.len(),
            forall|k: int| 0 <= k < parts@.len() ==> #[trigger] models[k] == parts@[k]@,
            location_models(out@) == start + located(
                uri@,
                document_ranges(*document, models, j as int),
            ),
        decreases parts.len() - j,
    {
        let ranges = ranges_of_part(document, &parts[j]);
        let ghost so_far = document_ranges(*document, models, j as int);
        push_located(out, uri, &ranges);
        proof {
            lemma_located_add(uri@, so_far, ranges@);
        }
        assert(location_models(out@) =~= start + located(uri@, so_far + ranges@));
        j += 1;
    }
}

/// Appends what all documents contribute for the parts, document by document.
pub fn gather_into(out: &mut Vec<Location>, state: &WorldState, parts: &Vec<Part>)
    ensures
        location_models(final(out)@) == location_models(old(out)@) + gathered_all(
            state@,
            part_models(parts@),
        ),
{
    let count = state.document_count();
    let ghost models = part_models(parts@);
    proof {
        lemma_part_models(parts@);
    }
    let mut i: usize = 0;
    assert(location_models(out@) =~= location_models(old(out)@) + gathered(state@, models, 0));
    while i < count
        invariant
            i <= count,
            count == state@.len(),
            models == part_models(parts@),
            models.len() == parts@.len(),
            location_models(out@) == location_models(old(out)@) + gathered(
                state@,
                models,
                i as int,
            ),
        decreases count - i,
    {
        let ghost before = gathered(state@, models, i as int);
        if let Some((uri, document)) = state.entry(i) {
            gather_document(out, uri, document, parts);
            assert(location_models(out@) =~= location_models(old(out)@) + (before + located(
                uri@,
                document_ranges(*document, models, models.len() as int),
            )));
        }
        i += 1;
    }
}

/// What all documents contribute for the parts, document by document.
pub fn gather(state: &WorldState, parts: &Vec<Part>) -> (out: Vec<Location>)
    ensures
        location_models(out@) == gathered_all(state@, part_models(parts@)),
{
    let mut out: Vec<Location> = Vec::new();
    assert(location_models(out@) =~= Seq::empty());
    gather_into(&mut out, state, parts);
    assert(location_models(out@) =~= gathered_all(state@, part_models(parts@)));
    out
}

/// One part of kind `kind` for each of the first `n` interface names.
pub open spec fn parts_for(names: Seq<Vec<u8>>, method: Seq<u8>, kind: PartKind, n: int) -> Seq<
    PartModel,
>
    decreases n,
{
    if n <= 0 || n > names.len() {
        Seq::empty()
    } else {
        parts_for(names, method, kind, n - 1).push(
            PartModel { kind, object: names[n - 1]@, method },
        )
    }
}

/// One part per interface name: the definition of the method in that
/// interface, or its name where `names_only` is set.
pub fn method_parts(names: &Vec<Vec<u8>>, method: &[u8], names_only: bool) -> (parts: Vec<Part>)
    ensures
        part_models(parts@) == parts_for(
            names@,
            method@,
            if names_only {
                PartKind::MethodName
            } else {
                PartKind::MethodDefinition
            },
            names@.len() as int,
        ),
{
    let ghost kind = if names_only {
        PartKind::MethodName
    } else {
        PartKind::MethodDefinition
    };
    let mut parts: Vec<Part> = Vec::new();
    let mut i: usize = 0;
    assert(part_models(parts@) =~= parts_for(names@, method@, kind, 0));
    while i < names.len()
        invariant
            i <= names.len(),
            kind == if names_only {
                PartKind::MethodName
            } else {
                PartKind::MethodDefinition
            },
            part_models(parts@) == parts_for(names@, method@, kind, i as int),
        decreases names.len() - i,
    {
        let part = if names_only {
            Part::MethodName { interface: copy_of(names[i].as_slice()), method: copy_of(method) }
        } else {
            Part::MethodDefinition {
                interface: copy_of(names[i].as_slice()),
                method: copy_of(method),
            }
        };
        proof {
            lemma_part_models_push(parts@, part);
        }
        parts.push(part);
        i += 1;
    }
    parts
}

/// A list of one part.
pub fn one_part(part: Part) -> (parts: Vec<Part>)
    ensures
        part_models(parts@) == seq![part@],
{
    let mut parts: Vec<Part> = Vec::new();
    proof {
        lemma_part_models_push(parts@, part);
    }
    parts.push(part);
    assert(part_models(parts@) =~= seq![part@]);
    parts
}

/// A list of two parts, the first of which counts only where `with_first` is set.
pub fn two_parts(first: Part, with_first: bool, second: Part) -> (parts: Vec<Part>)
    ensures
        part_models(parts@) == if with_first {
            seq![first@, second@]
        } else {
            seq![second@]
        },
{
    let mut parts: Vec<Part> = Vec::new();
    if with_first {
        proof {
            lemma_part_models_push(parts@, first);
        }
        parts.push(first);
    }
    proof {
        lemma_part_models_push(parts@, second);
    }
    parts.push(second);
    assert(part_models(parts@) =~= if with_first {
        seq![first@, second@]
    } else {
        seq![second@]
    });
    parts
}

/// Whether the identifier at `offset` resolves to a procedure.
pub open spec fn on_procedure(doc: DocumentState, offset: usize) -> bool {
    match identifier_node(doc.syntax(), offset) {
        Some(node) => match resolution(doc.table(), node.name(doc.text()), offset) {
            Some(symbol) => symbol.is_procedure(),
            None => false,
        },
        None => false,
    }
}

/// Whether the identifier at `byte_offset` resolves to a procedure.
pub(crate) fn cursor_on_procedure(doc: &DocumentState, source: &[u8], byte_offset: usize) -> (r: bool)
    requires
        source@ == doc.text(),
    ensures
        r == on_procedure(*doc, byte_offset),
{
    match identifier_context_at_offset(doc.tree(), source, doc.symbol_table(), byte_offset) {
        Some(ctx) => match ctx.symbol {
            Some(symbol) => symbol.has_procedure_kind(),
            None => false,
        },
        None => false,
    }
}

/// The locations, or nothing where there are none.
pub fn some_locations(locations: Vec<Location>) -> (r: Option<Vec<Location>>)
    ensures
        match r {
            Some(v) => v == locations && locations@.len() > 0,
            None => locations@.len() == 0,
        },
{
    if locations.len() == 0 {
        None
    } else {
        Some(locations)
    }
}

/// The parts for a list of interface names: one per name, in order.
pub proof fn lemma_parts_for(names: Seq<Vec<u8>>, method: Seq<u8>, kind: PartKind, n: int)
    requires
        0 <= n <= names.len(),
    ensures
        parts_for(names, method, kind, n).len() == n,
        forall|k: int|
            0 <= k < n ==> #[trigger] parts_for(names, method, kind, n)[k] == (PartModel {
                kind,
                object: names[k]@,
                method,
            }),
    decreases n,
{
    if n > 0 {
        lemma_parts_for(names, method, kind, n - 1);
    }
}

/// A range among the ranges is, as a location, among the located ranges.
pub proof fn lemma_located_contains(uri: Seq<char>, ranges: Seq<Range>, range: Range)
    requires
        ranges.contains(range),
    ensures
        located(uri, ranges).contains(LocationModel { uri, range }),
    decreases ranges.len(),
{
    let found = LocationModel { uri, range };
    if ranges.last() == range {
        let all = located(uri, ranges);
        assert(all[all.len() - 1] == found);
    } else {
        let i = choose|i: int| 0 <= i < ranges.len() && ranges[i] == range;
        assert(ranges.drop_last()[i] == range);
        lemma_located_contains(uri, ranges.drop_last(), range);
        let before = located(uri, ranges.drop_last());
        let k = choose|k: int| 0 <= k < before.len() && before[k] == found;
        assert(located(uri, ranges)[k] == found);
    }
}

/// What a document contributes for one of the parts is among what it
/// contributes for all of them.
pub proof fn lemma_document_ranges_contain(
    doc: DocumentState,
    parts: Seq<PartModel>,
    n: int,
    k: int,
    range: Range,
)
    requires
        0 <= k < n <= parts.len(),
        part_ranges(doc, parts[k]).contains(range),
    ensures
        document_ranges(doc, parts, n).contains(range),
    decreases n,
{
    let own = part_ranges(doc, parts[n - 1]);
    let before = document_ranges(doc, parts, n - 1);
    if k == n - 1 {
        let i = choose|i: int| 0 <= i < own.len() && own[i] == range;
        assert((before + own)[before.len() + i] == range);
    } else {
        lemma_document_ranges_contain(doc, parts, n - 1, k, range);
        let i = choose|i: int| 0 <= i < before.len() && before[i] == range;
        assert((before + own)[i] == range);
    }
}

/// What one document contributes is among what all documents contribute.
pub proof fn lemma_gathered_contains(
    entries: Seq<DocumentEntry>,
    parts: Seq<PartModel>,
    n: int,
    e: int,
    k: int,
    range: Range,
)
    requires
        0 <= e < n <= entries.len(),
        0 <= k < parts.len(),
        part_ranges(entries[e].document, parts[k]).contains(range),
    ensures
        gathered(entries, parts, n).contains(LocationModel { uri: entries[e].uri@, range }),
    decreases n,
{
    let found = LocationModel { uri: entries[e].uri@, range };
    let own = located(
        entries[n - 1].uri@,
        document_ranges(entries[n - 1].document, parts, parts.len() as int),
    );
    let before = gathered(entries, parts, n - 1);
    if e == n - 1 {
        lemma_document_ranges_contain(entries[e].document, parts, parts.len() as int, k, range);
        lemma_located_contains(
            entries[e].uri@,
            document_ranges(entries[e].document, parts, parts.len() as int),
            range,
        );
        let i = choose|i: int| 0 <= i < own.len() && own[i] == found;
        assert((before + own)[before.len() + i] == found);
    } else {
        lemma_gathered_contains(entries, parts, n - 1, e, k, range);
        let i = choose|i: int| 0 <= i < before.len() && before[i] == found;
        assert((before + own)[i] == found);
    }
}

/// The range of a symbol among the symbols is among their ranges.
pub proof fn lemma_symbol_ranges_contain(symbols: Seq<AlSymbol>, symbol: AlSymbol, names: bool)
    requires
        symbols.contains(symbol),
    ensures
        symbol_ranges(symbols, names).contains(symbol_range(symbol, names)),
    decreases symbols.len(),
{
    let found = symbol_range(symbol, names);
    if symbols.last() == symbol {
        let all = symbol_ranges(symbols, names);
        assert(all[all.len() - 1] == found);
    } else {
        let i = choose|i: int| 0 <= i < symbols.len() && symbols[i] == symbol;
        assert(symbols.drop_last()[i] == symbol);
        lemma_symbol_ranges_contain(symbols.drop_last(), symbol, names);
        let before = symbol_ranges(symbols.drop_last(), names);
        let k = choose|k: int| 0 <= k < before.len() && before[k] == found;
        assert(symbol_ranges(symbols, names)[k] == found);
    }
}

} // verus!
