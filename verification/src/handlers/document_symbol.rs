//! Document symbols.

use crate::ast::{AlSymbol, OutlineKind};
use crate::handlers::{range_of_symbol, symbol_range};
use crate::protocol::Range;
use crate::state::{position_of_uri, DocumentEntry, WorldState};
use crate::text::copy_of;
use vstd::prelude::*;

verus! {

/// A symbol as an editor's outline shows it, with the symbols nested in it.
#[derive(Debug)]
pub struct DocumentSymbol {
    pub name: Vec<u8>,
    pub detail: Option<Vec<u8>>,
    pub kind: OutlineKind,
    pub range: Range,
    pub selection_range: Range,
    /// The nested symbols; none for a symbol without any.
    pub children: Option<Vec<DocumentSymbol>>,
}

/// The mathematical value of an outline entry.
pub struct OutlineModel {
    pub name: Seq<u8>,
    pub detail: Option<Seq<u8>>,
    pub kind: OutlineKind,
    pub range: Range,
    pub selection_range: Range,
    pub children: Option<Seq<OutlineModel>>,
}

/// The mathematical value of an outline entry.
pub open spec fn outline_model(entry: DocumentSymbol) -> OutlineModel
    decreases entry, 1int,
{
    OutlineModel {
        name: entry.name@,
        detail: match entry.detail {
            Some(d) => Some(d@),
            None => None,
        },
        kind: entry.kind,
        range: entry.range,
        selection_range: entry.selection_range,
        children: match entry.children {
            Some(c) => Some(outline_models(c@)),
            None => None,
        },
    }
}

/// The mathematical values of a sequence of outline entries.
pub open spec fn outline_models(entries: Seq<DocumentSymbol>) -> Seq<OutlineModel>
    decreases entries, 0int,
{
    if entries.len() == 0 {
        Seq::empty()
    } else {
        outline_models(entries.drop_last()).push(outline_model(entries.last()))
    }
}

impl View for DocumentSymbol {
    type V = OutlineModel;

    open spec fn view(&self) -> OutlineModel {
        outline_model(*self)
    }
}

/// The outline entry of a symbol: its name, its type as detail, its range,
/// and the entries of the symbols nested in it.
pub open spec fn outline_of(symbol: AlSymbol) -> OutlineModel
    decreases symbol, 1int, 0int,
{
    OutlineModel {
        name: symbol.name@,
        detail: match symbol.type_info {
            Some(t) => Some(t@),
            None => None,
        },
        kind: symbol.kind.outline(),
        range: symbol_range(symbol, false),
        selection_range: symbol_range(symbol, false),
        children: if symbol.children@.len() > 0 {
            Some(outlines_of(symbol.children@, symbol.children@.len() as int))
        } else {
            None
        },
    }
}

/// The outline entries of the first `n` symbols.
pub open spec fn outlines_of(symbols: Seq<AlSymbol>, n: int) -> Seq<OutlineModel>
    decreases symbols, 0int, n,
{
    if n <= 0 || n > symbols.len() {
        Seq::empty()
    } else {
        outlines_of(symbols, n - 1).push(outline_of(symbols[n - 1]))
    }
}

/// The answer to a request for document symbols: the outline of the
/// document; nothing for an unknown document.
pub open spec fn document_symbol_answer(entries: Seq<DocumentEntry>, uri: Seq<char>) -> Option<
    Seq<OutlineModel>,
> {
    match position_of_uri(entries, uri, 0) {
        Some(i) => Some(
            outlines_of(entries[i].document.table(), entries[i].document.table().len() as int),
        ),
        None => None,
    }
}

proof fn lemma_outline_models_push(entries: Seq<DocumentSymbol>, entry: DocumentSymbol)
    ensures
        outline_models(entries.push(entry)) == outline_models(entries).push(entry@),
{
    assert(entries.push(entry).drop_last() =~= entries);
}

fn symbols_to_document_symbols(symbols: &Vec<AlSymbol>) -> (r: Vec<DocumentSymbol>)
    ensures
        outline_models(r@) == outlines_of(symbols@, symbols@.len() as int),
    decreases symbols,
{
    let mut out: Vec<DocumentSymbol> = Vec::new();
    let mut i: usize = 0;
    while i < symbols.len()
        invariant
            i <= symbols.len(),
            outline_models(out@) == outlines_of(symbols@, i as int),
        decreases symbols.len() - i,
    {
        let entry = al_symbol_to_document_symbol(&symbols[i]);
        proof {
            lemma_outline_models_push(out@, entry);
        }
        out.push(entry);
        i += 1;
    }
    out
}

fn al_symbol_to_document_symbol(sym: &AlSymbol) -> (r: DocumentSymbol)
    ensures
        r@ == outline_of(*sym),
    decreases sym,
{
    let range = range_of_symbol(sym, false);
    let children = if sym.children.len() == 0 {
        None
    } else {
        Some(symbols_to_document_symbols(&sym.children))
    };
    DocumentSymbol {
        name: copy_of(sym.name.as_slice()),
        detail: match &sym.type_info {
            Some(t) => Some(copy_of(t.as_slice())),
            None => None,
        },
        kind: sym.kind.lsp_kind(),
        range,
        selection_range: range,
        children,
    }
}

/// The outline of a document.
pub fn handle_document_symbol(state: &WorldState, uri: &String) -> (r: Option<Vec<DocumentSymbol>>)
    ensures
        match r {
            Some(outline) => document_symbol_answer(state@, uri@) == Some(outline_models(outline@)),
            None => document_symbol_answer(state@, uri@) is None,
        },
{
    match state.get(uri.as_str()) {
        Some(doc) => Some(symbols_to_document_symbols(doc.symbols())),
        None => None,
    }
}

} // verus!
