//! Workspace symbols.

use crate::ast::{AlSymbol, OutlineKind};
use crate::handlers::{range_of_symbol, symbol_range};
use crate::protocol::{Location, LocationModel};
use crate::state::{DocumentEntry, WorldState};
use crate::text::{contains, contains_bytes, copy_of, lowercase, lowercase_of};
use vstd::prelude::*;

verus! {

/// A symbol of the workspace with the place of its declaration.
#[derive(Debug)]
pub struct SymbolInformation {
    pub name: Vec<u8>,
    pub kind: OutlineKind,
    pub location: Location,
}

/// The mathematical value of a workspace symbol.
pub struct InformationModel {
    pub name: Seq<u8>,
    pub kind: OutlineKind,
    pub location: LocationModel,
}

impl View for SymbolInformation {
    type V = InformationModel;

    open spec fn view(&self) -> InformationModel {
        InformationModel { name: self.name@, kind: self.kind, location: self.location@ }
    }
}

/// The mathematical values of a sequence of workspace symbols.
pub open spec fn information_models(items: Seq<SymbolInformation>) -> Seq<InformationModel>
    decreases items.len(),
{
    if items.len() == 0 {
        Seq::empty()
    } else {
        information_models(items.drop_last()).push(items.last()@)
    }
}

proof fn lemma_information_models_push(items: Seq<SymbolInformation>, item: SymbolInformation)
    ensures
        information_models(items.push(item)) == information_models(items).push(item@),
{
    assert(items.push(item).drop_last() =~= items);
}

/// Whether a name answers a query with the key `query`: every name answers
/// the empty query, else the names that hold the query, case aside.
pub open spec fn answers(query: Seq<u8>, name: Seq<u8>) -> bool {
    query.len() == 0 || contains_bytes(lowercase_of(name), query)
}

/// The symbol itself, where its name answers the query.
pub open spec fn own_match(symbol: AlSymbol, uri: Seq<char>, query: Seq<u8>) -> Seq<
    InformationModel,
> {
    if answers(query, symbol.name@) {
        seq![
            InformationModel {
                name: symbol.name@,
                kind: symbol.kind.outline(),
                location: LocationModel { uri, range: symbol_range(symbol, false) },
            },
        ]
    } else {
        Seq::empty()
    }
}

/// The symbols that answer the query among a symbol and what is nested in
/// it, the symbol before what is nested in it.
pub open spec fn matches_of(symbol: AlSymbol, uri: Seq<char>, query: Seq<u8>) -> Seq<
    InformationModel,
>
    decreases symbol, 1int, 0int,
{
    own_match(symbol, uri, query) + matches_in(
        symbol.children@,
        uri,
        query,
        symbol.children@.len() as int,
    )
}

/// The symbols that answer the query among the first `n` symbols and what
/// is nested in them.
pub open spec fn matches_in(symbols: Seq<AlSymbol>, uri: Seq<char>, query: Seq<u8>, n: int) -> Seq<
    InformationModel,
>
    decreases symbols, 0int, n,
{
    if n <= 0 || n > symbols.len() {
        Seq::empty()
    } else {
        matches_in(symbols, uri, query, n - 1) + matches_of(symbols[n - 1], uri, query)
    }
}

/// The symbols that answer the query in the first `n` documents.
pub open spec fn workspace_matches(entries: Seq<DocumentEntry>, query: Seq<u8>, n: int) -> Seq<
    InformationModel,
>
    decreases n,
{
    if n <= 0 || n > entries.len() {
        Seq::empty()
    } else {
        workspace_matches(entries, query, n - 1) + matches_in(
            entries[n - 1].document.table(),
            entries[n - 1].uri@,
            query,
            entries[n - 1].document.table().len() as int,
        )
    }
}

/// The answer to a request for workspace symbols: every symbol of every
/// document whose name holds the query, case aside, as a flat list;
/// nothing where there is none.
pub open spec fn workspace_symbol_answer(entries: Seq<DocumentEntry>, query: Seq<u8>) -> Option<
    Seq<InformationModel>,
> {
    let found = workspace_matches(entries, lowercase_of(query), entries.len() as int);
    if found.len() > 0 {
        Some(found)
    } else {
        None
    }
}

fn collect_all_flat(
    symbols: &Vec<AlSymbol>,
    uri: &String,
    query: &[u8],
    result: &mut Vec<SymbolInformation>,
)
    ensures
        information_models(final(result)@) == information_models(old(result)@) + matches_in(
            symbols@,
            uri@,
            query@,
            symbols@.len() as int,
        ),
    decreases symbols,
{
    let mut i: usize = 0;
    assert(information_models(result@) =~= information_models(old(result)@) + matches_in(
        symbols@,
        uri@,
        query@,
        0,
    ));
    while i < symbols.len()
        invariant
            i <= symbols.len(),
            information_models(result@) == information_models(old(result)@) + matches_in(
                symbols@,
                uri@,
                query@,
                i as int,
            ),
        decreases symbols.len() - i,
    {
        let ghost before = matches_in(symbols@, uri@, query@, i as int);
        collect_symbols_flat(&symbols[i], uri, query, result);
        assert(information_models(result@) =~= information_models(old(result)@) + (before
            + matches_of(symbols@[i as int], uri@, query@)));
        i += 1;
    }
}

fn collect_symbols_flat(
    sym: &AlSymbol,
    uri: &String,
    query: &[u8],
    result: &mut Vec<SymbolInformation>,
)
    ensures
        information_models(final(result)@) == information_models(old(result)@) + matches_of(
            *sym,
            uri@,
            query@,
        ),
    decreases sym,
{
    let ghost start = information_models(result@);
    let matched = if query.len() == 0 {
        true
    } else {
        let lower = lowercase(sym.name.as_slice());
        contains(lower.as_slice(), query)
    };
    if matched {
        let item = SymbolInformation {
            name: copy_of(sym.name.as_slice()),
            kind: sym.kind.lsp_kind(),
            location: Location { uri: uri.clone(), range: range_of_symbol(sym, false) },
        };
        proof {
            lemma_information_models_push(result@, item);
        }
        result.push(item);
    }
    assert(information_models(result@) =~= start + own_match(*sym, uri@, query@));
    collect_all_flat(&sym.children, uri, query, result);
    assert(information_models(result@) =~= start + (own_match(*sym, uri@, query@) + matches_in(
        sym.children@,
        uri@,
        query@,
        sym.children@.len() as int,
    )));
}

/// The symbols of the workspace whose name holds the query.
pub fn handle_workspace_symbol(state: &WorldState, query: &[u8]) -> (r: Option<
    Vec<SymbolInformation>,
>)
    ensures
        match r {
            Some(found) => workspace_symbol_answer(state@, query@) == Some(
                information_models(found@),
            ),
            None => workspace_symbol_answer(state@, query@) is None,
        },
{
    let key = lowercase(query);
    let count = state.document_count();
    let mut symbols: Vec<SymbolInformation> = Vec::new();
    let mut i: usize = 0;
    assert(information_models(symbols@) =~= workspace_matches(state@, key@, 0));
    while i < count
        invariant
            i <= count,
            count == state@.len(),
            information_models(symbols@) == workspace_matches(state@, key@, i as int),
        decreases count - i,
    {
        if let Some((uri, document)) = state.entry(i) {
            collect_all_flat(document.symbols(), uri, key.as_slice(), &mut symbols);
        }
        i += 1;
    }
    if symbols.len() == 0 {
        None
    } else {
        Some(symbols)
    }
}

} // verus!
