//! Completion.

use crate::ast::{AlSymbol, AlSymbolKind};
use crate::protocol::Position;
use crate::rope::{byte_offset_of, lsp_position_to_byte_offset};
use crate::state::{position_of_uri, DocumentEntry, WorldState};
use crate::symbols::{al_keywords, keyword_list, reachable, targets};
use crate::text::{
    copy_of, is_word, lemma_trail_is, lowercase, lowercase_of, starts_with, trail, ByteSet,
};
use vstd::prelude::*;
use vstd::string::StringSliceAdditionalSpecFns;

verus! {

/// The kind under which an editor lists a completion.
#[derive(Clone, Copy, Debug, PartialEq, Eq, Structural)]
pub enum CompletionItemKind {
    Class,
    Function,
    Event,
    Variable,
    Field,
    Keyword,
    EnumMember,
}

/// A completion that the editor offers.
#[derive(Debug)]
pub struct CompletionItem {
    pub label: Vec<u8>,
    pub kind: CompletionItemKind,
    pub detail: Option<Vec<u8>>,
}

/// The mathematical value of a completion.
pub struct CompletionModel {
    pub label: Seq<u8>,
    pub kind: CompletionItemKind,
    pub detail: Option<Seq<u8>>,
}

impl View for CompletionItem {
    type V = CompletionModel;

    open spec fn view(&self) -> CompletionModel {
        CompletionModel {
            label: self.label@,
            kind: self.kind,
            detail: match self.detail {
                Some(d) => Some(d@),
                None => None,
            },
        }
    }
}

/// The mathematical values of a sequence of completions.
pub open spec fn completion_models(items: Seq<CompletionItem>) -> Seq<CompletionModel>
    decreases items.len(),
{
    if items.len() == 0 {
        Seq::empty()
    } else {
        completion_models(items.drop_last()).push(items.last()@)
    }
}

proof fn lemma_completion_models_push(items: Seq<CompletionItem>, item: CompletionItem)
    ensures
        completion_models(items.push(item)) == completion_models(items).push(item@),
{
    assert(items.push(item).drop_last() =~= items);
}

/// The word prefix before `offset`: the longest run of `[A-Za-z0-9_]` that
/// ends at the offset, or at the end of the text for an offset beyond it.
pub open spec fn word_prefix(source: Seq<u8>, offset: usize) -> Seq<u8> {
    let before = source.take(
        if offset <= source.len() {
            offset as int
        } else {
            source.len() as int
        },
    );
    before.skip(before.len() - trail(before, ByteSet::Word))
}

/// Extract the word prefix before the cursor position.
pub fn extract_prefix(source: &[u8], byte_offset: usize) -> (r: &[u8])
    ensures
        r@ == word_prefix(source@, byte_offset),
{
    let end = if byte_offset <= source.len() {
        byte_offset
    } else {
        source.len()
    };
    let before = vstd::slice::slice_subrange(source, 0, end);
    assert(before@ =~= source@.take(end as int));
    let mut n: usize = 0;
    while n < before.len() && is_word(before[before.len() - 1 - n])
        invariant
            n <= before.len(),
            forall|j: int|
                before@.len() - n <= j < before@.len() ==> ByteSet::Word.has(#[trigger] before@[j]),
        decreases before.len() - n,
    {
        n += 1;
    }
    proof {
        lemma_trail_is(before@, ByteSet::Word, n as int);
    }
    let r = vstd::slice::slice_subrange(before, before.len() - n, before.len());
    assert(r@ =~= before@.skip(before@.len() - n));
    r
}

/// The kind under which a symbol is offered.
pub open spec fn completion_kind(kind: AlSymbolKind) -> CompletionItemKind {
    match kind {
        AlSymbolKind::Object(_) => CompletionItemKind::Class,
        AlSymbolKind::Procedure => CompletionItemKind::Function,
        AlSymbolKind::Trigger => CompletionItemKind::Event,
        AlSymbolKind::Variable => CompletionItemKind::Variable,
        AlSymbolKind::Parameter => CompletionItemKind::Variable,
        AlSymbolKind::Field => CompletionItemKind::Field,
        AlSymbolKind::Key => CompletionItemKind::Keyword,
        AlSymbolKind::EnumValue => CompletionItemKind::EnumMember,
    }
}

/// Whether a name is offered for a prefix with the key `prefix`: every
/// name is offered for the empty prefix, else the names that begin with
/// the prefix, case aside.
pub open spec fn offered(prefix: Seq<u8>, name: Seq<u8>) -> bool {
    prefix.len() == 0 || prefix.is_prefix_of(lowercase_of(name))
}

/// The completions for the first `n` symbols.
pub open spec fn symbol_items(symbols: Seq<AlSymbol>, prefix: Seq<u8>, n: int) -> Seq<
    CompletionModel,
>
    decreases n,
{
    if n <= 0 || n > symbols.len() {
        Seq::empty()
    } else {
        let before = symbol_items(symbols, prefix, n - 1);
        let s = symbols[n - 1];
        if offered(prefix, s.name@) {
            before.push(
                CompletionModel {
                    label: s.name@,
                    kind: completion_kind(s.kind),
                    detail: match s.type_info {
                        Some(t) => Some(t@),
                        None => None,
                    },
                },
            )
        } else {
            before
        }
    }
}

/// The completions for the first `n` keywords.
pub open spec fn keyword_items(keywords: Seq<&'static str>, prefix: Seq<u8>, n: int) -> Seq<
    CompletionModel,
>
    decreases n,
{
    if n <= 0 || n > keywords.len() {
        Seq::empty()
    } else {
        let before = keyword_items(keywords, prefix, n - 1);
        let k = keywords[n - 1].spec_bytes();
        if offered(prefix, k) {
            before.push(
                CompletionModel { label: k, kind: CompletionItemKind::Keyword, detail: None },
            )
        } else {
            before
        }
    }
}

/// The answer to a completion request: the symbols in reach of the
/// position, then the keywords, each where it begins with the word before
/// the position; nothing where nothing is left.
pub open spec fn completion_answer(entries: Seq<DocumentEntry>, uri: Seq<char>, position: Position)
    -> Option<Seq<CompletionModel>> {
    match position_of_uri(entries, uri, 0) {
        Some(i) => {
            let doc = entries[i].document;
            match byte_offset_of(doc.text(), position) {
                Some(offset) => {
                    let prefix = lowercase_of(word_prefix(doc.text(), offset));
                    let symbols = reachable(doc.table(), offset);
                    let items = symbol_items(symbols, prefix, symbols.len() as int)
                        + keyword_items(keyword_list(), prefix, keyword_list().len() as int);
                    if items.len() > 0 {
                        Some(items)
                    } else {
                        None
                    }
                },
                None => None,
            }
        },
        None => None,
    }
}

fn is_offered(prefix: &[u8], name: &[u8]) -> (r: bool)
    ensures
        r == offered(prefix@, name@),
{
    if prefix.len() == 0 {
        return true;
    }
    let lower = lowercase(name);
    starts_with(lower.as_slice(), prefix)
}

/// The completions to offer at a position of a document.
pub fn handle_completion(state: &WorldState, uri: &String, position: Position) -> (r: Option<
    Vec<CompletionItem>,
>)
    ensures
        match r {
            Some(items) => completion_answer(state@, uri@, position) == Some(
                completion_models(items@),
            ),
            None => completion_answer(state@, uri@, position) is None,
        },
{
    let doc = match state.get(uri.as_str()) {
        Some(d) => d,
        None => {
            return None;
        },
    };
    let byte_offset = match lsp_position_to_byte_offset(doc.rope(), position) {
        Some(o) => o,
        None => {
            return None;
        },
    };
    let source = doc.source();
    let prefix = lowercase(extract_prefix(source.as_slice(), byte_offset));
    let mut items: Vec<CompletionItem> = Vec::new();
    let found = doc.symbol_table().reachable_symbols(byte_offset);
    let ghost symbols = targets(found@);
    let mut i: usize = 0;
    assert(completion_models(items@) =~= symbol_items(symbols, prefix@, 0));
    while i < found.len()
        invariant
            i <= found.len(),
            symbols == targets(found@),
            completion_models(items@) == symbol_items(symbols, prefix@, i as int),
        decreases found.len() - i,
    {
        let sym = found[i];
        if is_offered(prefix.as_slice(), sym.name.as_slice()) {
            let kind = match sym.kind {
                AlSymbolKind::Object(_) => CompletionItemKind::Class,
                AlSymbolKind::Procedure => CompletionItemKind::Function,
                AlSymbolKind::Trigger => CompletionItemKind::Event,
                AlSymbolKind::Variable => CompletionItemKind::Variable,
                AlSymbolKind::Parameter => CompletionItemKind::Variable,
                AlSymbolKind::Field => CompletionItemKind::Field,
                AlSymbolKind::Key => CompletionItemKind::Keyword,
                AlSymbolKind::EnumValue => CompletionItemKind::EnumMember,
            };
            let item = CompletionItem {
                label: copy_of(sym.name.as_slice()),
                kind,
                detail: match &sym.type_info {
                    Some(t) => Some(copy_of(t.as_slice())),
                    None => None,
                },
            };
            proof {
                lemma_completion_models_push(items@, item);
            }
            items.push(item);
        }
        i += 1;
    }
    let ghost first = completion_models(items@);
    let keywords = al_keywords();
    let mut k: usize = 0;
    assert(completion_models(items@) =~= first + keyword_items(keywords@, prefix@, 0));
    while k < keywords.len()
        invariant
            k <= keywords.len(),
            completion_models(items@) == first + keyword_items(keywords@, prefix@, k as int),
        decreases keywords.len() - k,
    {
        let word = keywords[k].as_bytes();
        let ghost before = keyword_items(keywords@, prefix@, k as int);
        if is_offered(prefix.as_slice(), word) {
            let item = CompletionItem {
                label: copy_of(word),
                kind: CompletionItemKind::Keyword,
                detail: None,
            };
            proof {
                lemma_completion_models_push(items@, item);
            }
            items.push(item);
            assert(completion_models(items@) =~= first + before.push(item@));
        }
        k += 1;
    }
    if items.len() == 0 {
        None
    } else {
        Some(items)
    }
}

} // verus!
