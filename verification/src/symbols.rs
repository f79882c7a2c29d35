//! The symbol table of a document: scoped and global lookups by name, and the
//! relation between interface methods and the procedures that implement them.
//!
//! Names are compared case-insensitively: both sides are put in lower case.
//! A lower-case name is called a key.

use crate::ast::{AlObjectKind, AlSymbol, AlSymbolKind};
use crate::text::{append, bytes_eq, has_key, lowercase, lowercase_of};
use vstd::string::StringSliceAdditionalSpecFns;
use vstd::prelude::*;

verus! {

/// The symbols among `symbols` whose key is `key`, in order.
pub open spec fn keyed(symbols: Seq<AlSymbol>, key: Seq<u8>) -> Seq<AlSymbol>
    decreases symbols.len(),
{
    if symbols.len() == 0 {
        Seq::empty()
    } else {
        let before = keyed(symbols.drop_last(), key);
        if lowercase_of(symbols.last().name@) == key {
            before.push(symbols.last())
        } else {
            before
        }
    }
}

/// The procedures among `symbols` whose key is `key`, in order.
pub open spec fn keyed_procedures(symbols: Seq<AlSymbol>, key: Seq<u8>) -> Seq<AlSymbol>
    decreases symbols.len(),
{
    if symbols.len() == 0 {
        Seq::empty()
    } else {
        let before = keyed_procedures(symbols.drop_last(), key);
        if symbols.last().is_procedure() && lowercase_of(symbols.last().name@) == key {
            before.push(symbols.last())
        } else {
            before
        }
    }
}

/// Index of the first procedure at or after `from` whose key is `key`.
pub open spec fn first_procedure(symbols: Seq<AlSymbol>, key: Seq<u8>, from: int) -> Option<int>
    decreases symbols.len() - from,
{
    if from < 0 || from >= symbols.len() {
        None
    } else if symbols[from].is_procedure() && lowercase_of(symbols[from].name@) == key {
        Some(from)
    } else {
        first_procedure(symbols, key, from + 1)
    }
}

/// Index of the first procedure at or after `from` whose range holds `offset`.
pub open spec fn procedure_covering(symbols: Seq<AlSymbol>, offset: usize, from: int) -> Option<
    int,
>
    decreases symbols.len() - from,
{
    if from < 0 || from >= symbols.len() {
        None
    } else if symbols[from].is_procedure() && symbols[from].covers(offset) {
        Some(from)
    } else {
        procedure_covering(symbols, offset, from + 1)
    }
}

/// A symbol and everything nested in it, the symbol first.
pub open spec fn flatten(symbol: AlSymbol) -> Seq<AlSymbol>
    decreases symbol, 1int, 0int,
{
    seq![symbol] + flatten_first(symbol.children@, symbol.children@.len() as int)
}

/// The first `n` of `symbols`, each followed by everything nested in it.
pub open spec fn flatten_first(symbols: Seq<AlSymbol>, n: int) -> Seq<AlSymbol>
    decreases symbols, 0int, n,
{
    if n <= 0 || n > symbols.len() {
        Seq::empty()
    } else {
        flatten_first(symbols, n - 1) + flatten(symbols[n - 1])
    }
}

/// Every symbol of a document in source order: each symbol before what is
/// nested in it.
pub open spec fn flatten_all(symbols: Seq<AlSymbol>) -> Seq<AlSymbol> {
    flatten_first(symbols, symbols.len() as int)
}

/// Whether one of `names` has the key `key`.
pub open spec fn lists_key(names: Seq<Vec<u8>>, key: Seq<u8>) -> bool {
    exists|i: int| 0 <= i < names.len() && lowercase_of(#[trigger] names[i]@) == key
}

/// The symbols that the references point to.
pub open spec fn targets(refs: Seq<&AlSymbol>) -> Seq<AlSymbol> {
    Seq::new(refs.len(), |i: int| *refs[i])
}

/// The kind of object in which a procedure is looked for.
#[derive(Clone, Copy, Debug, PartialEq, Eq, Structural)]
pub enum Owner {
    /// An interface.
    Interface,
    /// An object whose header names at least one interface.
    Implementer,
    /// Anything but an interface.
    Concrete,
}

impl Owner {
    /// Whether `symbol` is an object of this kind.
    pub open spec fn admits(self, symbol: AlSymbol) -> bool {
        match self {
            Owner::Interface => symbol.is_interface(),
            Owner::Implementer => symbol.implements@.len() > 0,
            Owner::Concrete => !symbol.is_interface(),
        }
    }
}

/// A procedure found inside an object: the indices of the object and of the
/// procedure among the object's children.
#[derive(Clone, Copy, Debug, PartialEq, Eq, Structural)]
pub struct Member {
    pub object: usize,
    pub child: usize,
}

/// The first procedure whose range holds `offset`, in the first object at or
/// after `from` that is of kind `owner`, holds `offset` and has such a
/// procedure.
pub open spec fn procedure_at(symbols: Seq<AlSymbol>, offset: usize, owner: Owner, from: int)
    -> Option<Member>
    decreases symbols.len() - from,
{
    if from < 0 || from >= symbols.len() {
        None
    } else if owner.admits(symbols[from]) && symbols[from].covers(offset) {
        match procedure_covering(symbols[from].children@, offset, 0) {
            Some(j) => Some(Member { object: from as usize, child: j as usize }),
            None => procedure_at(symbols, offset, owner, from + 1),
        }
    } else {
        procedure_at(symbols, offset, owner, from + 1)
    }
}

/// The first procedure with key `method`, in the first object at or after
/// `from` that has the key `object`, is an interface where `interface` is
/// set, and has such a procedure.
pub open spec fn procedure_in(
    symbols: Seq<AlSymbol>,
    object: Seq<u8>,
    method: Seq<u8>,
    interface: bool,
    from: int,
) -> Option<Member>
    decreases symbols.len() - from,
{
    if from < 0 || from >= symbols.len() {
        None
    } else {
        let s = symbols[from];
        if (if interface {
            s.is_interface()
        } else {
            s.kind is Object
        }) && lowercase_of(s.name@) == object {
            match first_procedure(s.children@, method, 0) {
                Some(j) => Some(Member { object: from as usize, child: j as usize }),
                None => procedure_in(symbols, object, method, interface, from + 1),
            }
        } else {
            procedure_in(symbols, object, method, interface, from + 1)
        }
    }
}

/// Index of the first object at or after `from` whose key is `key`.
pub open spec fn first_object(symbols: Seq<AlSymbol>, key: Seq<u8>, from: int) -> Option<int>
    decreases symbols.len() - from,
{
    if from < 0 || from >= symbols.len() {
        None
    } else if symbols[from].kind is Object && lowercase_of(symbols[from].name@) == key {
        Some(from)
    } else {
        first_object(symbols, key, from + 1)
    }
}

/// The procedures with key `method` in the first `n` of `symbols` whose
/// header names an interface with key `interface`.
pub open spec fn implementations(
    symbols: Seq<AlSymbol>,
    interface: Seq<u8>,
    method: Seq<u8>,
    n: int,
) -> Seq<AlSymbol>
    decreases n,
{
    if n <= 0 || n > symbols.len() {
        Seq::empty()
    } else {
        let before = implementations(symbols, interface, method, n - 1);
        if lists_key(symbols[n - 1].implements@, interface) {
            before + keyed_procedures(symbols[n - 1].children@, method)
        } else {
            before
        }
    }
}

/// The locals with key `key` of the first member at or after `from` whose
/// range holds `offset` and that has such locals.
pub open spec fn local_hits(members: Seq<AlSymbol>, key: Seq<u8>, offset: usize, from: int) -> Seq<
    AlSymbol,
>
    decreases members.len() - from,
{
    if from < 0 || from >= members.len() {
        Seq::empty()
    } else if members[from].covers(offset) && keyed(members[from].children@, key).len() > 0 {
        keyed(members[from].children@, key)
    } else {
        local_hits(members, key, offset, from + 1)
    }
}

/// What a name resolves to at `offset`, looking at the objects from `from`
/// on: inside an object whose range holds the offset, the locals of the
/// routine round the offset come first, then the members of the object;
/// the first layer that knows the name wins. A name that no such layer
/// knows resolves to every symbol of the document with that name.
pub open spec fn scoped(symbols: Seq<AlSymbol>, key: Seq<u8>, offset: usize, from: int) -> Seq<
    AlSymbol,
>
    decreases symbols.len() - from,
{
    if from < 0 || from >= symbols.len() {
        keyed(flatten_all(symbols), key)
    } else if symbols[from].covers(offset) {
        let locals = local_hits(symbols[from].children@, key, offset, 0);
        let members = keyed(symbols[from].children@, key);
        if locals.len() > 0 {
            locals
        } else if members.len() > 0 {
            members
        } else {
            scoped(symbols, key, offset, from + 1)
        }
    } else {
        scoped(symbols, key, offset, from + 1)
    }
}

/// The locals of the first `n` members whose range holds `offset`.
pub open spec fn locals_round(members: Seq<AlSymbol>, offset: usize, n: int) -> Seq<AlSymbol>
    decreases n,
{
    if n <= 0 || n > members.len() {
        Seq::empty()
    } else {
        let before = locals_round(members, offset, n - 1);
        if members[n - 1].covers(offset) {
            before + members[n - 1].children@
        } else {
            before
        }
    }
}

/// What is in reach inside the first `n` objects: for each object whose
/// range holds `offset`, the locals round the offset, then the members of
/// the object, then the object itself.
pub open spec fn reachable_inside(symbols: Seq<AlSymbol>, offset: usize, n: int) -> Seq<AlSymbol>
    decreases n,
{
    if n <= 0 || n > symbols.len() {
        Seq::empty()
    } else {
        let before = reachable_inside(symbols, offset, n - 1);
        let s = symbols[n - 1];
        if s.covers(offset) {
            before + locals_round(s.children@, offset, s.children@.len() as int) + s.children@
                + seq![s]
        } else {
            before
        }
    }
}

/// What is in reach at `offset`: what is in reach inside the objects round
/// the offset; outside every object, all objects of the document.
pub open spec fn reachable(symbols: Seq<AlSymbol>, offset: usize) -> Seq<AlSymbol> {
    let inside = reachable_inside(symbols, offset, symbols.len() as int);
    if inside.len() > 0 {
        inside
    } else {
        symbols
    }
}

impl AlSymbol {
    /// Whether the symbol's byte range, both ends included, holds `offset`.
    pub open spec fn covers(&self, offset: usize) -> bool {
        self.start_byte <= offset && offset <= self.end_byte
    }

    /// Whether the symbol is an interface.
    pub open spec fn is_interface(&self) -> bool {
        self.kind == AlSymbolKind::Object(AlObjectKind::Interface)
    }

    /// Whether the symbol is a procedure.
    pub open spec fn is_procedure(&self) -> bool {
        self.kind == AlSymbolKind::Procedure
    }

    /// Whether the symbol's byte range, both ends included, holds `offset`.
    pub fn contains_offset(&self, offset: usize) -> (r: bool)
        ensures
            r == self.covers(offset),
    {
        self.start_byte <= offset && offset <= self.end_byte
    }

    /// Whether the symbol is an interface.
    pub fn has_interface_kind(&self) -> (r: bool)
        ensures
            r == self.is_interface(),
    {
        match self.kind {
            AlSymbolKind::Object(AlObjectKind::Interface) => true,
            _ => false,
        }
    }

    /// Whether the symbol is an object.
    pub fn has_object_kind(&self) -> (r: bool)
        ensures
            r == (self.kind is Object),
    {
        match self.kind {
            AlSymbolKind::Object(_) => true,
            _ => false,
        }
    }

    /// Whether the symbol is a procedure.
    pub fn has_procedure_kind(&self) -> (r: bool)
        ensures
            r == self.is_procedure(),
    {
        match self.kind {
            AlSymbolKind::Procedure => true,
            _ => false,
        }
    }

    /// Whether the object's header names an interface with the key `key`.
    pub fn implements_key(&self, key: &[u8]) -> (r: bool)
        ensures
            r == lists_key(self.implements@, key@),
    {
        let mut i: usize = 0;
        while i < self.implements.len()
            invariant
                i <= self.implements.len(),
                forall|j: int| 0 <= j < i ==> lowercase_of(#[trigger] self.implements@[j]@) != key@,
            decreases self.implements.len() - i,
        {
            if has_key(self.implements[i].as_slice(), key) {
                return true;
            }
            i += 1;
        }
        false
    }

    /// Index of the first procedure among the children whose key is `key`.
    pub fn procedure_index(&self, key: &[u8]) -> (r: Option<usize>)
        ensures
            match r {
                Some(j) => first_procedure(self.children@, key@, 0) == Some(j as int) && j
                    < self.children@.len(),
                None => first_procedure(self.children@, key@, 0) is None,
            },
    {
        let mut j: usize = 0;
        while j < self.children.len()
            invariant
                j <= self.children.len(),
                first_procedure(self.children@, key@, 0) == first_procedure(
                    self.children@,
                    key@,
                    j as int,
                ),
            decreases self.children.len() - j,
        {
            if self.children[j].has_procedure_kind() && has_key(
                self.children[j].name.as_slice(),
                key,
            ) {
                return Some(j);
            }
            j += 1;
        }
        None
    }

    /// Index of the first procedure among the children whose range holds `offset`.
    pub fn procedure_index_at(&self, offset: usize) -> (r: Option<usize>)
        ensures
            match r {
                Some(j) => procedure_covering(self.children@, offset, 0) == Some(j as int) && j
                    < self.children@.len(),
                None => procedure_covering(self.children@, offset, 0) is None,
            },
    {
        let mut j: usize = 0;
        while j < self.children.len()
            invariant
                j <= self.children.len(),
                procedure_covering(self.children@, offset, 0) == procedure_covering(
                    self.children@,
                    offset,
                    j as int,
                ),
            decreases self.children.len() - j,
        {
            if self.children[j].has_procedure_kind() && self.children[j].contains_offset(offset) {
                return Some(j);
            }
            j += 1;
        }
        None
    }
}

/// The symbols behind references with one more reference.
pub proof fn lemma_targets_push(refs: Seq<&AlSymbol>, symbol: &AlSymbol)
    ensures
        targets(refs.push(symbol)) == targets(refs).push(*symbol),
{
    assert(targets(refs.push(symbol)) =~= targets(refs).push(*symbol));
}

/// Appends references to all of `symbols`.
pub fn push_all<'a>(out: &mut Vec<&'a AlSymbol>, symbols: &'a Vec<AlSymbol>)
    ensures
        targets(final(out)@) == targets(old(out)@) + symbols@,
{
    let mut i: usize = 0;
    assert(targets(out@) =~= targets(old(out)@) + symbols@.take(0));
    while i < symbols.len()
        invariant
            i <= symbols.len(),
            targets(out@) == targets(old(out)@) + symbols@.take(i as int),
        decreases symbols.len() - i,
    {
        proof {
            lemma_targets_push(out@, &symbols@[i as int]);
        }
        out.push(&symbols[i]);
        assert(targets(out@) =~= targets(old(out)@) + symbols@.take(i + 1));
        i += 1;
    }
    assert(symbols@.take(symbols@.len() as int) =~= symbols@);
}

/// Appends the symbols among `symbols` whose key is `key`.
pub fn push_keyed<'a>(out: &mut Vec<&'a AlSymbol>, symbols: &'a Vec<AlSymbol>, key: &[u8])
    ensures
        targets(final(out)@) == targets(old(out)@) + keyed(symbols@, key@),
{
    let mut i: usize = 0;
    assert(symbols@.take(0) =~= Seq::empty());
    assert(targets(out@) =~= targets(old(out)@) + keyed(symbols@.take(0), key@));
    while i < symbols.len()
        invariant
            i <= symbols.len(),
            targets(out@) == targets(old(out)@) + keyed(symbols@.take(i as int), key@),
        decreases symbols.len() - i,
    {
        let ghost before = keyed(symbols@.take(i as int), key@);
        assert(symbols@.take(i + 1).drop_last() =~= symbols@.take(i as int));
        if has_key(symbols[i].name.as_slice(), key) {
            proof {
                lemma_targets_push(out@, &symbols@[i as int]);
            }
            out.push(&symbols[i]);
            assert(targets(out@) =~= targets(old(out)@) + before.push(symbols@[i as int]));
        }
        i += 1;
    }
    assert(symbols@.take(symbols@.len() as int) =~= symbols@);
}

/// Appends the procedures among `symbols` whose key is `key`.
pub fn push_keyed_procedures<'a>(
    out: &mut Vec<&'a AlSymbol>,
    symbols: &'a Vec<AlSymbol>,
    key: &[u8],
)
    ensures
        targets(final(out)@) == targets(old(out)@) + keyed_procedures(symbols@, key@),
{
    let mut i: usize = 0;
    assert(symbols@.take(0) =~= Seq::empty());
    assert(targets(out@) =~= targets(old(out)@) + keyed_procedures(symbols@.take(0), key@));
    while i < symbols.len()
        invariant
            i <= symbols.len(),
            targets(out@) == targets(old(out)@) + keyed_procedures(symbols@.take(i as int), key@),
        decreases symbols.len() - i,
    {
        let ghost before = keyed_procedures(symbols@.take(i as int), key@);
        assert(symbols@.take(i + 1).drop_last() =~= symbols@.take(i as int));
        if symbols[i].has_procedure_kind() && has_key(symbols[i].name.as_slice(), key) {
            proof {
                lemma_targets_push(out@, &symbols@[i as int]);
            }
            out.push(&symbols[i]);
            assert(targets(out@) =~= targets(old(out)@) + before.push(symbols@[i as int]));
        }
        i += 1;
    }
    assert(symbols@.take(symbols@.len() as int) =~= symbols@);
}

/// The symbols among `symbols` whose key is `key`.
pub fn collect_keyed<'a>(symbols: &'a Vec<AlSymbol>, key: &[u8]) -> (out: Vec<&'a AlSymbol>)
    ensures
        targets(out@) == keyed(symbols@, key@),
{
    let mut out: Vec<&AlSymbol> = Vec::new();
    assert(targets(out@) =~= Seq::empty());
    push_keyed(&mut out, symbols, key);
    assert(targets(out@) =~= keyed(symbols@, key@));
    out
}

/// A reference into the symbol tree.
#[derive(Debug, Clone)]
pub struct SymbolRef {
    /// Index into the top-level symbols.
    pub object_idx: usize,
    /// Path of child indices to reach this symbol, empty for top-level.
    pub child_path: Vec<usize>,
}

/// One line of the index: a key and where the symbol with that key stands.
#[derive(Debug)]
pub struct IndexEntry {
    pub key: Vec<u8>,
    pub target: SymbolRef,
}

/// The mathematical value of a line of the index.
pub struct Listing {
    pub key: Seq<u8>,
    pub object: int,
    pub path: Seq<usize>,
}

/// A case-insensitive index of symbols within a document.
///
/// The table owns the symbols of a document and an index that lists, for
/// every symbol in source order, its key and its place in the tree. The index
/// always matches the symbols: a table is built once and never changed.
#[derive(Debug)]
pub struct DocumentSymbolTable {
    pub(crate) symbols: Vec<AlSymbol>,
    pub(crate) index: Vec<IndexEntry>,
}

impl View for IndexEntry {
    type V = Listing;

    open spec fn view(&self) -> Listing {
        Listing {
            key: self.key@,
            object: self.target.object_idx as int,
            path: self.target.child_path@,
        }
    }
}

/// The mathematical values of the lines of an index.
pub open spec fn listings(entries: Seq<IndexEntry>) -> Seq<Listing>
    decreases entries.len(),
{
    if entries.len() == 0 {
        Seq::empty()
    } else {
        listings(entries.drop_last()).push(entries.last()@)
    }
}

/// The symbol that `path` leads to from `symbol`.
pub open spec fn walk(symbol: AlSymbol, path: Seq<usize>) -> Option<AlSymbol>
    decreases path.len(),
{
    if path.len() == 0 {
        Some(symbol)
    } else if path[0] < symbol.children@.len() {
        walk(symbol.children@[path[0] as int], path.drop_first())
    } else {
        None
    }
}

/// The symbol that stands at `path` below object `object`.
pub open spec fn symbol_at(symbols: Seq<AlSymbol>, object: int, path: Seq<usize>) -> Option<
    AlSymbol,
> {
    if 0 <= object < symbols.len() {
        walk(symbols[object], path)
    } else {
        None
    }
}

/// The index lines of a symbol that stands at `path` below object `object`,
/// and of everything nested in it.
pub open spec fn entries_of(symbol: AlSymbol, object: int, path: Seq<usize>) -> Seq<Listing>
    decreases symbol, 1int, 0int,
{
    seq![Listing { key: lowercase_of(symbol.name@), object, path }] + child_entries(
        symbol.children@,
        symbol.children@.len() as int,
        object,
        path,
    )
}

/// The index lines of the first `n` of the children of the symbol at `path`.
pub open spec fn child_entries(children: Seq<AlSymbol>, n: int, object: int, path: Seq<usize>)
    -> Seq<Listing>
    decreases children, 0int, n,
{
    if n <= 0 || n > children.len() {
        Seq::empty()
    } else {
        child_entries(children, n - 1, object, path) + entries_of(
            children[n - 1],
            object,
            path.push((n - 1) as usize),
        )
    }
}

/// The index lines of the first `n` objects of a document.
pub open spec fn table_entries(symbols: Seq<AlSymbol>, n: int) -> Seq<Listing>
    decreases n,
{
    if n <= 0 || n > symbols.len() {
        Seq::empty()
    } else {
        table_entries(symbols, n - 1) + entries_of(symbols[n - 1], n - 1, Seq::empty())
    }
}

/// The index of a document: one line per symbol, in source order.
pub open spec fn index_of(symbols: Seq<AlSymbol>) -> Seq<Listing> {
    table_entries(symbols, symbols.len() as int)
}

/// Line `k` of `entries` stands for symbol `k` of `flat`, found from `root`.
pub open spec fn lines_match(entries: Seq<Listing>, flat: Seq<AlSymbol>, object: int, root: AlSymbol)
    -> bool {
    &&& entries.len() == flat.len()
    &&& forall|k: int|
        #![trigger entries[k]]
        0 <= k < entries.len() ==> {
            &&& entries[k].object == object
            &&& entries[k].key == lowercase_of(flat[k].name@)
            &&& walk(root, entries[k].path) == Some(flat[k])
        }
}

proof fn lemma_walk_push(root: AlSymbol, path: Seq<usize>, parent: AlSymbol, i: usize)
    requires
        walk(root, path) == Some(parent),
        i < parent.children@.len(),
    ensures
        walk(root, path.push(i)) == Some(parent.children@[i as int]),
    decreases path.len(),
{
    if path.len() == 0 {
        assert(path.push(i).drop_first() =~= Seq::<usize>::empty());
        assert(walk(root.children@[i as int], Seq::<usize>::empty()) == Some(
            root.children@[i as int],
        ));
    } else {
        assert(path.push(i).drop_first() =~= path.drop_first().push(i));
        lemma_walk_push(root.children@[path[0] as int], path.drop_first(), parent, i);
    }
}

proof fn lemma_entries_of(symbol: AlSymbol, object: int, path: Seq<usize>, root: AlSymbol)
    requires
        walk(root, path) == Some(symbol),
    ensures
        lines_match(entries_of(symbol, object, path), flatten(symbol), object, root),
    decreases symbol, 1int, 0int,
{
    lemma_child_entries(symbol, symbol.children@.len() as int, object, path, root);
}

proof fn lemma_child_entries(parent: AlSymbol, n: int, object: int, path: Seq<usize>, root: AlSymbol)
    requires
        walk(root, path) == Some(parent),
        0 <= n <= parent.children@.len(),
    ensures
        lines_match(
            child_entries(parent.children@, n, object, path),
            flatten_first(parent.children@, n),
            object,
            root,
        ),
    decreases parent, 0int, n,
{
    if n > 0 {
        assert(parent.children@.len() == parent.children.len());
        lemma_child_entries(parent, n - 1, object, path, root);
        lemma_walk_push(root, path, parent, (n - 1) as usize);
        lemma_entries_of(parent.children@[n - 1], object, path.push((n - 1) as usize), root);
    }
}

/// Every line of the index names a symbol of the document, and the lines
/// list the symbols in source order.
pub proof fn lemma_index(symbols: Seq<AlSymbol>, n: int)
    requires
        0 <= n <= symbols.len(),
    ensures
        table_entries(symbols, n).len() == flatten_first(symbols, n).len(),
        forall|k: int|
            #![trigger table_entries(symbols, n)[k]]
            0 <= k < table_entries(symbols, n).len() ==> {
                &&& table_entries(symbols, n)[k].key == lowercase_of(
                    flatten_first(symbols, n)[k].name@,
                )
                &&& symbol_at(
                    symbols,
                    table_entries(symbols, n)[k].object,
                    table_entries(symbols, n)[k].path,
                ) == Some(flatten_first(symbols, n)[k])
            },
    decreases n,
{
    if n > 0 {
        lemma_index(symbols, n - 1);
        lemma_entries_of(symbols[n - 1], n - 1, Seq::empty(), symbols[n - 1]);
    }
}

proof fn lemma_listings_push(entries: Seq<IndexEntry>, entry: IndexEntry)
    ensures
        listings(entries.push(entry)) == listings(entries).push(entry@),
{
    assert(entries.push(entry).drop_last() =~= entries);
}

/// The values of the lines of an index, line by line.
pub proof fn lemma_listings(entries: Seq<IndexEntry>)
    ensures
        listings(entries).len() == entries.len(),
        forall|i: int| 0 <= i < entries.len() ==> #[trigger] listings(entries)[i] == entries[i]@,
    decreases entries.len(),
{
    if entries.len() > 0 {
        lemma_listings(entries.drop_last());
    }
}

/// The symbols with a key among one more symbol.
pub proof fn lemma_keyed_take(symbols: Seq<AlSymbol>, key: Seq<u8>, k: int)
    requires
        0 <= k < symbols.len(),
    ensures
        keyed(symbols.take(k + 1), key) == if lowercase_of(symbols[k].name@) == key {
            keyed(symbols.take(k), key).push(symbols[k])
        } else {
            keyed(symbols.take(k), key)
        },
{
    assert(symbols.take(k + 1).drop_last() =~= symbols.take(k));
}

fn insert_into_index(
    index: &mut Vec<IndexEntry>,
    sym: &AlSymbol,
    object_idx: usize,
    parent_path: &Vec<usize>,
)
    ensures
        listings(final(index)@) == listings(old(index)@) + entries_of(
            *sym,
            object_idx as int,
            parent_path@,
        ),
    decreases sym,
{
    let entry = IndexEntry {
        key: lowercase(sym.name.as_slice()),
        target: SymbolRef {
            object_idx,
            child_path: vstd::slice::slice_to_vec(parent_path.as_slice()),
        },
    };
    proof {
        lemma_listings_push(index@, entry);
    }
    index.push(entry);
    let ghost head = listings(old(index)@) + seq![
        Listing { key: lowercase_of(sym.name@), object: object_idx as int, path: parent_path@ },
    ];
    assert(listings(index@) =~= head + child_entries(
        sym.children@,
        0,
        object_idx as int,
        parent_path@,
    ));
    let mut i: usize = 0;
    while i < sym.children.len()
        invariant
            i <= sym.children.len(),
            listings(index@) == head + child_entries(
                sym.children@,
                i as int,
                object_idx as int,
                parent_path@,
            ),
        decreases sym.children.len() - i,
    {
        let mut child_path = vstd::slice::slice_to_vec(parent_path.as_slice());
        child_path.push(i);
        let ghost before = child_entries(sym.children@, i as int, object_idx as int, parent_path@);
        insert_into_index(index, &sym.children[i], object_idx, &child_path);
        assert(listings(index@) =~= head + (before + entries_of(
            sym.children@[i as int],
            object_idx as int,
            parent_path@.push(i),
        )));
        i += 1;
    }
    assert(listings(index@) =~= listings(old(index)@) + entries_of(
        *sym,
        object_idx as int,
        parent_path@,
    ));
}

impl View for DocumentSymbolTable {
    type V = Seq<AlSymbol>;

    closed spec fn view(&self) -> Seq<AlSymbol> {
        self.symbols@
    }
}

impl DocumentSymbolTable {
    /// The index lists the symbols of the table: one line per symbol, in source order.
    #[verifier::type_invariant]
    pub closed spec fn index_matches(&self) -> bool {
        listings(self.index@) == index_of(self.symbols@)
    }

    /// Build a symbol table from extracted symbols.
    pub fn new(symbols: Vec<AlSymbol>) -> (table: Self)
        ensures
            table@ == symbols@,
    {
        let mut index: Vec<IndexEntry> = Vec::new();
        let path: Vec<usize> = Vec::new();
        let mut i: usize = 0;
        assert(listings(index@) =~= table_entries(symbols@, 0));
        while i < symbols.len()
            invariant
                i <= symbols.len(),
                path@ == Seq::<usize>::empty(),
                listings(index@) == table_entries(symbols@, i as int),
            decreases symbols.len() - i,
        {
            insert_into_index(&mut index, &symbols[i], i, &path);
            i += 1;
        }
        DocumentSymbolTable { symbols, index }
    }

    /// The top-level symbols of the document.
    pub fn symbols(&self) -> (r: &Vec<AlSymbol>)
        ensures
            r@ == self@,
    {
        &self.symbols
    }

    fn resolve_ref(&self, sym_ref: &SymbolRef) -> (r: Option<&AlSymbol>)
        ensures
            match r {
                Some(s) => symbol_at(self@, sym_ref.object_idx as int, sym_ref.child_path@) == Some(
                    *s,
                ),
                None => symbol_at(self@, sym_ref.object_idx as int, sym_ref.child_path@) is None,
            },
    {
        if sym_ref.object_idx >= self.symbols.len() {
            return None;
        }
        let mut current: &AlSymbol = &self.symbols[sym_ref.object_idx];
        let path = &sym_ref.child_path;
        let mut k: usize = 0;
        assert(path@.skip(0) =~= path@);
        while k < path.len()
            invariant
                k <= path.len(),
                sym_ref.object_idx < self.symbols@.len(),
                path@ == sym_ref.child_path@,
                walk(self.symbols@[sym_ref.object_idx as int], path@) == walk(
                    *current,
                    path@.skip(k as int),
                ),
            decreases path.len() - k,
        {
            let i = path[k];
            proof {
                assert(path@.skip(k as int)[0] == path@[k as int]);
                assert(path@.skip(k as int).drop_first() =~= path@.skip(k + 1));
            }
            if i >= current.children.len() {
                return None;
            }
            current = &current.children[i];
            k += 1;
        }
        assert(path@.skip(k as int).len() == 0);
        Some(current)
    }

    /// Lookup symbols by name (case-insensitive): every symbol of the
    /// document with that name, in source order.
    pub fn lookup(&self, name: &[u8]) -> (r: Vec<&AlSymbol>)
        ensures
            targets(r@) == keyed(flatten_all(self@), lowercase_of(name@)),
    {
        let key = lowercase(name);
        let ghost flat = flatten_all(self.symbols@);
        proof {
            use_type_invariant(self);
            lemma_index(self.symbols@, self.symbols@.len() as int);
            lemma_listings(self.index@);
        }
        let mut out: Vec<&AlSymbol> = Vec::new();
        let mut k: usize = 0;
        assert(flat.take(0) =~= Seq::empty());
        assert(targets(out@) =~= keyed(flat.take(0), key@));
        while k < self.index.len()
            invariant
                k <= self.index.len(),
                flat == flatten_all(self.symbols@),
                self.index@.len() == flat.len(),
                listings(self.index@) == index_of(self.symbols@),
                forall|i: int|
                    0 <= i < self.index@.len() ==> #[trigger] listings(self.index@)[i]
                        == self.index@[i]@,
                forall|j: int|
                    #![trigger index_of(self.symbols@)[j]]
                    0 <= j < flat.len() ==> {
                        &&& index_of(self.symbols@)[j].key == lowercase_of(flat[j].name@)
                        &&& symbol_at(
                            self.symbols@,
                            index_of(self.symbols@)[j].object,
                            index_of(self.symbols@)[j].path,
                        ) == Some(flat[j])
                    },
                targets(out@) == keyed(flat.take(k as int), key@),
            decreases self.index.len() - k,
        {
            let entry = &self.index[k];
            proof {
                lemma_keyed_take(flat, key@, k as int);
                assert(listings(self.index@)[k as int] == entry@);
                assert(index_of(self.symbols@)[k as int].key == lowercase_of(flat[k as int].name@));
            }
            if bytes_eq(entry.key.as_slice(), key.as_slice()) {
                match self.resolve_ref(&entry.target) {
                    Some(symbol) => {
                        proof {
                            lemma_targets_push(out@, symbol);
                        }
                        out.push(symbol);
                    },
                    None => {},
                }
            }
            k += 1;
        }
        assert(flat.take(flat.len() as int) =~= flat);
        out
    }
}

impl DocumentSymbolTable {
    fn member_at(&self, byte_offset: usize, owner: Owner) -> (r: Option<Member>)
        ensures
            r == procedure_at(self@, byte_offset, owner, 0),
            match r {
                Some(m) => m.object < self@.len() && m.child < self@[m.object as int].children@.len(),
                None => true,
            },
    {
        let mut i: usize = 0;
        while i < self.symbols.len()
            invariant
                i <= self.symbols.len(),
                procedure_at(self.symbols@, byte_offset, owner, 0) == procedure_at(
                    self.symbols@,
                    byte_offset,
                    owner,
                    i as int,
                ),
            decreases self.symbols.len() - i,
        {
            let sym = &self.symbols[i];
            let admitted = match owner {
                Owner::Interface => sym.has_interface_kind(),
                Owner::Implementer => sym.implements.len() > 0,
                Owner::Concrete => !sym.has_interface_kind(),
            };
            if admitted && sym.contains_offset(byte_offset) {
                match sym.procedure_index_at(byte_offset) {
                    Some(j) => {
                        return Some(Member { object: i, child: j });
                    },
                    None => {},
                }
            }
            i += 1;
        }
        None
    }

    fn member_in(&self, object: &[u8], method: &[u8], interface: bool) -> (r: Option<Member>)
        ensures
            r == procedure_in(self@, object@, method@, interface, 0),
            match r {
                Some(m) => m.object < self@.len() && m.child < self@[m.object as int].children@.len(),
                None => true,
            },
    {
        let mut i: usize = 0;
        while i < self.symbols.len()
            invariant
                i <= self.symbols.len(),
                procedure_in(self.symbols@, object@, method@, interface, 0) == procedure_in(
                    self.symbols@,
                    object@,
                    method@,
                    interface,
                    i as int,
                ),
            decreases self.symbols.len() - i,
        {
            let sym = &self.symbols[i];
            let admitted = if interface {
                sym.has_interface_kind()
            } else {
                sym.has_object_kind()
            };
            if admitted && has_key(sym.name.as_slice(), object) {
                match sym.procedure_index(method) {
                    Some(j) => {
                        return Some(Member { object: i, child: j });
                    },
                    None => {},
                }
            }
            i += 1;
        }
        None
    }

    /// The procedure that `member` names.
    pub open spec fn procedure(&self, member: Member) -> AlSymbol {
        self@[member.object as int].children@[member.child as int]
    }

    /// Lookup symbols by name within a specific scope: the locals of the
    /// routine round `scope_byte`, then the members of the object round it,
    /// then every symbol of the document. The first layer that knows the
    /// name gives the result.
    pub fn lookup_in_scope(&self, name: &[u8], scope_byte: usize) -> (r: Vec<&AlSymbol>)
        ensures
            targets(r@) == scoped(self@, lowercase_of(name@), scope_byte, 0),
    {
        let key = lowercase(name);
        let mut i: usize = 0;
        while i < self.symbols.len()
            invariant
                i <= self.symbols.len(),
                key@ == lowercase_of(name@),
                scoped(self.symbols@, key@, scope_byte, 0) == scoped(
                    self.symbols@,
                    key@,
                    scope_byte,
                    i as int,
                ),
            decreases self.symbols.len() - i,
        {
            let sym = &self.symbols[i];
            if sym.contains_offset(scope_byte) {
                let mut j: usize = 0;
                while j < sym.children.len()
                    invariant
                        j <= sym.children.len(),
                        i < self.symbols.len(),
                        *sym == self.symbols@[i as int],
                        sym.covers(scope_byte),
                        key@ == lowercase_of(name@),
                        scoped(self.symbols@, key@, scope_byte, 0) == scoped(
                            self.symbols@,
                            key@,
                            scope_byte,
                            i as int,
                        ),
                        local_hits(sym.children@, key@, scope_byte, 0) == local_hits(
                            sym.children@,
                            key@,
                            scope_byte,
                            j as int,
                        ),
                    decreases sym.children.len() - j,
                {
                    let child = &sym.children[j];
                    if child.contains_offset(scope_byte) {
                        let locals = collect_keyed(&child.children, key.as_slice());
                        if locals.len() > 0 {
                            return locals;
                        }
                    }
                    j += 1;
                }
                let members = collect_keyed(&sym.children, key.as_slice());
                if members.len() > 0 {
                    return members;
                }
            }
            i += 1;
        }
        self.lookup(name)
    }

    /// Get all symbols reachable from a given byte offset: inside an object,
    /// the locals of the routine round the offset, then the members of the
    /// object, then the object itself; outside every object, all objects.
    pub fn reachable_symbols(&self, byte_offset: usize) -> (r: Vec<&AlSymbol>)
        ensures
            targets(r@) == reachable(self@, byte_offset),
    {
        let mut result: Vec<&AlSymbol> = Vec::new();
        let mut i: usize = 0;
        assert(targets(result@) =~= reachable_inside(self.symbols@, byte_offset, 0));
        while i < self.symbols.len()
            invariant
                i <= self.symbols.len(),
                targets(result@) == reachable_inside(self.symbols@, byte_offset, i as int),
            decreases self.symbols.len() - i,
        {
            let sym = &self.symbols[i];
            let ghost before = targets(result@);
            if sym.contains_offset(byte_offset) {
                let mut j: usize = 0;
                assert(targets(result@) =~= before + locals_round(sym.children@, byte_offset, 0));
                while j < sym.children.len()
                    invariant
                        j <= sym.children.len(),
                        targets(result@) == before + locals_round(
                            sym.children@,
                            byte_offset,
                            j as int,
                        ),
                    decreases sym.children.len() - j,
                {
                    let child = &sym.children[j];
                    let ghost inner = locals_round(sym.children@, byte_offset, j as int);
                    if child.contains_offset(byte_offset) {
                        push_all(&mut result, &child.children);
                        assert(targets(result@) =~= before + (inner + child.children@));
                    }
                    j += 1;
                }
                push_all(&mut result, &sym.children);
                proof {
                    lemma_targets_push(result@, sym);
                }
                result.push(sym);
                assert(targets(result@) =~= before + locals_round(
                    sym.children@,
                    byte_offset,
                    sym.children@.len() as int,
                ) + sym.children@ + seq![*sym]);
            }
            i += 1;
        }
        if result.len() == 0 {
            push_all(&mut result, &self.symbols);
            assert(targets(result@) =~= self.symbols@);
        }
        result
    }

    /// Find a top-level object by name (case-insensitive).
    pub fn find_object_by_name(&self, name: &[u8]) -> (r: Option<&AlSymbol>)
        ensures
            match r {
                Some(s) => first_object(self@, lowercase_of(name@), 0) is Some && *s
                    == self@[first_object(self@, lowercase_of(name@), 0).unwrap()],
                None => first_object(self@, lowercase_of(name@), 0) is None,
            },
    {
        let key = lowercase(name);
        let mut i: usize = 0;
        while i < self.symbols.len()
            invariant
                i <= self.symbols.len(),
                key@ == lowercase_of(name@),
                first_object(self.symbols@, key@, 0) == first_object(self.symbols@, key@, i as int),
            decreases self.symbols.len() - i,
        {
            if self.symbols[i].has_object_kind() && has_key(
                self.symbols[i].name.as_slice(),
                key.as_slice(),
            ) {
                return Some(&self.symbols[i]);
            }
            i += 1;
        }
        None
    }

    /// If `byte_offset` lies in a procedure that belongs to an interface
    /// object, the interface's name and the procedure's name.
    pub fn interface_method_at(&self, byte_offset: usize) -> (r: Option<(&[u8], &[u8])>)
        ensures
            match (r, procedure_at(self@, byte_offset, Owner::Interface, 0)) {
                (Some(names), Some(m)) => names.0@ == self@[m.object as int].name@ && names.1@
                    == self.procedure(m).name@,
                (None, None) => true,
                _ => false,
            },
    {
        match self.member_at(byte_offset, Owner::Interface) {
            Some(m) => Some(
                (
                    self.symbols[m.object].name.as_slice(),
                    self.symbols[m.object].children[m.child].name.as_slice(),
                ),
            ),
            None => None,
        }
    }

    /// If `byte_offset` lies in a procedure inside an object whose header
    /// names interfaces, those interface names and the procedure's name.
    pub fn implementation_procedure_at(&self, byte_offset: usize) -> (r: Option<
        (&Vec<Vec<u8>>, &[u8]),
    >)
        ensures
            match (r, procedure_at(self@, byte_offset, Owner::Implementer, 0)) {
                (Some(found), Some(m)) => *found.0 == self@[m.object as int].implements
                    && found.1@ == self.procedure(m).name@,
                (None, None) => true,
                _ => false,
            },
    {
        match self.member_at(byte_offset, Owner::Implementer) {
            Some(m) => Some(
                (
                    &self.symbols[m.object].implements,
                    self.symbols[m.object].children[m.child].name.as_slice(),
                ),
            ),
            None => None,
        }
    }

    /// If `byte_offset` lies in a procedure inside an object that is no
    /// interface, the object's name and the procedure's name.
    pub fn codeunit_procedure_at(&self, byte_offset: usize) -> (r: Option<(&[u8], &[u8])>)
        ensures
            match (r, procedure_at(self@, byte_offset, Owner::Concrete, 0)) {
                (Some(names), Some(m)) => names.0@ == self@[m.object as int].name@ && names.1@
                    == self.procedure(m).name@,
                (None, None) => true,
                _ => false,
            },
    {
        match self.member_at(byte_offset, Owner::Concrete) {
            Some(m) => Some(
                (
                    self.symbols[m.object].name.as_slice(),
                    self.symbols[m.object].children[m.child].name.as_slice(),
                ),
            ),
            None => None,
        }
    }

    /// The procedure in which `byte_offset` lies, inside an object whose
    /// header names interfaces.
    pub fn find_implementer(&self, byte_offset: usize) -> (r: Option<&AlSymbol>)
        ensures
            match (r, procedure_at(self@, byte_offset, Owner::Implementer, 0)) {
                (Some(s), Some(m)) => *s == self.procedure(m),
                (None, None) => true,
                _ => false,
            },
    {
        match self.member_at(byte_offset, Owner::Implementer) {
            Some(m) => Some(&self.symbols[m.object].children[m.child]),
            None => None,
        }
    }

    /// For every object whose header names the interface, the procedures
    /// with the given name, in source order.
    pub fn find_implementation_procedures(&self, interface_name: &[u8], method_name: &[u8]) -> (r:
        Vec<&AlSymbol>)
        ensures
            targets(r@) == implementations(
                self@,
                lowercase_of(interface_name@),
                lowercase_of(method_name@),
                self@.len() as int,
            ),
    {
        let iface = lowercase(interface_name);
        let method = lowercase(method_name);
        let mut results: Vec<&AlSymbol> = Vec::new();
        let mut i: usize = 0;
        assert(targets(results@) =~= implementations(self.symbols@, iface@, method@, 0));
        while i < self.symbols.len()
            invariant
                i <= self.symbols.len(),
                targets(results@) == implementations(self.symbols@, iface@, method@, i as int),
            decreases self.symbols.len() - i,
        {
            if self.symbols[i].implements_key(iface.as_slice()) {
                push_keyed_procedures(&mut results, &self.symbols[i].children, method.as_slice());
            }
            i += 1;
        }
        results
    }

    /// Find a procedure by name inside a named object (case-insensitive).
    pub fn find_object_procedure(&self, object_name: &[u8], procedure_name: &[u8]) -> (r: Option<
        &AlSymbol,
    >)
        ensures
            match (
                r,
                procedure_in(
                    self@,
                    lowercase_of(object_name@),
                    lowercase_of(procedure_name@),
                    false,
                    0,
                ),
            ) {
                (Some(s), Some(m)) => *s == self.procedure(m),
                (None, None) => true,
                _ => false,
            },
    {
        let object = lowercase(object_name);
        let method = lowercase(procedure_name);
        match self.member_in(object.as_slice(), method.as_slice(), false) {
            Some(m) => Some(&self.symbols[m.object].children[m.child]),
            None => None,
        }
    }

    /// Find a method with the given name inside the given interface object.
    pub fn find_interface_method(&self, interface_name: &[u8], method_name: &[u8]) -> (r: Option<
        &AlSymbol,
    >)
        ensures
            match (
                r,
                procedure_in(
                    self@,
                    lowercase_of(interface_name@),
                    lowercase_of(method_name@),
                    true,
                    0,
                ),
            ) {
                (Some(s), Some(m)) => *s == self.procedure(m),
                (None, None) => true,
                _ => false,
            },
    {
        let object = lowercase(interface_name);
        let method = lowercase(method_name);
        match self.member_in(object.as_slice(), method.as_slice(), true) {
            Some(m) => Some(&self.symbols[m.object].children[m.child]),
            None => None,
        }
    }
}

/// The AL keywords that completion offers.
pub open spec fn keyword_list() -> Seq<&'static str> {
    seq![
        "begin",
        "end",
        "if",
        "then",
        "else",
        "for",
        "to",
        "downto",
        "do",
        "while",
        "repeat",
        "until",
        "case",
        "of",
        "with",
        "exit",
        "var",
        "procedure",
        "trigger",
        "local",
        "internal",
        "protected",
        "true",
        "false",
        "not",
        "and",
        "or",
        "xor",
        "mod",
        "div",
        "in",
        "array",
        "of",
        "temporary",
        "record",
        "codeunit",
        "table",
        "page",
        "report",
        "query",
        "xmlport",
        "enum",
        "tableextension",
        "pageextension",
        "enumextension",
        "field",
        "key",
        "fieldgroup",
    ]
}

/// Return a list of AL language keywords for completion.
pub fn al_keywords() -> (r: Vec<&'static str>)
    ensures
        r@ == keyword_list(),
{
    let r = vec![
        "begin",
        "end",
        "if",
        "then",
        "else",
        "for",
        "to",
        "downto",
        "do",
        "while",
        "repeat",
        "until",
        "case",
        "of",
        "with",
        "exit",
        "var",
        "procedure",
        "trigger",
        "local",
        "internal",
        "protected",
        "true",
        "false",
        "not",
        "and",
        "or",
        "xor",
        "mod",
        "div",
        "in",
        "array",
        "of",
        "temporary",
        "record",
        "codeunit",
        "table",
        "page",
        "report",
        "query",
        "xmlport",
        "enum",
        "tableextension",
        "pageextension",
        "enumextension",
        "field",
        "key",
        "fieldgroup",
    ];
    assert(r@ =~= keyword_list());
    r
}

/// The word that names a kind of symbol in a hover text.
pub open spec fn kind_word(kind: AlSymbolKind) -> Seq<u8> {
    match kind {
        AlSymbolKind::Object(object) => object.keyword(),
        AlSymbolKind::Procedure => "procedure".spec_bytes(),
        AlSymbolKind::Trigger => "trigger".spec_bytes(),
        AlSymbolKind::Variable => "variable".spec_bytes(),
        AlSymbolKind::Parameter => "parameter".spec_bytes(),
        AlSymbolKind::Field => "field".spec_bytes(),
        AlSymbolKind::Key => "key".spec_bytes(),
        AlSymbolKind::EnumValue => "enum value".spec_bytes(),
    }
}

/// `: ` and the type, where there is one.
pub open spec fn type_suffix(type_info: Option<Vec<u8>>) -> Seq<u8> {
    match type_info {
        Some(t) => ": ".spec_bytes() + t@,
        None => Seq::empty(),
    }
}

/// The hover text of a symbol: a fenced block that reads `(kind) Name: type`.
pub open spec fn hover_text(symbol: AlSymbol) -> Seq<u8> {
    "```al\n(".spec_bytes() + kind_word(symbol.kind) + ") ".spec_bytes() + symbol.name@
        + type_suffix(symbol.type_info) + "\n```".spec_bytes()
}

fn push_type_suffix(out: &mut Vec<u8>, type_info: &Option<Vec<u8>>)
    ensures
        final(out)@ == old(out)@ + type_suffix(*type_info),
{
    match type_info {
        Some(t) => {
            append(out, ": ".as_bytes());
            append(out, t.as_slice());
            assert(out@ =~= old(out)@ + type_suffix(*type_info));
        },
        None => {
            assert(out@ =~= old(out)@ + type_suffix(*type_info));
        },
    }
}

/// Format symbol info as Markdown for hover display.
pub fn format_hover(sym: &AlSymbol) -> (r: Vec<u8>)
    ensures
        r@ == hover_text(*sym),
{
    let mut out: Vec<u8> = Vec::new();
    append(&mut out, "```al\n(".as_bytes());
    let word: &str = match sym.kind {
        AlSymbolKind::Object(object) => object.label(),
        AlSymbolKind::Procedure => "procedure",
        AlSymbolKind::Trigger => "trigger",
        AlSymbolKind::Variable => "variable",
        AlSymbolKind::Parameter => "parameter",
        AlSymbolKind::Field => "field",
        AlSymbolKind::Key => "key",
        AlSymbolKind::EnumValue => "enum value",
    };
    append(&mut out, word.as_bytes());
    append(&mut out, ") ".as_bytes());
    append(&mut out, sym.name.as_slice());
    push_type_suffix(&mut out, &sym.type_info);
    append(&mut out, "\n```".as_bytes());
    assert(out@ =~= hover_text(*sym));
    out
}

/// Matching is invariant under case: two names with the same lower-case
/// form find the same symbols, whichever lookup is asked.
pub proof fn law_names_ignore_case(
    symbols: Seq<AlSymbol>,
    a: Seq<u8>,
    b: Seq<u8>,
    other: Seq<u8>,
    offset: usize,
)
    requires
        crate::text::same_name(a, b),
    ensures
        keyed(flatten_all(symbols), lowercase_of(a)) == keyed(
            flatten_all(symbols),
            lowercase_of(b),
        ),
        scoped(symbols, lowercase_of(a), offset, 0) == scoped(symbols, lowercase_of(b), offset, 0),
        first_object(symbols, lowercase_of(a), 0) == first_object(symbols, lowercase_of(b), 0),
        forall|interface: bool|
            procedure_in(symbols, lowercase_of(a), lowercase_of(other), interface, 0)
                == procedure_in(symbols, lowercase_of(b), lowercase_of(other), interface, 0),
        forall|interface: bool|
            procedure_in(symbols, lowercase_of(other), lowercase_of(a), interface, 0)
                == procedure_in(symbols, lowercase_of(other), lowercase_of(b), interface, 0),
        implementations(symbols, lowercase_of(a), lowercase_of(other), symbols.len() as int)
            == implementations(
            symbols,
            lowercase_of(b),
            lowercase_of(other),
            symbols.len() as int,
        ),
        implementations(symbols, lowercase_of(other), lowercase_of(a), symbols.len() as int)
            == implementations(
            symbols,
            lowercase_of(other),
            lowercase_of(b),
            symbols.len() as int,
        ),
{
}

/// Whether no object at or after `from` whose range holds `offset` knows
/// the key, neither among the locals of a member round the offset nor
/// among its members.
pub open spec fn unknown_in_scope(symbols: Seq<AlSymbol>, key: Seq<u8>, offset: usize, from: int)
    -> bool {
    forall|i: int|
        from <= i < symbols.len() && (#[trigger] symbols[i]).covers(offset) ==> local_hits(
            symbols[i].children@,
            key,
            offset,
            0,
        ).len() == 0 && keyed(symbols[i].children@, key).len() == 0
}

/// A name that no scope round the offset knows resolves as a global lookup does.
pub proof fn law_scoped_fallback(symbols: Seq<AlSymbol>, key: Seq<u8>, offset: usize, from: int)
    requires
        0 <= from,
        unknown_in_scope(symbols, key, offset, from),
    ensures
        scoped(symbols, key, offset, from) == keyed(flatten_all(symbols), key),
    decreases symbols.len() - from,
{
    if from < symbols.len() {
        assert(unknown_in_scope(symbols, key, offset, from + 1));
        law_scoped_fallback(symbols, key, offset, from + 1);
    }
}

/// A scoped lookup returns the innermost declarations of the name.
///
/// Let `object` be the first object whose range holds the offset and that
/// knows the name, as a local of a member round the offset or as a member.
/// Where a member round the offset has locals of that name, the lookup
/// returns all locals of that name of the first such member. Else it
/// returns all members of the object of that name.
pub proof fn law_scoped_lookup(
    symbols: Seq<AlSymbol>,
    key: Seq<u8>,
    offset: usize,
    object: int,
    from: int,
)
    requires
        0 <= from <= object < symbols.len(),
        symbols[object].covers(offset),
        local_hits(symbols[object].children@, key, offset, 0).len() > 0 || keyed(
            symbols[object].children@,
            key,
        ).len() > 0,
        forall|i: int|
            from <= i < object && (#[trigger] symbols[i]).covers(offset) ==> local_hits(
                symbols[i].children@,
                key,
                offset,
                0,
            ).len() == 0 && keyed(symbols[i].children@, key).len() == 0,
    ensures
        scoped(symbols, key, offset, from) == if local_hits(
            symbols[object].children@,
            key,
            offset,
            0,
        ).len() > 0 {
            local_hits(symbols[object].children@, key, offset, 0)
        } else {
            keyed(symbols[object].children@, key)
        },
    decreases object - from,
{
    if from < object {
        law_scoped_lookup(symbols, key, offset, object, from + 1);
    }
}

/// The locals that a scoped lookup finds are all locals of that name of
/// one member whose range holds the offset: of the first one that has any.
pub proof fn law_local_hits(members: Seq<AlSymbol>, key: Seq<u8>, offset: usize, from: int)
    requires
        0 <= from,
    ensures
        local_hits(members, key, offset, from).len() > 0 ==> exists|j: int|
            from <= j < members.len() && (#[trigger] members[j]).covers(offset) && local_hits(
                members,
                key,
                offset,
                from,
            ) == keyed(members[j].children@, key),
    decreases members.len() - from,
{
    if from < members.len() {
        if members[from].covers(offset) && keyed(members[from].children@, key).len() > 0 {
        } else {
            law_local_hits(members, key, offset, from + 1);
        }
    }
}

/// A procedure with the key is among the procedures with that key.
pub proof fn lemma_keyed_procedures_contain(symbols: Seq<AlSymbol>, key: Seq<u8>, j: int)
    requires
        0 <= j < symbols.len(),
        symbols[j].is_procedure(),
        lowercase_of(symbols[j].name@) == key,
    ensures
        keyed_procedures(symbols, key).contains(symbols[j]),
    decreases symbols.len(),
{
    let all = keyed_procedures(symbols, key);
    if j == symbols.len() - 1 {
        assert(all[all.len() - 1] == symbols[j]);
    } else {
        assert(symbols.drop_last()[j] == symbols[j]);
        lemma_keyed_procedures_contain(symbols.drop_last(), key, j);
        let before = keyed_procedures(symbols.drop_last(), key);
        let k = choose|k: int| 0 <= k < before.len() && before[k] == symbols[j];
        assert(all[k] == symbols[j]);
    }
}

/// A procedure with the method's key, in an object whose header names the
/// interface, is among the implementations of the method.
pub proof fn lemma_implementations_contain(
    symbols: Seq<AlSymbol>,
    interface: Seq<u8>,
    method: Seq<u8>,
    n: int,
    i: int,
    j: int,
)
    requires
        0 <= i < n <= symbols.len(),
        lists_key(symbols[i].implements@, interface),
        0 <= j < symbols[i].children@.len(),
        symbols[i].children@[j].is_procedure(),
        lowercase_of(symbols[i].children@[j].name@) == method,
    ensures
        implementations(symbols, interface, method, n).contains(symbols[i].children@[j]),
    decreases n,
{
    let found = symbols[i].children@[j];
    let before = implementations(symbols, interface, method, n - 1);
    if i == n - 1 {
        lemma_keyed_procedures_contain(symbols[i].children@, method, j);
        let own = keyed_procedures(symbols[i].children@, method);
        let k = choose|k: int| 0 <= k < own.len() && own[k] == found;
        assert((before + own)[before.len() + k] == found);
    } else {
        lemma_implementations_contain(symbols, interface, method, n - 1, i, j);
        let k = choose|k: int| 0 <= k < before.len() && before[k] == found;
        if lists_key(symbols[n - 1].implements@, interface) {
            let own = keyed_procedures(symbols[n - 1].children@, method);
            assert((before + own)[k] == found);
        }
    }
}

} // verus!
