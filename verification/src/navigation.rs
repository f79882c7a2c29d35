//! Queries on one document: the node and the identifier at an offset, what
//! an identifier resolves to, the references to a symbol, the call round an
//! offset, and the ranges that fold.

use crate::ast::{field_child, AlSymbol, AlSymbolKind};
use crate::formatting::{is_object_declaration, object_declaration_kind};
use crate::symbols::{scoped, targets, DocumentSymbolTable};
use crate::syntax::{
    extract_name, field_index, identifier_index, NodePath, Point, SyntaxNode,
};
use crate::text::{
    bytes_eq, has_key, lowercase, lowercase_of, occurs_nocase_at, same_name, space_at,
    space_len_at,
    starts_with, starts_with_nocase, trim, trim_matches, trimmed, trimmed_of,
};
use vstd::prelude::*;
use vstd::string::StringSliceAdditionalSpecFns;

verus! {

/// Result of resolving a symbol at a position.
#[derive(Debug)]
pub struct ResolvedSymbol<'a> {
    pub symbol: &'a AlSymbol,
    pub name: Vec<u8>,
}

/// Context about an identifier at a position (works for both definitions and references).
#[derive(Debug)]
pub struct IdentifierContext<'a> {
    /// Where the identifier node stands in the tree.
    pub path: NodePath,
    /// The identifier node.
    pub node: &'a SyntaxNode,
    pub name: Vec<u8>,
    /// The first symbol that the name resolves to at the node, if any.
    pub symbol: Option<&'a AlSymbol>,
    /// Whether the node is the name of a declaration.
    pub is_definition: bool,
}

/// Context about a function/method call surrounding the cursor.
#[derive(Debug)]
pub struct CallContext<'a> {
    pub function_name: Vec<u8>,
    pub symbol: Option<&'a AlSymbol>,
    pub active_parameter: usize,
}

/// A folding range expressed as rows.
#[derive(Debug)]
pub struct FoldingArea {
    pub start_line: usize,
    pub end_line: usize,
    pub kind: FoldingAreaKind,
}

/// Whether a folding range holds code or a comment.
#[derive(Debug, Clone, Copy, PartialEq, Eq, Structural)]
pub enum FoldingAreaKind {
    Region,
    Comment,
}

/// The first symbol of `symbols`, if there is one.
pub open spec fn first_of(symbols: Seq<AlSymbol>) -> Option<AlSymbol> {
    if symbols.len() > 0 {
        Some(symbols[0])
    } else {
        None
    }
}

impl SyntaxNode {
    /// The path to the deepest named node whose range holds `offset`: the
    /// search goes into the first named child that holds the offset, else
    /// into the first unnamed child that holds it and has a named node at
    /// the offset inside, else it ends at the node itself, if it is named.
    pub open spec fn deepest_named(&self, offset: usize) -> Option<Seq<usize>>
        decreases self, 1int, 0int,
    {
        if !self.covers(offset) {
            None
        } else {
            match self.deeper_named(offset, true, 0) {
                Some(p) => Some(p),
                None => match self.deeper_named(offset, false, 0) {
                    Some(p) => Some(p),
                    None => if self.named {
                        Some(Seq::empty())
                    } else {
                        None
                    },
                },
            }
        }
    }

    /// The path through the first child at or after `from` that is named as
    /// `named` says, holds `offset` and has a named node at the offset.
    pub open spec fn deeper_named(&self, offset: usize, named: bool, from: int) -> Option<
        Seq<usize>,
    >
        decreases self, 0int, self.children@.len() - from,
    {
        if from < 0 || from >= self.children@.len() {
            None
        } else {
            let c = self.children@[from];
            if c.named == named && c.covers(offset) {
                match c.deepest_named(offset) {
                    Some(p) => Some(seq![from as usize] + p),
                    None => self.deeper_named(offset, named, from + 1),
                }
            } else {
                self.deeper_named(offset, named, from + 1)
            }
        }
    }

    /// The path to the deepest node, named or not, whose range holds
    /// `offset`: the search goes into the first child that holds it.
    pub open spec fn deepest(&self, offset: usize) -> Option<Seq<usize>>
        decreases self, 1int, 0int,
    {
        if !self.covers(offset) {
            None
        } else {
            match self.deeper(offset, 0) {
                Some(p) => Some(p),
                None => Some(Seq::empty()),
            }
        }
    }

    /// The path through the first child at or after `from` that holds `offset`.
    pub open spec fn deeper(&self, offset: usize, from: int) -> Option<Seq<usize>>
        decreases self, 0int, self.children@.len() - from,
    {
        if from < 0 || from >= self.children@.len() {
            None
        } else {
            let c = self.children@[from];
            if c.covers(offset) {
                match c.deepest(offset) {
                    Some(p) => Some(seq![from as usize] + p),
                    None => self.deeper(offset, from + 1),
                }
            } else {
                self.deeper(offset, from + 1)
            }
        }
    }

    /// Whether the node's kind is one whose `name` field, or first
    /// identifier, names what it declares.
    pub open spec fn declares(&self) -> bool {
        self.kind_is("parameter") || self.kind_is("interface_method") || self.is_declaration()
    }

    /// Whether child `i` of this node is the name of what the node declares:
    /// the child in the field `name`, where there is one; else, in a node
    /// whose kind ends in `_declaration`, the first identifier.
    pub open spec fn names_own(&self, i: int) -> bool {
        self.declares() && match field_index(self.children@, "name", 0) {
            Some(k) => k == i,
            None => self.is_declaration() && identifier_index(self.children@, 0) == Some(i),
        }
    }

    /// Whether the node at `path` is the defining name of a declaration.
    pub open spec fn defines_at(&self, path: Seq<usize>) -> bool {
        path.len() > 0 && match self.node_at(path.drop_last()) {
            Some(parent) => parent.names_own(path.last() as int),
            None => false,
        }
    }

    fn declares_names(&self) -> (r: bool)
        ensures
            r == self.declares(),
    {
        self.has_kind("parameter") || self.has_kind("interface_method")
            || self.has_declaration_kind()
    }

    /// Whether child `i` of this node is the name of what the node declares.
    pub fn names_child(&self, i: usize) -> (r: bool)
        ensures
            r == self.names_own(i as int),
    {
        if !self.declares_names() {
            return false;
        }
        match self.field_child_index("name") {
            Some(k) => k == i,
            None => {
                if self.has_declaration_kind() {
                    match self.identifier_child_index() {
                        Some(k) => k == i,
                        None => false,
                    }
                } else {
                    false
                }
            },
        }
    }
}

/// The path to the deepest named node of `node` at `byte_offset`.
fn find_deepest_named_node(node: &SyntaxNode, byte_offset: usize) -> (r: Option<NodePath>)
    ensures
        match r {
            Some(p) => node.deepest_named(byte_offset) == Some(p@),
            None => node.deepest_named(byte_offset) is None,
        },
    decreases node,
{
    if !node.contains_offset(byte_offset) {
        return None;
    }
    let mut i: usize = 0;
    while i < node.children.len()
        invariant
            i <= node.children.len(),
            node.covers(byte_offset),
            node.deeper_named(byte_offset, true, 0) == node.deeper_named(
                byte_offset,
                true,
                i as int,
            ),
        decreases node.children.len() - i,
    {
        let child = &node.children[i];
        if child.named && child.contains_offset(byte_offset) {
            match find_deepest_named_node(child, byte_offset) {
                Some(mut deeper) => {
                    deeper.insert(0, i);
                    assert(deeper@ =~= seq![i] + child.deepest_named(byte_offset).unwrap());
                    return Some(deeper);
                },
                None => {},
            }
        }
        i += 1;
    }
    let mut j: usize = 0;
    while j < node.children.len()
        invariant
            j <= node.children.len(),
            node.covers(byte_offset),
            node.deeper_named(byte_offset, true, 0) is None,
            node.deeper_named(byte_offset, false, 0) == node.deeper_named(
                byte_offset,
                false,
                j as int,
            ),
        decreases node.children.len() - j,
    {
        let child = &node.children[j];
        if !child.named && child.contains_offset(byte_offset) {
            match find_deepest_named_node(child, byte_offset) {
                Some(mut deeper) => {
                    deeper.insert(0, j);
                    assert(deeper@ =~= seq![j] + child.deepest_named(byte_offset).unwrap());
                    return Some(deeper);
                },
                None => {},
            }
        }
        j += 1;
    }
    if node.named {
        Some(Vec::new())
    } else {
        None
    }
}

/// Find the deepest node (named or unnamed) at a byte offset.
fn find_deepest_node(node: &SyntaxNode, byte_offset: usize) -> (r: Option<NodePath>)
    ensures
        match r {
            Some(p) => node.deepest(byte_offset) == Some(p@),
            None => node.deepest(byte_offset) is None,
        },
    decreases node,
{
    if !node.contains_offset(byte_offset) {
        return None;
    }
    let mut i: usize = 0;
    while i < node.children.len()
        invariant
            i <= node.children.len(),
            node.covers(byte_offset),
            node.deeper(byte_offset, 0) == node.deeper(byte_offset, i as int),
        decreases node.children.len() - i,
    {
        let child = &node.children[i];
        if child.contains_offset(byte_offset) {
            match find_deepest_node(child, byte_offset) {
                Some(mut deeper) => {
                    deeper.insert(0, i);
                    assert(deeper@ =~= seq![i] + child.deepest(byte_offset).unwrap());
                    return Some(deeper);
                },
                None => {},
            }
        }
        i += 1;
    }
    Some(Vec::new())
}

/// Find the named node at a given byte offset: the path to the deepest named
/// node whose range holds the offset.
pub fn node_at_offset(tree: &SyntaxNode, byte_offset: usize) -> (r: Option<NodePath>)
    ensures
        match r {
            Some(p) => tree.deepest_named(byte_offset) == Some(p@),
            None => tree.deepest_named(byte_offset) is None,
        },
{
    find_deepest_named_node(tree, byte_offset)
}

/// Whether the node at `path` is the defining name of a declaration.
pub fn is_definition_node(tree: &SyntaxNode, path: &NodePath) -> (r: bool)
    ensures
        r == tree.defines_at(path@),
{
    if path.len() == 0 {
        return false;
    }
    let last = path[path.len() - 1];
    let parent_path = vstd::slice::slice_subrange(path.as_slice(), 0, path.len() - 1);
    assert(parent_path@ =~= path@.drop_last());
    match tree.descend(parent_path) {
        Some(parent) => parent.names_child(last),
        None => false,
    }
}

/// The path to the identifier at `offset`: the deepest named node there,
/// where it is an identifier.
pub open spec fn identifier_path(tree: SyntaxNode, offset: usize) -> Option<Seq<usize>> {
    match tree.deepest_named(offset) {
        Some(p) => match tree.node_at(p) {
            Some(n) => if n.is_identifier() {
                Some(p)
            } else {
                None
            },
            None => None,
        },
        None => None,
    }
}

/// The identifier node at `offset`.
pub open spec fn identifier_node(tree: SyntaxNode, offset: usize) -> Option<SyntaxNode> {
    match identifier_path(tree, offset) {
        Some(p) => tree.node_at(p),
        None => None,
    }
}

/// The first symbol that `name` resolves to at `offset`.
pub open spec fn resolution(symbols: Seq<AlSymbol>, name: Seq<u8>, offset: usize) -> Option<
    AlSymbol,
> {
    first_of(scoped(symbols, lowercase_of(name), offset, 0))
}

/// Whether `node` is the identifier that names `symbol` where it is declared.
pub open spec fn is_own_name(node: SyntaxNode, symbol: AlSymbol) -> bool {
    symbol.name_start_byte == node.start_byte && symbol.name_end_byte == node.end_byte
}

/// The first of the references, if there is one.
pub fn first_symbol<'a>(found: &Vec<&'a AlSymbol>) -> (r: Option<&'a AlSymbol>)
    ensures
        match r {
            Some(s) => first_of(targets(found@)) == Some(*s),
            None => first_of(targets(found@)) is None,
        },
{
    if found.len() > 0 {
        Some(found[0])
    } else {
        None
    }
}

/// The path to the identifier at `byte_offset` and the identifier node.
fn identifier_at<'a>(tree: &'a SyntaxNode, byte_offset: usize) -> (r: Option<
    (NodePath, &'a SyntaxNode),
>)
    ensures
        match r {
            Some(found) => identifier_path(*tree, byte_offset) == Some(found.0@) && tree.node_at(
                found.0@,
            ) == Some(*found.1) && found.1.is_identifier(),
            None => identifier_path(*tree, byte_offset) is None,
        },
{
    match node_at_offset(tree, byte_offset) {
        Some(path) => match tree.descend(path.as_slice()) {
            Some(node) => if node.has_identifier_kind() {
                Some((path, node))
            } else {
                None
            },
            None => None,
        },
        None => None,
    }
}

/// Get the identifier name at a byte offset (for hover).
pub fn identifier_at_offset(tree: &SyntaxNode, source: &[u8], byte_offset: usize) -> (r: Option<
    Vec<u8>,
>)
    ensures
        match (r, identifier_node(*tree, byte_offset)) {
            (Some(name), Some(node)) => name@ == node.name(source@),
            (None, None) => true,
            _ => false,
        },
{
    match identifier_at(tree, byte_offset) {
        Some(found) => Some(extract_name(found.1, source)),
        None => None,
    }
}

/// Like `resolve_at_offset` but also works when the cursor is on a
/// definition itself. Returns the identifier at the offset, what its name
/// resolves to there, and whether the identifier is the name of a declaration.
pub fn identifier_context_at_offset<'a>(
    tree: &'a SyntaxNode,
    source: &[u8],
    symbol_table: &'a DocumentSymbolTable,
    byte_offset: usize,
) -> (r: Option<IdentifierContext<'a>>)
    ensures
        match r {
            Some(c) => {
                &&& identifier_path(*tree, byte_offset) == Some(c.path@)
                &&& tree.node_at(c.path@) == Some(*c.node)
                &&& c.name@ == c.node.name(source@)
                &&& c.is_definition == tree.defines_at(c.path@)
                &&& match c.symbol {
                    Some(s) => resolution(symbol_table@, c.name@, byte_offset) == Some(*s),
                    None => resolution(symbol_table@, c.name@, byte_offset) is None,
                }
            },
            None => identifier_path(*tree, byte_offset) is None,
        },
{
    match identifier_at(tree, byte_offset) {
        Some(found) => {
            let name = extract_name(found.1, source);
            let results = symbol_table.lookup_in_scope(name.as_slice(), byte_offset);
            let symbol = first_symbol(&results);
            let is_definition = is_definition_node(tree, &found.0);
            Some(IdentifierContext { path: found.0, node: found.1, name, symbol, is_definition })
        },
        None => None,
    }
}

/// Resolve the identifier at a byte offset to its definition symbol: the
/// first symbol that the name resolves to there, unless the identifier is
/// the very name of that symbol's declaration.
pub fn resolve_at_offset<'a>(
    tree: &SyntaxNode,
    source: &[u8],
    symbol_table: &'a DocumentSymbolTable,
    byte_offset: usize,
) -> (r: Option<ResolvedSymbol<'a>>)
    ensures
        match r {
            Some(found) => {
                &&& identifier_node(*tree, byte_offset) is Some
                &&& found.name@ == identifier_node(*tree, byte_offset).unwrap().name(source@)
                &&& resolution(symbol_table@, found.name@, byte_offset) == Some(*found.symbol)
                &&& !is_own_name(identifier_node(*tree, byte_offset).unwrap(), *found.symbol)
            },
            None => match identifier_node(*tree, byte_offset) {
                Some(node) => match resolution(symbol_table@, node.name(source@), byte_offset) {
                    Some(symbol) => is_own_name(node, symbol),
                    None => true,
                },
                None => true,
            },
        },
{
    match identifier_at(tree, byte_offset) {
        Some(found) => {
            let node = found.1;
            let name = extract_name(node, source);
            let results = symbol_table.lookup_in_scope(name.as_slice(), byte_offset);
            match first_symbol(&results) {
                Some(symbol) => {
                    if symbol.name_start_byte == node.start_byte && symbol.name_end_byte
                        == node.end_byte {
                        None
                    } else {
                        Some(ResolvedSymbol { symbol, name })
                    }
                },
                None => None,
            }
        },
        None => None,
    }
}

/// What a search for references looks for.
pub struct Target {
    /// The text of the document.
    pub source: Seq<u8>,
    /// The symbols of the document.
    pub symbols: Seq<AlSymbol>,
    /// The key of the name.
    pub key: Seq<u8>,
    /// The byte range of the declaration that the name must resolve to.
    pub start: usize,
    pub end: usize,
    /// Whether the name of the declaration itself counts.
    pub include_declaration: bool,
}

/// A range of rows and columns.
pub type Span = (Point, Point);

impl SyntaxNode {
    /// Whether child `i` of this node is the method name of a qualified
    /// call `Receiver.Method(…)`.
    pub open spec fn qualifies(&self, i: int) -> bool {
        self.kind_is("method_call") && field_index(self.children@, "method", 0) == Some(i)
    }

    /// The range of the node, if it is a reference to the target: an
    /// identifier with the target's name that is either the name of the
    /// target's own declaration, where declarations count, or an
    /// unqualified use that resolves to the target at its own offset.
    pub open spec fn own_reference(
        &self,
        defining: bool,
        qualified: bool,
        parent_start: usize,
        parent_end: usize,
        t: Target,
    ) -> Seq<Span> {
        if self.is_identifier() && lowercase_of(self.name(t.source)) == t.key {
            if defining {
                if parent_start == t.start && parent_end == t.end && t.include_declaration {
                    seq![(self.start_point, self.end_point)]
                } else {
                    Seq::empty()
                }
            } else if qualified {
                Seq::empty()
            } else {
                match first_of(scoped(t.symbols, t.key, self.start_byte, 0)) {
                    Some(s) => if s.start_byte == t.start && s.end_byte == t.end {
                        seq![(self.start_point, self.end_point)]
                    } else {
                        Seq::empty()
                    },
                    None => Seq::empty(),
                }
            }
        } else {
            Seq::empty()
        }
    }

    /// The references to the target in the node and below it, in source order.
    pub open spec fn references(
        &self,
        defining: bool,
        qualified: bool,
        parent_start: usize,
        parent_end: usize,
        t: Target,
    ) -> Seq<Span>
        decreases self, 1int, 0int,
    {
        self.own_reference(defining, qualified, parent_start, parent_end, t)
            + self.references_below(self.children@.len() as int, t)
    }

    /// The references to the target in and below the first `n` children.
    pub open spec fn references_below(&self, n: int, t: Target) -> Seq<Span>
        decreases self, 0int, n,
    {
        if n <= 0 || n > self.children@.len() {
            Seq::empty()
        } else {
            self.references_below(n - 1, t) + self.children@[n - 1].references(
                self.names_own(n - 1),
                self.qualifies(n - 1),
                self.start_byte,
                self.end_byte,
                t,
            )
        }
    }
}

/// All references in a document to the symbol that the identifier at
/// `offset` resolves to; none where there is no identifier or it resolves
/// to nothing.
pub open spec fn all_references(
    tree: SyntaxNode,
    source: Seq<u8>,
    symbols: Seq<AlSymbol>,
    offset: usize,
    include_declaration: bool,
) -> Seq<Span> {
    match identifier_node(tree, offset) {
        Some(node) => match resolution(symbols, node.name(source), offset) {
            Some(target) => tree.references(
                false,
                false,
                0,
                0,
                Target {
                    source,
                    symbols,
                    key: lowercase_of(node.name(source)),
                    start: target.start_byte,
                    end: target.end_byte,
                    include_declaration,
                },
            ),
            None => Seq::empty(),
        },
        None => Seq::empty(),
    }
}

/// What a search for references carries along.
struct Search<'a> {
    source: &'a [u8],
    table: &'a DocumentSymbolTable,
    key: &'a [u8],
    start: usize,
    end: usize,
    include_declaration: bool,
}

impl<'a> View for Search<'a> {
    type V = Target;

    closed spec fn view(&self) -> Target {
        Target {
            source: self.source@,
            symbols: self.table@,
            key: self.key@,
            start: self.start,
            end: self.end,
            include_declaration: self.include_declaration,
        }
    }
}

/// Walk the tree and collect the references to the target.
fn collect_identifier_nodes(
    node: &SyntaxNode,
    defining: bool,
    qualified: bool,
    parent_start: usize,
    parent_end: usize,
    search: &Search,
    refs: &mut Vec<Span>,
)
    ensures
        final(refs)@ == old(refs)@ + node.references(
            defining,
            qualified,
            parent_start,
            parent_end,
            search@,
        ),
    decreases node,
{
    let ghost own = node.own_reference(defining, qualified, parent_start, parent_end, search@);
    if node.has_identifier_kind() {
        let name = extract_name(node, search.source);
        if has_key(name.as_slice(), search.key) {
            if defining {
                if parent_start == search.start && parent_end == search.end
                    && search.include_declaration {
                    refs.push((node.start_point, node.end_point));
                }
            } else if !qualified {
                let found = search.table.lookup_in_scope(name.as_slice(), node.start_byte);
                match first_symbol(&found) {
                    Some(s) => {
                        if s.start_byte == search.start && s.end_byte == search.end {
                            refs.push((node.start_point, node.end_point));
                        }
                    },
                    None => {},
                }
            }
        }
    }
    assert(refs@ =~= old(refs)@ + own);
    let mut i: usize = 0;
    assert(refs@ =~= old(refs)@ + own + node.references_below(0, search@));
    while i < node.children.len()
        invariant
            i <= node.children.len(),
            refs@ == old(refs)@ + own + node.references_below(i as int, search@),
        decreases node.children.len() - i,
    {
        let ghost before = node.references_below(i as int, search@);
        let ghost child = node.children@[i as int];
        let names = node.names_child(i);
        let method = node.has_kind("method_call") && match node.field_child_index("method") {
            Some(k) => k == i,
            None => false,
        };
        collect_identifier_nodes(
            &node.children[i],
            names,
            method,
            node.start_byte,
            node.end_byte,
            search,
            refs,
        );
        assert(refs@ =~= old(refs)@ + own + (before + child.references(
            names,
            method,
            node.start_byte,
            node.end_byte,
            search@,
        )));
        i += 1;
    }
    assert(refs@ =~= old(refs)@ + (own + node.references_below(
        node.children@.len() as int,
        search@,
    )));
}

/// Find all references to the same symbol as the identifier at
/// `byte_offset`. Walks the entire tree, collecting the identifiers with the
/// symbol's name that resolve to the same declaration, each resolved at its
/// own offset so that shadowing is respected. Method names of qualified
/// calls are no references: they resolve through the type of the receiver.
pub fn find_all_references(
    tree: &SyntaxNode,
    source: &[u8],
    symbol_table: &DocumentSymbolTable,
    byte_offset: usize,
    include_declaration: bool,
) -> (r: Vec<Span>)
    ensures
        r@ == all_references(*tree, source@, symbol_table@, byte_offset, include_declaration),
{
    let mut refs: Vec<Span> = Vec::new();
    match identifier_context_at_offset(tree, source, symbol_table, byte_offset) {
        Some(ctx) => match ctx.symbol {
            Some(target) => {
                let key = lowercase(ctx.name.as_slice());
                let search = Search {
                    source,
                    table: symbol_table,
                    key: key.as_slice(),
                    start: target.start_byte,
                    end: target.end_byte,
                    include_declaration,
                };
                collect_identifier_nodes(tree, false, false, 0, 0, &search, &mut refs);
                assert(refs@ =~= tree.references(false, false, 0, 0, search@));
            },
            None => {},
        },
        None => {},
    }
    refs
}

/// The object that a type names, where the type reads `<keyword> <name>`:
/// the keyword in any case, white space, then the name, whose surrounding
/// double quotes are left out.
pub open spec fn typed_as(type_info: Seq<u8>, keyword: &str) -> Option<Seq<u8>> {
    let t = trimmed(type_info);
    let k = keyword.spec_bytes();
    if occurs_nocase_at(t, k, 0) && space_at(t, k.len() as int) > 0 {
        let name = trimmed_of(trimmed(t.skip(k.len() as int)), 0x22);
        if name.len() > 0 {
            Some(name)
        } else {
            None
        }
    } else {
        None
    }
}

/// What a qualified call names: the object behind the receiver and the method.
pub struct CallTarget {
    pub object: Seq<u8>,
    pub method: Seq<u8>,
}

/// What the qualified call `call` names, where its receiver is a variable
/// whose type reads `<keyword> <object>`. The receiver is resolved at its
/// own offset.
pub open spec fn call_target(
    call: SyntaxNode,
    source: Seq<u8>,
    symbols: Seq<AlSymbol>,
    keyword: &str,
) -> Option<CallTarget> {
    if !call.kind_is("method_call") {
        None
    } else {
        match (field_child(call, "object"), field_child(call, "method")) {
            (Some(receiver), Some(method)) => if receiver.is_identifier() {
                match resolution(symbols, receiver.name(source), receiver.start_byte) {
                    Some(variable) => match variable.type_info {
                        Some(t) => match typed_as(t@, keyword) {
                            Some(object) => Some(
                                CallTarget { object, method: method.name(source) },
                            ),
                            None => None,
                        },
                        None => None,
                    },
                    None => None,
                }
            } else {
                None
            },
            _ => None,
        }
    }
}

/// What the qualified call names on whose method name `offset` lies.
pub open spec fn call_target_at(
    tree: SyntaxNode,
    source: Seq<u8>,
    symbols: Seq<AlSymbol>,
    offset: usize,
    keyword: &str,
) -> Option<CallTarget> {
    match identifier_path(tree, offset) {
        Some(p) => if p.len() > 0 {
            match tree.node_at(p.drop_last()) {
                Some(parent) => if parent.qualifies(p.last() as int) {
                    call_target(parent, source, symbols, keyword)
                } else {
                    None
                },
                None => None,
            }
        } else {
            None
        },
        None => None,
    }
}

/// What qualified calls are looked for.
pub struct CallQuery {
    pub source: Seq<u8>,
    pub symbols: Seq<AlSymbol>,
    /// The key of the object's name.
    pub object: Seq<u8>,
    /// The key of the method's name.
    pub method: Seq<u8>,
}

impl SyntaxNode {
    /// The range of the method name, if the node is a qualified call of the
    /// method on a receiver typed `<keyword> <object>`.
    pub open spec fn own_call(&self, q: CallQuery, keyword: &str) -> Seq<Span> {
        match call_target(*self, q.source, q.symbols, keyword) {
            Some(t) => if lowercase_of(t.object) == q.object && lowercase_of(t.method) == q.method {
                match field_child(*self, "method") {
                    Some(m) => seq![(m.start_point, m.end_point)],
                    None => Seq::empty(),
                }
            } else {
                Seq::empty()
            },
            None => Seq::empty(),
        }
    }

    /// The qualified calls in the node and below it, in source order.
    pub open spec fn calls(&self, q: CallQuery, keyword: &str) -> Seq<Span>
        decreases self, 1int, 0int,
    {
        self.own_call(q, keyword) + self.calls_below(self.children@.len() as int, q, keyword)
    }

    /// The qualified calls in and below the first `n` children.
    pub open spec fn calls_below(&self, n: int, q: CallQuery, keyword: &str) -> Seq<Span>
        decreases self, 0int, n,
    {
        if n <= 0 || n > self.children@.len() {
            Seq::empty()
        } else {
            self.calls_below(n - 1, q, keyword) + self.children@[n - 1].calls(q, keyword)
        }
    }
}

/// The calls of `method` through variables typed `<keyword> <object>`.
pub open spec fn method_calls(
    tree: SyntaxNode,
    source: Seq<u8>,
    symbols: Seq<AlSymbol>,
    object: Seq<u8>,
    method: Seq<u8>,
    keyword: &str,
) -> Seq<Span> {
    tree.calls(
        CallQuery { source, symbols, object: lowercase_of(object), method: lowercase_of(method) },
        keyword,
    )
}

/// The object that a type names, where the type reads `<keyword> <name>`.
pub fn object_of_type<'a>(type_info: &'a [u8], keyword: &str) -> (r: Option<&'a [u8]>)
    ensures
        match r {
            Some(name) => typed_as(type_info@, keyword) == Some(name@),
            None => typed_as(type_info@, keyword) is None,
        },
{
    let t = trim(type_info);
    let k = keyword.as_bytes();
    if starts_with_nocase(t, k) && space_len_at(t, k.len()) > 0 {
        let rest = vstd::slice::slice_subrange(t, k.len(), t.len());
        assert(rest@ =~= t@.skip(k@.len() as int));
        let name = trim_matches(trim(rest), 0x22);
        if name.len() > 0 {
            Some(name)
        } else {
            None
        }
    } else {
        None
    }
}

/// The names of the object and of the method that a qualified call names.
pub struct QualifiedCall {
    pub object: Vec<u8>,
    pub method: Vec<u8>,
}

impl View for QualifiedCall {
    type V = CallTarget;

    open spec fn view(&self) -> CallTarget {
        CallTarget { object: self.object@, method: self.method@ }
    }
}

fn target_of_call(
    call: &SyntaxNode,
    source: &[u8],
    table: &DocumentSymbolTable,
    keyword: &str,
) -> (r: Option<QualifiedCall>)
    ensures
        match r {
            Some(t) => call_target(*call, source@, table@, keyword) == Some(t@),
            None => call_target(*call, source@, table@, keyword) is None,
        },
{
    if !call.has_kind("method_call") {
        return None;
    }
    let receiver = match call.child_by_field_name("object") {
        Some(n) => n,
        None => {
            return None;
        },
    };
    let method = match call.child_by_field_name("method") {
        Some(n) => n,
        None => {
            return None;
        },
    };
    if !receiver.has_identifier_kind() {
        return None;
    }
    let name = extract_name(receiver, source);
    let found = table.lookup_in_scope(name.as_slice(), receiver.start_byte);
    match first_symbol(&found) {
        Some(variable) => match &variable.type_info {
            Some(t) => match object_of_type(t.as_slice(), keyword) {
                Some(object) => Some(
                    QualifiedCall {
                        object: crate::text::copy_of(object),
                        method: extract_name(method, source),
                    },
                ),
                None => None,
            },
            None => None,
        },
        None => None,
    }
}

fn call_at_offset(
    tree: &SyntaxNode,
    source: &[u8],
    table: &DocumentSymbolTable,
    byte_offset: usize,
    keyword: &str,
) -> (r: Option<QualifiedCall>)
    ensures
        match r {
            Some(t) => call_target_at(*tree, source@, table@, byte_offset, keyword) == Some(t@),
            None => call_target_at(*tree, source@, table@, byte_offset, keyword) is None,
        },
{
    match identifier_at(tree, byte_offset) {
        Some(found) => {
            let path = found.0;
            if path.len() == 0 {
                return None;
            }
            let last = path[path.len() - 1];
            let parent_path = vstd::slice::slice_subrange(path.as_slice(), 0, path.len() - 1);
            assert(parent_path@ =~= path@.drop_last());
            match tree.descend(parent_path) {
                Some(parent) => {
                    let qualifies = parent.has_kind("method_call") && match parent.field_child_index(
                        "method",
                    ) {
                        Some(k) => k == last,
                        None => false,
                    };
                    if qualifies {
                        target_of_call(parent, source, table, keyword)
                    } else {
                        None
                    }
                },
                None => None,
            }
        },
        None => None,
    }
}

/// What a search for qualified calls carries along.
struct CallSearch<'a> {
    source: &'a [u8],
    table: &'a DocumentSymbolTable,
    object: &'a [u8],
    method: &'a [u8],
}

impl<'a> View for CallSearch<'a> {
    type V = CallQuery;

    closed spec fn view(&self) -> CallQuery {
        CallQuery {
            source: self.source@,
            symbols: self.table@,
            object: self.object@,
            method: self.method@,
        }
    }
}

fn collect_calls(node: &SyntaxNode, search: &CallSearch, keyword: &str, calls: &mut Vec<Span>)
    ensures
        final(calls)@ == old(calls)@ + node.calls(search@, keyword),
    decreases node,
{
    let ghost own = node.own_call(search@, keyword);
    match target_of_call(node, search.source, search.table, keyword) {
        Some(t) => {
            if has_key(t.object.as_slice(), search.object) && has_key(
                t.method.as_slice(),
                search.method,
            ) {
                match node.child_by_field_name("method") {
                    Some(m) => {
                        calls.push((m.start_point, m.end_point));
                    },
                    None => {},
                }
            }
        },
        None => {},
    }
    assert(calls@ =~= old(calls)@ + own);
    let mut i: usize = 0;
    assert(calls@ =~= old(calls)@ + own + node.calls_below(0, search@, keyword));
    while i < node.children.len()
        invariant
            i <= node.children.len(),
            calls@ == old(calls)@ + own + node.calls_below(i as int, search@, keyword),
        decreases node.children.len() - i,
    {
        let ghost before = node.calls_below(i as int, search@, keyword);
        collect_calls(&node.children[i], search, keyword, calls);
        assert(calls@ =~= old(calls)@ + own + (before + node.children@[i as int].calls(
            search@,
            keyword,
        )));
        i += 1;
    }
    assert(calls@ =~= old(calls)@ + (own + node.calls_below(
        node.children@.len() as int,
        search@,
        keyword,
    )));
}

fn find_method_calls(
    tree: &SyntaxNode,
    source: &[u8],
    table: &DocumentSymbolTable,
    object_name: &[u8],
    method_name: &[u8],
    keyword: &str,
) -> (r: Vec<Span>)
    ensures
        r@ == method_calls(*tree, source@, table@, object_name@, method_name@, keyword),
{
    let object = lowercase(object_name);
    let method = lowercase(method_name);
    let search = CallSearch {
        source,
        table,
        object: object.as_slice(),
        method: method.as_slice(),
    };
    let mut calls: Vec<Span> = Vec::new();
    collect_calls(tree, &search, keyword, &mut calls);
    assert(calls@ =~= tree.calls(search@, keyword));
    calls
}

/// If `byte_offset` lies on the method name of a call through a variable
/// typed `Interface <name>`, the names of the interface and of the method.
pub fn interface_method_call_at_offset(
    tree: &SyntaxNode,
    source: &[u8],
    symbol_table: &DocumentSymbolTable,
    byte_offset: usize,
) -> (r: Option<QualifiedCall>)
    ensures
        match r {
            Some(t) => call_target_at(*tree, source@, symbol_table@, byte_offset, "Interface")
                == Some(t@),
            None => call_target_at(*tree, source@, symbol_table@, byte_offset, "Interface")
                is None,
        },
{
    call_at_offset(tree, source, symbol_table, byte_offset, "Interface")
}

/// If `byte_offset` lies on the method name of a call through a variable
/// typed `Codeunit <name>`, the names of the codeunit and of the method.
pub fn codeunit_method_call_at_offset(
    tree: &SyntaxNode,
    source: &[u8],
    symbol_table: &DocumentSymbolTable,
    byte_offset: usize,
) -> (r: Option<QualifiedCall>)
    ensures
        match r {
            Some(t) => call_target_at(*tree, source@, symbol_table@, byte_offset, "Codeunit")
                == Some(t@),
            None => call_target_at(*tree, source@, symbol_table@, byte_offset, "Codeunit") is None,
        },
{
    call_at_offset(tree, source, symbol_table, byte_offset, "Codeunit")
}

/// The ranges of the method names of all calls of `method_name` through
/// variables typed as the interface `interface_name`, in source order.
pub fn find_interface_method_calls(
    tree: &SyntaxNode,
    source: &[u8],
    symbol_table: &DocumentSymbolTable,
    interface_name: &[u8],
    method_name: &[u8],
) -> (r: Vec<Span>)
    ensures
        r@ == method_calls(
            *tree,
            source@,
            symbol_table@,
            interface_name@,
            method_name@,
            "Interface",
        ),
{
    find_method_calls(tree, source, symbol_table, interface_name, method_name, "Interface")
}

/// The ranges of the method names of all calls of `method_name` through
/// variables typed as the codeunit `codeunit_name`, in source order.
pub fn find_codeunit_method_calls(
    tree: &SyntaxNode,
    source: &[u8],
    symbol_table: &DocumentSymbolTable,
    codeunit_name: &[u8],
    method_name: &[u8],
) -> (r: Vec<Span>)
    ensures
        r@ == method_calls(
            *tree,
            source@,
            symbol_table@,
            codeunit_name@,
            method_name@,
            "Codeunit",
        ),
{
    find_method_calls(tree, source, symbol_table, codeunit_name, method_name, "Codeunit")
}

/// The path to the call round the node at `path`: the node itself or its
/// nearest ancestor that is a function call or a method call.
pub open spec fn enclosing_call(tree: SyntaxNode, path: Seq<usize>) -> Option<Seq<usize>>
    decreases path.len(),
{
    match tree.node_at(path) {
        Some(n) => if n.kind_is("function_call") || n.kind_is("method_call") {
            Some(path)
        } else if path.len() == 0 {
            None
        } else {
            enclosing_call(tree, path.drop_last())
        },
        None => None,
    }
}

/// The number of commas among the first `n` children of an argument list
/// that start before `offset`.
pub open spec fn commas_before(arguments: SyntaxNode, offset: usize, n: int) -> nat
    decreases n,
{
    if n <= 0 || n > arguments.children@.len() {
        0
    } else {
        let c = arguments.children@[n - 1];
        commas_before(arguments, offset, n - 1) + if c.kind_is(",") && c.start_byte < offset {
            1nat
        } else {
            0nat
        }
    }
}

/// The node that names what a call calls: the child in the field `name`,
/// else the one in the field `method`.
pub open spec fn call_name_node(call: SyntaxNode) -> Option<SyntaxNode> {
    match field_child(call, "name") {
        Some(n) => Some(n),
        None => field_child(call, "method"),
    }
}

/// The first procedure or trigger at or after `from`.
pub open spec fn first_routine(symbols: Seq<AlSymbol>, from: int) -> Option<AlSymbol>
    decreases symbols.len() - from,
{
    if from < 0 || from >= symbols.len() {
        None
    } else if symbols[from].kind == AlSymbolKind::Procedure || symbols[from].kind
        == AlSymbolKind::Trigger {
        Some(symbols[from])
    } else {
        first_routine(symbols, from + 1)
    }
}

/// The mathematical value of a call context.
pub struct CallModel {
    pub function_name: Seq<u8>,
    pub symbol: Option<AlSymbol>,
    pub active_parameter: nat,
}

impl<'a> View for CallContext<'a> {
    type V = CallModel;

    open spec fn view(&self) -> CallModel {
        CallModel {
            function_name: self.function_name@,
            symbol: match self.symbol {
                Some(s) => Some(*s),
                None => None,
            },
            active_parameter: self.active_parameter as nat,
        }
    }
}

/// What is known of the call whose node stands at `path`, seen from `offset`.
pub open spec fn context_of_call(
    call: SyntaxNode,
    source: Seq<u8>,
    symbols: Seq<AlSymbol>,
    offset: usize,
) -> Option<CallModel> {
    match call_name_node(call) {
        Some(name_node) => Some(
            CallModel {
                function_name: name_node.name(source),
                symbol: first_routine(
                    scoped(symbols, lowercase_of(name_node.name(source)), call.start_byte, 0),
                    0,
                ),
                active_parameter: match field_child(call, "arguments") {
                    Some(a) => commas_before(a, offset, a.children@.len() as int),
                    None => 0,
                },
            },
        ),
        None => None,
    }
}

/// The call round `offset`: its name, the routine that the name resolves to
/// at the call, and the number of commas of its argument list that start
/// before the offset.
pub open spec fn call_context(
    tree: SyntaxNode,
    source: Seq<u8>,
    symbols: Seq<AlSymbol>,
    offset: usize,
) -> Option<CallModel> {
    match tree.deepest(offset) {
        Some(p) => match enclosing_call(tree, p) {
            Some(cp) => match tree.node_at(cp) {
                Some(call) => context_of_call(call, source, symbols, offset),
                None => None,
            },
            None => None,
        },
        None => None,
    }
}

fn find_enclosing_call<'a>(tree: &'a SyntaxNode, path: &NodePath) -> (r: Option<&'a SyntaxNode>)
    ensures
        match r {
            Some(call) => enclosing_call(*tree, path@) is Some && tree.node_at(
                enclosing_call(*tree, path@).unwrap(),
            ) == Some(*call),
            None => enclosing_call(*tree, path@) is None,
        },
{
    let mut len: usize = path.len();
    assert(path@.take(len as int) =~= path@);
    loop
        invariant
            len <= path.len(),
            enclosing_call(*tree, path@) == enclosing_call(*tree, path@.take(len as int)),
        decreases len,
    {
        let prefix = vstd::slice::slice_subrange(path.as_slice(), 0, len);
        assert(prefix@ =~= path@.take(len as int));
        match tree.descend(prefix) {
            Some(node) => {
                if node.has_kind("function_call") || node.has_kind("method_call") {
                    return Some(node);
                }
                if len == 0 {
                    return None;
                }
                assert(path@.take(len as int).drop_last() =~= path@.take(len - 1));
                len -= 1;
            },
            None => {
                return None;
            },
        }
    }
}

fn count_commas(arguments: &SyntaxNode, byte_offset: usize) -> (r: usize)
    ensures
        r == commas_before(*arguments, byte_offset, arguments.children@.len() as int),
{
    let mut count: usize = 0;
    let mut i: usize = 0;
    while i < arguments.children.len()
        invariant
            i <= arguments.children.len(),
            count <= i,
            count == commas_before(*arguments, byte_offset, i as int),
        decreases arguments.children.len() - i,
    {
        let child = &arguments.children[i];
        if child.has_kind(",") && child.start_byte < byte_offset {
            count += 1;
        }
        i += 1;
    }
    count
}

fn find_routine<'a>(found: &Vec<&'a AlSymbol>) -> (r: Option<&'a AlSymbol>)
    ensures
        match r {
            Some(s) => first_routine(targets(found@), 0) == Some(*s),
            None => first_routine(targets(found@), 0) is None,
        },
{
    let mut i: usize = 0;
    while i < found.len()
        invariant
            i <= found.len(),
            first_routine(targets(found@), 0) == first_routine(targets(found@), i as int),
        decreases found.len() - i,
    {
        match found[i].kind {
            AlSymbolKind::Procedure | AlSymbolKind::Trigger => {
                return Some(found[i]);
            },
            _ => {},
        }
        i += 1;
    }
    None
}

/// Walk up ancestors from the cursor position to find an enclosing
/// function/method call. Count commas before the cursor to determine the
/// active parameter index.
pub fn find_call_context<'a>(
    tree: &'a SyntaxNode,
    source: &[u8],
    symbol_table: &'a DocumentSymbolTable,
    byte_offset: usize,
) -> (r: Option<CallContext<'a>>)
    ensures
        match r {
            Some(c) => call_context(*tree, source@, symbol_table@, byte_offset) == Some(c@),
            None => call_context(*tree, source@, symbol_table@, byte_offset) is None,
        },
{
    let path = match find_deepest_node(tree, byte_offset) {
        Some(p) => p,
        None => {
            return None;
        },
    };
    let call = match find_enclosing_call(tree, &path) {
        Some(c) => c,
        None => {
            return None;
        },
    };
    let name_node = match call.child_by_field_name("name") {
        Some(n) => n,
        None => match call.child_by_field_name("method") {
            Some(n) => n,
            None => {
                return None;
            },
        },
    };
    let function_name = extract_name(name_node, source);
    let active_parameter = match call.child_by_field_name("arguments") {
        Some(arguments) => count_commas(arguments, byte_offset),
        None => 0,
    };
    let found = symbol_table.lookup_in_scope(function_name.as_slice(), call.start_byte);
    let symbol = find_routine(&found);
    Some(CallContext { function_name, symbol, active_parameter })
}

/// What follows `keyword` in `t`, where `t` begins with the keyword, letter
/// for letter, and white space stands behind it: `RecordRef` does not
/// begin with the keyword `Record` in this sense.
pub open spec fn after_keyword(t: Seq<u8>, keyword: &str) -> Option<Seq<u8>> {
    let k = keyword.spec_bytes();
    if k.is_prefix_of(t) && space_at(t, k.len() as int) > 0 {
        Some(t.skip(k.len() as int))
    } else {
        None
    }
}

/// What follows the object type keyword that `t` begins with.
pub open spec fn after_type_keyword(t: Seq<u8>) -> Option<Seq<u8>> {
    if after_keyword(t, "Record") is Some {
        after_keyword(t, "Record")
    } else if after_keyword(t, "Codeunit") is Some {
        after_keyword(t, "Codeunit")
    } else if after_keyword(t, "Page") is Some {
        after_keyword(t, "Page")
    } else if after_keyword(t, "Report") is Some {
        after_keyword(t, "Report")
    } else if after_keyword(t, "Query") is Some {
        after_keyword(t, "Query")
    } else if after_keyword(t, "Xmlport") is Some {
        after_keyword(t, "Xmlport")
    } else if after_keyword(t, "Enum") is Some {
        after_keyword(t, "Enum")
    } else {
        after_keyword(t, "Interface")
    }
}

/// The object that a type such as `Record "Customer"` names. The type is
/// one of the keywords `Record`, `Codeunit`, `Page`, `Report`, `Query`,
/// `Xmlport`, `Enum` and `Interface`, white space, and a name; the name is
/// what follows, without white space and double quotes round it. Any other
/// type names no object: a built-in type such as `Integer`, a keyword
/// alone, a keyword in other letter case, and a longer word that only
/// begins like a keyword, such as `RecordRef`.
pub open spec fn type_object_name(type_info: Seq<u8>) -> Option<Seq<u8>> {
    match after_type_keyword(trimmed(type_info)) {
        Some(rest) => {
            let name = trimmed_of(trimmed(rest), 0x22);
            if name.len() > 0 {
                Some(name)
            } else {
                None
            }
        },
        None => None,
    }
}

fn strip_type_keyword<'a>(t: &'a [u8], keyword: &str) -> (r: Option<&'a [u8]>)
    ensures
        match r {
            Some(rest) => after_keyword(t@, keyword) == Some(rest@),
            None => after_keyword(t@, keyword) is None,
        },
{
    let k = keyword.as_bytes();
    if starts_with(t, k) && space_len_at(t, k.len()) > 0 {
        let rest = vstd::slice::slice_subrange(t, k.len(), t.len());
        assert(rest@ =~= t@.skip(k@.len() as int));
        Some(rest)
    } else {
        None
    }
}

fn strip_any_type_keyword<'a>(t: &'a [u8]) -> (r: Option<&'a [u8]>)
    ensures
        match r {
            Some(rest) => after_type_keyword(t@) == Some(rest@),
            None => after_type_keyword(t@) is None,
        },
{
    if let Some(rest) = strip_type_keyword(t, "Record") {
        Some(rest)
    } else if let Some(rest) = strip_type_keyword(t, "Codeunit") {
        Some(rest)
    } else if let Some(rest) = strip_type_keyword(t, "Page") {
        Some(rest)
    } else if let Some(rest) = strip_type_keyword(t, "Report") {
        Some(rest)
    } else if let Some(rest) = strip_type_keyword(t, "Query") {
        Some(rest)
    } else if let Some(rest) = strip_type_keyword(t, "Xmlport") {
        Some(rest)
    } else if let Some(rest) = strip_type_keyword(t, "Enum") {
        Some(rest)
    } else {
        strip_type_keyword(t, "Interface")
    }
}

/// Extract the object name from a type string like `Record "Customer"`:
/// `None` unless the type is an object type keyword, white space and a name.
pub fn extract_type_object_name(type_info: &[u8]) -> (r: Option<&[u8]>)
    ensures
        match r {
            Some(name) => type_object_name(type_info@) == Some(name@),
            None => type_object_name(type_info@) is None,
        },
{
    match strip_any_type_keyword(trim(type_info)) {
        Some(rest) => {
            let name = trim_matches(trim(rest), 0x22);
            if name.len() > 0 {
                Some(name)
            } else {
                None
            }
        },
        None => None,
    }
}

/// Whether nodes of this kind fold as a region.
pub open spec fn region_kind(kind: Seq<u8>) -> bool {
    ||| object_declaration_kind(kind)
    ||| kind == "procedure_declaration".spec_bytes()
    ||| kind == "trigger_declaration".spec_bytes()
    ||| kind == "var_section".spec_bytes()
    ||| kind == "fields_section".spec_bytes()
    ||| kind == "keys_section".spec_bytes()
    ||| kind == "if_statement".spec_bytes()
    ||| kind == "for_statement".spec_bytes()
    ||| kind == "while_statement".spec_bytes()
    ||| kind == "repeat_statement".spec_bytes()
    ||| kind == "case_statement".spec_bytes()
    ||| kind == "with_statement".spec_bytes()
}

/// Whether nodes of this kind fold as a comment.
pub open spec fn comment_kind(kind: Seq<u8>) -> bool {
    kind == "comment".spec_bytes() || kind == "block_comment".spec_bytes()
}

impl SyntaxNode {
    /// The folding range of the node itself: a declaration, section,
    /// compound statement or comment that ends on a later row than it starts.
    pub open spec fn own_fold(&self) -> Seq<FoldingArea> {
        if (region_kind(self.kind@) || comment_kind(self.kind@)) && self.end_point.row
            > self.start_point.row {
            seq![
                FoldingArea {
                    start_line: self.start_point.row,
                    end_line: self.end_point.row,
                    kind: if comment_kind(self.kind@) {
                        FoldingAreaKind::Comment
                    } else {
                        FoldingAreaKind::Region
                    },
                },
            ]
        } else {
            Seq::empty()
        }
    }

    /// The folding ranges of the node and of everything below it, in source order.
    pub open spec fn folds(&self) -> Seq<FoldingArea>
        decreases self, 1int, 0int,
    {
        self.own_fold() + self.folds_below(self.children@.len() as int)
    }

    /// The folding ranges in and below the first `n` children.
    pub open spec fn folds_below(&self, n: int) -> Seq<FoldingArea>
        decreases self, 0int, n,
    {
        if n <= 0 || n > self.children@.len() {
            Seq::empty()
        } else {
            self.folds_below(n - 1) + self.children@[n - 1].folds()
        }
    }
}

fn is_region_kind(kind: &[u8]) -> (r: bool)
    ensures
        r == region_kind(kind@),
{
    is_object_declaration(kind) || bytes_eq(kind, "procedure_declaration".as_bytes()) || bytes_eq(
        kind,
        "trigger_declaration".as_bytes(),
    ) || bytes_eq(kind, "var_section".as_bytes()) || bytes_eq(kind, "fields_section".as_bytes())
        || bytes_eq(kind, "keys_section".as_bytes()) || bytes_eq(kind, "if_statement".as_bytes())
        || bytes_eq(kind, "for_statement".as_bytes()) || bytes_eq(
        kind,
        "while_statement".as_bytes(),
    ) || bytes_eq(kind, "repeat_statement".as_bytes()) || bytes_eq(
        kind,
        "case_statement".as_bytes(),
    ) || bytes_eq(kind, "with_statement".as_bytes())
}

fn collect_folding_ranges_recursive(node: &SyntaxNode, ranges: &mut Vec<FoldingArea>)
    ensures
        final(ranges)@ == old(ranges)@ + node.folds(),
    decreases node,
{
    let ghost own = node.own_fold();
    let is_foldable = is_region_kind(node.kind.as_slice());
    let is_comment = node.has_kind("comment") || node.has_kind("block_comment");
    if is_foldable || is_comment {
        let start_line = node.start_point.row;
        let end_line = node.end_point.row;
        if end_line > start_line {
            ranges.push(
                FoldingArea {
                    start_line,
                    end_line,
                    kind: if is_comment {
                        FoldingAreaKind::Comment
                    } else {
                        FoldingAreaKind::Region
                    },
                },
            );
        }
    }
    assert(ranges@ =~= old(ranges)@ + own);
    let mut i: usize = 0;
    assert(ranges@ =~= old(ranges)@ + own + node.folds_below(0));
    while i < node.children.len()
        invariant
            i <= node.children.len(),
            ranges@ == old(ranges)@ + own + node.folds_below(i as int),
        decreases node.children.len() - i,
    {
        let ghost before = node.folds_below(i as int);
        collect_folding_ranges_recursive(&node.children[i], ranges);
        assert(ranges@ =~= old(ranges)@ + own + (before + node.children@[i as int].folds()));
        i += 1;
    }
    assert(ranges@ =~= old(ranges)@ + (own + node.folds_below(node.children@.len() as int)));
}

/// Collect folding ranges from structural nodes in the parse tree. Returns
/// ranges for objects, procedures, sections, compound statements and
/// comments that span more than one line.
pub fn collect_folding_ranges(tree: &SyntaxNode) -> (r: Vec<FoldingArea>)
    ensures
        r@ == tree.folds(),
{
    let mut ranges: Vec<FoldingArea> = Vec::new();
    collect_folding_ranges_recursive(tree, &mut ranges);
    assert(ranges@ =~= tree.folds());
    ranges
}

/// How often a span occurs among spans.
pub open spec fn occurrences(spans: Seq<Span>, span: Span) -> nat
    decreases spans.len(),
{
    if spans.len() == 0 {
        0
    } else {
        occurrences(spans.drop_last(), span) + if spans.last() == span {
            1nat
        } else {
            0nat
        }
    }
}

/// Whether `p` leads to the name of the declaration that the target stands
/// for: an identifier with the target's key that names its parent, a
/// declaration with the target's byte range.
pub open spec fn declares_target(tree: SyntaxNode, t: Target, p: Seq<usize>) -> bool {
    p.len() > 0 && match (tree.node_at(p), tree.node_at(p.drop_last())) {
        (Some(name), Some(declaration)) => {
            &&& name.is_identifier()
            &&& lowercase_of(name.name(t.source)) == t.key
            &&& declaration.names_own(p.last() as int)
            &&& declaration.start_byte == t.start
            &&& declaration.end_byte == t.end
        },
        _ => false,
    }
}

/// Whether no identifier of the tree but the one at `p` has the range `span`.
pub open spec fn range_is_unique(tree: SyntaxNode, p: Seq<usize>, span: Span) -> bool {
    forall|q: Seq<usize>|
        q != p ==> match #[trigger] tree.node_at(q) {
            Some(m) => m.is_identifier() ==> (m.start_point, m.end_point) != span,
            None => true,
        }
}

/// Whether `r` is `p` or a path on the way to `p`.
pub open spec fn leads_to(r: Seq<usize>, p: Seq<usize>) -> bool {
    r.len() <= p.len() && p.take(r.len() as int) == r
}

/// Whether `p` goes on from `r` through one of the first `n` children.
pub open spec fn goes_below(r: Seq<usize>, p: Seq<usize>, n: int) -> bool {
    r.len() < p.len() && p.take(r.len() as int) == r && p[r.len() as int] < n
}

proof fn lemma_occurrences_add(a: Seq<Span>, b: Seq<Span>, span: Span)
    ensures
        occurrences(a + b, span) == occurrences(a, span) + occurrences(b, span),
    decreases b.len(),
{
    if b.len() == 0 {
        assert(a + b =~= a);
    } else {
        lemma_occurrences_add(a, b.drop_last(), span);
        assert((a + b).drop_last() =~= a + b.drop_last());
        assert((a + b).last() == b.last());
    }
}

/// What the node at `p` itself adds to the references to the target.
pub open spec fn contribution(tree: SyntaxNode, t: Target, p: Seq<usize>) -> Seq<Span> {
    match tree.node_at(p) {
        Some(node) => if p.len() == 0 {
            node.own_reference(false, false, 0, 0, t)
        } else {
            match tree.node_at(p.drop_last()) {
                Some(parent) => node.own_reference(
                    parent.names_own(p.last() as int),
                    parent.qualifies(p.last() as int),
                    parent.start_byte,
                    parent.end_byte,
                    t,
                ),
                None => Seq::empty(),
            }
        },
        None => Seq::empty(),
    }
}

/// Whether the search reaches the node at `r` with these arguments.
pub open spec fn reached_with(
    tree: SyntaxNode,
    r: Seq<usize>,
    defining: bool,
    qualified: bool,
    parent_start: usize,
    parent_end: usize,
) -> bool {
    if r.len() == 0 {
        !defining && !qualified && parent_start == 0 && parent_end == 0
    } else {
        match tree.node_at(r.drop_last()) {
            Some(parent) => defining == parent.names_own(r.last() as int) && qualified
                == parent.qualifies(r.last() as int) && parent_start == parent.start_byte
                && parent_end == parent.end_byte,
            None => false,
        }
    }
}

proof fn lemma_own_reference_count(
    tree: SyntaxNode,
    node: SyntaxNode,
    r: Seq<usize>,
    defining: bool,
    qualified: bool,
    parent_start: usize,
    parent_end: usize,
    t: Target,
    p: Seq<usize>,
    span: Span,
)
    requires
        tree.node_at(r) == Some(node),
        tree.node_at(p) is Some,
        span == (tree.node_at(p).unwrap().start_point, tree.node_at(p).unwrap().end_point),
        range_is_unique(tree, p, span),
        reached_with(tree, r, defining, qualified, parent_start, parent_end),
    ensures
        occurrences(node.own_reference(defining, qualified, parent_start, parent_end, t), span)
            == if r == p {
            occurrences(contribution(tree, t, p), span)
        } else {
            0nat
        },
{
    let own = node.own_reference(defining, qualified, parent_start, parent_end, t);
    if r == p {
        assert(own == contribution(tree, t, p));
    } else {
        if own.len() > 0 {
            assert(own =~= seq![(node.start_point, node.end_point)]);
            assert(own.drop_last() =~= Seq::<Span>::empty());
            assert(node.is_identifier());
            assert(tree.node_at(r) == Some(node));
            assert((node.start_point, node.end_point) != span);
            assert(occurrences(own.drop_last(), span) == 0);
            assert(own.last() != span);
            assert(occurrences(own, span) == 0);
        } else {
            assert(occurrences(own, span) == 0);
        }
    }
}

proof fn lemma_references_count(
    tree: SyntaxNode,
    node: SyntaxNode,
    r: Seq<usize>,
    defining: bool,
    qualified: bool,
    parent_start: usize,
    parent_end: usize,
    t: Target,
    p: Seq<usize>,
    span: Span,
)
    requires
        tree.node_at(r) == Some(node),
        tree.node_at(p) is Some,
        span == (tree.node_at(p).unwrap().start_point, tree.node_at(p).unwrap().end_point),
        range_is_unique(tree, p, span),
        reached_with(tree, r, defining, qualified, parent_start, parent_end),
    ensures
        occurrences(node.references(defining, qualified, parent_start, parent_end, t), span)
            == if leads_to(r, p) {
            occurrences(contribution(tree, t, p), span)
        } else {
            0nat
        },
    decreases node, 1int, 0int,
{
    lemma_own_reference_count(
        tree,
        node,
        r,
        defining,
        qualified,
        parent_start,
        parent_end,
        t,
        p,
        span,
    );
    lemma_references_below_count(tree, node, r, node.children@.len() as int, t, p, span);
    lemma_occurrences_add(
        node.own_reference(defining, qualified, parent_start, parent_end, t),
        node.references_below(node.children@.len() as int, t),
        span,
    );
    if r == p {
        assert(p.take(r.len() as int) =~= r);
    } else if leads_to(r, p) {
        assert(r.len() < p.len()) by {
            if r.len() == p.len() {
                assert(p.take(r.len() as int) =~= p);
            }
        }
        lemma_node_prefix(tree, p, r.len() as int + 1);
        lemma_node_at_step(tree, p, r.len() as int, node);
    }
}

/// The node at a path has the child that the path goes on through.
proof fn lemma_node_at_step(tree: SyntaxNode, p: Seq<usize>, k: int, node: SyntaxNode)
    requires
        0 <= k < p.len(),
        tree.node_at(p.take(k)) == Some(node),
        tree.node_at(p.take(k + 1)) is Some,
    ensures
        p[k] < node.children@.len(),
    decreases k,
{
    if k == 0 {
        assert(p.take(0) =~= Seq::<usize>::empty());
        assert(p.take(1)[0] == p[0]);
    } else {
        let first = p[0];
        assert(p.take(k)[0] == first);
        assert(p.take(k + 1)[0] == first);
        assert(p.take(k).drop_first() =~= p.drop_first().take(k - 1));
        assert(p.take(k + 1).drop_first() =~= p.drop_first().take(k));
        lemma_node_at_step(tree.children@[first as int], p.drop_first(), k - 1, node);
    }
}

/// Every path on the way to a node leads to a node.
proof fn lemma_node_prefix(tree: SyntaxNode, p: Seq<usize>, k: int)
    requires
        0 <= k <= p.len(),
        tree.node_at(p) is Some,
    ensures
        tree.node_at(p.take(k)) is Some,
    decreases p.len(),
{
    if k == 0 {
        assert(p.take(0) =~= Seq::<usize>::empty());
    } else {
        assert(p.take(k)[0] == p[0]);
        assert(p.take(k).drop_first() =~= p.drop_first().take(k - 1));
        lemma_node_prefix(tree.children@[p[0] as int], p.drop_first(), k - 1);
    }
}

proof fn lemma_references_below_count(
    tree: SyntaxNode,
    node: SyntaxNode,
    r: Seq<usize>,
    n: int,
    t: Target,
    p: Seq<usize>,
    span: Span,
)
    requires
        0 <= n <= node.children@.len(),
        tree.node_at(r) == Some(node),
        tree.node_at(p) is Some,
        span == (tree.node_at(p).unwrap().start_point, tree.node_at(p).unwrap().end_point),
        range_is_unique(tree, p, span),
    ensures
        occurrences(node.references_below(n, t), span) == if goes_below(r, p, n) {
            occurrences(contribution(tree, t, p), span)
        } else {
            0nat
        },
    decreases node, 0int, n,
{
    if n > 0 {
        lemma_references_below_count(tree, node, r, n - 1, t, p, span);
        let k = (n - 1) as usize;
        assert(node.children@.len() == node.children.len());
        let child = node.children@[n - 1];
        let path = r.push(k);
        crate::syntax::lemma_node_at_push(tree, r, node, k);
        assert(path.drop_last() =~= r);
        lemma_references_count(
            tree,
            child,
            path,
            node.names_own(n - 1),
            node.qualifies(n - 1),
            node.start_byte,
            node.end_byte,
            t,
            p,
            span,
        );
        lemma_occurrences_add(
            node.references_below(n - 1, t),
            child.references(
                node.names_own(n - 1),
                node.qualifies(n - 1),
                node.start_byte,
                node.end_byte,
                t,
            ),
            span,
        );
        if leads_to(path, p) {
            assert(p.take(r.len() as int) =~= p.take(path.len() as int).take(r.len() as int));
            assert(p[r.len() as int] == p.take(path.len() as int)[r.len() as int]);
            assert(goes_below(r, p, n));
            assert(!goes_below(r, p, n - 1));
        } else {
            if goes_below(r, p, n) && !goes_below(r, p, n - 1) {
                assert(p[r.len() as int] == k);
                assert(p.take(path.len() as int) =~= path);
            }
        }
    }
}

/// What a search for the references to what stands at `offset` looks for.
pub open spec fn searched(
    tree: SyntaxNode,
    source: Seq<u8>,
    symbols: Seq<AlSymbol>,
    offset: usize,
    include_declaration: bool,
) -> Target {
    let name = identifier_node(tree, offset).unwrap().name(source);
    let target = resolution(symbols, name, offset).unwrap();
    Target {
        source,
        symbols,
        key: lowercase_of(name),
        start: target.start_byte,
        end: target.end_byte,
        include_declaration,
    }
}

/// Whether the identifier at `offset` resolves to a symbol.
pub open spec fn resolves(tree: SyntaxNode, source: Seq<u8>, symbols: Seq<AlSymbol>, offset: usize)
    -> bool {
    match identifier_node(tree, offset) {
        Some(node) => resolution(symbols, node.name(source), offset) is Some,
        None => false,
    }
}

/// The range of the node at `p`.
pub open spec fn span_at(tree: SyntaxNode, p: Seq<usize>) -> Span {
    (tree.node_at(p).unwrap().start_point, tree.node_at(p).unwrap().end_point)
}

/// How often the range of the node at `p` occurs among the references,
/// where no other identifier has that range: as often as among what that
/// node itself adds.
proof fn lemma_counted_at(
    tree: SyntaxNode,
    source: Seq<u8>,
    symbols: Seq<AlSymbol>,
    offset: usize,
    include_declaration: bool,
    p: Seq<usize>,
)
    requires
        resolves(tree, source, symbols, offset),
        tree.node_at(p) is Some,
        range_is_unique(tree, p, span_at(tree, p)),
    ensures
        occurrences(
            all_references(tree, source, symbols, offset, include_declaration),
            span_at(tree, p),
        ) == occurrences(
            contribution(tree, searched(tree, source, symbols, offset, include_declaration), p),
            span_at(tree, p),
        ),
{
    let t = searched(tree, source, symbols, offset, include_declaration);
    let root: Seq<usize> = Seq::empty();
    assert(tree.node_at(root) == Some(tree));
    lemma_references_count(tree, tree, root, false, false, 0, 0, t, p, span_at(tree, p));
    assert(p.take(0) =~= root);
}

/// A single span occurs once among itself.
proof fn lemma_occurs_once(span: Span)
    ensures
        occurrences(seq![span], span) == 1,
{
    let one = seq![span];
    assert(one.drop_last() =~= Seq::<Span>::empty());
    assert(occurrences(one.drop_last(), span) == 0);
    assert(one.last() == span);
}

/// Find-all-references, asked to include declarations, holds the name of
/// the target's own declaration exactly once.
///
/// Let the identifier at `offset` resolve to a target. Let `p` lead to the
/// identifier that names the target's declaration, and let no other
/// identifier of the tree have the very range of that identifier. Then the
/// range of that identifier occurs exactly once among the references.
pub proof fn law_declaration_referenced_once(
    tree: SyntaxNode,
    source: Seq<u8>,
    symbols: Seq<AlSymbol>,
    offset: usize,
    p: Seq<usize>,
)
    requires
        resolves(tree, source, symbols, offset),
        tree.node_at(p) is Some,
        declares_target(tree, searched(tree, source, symbols, offset, true), p),
        range_is_unique(tree, p, span_at(tree, p)),
    ensures
        occurrences(all_references(tree, source, symbols, offset, true), span_at(tree, p)) == 1,
{
    let t = searched(tree, source, symbols, offset, true);
    lemma_counted_at(tree, source, symbols, offset, true, p);
    assert(contribution(tree, t, p) =~= seq![span_at(tree, p)]);
    lemma_occurs_once(span_at(tree, p));
}

/// Find-all-references never holds the name of another declaration,
/// whether declarations are asked for or not.
///
/// Let the identifier at `offset` resolve to a target. Let `q` lead to an
/// identifier that names a declaration whose byte range is not that of the
/// target, and let no other identifier of the tree have the very range of
/// that identifier. Then that range is not among the references.
pub proof fn law_other_declarations_left_out(
    tree: SyntaxNode,
    source: Seq<u8>,
    symbols: Seq<AlSymbol>,
    offset: usize,
    include_declaration: bool,
    q: Seq<usize>,
)
    requires
        resolves(tree, source, symbols, offset),
        tree.node_at(q) is Some,
        q.len() > 0,
        match tree.node_at(q.drop_last()) {
            Some(declaration) => {
                let t = searched(tree, source, symbols, offset, include_declaration);
                declaration.names_own(q.last() as int) && !(declaration.start_byte == t.start
                    && declaration.end_byte == t.end)
            },
            None => false,
        },
        range_is_unique(tree, q, span_at(tree, q)),
    ensures
        occurrences(
            all_references(tree, source, symbols, offset, include_declaration),
            span_at(tree, q),
        ) == 0,
{
    let t = searched(tree, source, symbols, offset, include_declaration);
    lemma_counted_at(tree, source, symbols, offset, include_declaration, q);
    assert(contribution(tree, t, q) =~= Seq::<Span>::empty());
}

/// Whether the node at `q` is a use of the target in any spelling: an
/// identifier whose name is that of the target but for letter case, which
/// neither names a declaration nor is the method of a qualified call, and
/// which resolves, at its own offset, to the target.
pub open spec fn uses_target(tree: SyntaxNode, t: Target, q: Seq<usize>) -> bool {
    match tree.node_at(q) {
        Some(node) => {
            &&& node.is_identifier()
            &&& lowercase_of(node.name(t.source)) == t.key
            &&& q.len() > 0 ==> match tree.node_at(q.drop_last()) {
                Some(parent) => !parent.names_own(q.last() as int) && !parent.qualifies(
                    q.last() as int,
                ),
                None => false,
            }
            &&& match resolution(t.symbols, node.name(t.source), node.start_byte) {
                Some(symbol) => symbol.start_byte == t.start && symbol.end_byte == t.end,
                None => false,
            }
        },
        None => false,
    }
}

/// Find-all-references holds every use of the target, however the use is
/// spelled.
///
/// Let the identifier at `offset` resolve to a target. Let `q` lead to an
/// identifier whose name is, letter case aside, the name under the cursor
/// (a name in double quotes is the name without them), which is no
/// declaration's name and no method of a qualified call, and which resolves
/// to the target where it stands. Let no other identifier of the tree have
/// the very range of that identifier. Then that range occurs exactly once
/// among the references, whether declarations are asked for or not.
pub proof fn law_use_referenced_once(
    tree: SyntaxNode,
    source: Seq<u8>,
    symbols: Seq<AlSymbol>,
    offset: usize,
    include_declaration: bool,
    q: Seq<usize>,
)
    requires
        resolves(tree, source, symbols, offset),
        uses_target(tree, searched(tree, source, symbols, offset, include_declaration), q),
        range_is_unique(tree, q, span_at(tree, q)),
    ensures
        occurrences(
            all_references(tree, source, symbols, offset, include_declaration),
            span_at(tree, q),
        ) == 1,
{
    let t = searched(tree, source, symbols, offset, include_declaration);
    lemma_counted_at(tree, source, symbols, offset, include_declaration, q);
    assert(contribution(tree, t, q) =~= seq![span_at(tree, q)]);
    lemma_occurs_once(span_at(tree, q));
}

/// Identifiers match whatever their letter case and whether or not they
/// stand in double quotes.
///
/// Let a quoted identifier hold a text between its double quotes that is,
/// letter case aside, the text of a bare identifier. (A bare identifier
/// neither begins nor ends with a double quote.) Then the two are the same
/// name, and every lookup finds for the one what it finds for the other.
pub proof fn law_identifiers_match_in_any_spelling(
    quoted: SyntaxNode,
    source: Seq<u8>,
    inner: Seq<u8>,
    bare: SyntaxNode,
    other: Seq<u8>,
    symbols: Seq<AlSymbol>,
    offset: usize,
)
    requires
        quoted.kind_is("quoted_identifier"),
        !bare.kind_is("quoted_identifier"),
        quoted.text(source) == seq![0x22u8] + inner + seq![0x22u8],
        inner.len() > 0 ==> inner[0] != 0x22 && inner.last() != 0x22,
        same_name(inner, bare.text(other)),
    ensures
        same_name(quoted.name(source), bare.name(other)),
        targets_of(symbols, quoted.name(source)) == targets_of(symbols, bare.name(other)),
        resolution(symbols, quoted.name(source), offset) == resolution(
            symbols,
            bare.name(other),
            offset,
        ),
        scoped(symbols, lowercase_of(quoted.name(source)), offset, 0) == scoped(
            symbols,
            lowercase_of(bare.name(other)),
            offset,
            0,
        ),
{
    crate::syntax::lemma_unquoted(inner);
}

/// What a lookup of `name` finds among all symbols.
pub open spec fn targets_of(symbols: Seq<AlSymbol>, name: Seq<u8>) -> Seq<AlSymbol> {
    crate::symbols::keyed(crate::symbols::flatten_all(symbols), lowercase_of(name))
}

/// Find-all-references does not depend on how the identifier under the
/// cursor is spelled.
///
/// Let the identifiers at two offsets have the same name, letter case
/// aside (a name in double quotes is the name without them), and let both
/// resolve to symbols with the same byte range, or both to nothing. Then
/// the references found from the one are those found from the other.
pub proof fn law_references_ignore_spelling(
    tree: SyntaxNode,
    source: Seq<u8>,
    symbols: Seq<AlSymbol>,
    first: usize,
    second: usize,
    include_declaration: bool,
)
    requires
        identifier_node(tree, first) is Some,
        identifier_node(tree, second) is Some,
        same_name(
            identifier_node(tree, first).unwrap().name(source),
            identifier_node(tree, second).unwrap().name(source),
        ),
        match (
            resolution(symbols, identifier_node(tree, first).unwrap().name(source), first),
            resolution(symbols, identifier_node(tree, second).unwrap().name(source), second),
        ) {
            (Some(a), Some(b)) => a.start_byte == b.start_byte && a.end_byte == b.end_byte,
            (None, None) => true,
            _ => false,
        },
    ensures
        all_references(tree, source, symbols, first, include_declaration) == all_references(
            tree,
            source,
            symbols,
            second,
            include_declaration,
        ),
{
}

impl SyntaxNode {
    /// The path `r` of the node, if the node is a reference to the target.
    pub open spec fn own_path(
        &self,
        r: Seq<usize>,
        defining: bool,
        qualified: bool,
        parent_start: usize,
        parent_end: usize,
        t: Target,
    ) -> Seq<Seq<usize>> {
        if self.own_reference(defining, qualified, parent_start, parent_end, t).len() > 0 {
            seq![r]
        } else {
            Seq::empty()
        }
    }

    /// The paths of the references to the target in the node, which stands
    /// at `r`, and below it, in source order.
    pub open spec fn reference_paths(
        &self,
        r: Seq<usize>,
        defining: bool,
        qualified: bool,
        parent_start: usize,
        parent_end: usize,
        t: Target,
    ) -> Seq<Seq<usize>>
        decreases self, 1int, 0int,
    {
        self.own_path(r, defining, qualified, parent_start, parent_end, t)
            + self.reference_paths_below(r, self.children@.len() as int, t)
    }

    /// The paths of the references to the target in and below the first
    /// `n` children of the node, which stands at `r`.
    pub open spec fn reference_paths_below(&self, r: Seq<usize>, n: int, t: Target) -> Seq<
        Seq<usize>,
    >
        decreases self, 0int, n,
    {
        if n <= 0 || n > self.children@.len() {
            Seq::empty()
        } else {
            self.reference_paths_below(r, n - 1, t) + self.children@[n - 1].reference_paths(
                r.push((n - 1) as usize),
                self.names_own(n - 1),
                self.qualifies(n - 1),
                self.start_byte,
                self.end_byte,
                t,
            )
        }
    }
}

/// The ranges of the nodes at the paths.
pub open spec fn spans_at(tree: SyntaxNode, paths: Seq<Seq<usize>>) -> Seq<Span>
    decreases paths.len(),
{
    if paths.len() == 0 {
        Seq::empty()
    } else {
        spans_at(tree, paths.drop_last()).push(span_at(tree, paths.last()))
    }
}

/// How often a path occurs among paths.
pub open spec fn times(paths: Seq<Seq<usize>>, p: Seq<usize>) -> nat
    decreases paths.len(),
{
    if paths.len() == 0 {
        0
    } else {
        times(paths.drop_last(), p) + if paths.last() == p {
            1nat
        } else {
            0nat
        }
    }
}

proof fn lemma_spans_at_add(tree: SyntaxNode, a: Seq<Seq<usize>>, b: Seq<Seq<usize>>)
    ensures
        spans_at(tree, a + b) == spans_at(tree, a) + spans_at(tree, b),
    decreases b.len(),
{
    if b.len() == 0 {
        assert(a + b =~= a);
        assert(spans_at(tree, a) + spans_at(tree, b) =~= spans_at(tree, a));
    } else {
        lemma_spans_at_add(tree, a, b.drop_last());
        assert((a + b).drop_last() =~= a + b.drop_last());
        assert((a + b).last() == b.last());
        assert(spans_at(tree, a) + spans_at(tree, b.drop_last()).push(span_at(tree, b.last()))
            =~= (spans_at(tree, a) + spans_at(tree, b.drop_last())).push(span_at(tree, b.last())));
    }
}

proof fn lemma_times_add(a: Seq<Seq<usize>>, b: Seq<Seq<usize>>, p: Seq<usize>)
    ensures
        times(a + b, p) == times(a, p) + times(b, p),
    decreases b.len(),
{
    if b.len() == 0 {
        assert(a + b =~= a);
    } else {
        lemma_times_add(a, b.drop_last(), p);
        assert((a + b).drop_last() =~= a + b.drop_last());
        assert((a + b).last() == b.last());
    }
}

/// The references in and below a node are the ranges of the nodes at the
/// paths of those references.
proof fn lemma_references_at_paths(
    tree: SyntaxNode,
    node: SyntaxNode,
    r: Seq<usize>,
    defining: bool,
    qualified: bool,
    parent_start: usize,
    parent_end: usize,
    t: Target,
)
    requires
        tree.node_at(r) == Some(node),
    ensures
        node.references(defining, qualified, parent_start, parent_end, t) == spans_at(
            tree,
            node.reference_paths(r, defining, qualified, parent_start, parent_end, t),
        ),
    decreases node, 1int, 0int,
{
    let own = node.own_reference(defining, qualified, parent_start, parent_end, t);
    let path = node.own_path(r, defining, qualified, parent_start, parent_end, t);
    lemma_references_below_at_paths(tree, node, r, node.children@.len() as int, t);
    lemma_spans_at_add(tree, path, node.reference_paths_below(r, node.children@.len() as int, t));
    if own.len() > 0 {
        assert(own =~= seq![span_at(tree, r)]);
        assert(path.drop_last() =~= Seq::<Seq<usize>>::empty());
        assert(path.last() == r);
        assert(spans_at(tree, path.drop_last()) =~= Seq::<Span>::empty());
        assert(spans_at(tree, path) == spans_at(tree, path.drop_last()).push(
            span_at(tree, path.last()),
        ));
        assert(spans_at(tree, path) =~= seq![span_at(tree, r)]);
    } else {
        assert(own =~= Seq::<Span>::empty());
    }
}

proof fn lemma_references_below_at_paths(
    tree: SyntaxNode,
    node: SyntaxNode,
    r: Seq<usize>,
    n: int,
    t: Target,
)
    requires
        0 <= n <= node.children@.len(),
        tree.node_at(r) == Some(node),
    ensures
        node.references_below(n, t) == spans_at(tree, node.reference_paths_below(r, n, t)),
    decreases node, 0int, n,
{
    if n > 0 {
        lemma_references_below_at_paths(tree, node, r, n - 1, t);
        let k = (n - 1) as usize;
        assert(node.children@.len() == node.children.len());
        let child = node.children@[n - 1];
        crate::syntax::lemma_node_at_push(tree, r, node, k);
        lemma_references_at_paths(
            tree,
            child,
            r.push(k),
            node.names_own(n - 1),
            node.qualifies(n - 1),
            node.start_byte,
            node.end_byte,
            t,
        );
        lemma_spans_at_add(
            tree,
            node.reference_paths_below(r, n - 1, t),
            child.reference_paths(
                r.push(k),
                node.names_own(n - 1),
                node.qualifies(n - 1),
                node.start_byte,
                node.end_byte,
                t,
            ),
        );
    }
}

/// How often `p` is among the paths of the references in and below the
/// node at `r`: once where `r` is on the way to `p` and the node at `p` is a
/// reference, else not at all.
proof fn lemma_paths_count(
    tree: SyntaxNode,
    node: SyntaxNode,
    r: Seq<usize>,
    defining: bool,
    qualified: bool,
    parent_start: usize,
    parent_end: usize,
    t: Target,
    p: Seq<usize>,
)
    requires
        tree.node_at(r) == Some(node),
        tree.node_at(p) is Some,
        reached_with(tree, r, defining, qualified, parent_start, parent_end),
    ensures
        times(node.reference_paths(r, defining, qualified, parent_start, parent_end, t), p) == if leads_to(
            r,
            p,
        ) && contribution(tree, t, p).len() > 0 {
            1nat
        } else {
            0nat
        },
    decreases node, 1int, 0int,
{
    let path = node.own_path(r, defining, qualified, parent_start, parent_end, t);
    let below = node.reference_paths_below(r, node.children@.len() as int, t);
    lemma_paths_below_count(tree, node, r, node.children@.len() as int, t, p);
    lemma_times_add(path, below, p);
    if path.len() > 0 {
        assert(path.drop_last() =~= Seq::<Seq<usize>>::empty());
        assert(path.last() == r);
        assert(times(path.drop_last(), p) == 0);
    }
    if r == p {
        assert(p.take(r.len() as int) =~= r);
        assert(node.own_reference(defining, qualified, parent_start, parent_end, t)
            == contribution(tree, t, p));
    } else if leads_to(r, p) {
        assert(r.len() < p.len()) by {
            if r.len() == p.len() {
                assert(p.take(r.len() as int) =~= p);
            }
        }
        lemma_node_prefix(tree, p, r.len() as int + 1);
        lemma_node_at_step(tree, p, r.len() as int, node);
    }
}

proof fn lemma_paths_below_count(
    tree: SyntaxNode,
    node: SyntaxNode,
    r: Seq<usize>,
    n: int,
    t: Target,
    p: Seq<usize>,
)
    requires
        0 <= n <= node.children@.len(),
        tree.node_at(r) == Some(node),
        tree.node_at(p) is Some,
    ensures
        times(node.reference_paths_below(r, n, t), p) == if goes_below(r, p, n) && contribution(
            tree,
            t,
            p,
        ).len() > 0 {
            1nat
        } else {
            0nat
        },
    decreases node, 0int, n,
{
    if n > 0 {
        lemma_paths_below_count(tree, node, r, n - 1, t, p);
        let k = (n - 1) as usize;
        assert(node.children@.len() == node.children.len());
        let child = node.children@[n - 1];
        let path = r.push(k);
        crate::syntax::lemma_node_at_push(tree, r, node, k);
        assert(path.drop_last() =~= r);
        lemma_paths_count(
            tree,
            child,
            path,
            node.names_own(n - 1),
            node.qualifies(n - 1),
            node.start_byte,
            node.end_byte,
            t,
            p,
        );
        lemma_times_add(
            node.reference_paths_below(r, n - 1, t),
            child.reference_paths(
                path,
                node.names_own(n - 1),
                node.qualifies(n - 1),
                node.start_byte,
                node.end_byte,
                t,
            ),
            p,
        );
        if leads_to(path, p) {
            assert(p.take(r.len() as int) =~= p.take(path.len() as int).take(r.len() as int));
            assert(p[r.len() as int] == p.take(path.len() as int)[r.len() as int]);
            assert(goes_below(r, p, n));
            assert(!goes_below(r, p, n - 1));
        } else {
            if goes_below(r, p, n) && !goes_below(r, p, n - 1) {
                assert(p[r.len() as int] == k);
                assert(p.take(path.len() as int) =~= path);
            }
        }
    }
}

/// The paths of the nodes that find-all-references gives the ranges of.
pub open spec fn all_reference_paths(
    tree: SyntaxNode,
    source: Seq<u8>,
    symbols: Seq<AlSymbol>,
    offset: usize,
    include_declaration: bool,
) -> Seq<Seq<usize>> {
    tree.reference_paths(
        Seq::empty(),
        false,
        false,
        0,
        0,
        searched(tree, source, symbols, offset, include_declaration),
    )
}

/// Find-all-references gives the range of every node that is a reference
/// exactly once, and of no other node.
///
/// Let the identifier at `offset` resolve to a target. Then the references
/// are the ranges of the nodes at certain paths, in source order; and any
/// path `p` that leads to a node is among those paths once where the node
/// is a reference to the target, and not at all where it is none. Nothing
/// is asked of the tree.
pub proof fn law_references_node_by_node(
    tree: SyntaxNode,
    source: Seq<u8>,
    symbols: Seq<AlSymbol>,
    offset: usize,
    include_declaration: bool,
    p: Seq<usize>,
)
    requires
        resolves(tree, source, symbols, offset),
        tree.node_at(p) is Some,
    ensures
        all_references(tree, source, symbols, offset, include_declaration) == spans_at(
            tree,
            all_reference_paths(tree, source, symbols, offset, include_declaration),
        ),
        times(all_reference_paths(tree, source, symbols, offset, include_declaration), p) == if contribution(
            tree,
            searched(tree, source, symbols, offset, include_declaration),
            p,
        ).len() > 0 {
            1nat
        } else {
            0nat
        },
{
    let t = searched(tree, source, symbols, offset, include_declaration);
    let root: Seq<usize> = Seq::empty();
    assert(tree.node_at(root) == Some(tree));
    lemma_references_at_paths(tree, tree, root, false, false, 0, 0, t);
    lemma_paths_count(tree, tree, root, false, false, 0, 0, t, p);
    assert(p.take(0) =~= root);
}

/// Find-all-references, asked to include declarations, holds the name of
/// the target's own declaration exactly once, whatever the tree: the node
/// at `p`, which names the declaration, is one of the nodes whose ranges
/// are the references, and it is so once.
pub proof fn law_declaration_is_one_reference(
    tree: SyntaxNode,
    source: Seq<u8>,
    symbols: Seq<AlSymbol>,
    offset: usize,
    p: Seq<usize>,
)
    requires
        resolves(tree, source, symbols, offset),
        tree.node_at(p) is Some,
        declares_target(tree, searched(tree, source, symbols, offset, true), p),
    ensures
        all_references(tree, source, symbols, offset, true) == spans_at(
            tree,
            all_reference_paths(tree, source, symbols, offset, true),
        ),
        times(all_reference_paths(tree, source, symbols, offset, true), p) == 1,
{
    let t = searched(tree, source, symbols, offset, true);
    law_references_node_by_node(tree, source, symbols, offset, true, p);
    assert(contribution(tree, t, p) =~= seq![span_at(tree, p)]);
}

/// The spans without every occurrence of `span`.
pub open spec fn without(spans: Seq<Span>, span: Span) -> Seq<Span>
    decreases spans.len(),
{
    if spans.len() == 0 {
        Seq::empty()
    } else if spans.last() == span {
        without(spans.drop_last(), span)
    } else {
        without(spans.drop_last(), span).push(spans.last())
    }
}

proof fn lemma_without_add(a: Seq<Span>, b: Seq<Span>, span: Span)
    ensures
        without(a + b, span) == without(a, span) + without(b, span),
    decreases b.len(),
{
    if b.len() == 0 {
        assert(a + b =~= a);
        assert(without(a, span) + without(b, span) =~= without(a, span));
    } else {
        lemma_without_add(a, b.drop_last(), span);
        assert((a + b).drop_last() =~= a + b.drop_last());
        assert((a + b).last() == b.last());
        if b.last() != span {
            assert(without(a, span) + without(b.drop_last(), span).push(b.last()) =~= (without(
                a,
                span,
            ) + without(b.drop_last(), span)).push(b.last()));
        }
    }
}

proof fn lemma_without_absent(a: Seq<Span>, span: Span)
    requires
        occurrences(a, span) == 0,
    ensures
        without(a, span) == a,
    decreases a.len(),
{
    if a.len() > 0 {
        lemma_without_absent(a.drop_last(), span);
        assert(a.drop_last().push(a.last()) =~= a);
    } else {
        assert(a =~= Seq::<Span>::empty());
    }
}

/// Whether no path but `p` leads to a name of the target's declaration.
pub open spec fn only_declaration(tree: SyntaxNode, t: Target, p: Seq<usize>) -> bool {
    forall|q: Seq<usize>| q != p ==> !#[trigger] declares_target(tree, t, q)
}

/// The target, looked for without the name of its declaration.
pub open spec fn undeclared(t: Target) -> Target {
    Target {
        source: t.source,
        symbols: t.symbols,
        key: t.key,
        start: t.start,
        end: t.end,
        include_declaration: false,
    }
}

proof fn lemma_references_without(
    tree: SyntaxNode,
    node: SyntaxNode,
    r: Seq<usize>,
    defining: bool,
    qualified: bool,
    parent_start: usize,
    parent_end: usize,
    t: Target,
    p: Seq<usize>,
    span: Span,
)
    requires
        tree.node_at(r) == Some(node),
        tree.node_at(p) is Some,
        span == span_at(tree, p),
        declares_target(tree, t, p),
        t.include_declaration,
        only_declaration(tree, t, p),
        range_is_unique(tree, p, span),
        reached_with(tree, r, defining, qualified, parent_start, parent_end),
    ensures
        node.references(defining, qualified, parent_start, parent_end, undeclared(t)) == without(
            node.references(defining, qualified, parent_start, parent_end, t),
            span,
        ),
    decreases node, 1int, 0int,
{
    let own = node.own_reference(defining, qualified, parent_start, parent_end, t);
    let bare = node.own_reference(defining, qualified, parent_start, parent_end, undeclared(t));
    let below = node.references_below(node.children@.len() as int, t);
    lemma_references_below_without(tree, node, r, node.children@.len() as int, t, p, span);
    lemma_without_add(own, below, span);
    if r == p {
        assert(own =~= seq![span]);
        assert(bare =~= Seq::<Span>::empty());
        assert(own.drop_last() =~= Seq::<Span>::empty());
        assert(own.last() == span);
        assert(without(own.drop_last(), span) =~= Seq::<Span>::empty());
        assert(without(own, span) =~= Seq::<Span>::empty());
    } else {
        if bare != own {
            assert(declares_target(tree, t, r));
        }
        lemma_own_reference_count(
            tree,
            node,
            r,
            defining,
            qualified,
            parent_start,
            parent_end,
            t,
            p,
            span,
        );
        lemma_without_absent(own, span);
    }
}

proof fn lemma_references_below_without(
    tree: SyntaxNode,
    node: SyntaxNode,
    r: Seq<usize>,
    n: int,
    t: Target,
    p: Seq<usize>,
    span: Span,
)
    requires
        0 <= n <= node.children@.len(),
        tree.node_at(r) == Some(node),
        tree.node_at(p) is Some,
        span == span_at(tree, p),
        declares_target(tree, t, p),
        t.include_declaration,
        only_declaration(tree, t, p),
        range_is_unique(tree, p, span),
    ensures
        node.references_below(n, undeclared(t)) == without(node.references_below(n, t), span),
    decreases node, 0int, n,
{
    if n > 0 {
        lemma_references_below_without(tree, node, r, n - 1, t, p, span);
        let k = (n - 1) as usize;
        assert(node.children@.len() == node.children.len());
        let child = node.children@[n - 1];
        let path = r.push(k);
        crate::syntax::lemma_node_at_push(tree, r, node, k);
        assert(path.drop_last() =~= r);
        lemma_references_without(
            tree,
            child,
            path,
            node.names_own(n - 1),
            node.qualifies(n - 1),
            node.start_byte,
            node.end_byte,
            t,
            p,
            span,
        );
        lemma_without_add(
            node.references_below(n - 1, t),
            child.references(
                node.names_own(n - 1),
                node.qualifies(n - 1),
                node.start_byte,
                node.end_byte,
                t,
            ),
            span,
        );
    }
}

/// Find-all-references, asked to leave declarations out, gives what it
/// gives with them, without the name of the target's own declaration.
///
/// Let the identifier at `offset` resolve to a target. Let `p`, and no
/// other path, lead to the identifier that names the target's declaration,
/// and let no other identifier of the tree have the very range of that
/// identifier. Then the references without declarations are the references
/// with declarations, in the same order, without that one range.
pub proof fn law_references_without_declaration(
    tree: SyntaxNode,
    source: Seq<u8>,
    symbols: Seq<AlSymbol>,
    offset: usize,
    p: Seq<usize>,
)
    requires
        resolves(tree, source, symbols, offset),
        tree.node_at(p) is Some,
        declares_target(tree, searched(tree, source, symbols, offset, true), p),
        only_declaration(tree, searched(tree, source, symbols, offset, true), p),
        range_is_unique(tree, p, span_at(tree, p)),
    ensures
        all_references(tree, source, symbols, offset, false) == without(
            all_references(tree, source, symbols, offset, true),
            span_at(tree, p),
        ),
        occurrences(all_references(tree, source, symbols, offset, false), span_at(tree, p)) == 0,
        all_references(tree, source, symbols, offset, false).len() + 1 == all_references(
            tree,
            source,
            symbols,
            offset,
            true,
        ).len(),
{
    let t = searched(tree, source, symbols, offset, true);
    let span = span_at(tree, p);
    let root: Seq<usize> = Seq::empty();
    assert(tree.node_at(root) == Some(tree));
    lemma_references_without(tree, tree, root, false, false, 0, 0, t, p, span);
    assert(undeclared(t) == searched(tree, source, symbols, offset, false));
    law_declaration_referenced_once(tree, source, symbols, offset, p);
    lemma_without_counts(all_references(tree, source, symbols, offset, true), span);
}

proof fn lemma_without_counts(a: Seq<Span>, span: Span)
    ensures
        occurrences(without(a, span), span) == 0,
        without(a, span).len() + occurrences(a, span) == a.len(),
    decreases a.len(),
{
    if a.len() > 0 {
        lemma_without_counts(a.drop_last(), span);
        if a.last() != span {
            let rest = without(a.drop_last(), span);
            assert(rest.push(a.last()).drop_last() =~= rest);
        }
    }
}

} // verus!
