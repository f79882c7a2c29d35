//! The concrete syntax tree that the engine analyses.
//!
//! A tree is plain data: every node records its grammar kind, the field under
//! which its parent holds it, its byte range and line/column range, and its
//! children in source order. Keywords such as `begin`, `end`, `var` and
//! `until` have no node of their own; they are implied by the rows on which
//! their enclosing node starts and ends.
//!
//! What the engine reads of a tree:
//!
//! - The root holds the object declarations, nodes of a kind such as
//!   `codeunit_declaration`. An object is named by its first identifier; the
//!   interfaces it implements are the identifiers of its `implements_clause`.
//! - A `procedure_declaration` or `trigger_declaration` holds its name in the
//!   field `name`, its parameter list in `parameters`, its return type in
//!   `return_type`, its `var_section` in `vars` and its `block` in `body`.
//! - A `variable_declaration`, `parameter` or `field_declaration` holds its
//!   name in the field `name` and its type in `type`; a `key_declaration`
//!   and an `enum_value_declaration` hold their name in `name`.
//! - A `function_call` holds the called name in the field `name`, a
//!   `method_call` the receiver in `object` and the called name in `method`;
//!   both hold their argument list, with its `,` tokens, in `arguments`.
//! - Names are `identifier` or `quoted_identifier` nodes.

use crate::text::{bytes_eq, ends_with, trim_matches, trimmed_of};
use vstd::prelude::*;
use vstd::string::StringSliceAdditionalSpecFns;

verus! {

/// A zero-based row and byte column.
#[derive(Clone, Copy, Debug, PartialEq, Eq, Structural)]
pub struct Point {
    pub row: usize,
    pub column: usize,
}

/// A node of the concrete syntax tree.
#[derive(Debug)]
pub struct SyntaxNode {
    /// Grammar name of the node, such as `procedure_declaration` or `,`.
    pub kind: Vec<u8>,
    /// Field name under which the parent holds this node, if any.
    pub field: Option<Vec<u8>>,
    /// Named nodes stand for grammar rules; unnamed ones for literal tokens.
    pub named: bool,
    /// Set on nodes that wrap text the parser could not make sense of.
    pub error: bool,
    /// Set on nodes the parser inserted to recover from an omission.
    pub missing: bool,
    pub start_byte: usize,
    pub end_byte: usize,
    pub start_point: Point,
    pub end_point: Point,
    pub children: Vec<SyntaxNode>,
}

/// A node addressed by the child indices that lead to it from the root.
pub type NodePath = Vec<usize>;

/// The text of the byte range `start..end` of `source`; empty when the range
/// does not lie inside `source`.
pub open spec fn span_text(source: Seq<u8>, start: usize, end: usize) -> Seq<u8> {
    if start <= end && end <= source.len() {
        source.subrange(start as int, end as int)
    } else {
        Seq::empty()
    }
}

/// Index of the first node at or after `from` that sits in field `name`.
pub open spec fn field_index(nodes: Seq<SyntaxNode>, name: &str, from: int) -> Option<int>
    decreases nodes.len() - from,
{
    if from < 0 || from >= nodes.len() {
        None
    } else if nodes[from].field_is(name) {
        Some(from)
    } else {
        field_index(nodes, name, from + 1)
    }
}

/// Index of the first named identifier node at or after `from`.
pub open spec fn identifier_index(nodes: Seq<SyntaxNode>, from: int) -> Option<int>
    decreases nodes.len() - from,
{
    if from < 0 || from >= nodes.len() {
        None
    } else if nodes[from].named && nodes[from].is_identifier() {
        Some(from)
    } else {
        identifier_index(nodes, from + 1)
    }
}

/// Every node of `nodes` is well formed and lies inside `start..end`, and the
/// nodes follow each other without overlap.
pub open spec fn well_formed_within(nodes: Seq<SyntaxNode>, start: usize, end: usize) -> bool
    decreases nodes,
{
    forall|i: int|
        #![trigger nodes[i]]
        0 <= i < nodes.len() ==> {
            &&& nodes[i].well_formed()
            &&& start <= nodes[i].start_byte
            &&& nodes[i].end_byte <= end
            &&& (i + 1 < nodes.len() ==> nodes[i].end_byte <= nodes[i + 1].start_byte)
        }
}

/// Where the search for a field ends: at the first node in that field.
pub proof fn lemma_field_index(nodes: Seq<SyntaxNode>, name: &str, from: int)
    requires
        0 <= from,
    ensures
        match field_index(nodes, name, from) {
            Some(i) => from <= i < nodes.len() && nodes[i].field_is(name) && forall|j: int|
                from <= j < i ==> !(#[trigger] nodes[j]).field_is(name),
            None => forall|j: int| from <= j < nodes.len() ==> !(#[trigger] nodes[j]).field_is(name),
        },
    decreases nodes.len() - from,
{
    if from < nodes.len() && !nodes[from].field_is(name) {
        lemma_field_index(nodes, name, from + 1);
    }
}

impl SyntaxNode {
    /// Whether the node's byte range, both ends included, holds `offset`.
    pub open spec fn covers(&self, offset: usize) -> bool {
        self.start_byte <= offset && offset <= self.end_byte
    }

    /// Whether the node's grammar kind is `name`.
    pub open spec fn kind_is(&self, name: &str) -> bool {
        self.kind@ == name.spec_bytes()
    }

    /// Whether the parent holds the node in field `name`.
    pub open spec fn field_is(&self, name: &str) -> bool {
        match self.field {
            Some(f) => f@ == name.spec_bytes(),
            None => false,
        }
    }

    /// Whether the node is a bare or a quoted identifier.
    pub open spec fn is_identifier(&self) -> bool {
        self.kind_is("identifier") || self.kind_is("quoted_identifier")
    }

    /// Whether the node's kind ends in `_declaration`.
    pub open spec fn is_declaration(&self) -> bool {
        "_declaration".spec_bytes().is_suffix_of(self.kind@)
    }

    /// The node's range is ordered, its children are well formed, lie inside
    /// it and follow each other without overlap.
    pub open spec fn well_formed(&self) -> bool
        decreases self,
    {
        &&& self.start_byte <= self.end_byte
        &&& well_formed_within(self.children@, self.start_byte, self.end_byte)
    }

    /// The node that `path` leads to from this one.
    pub open spec fn node_at(&self, path: Seq<usize>) -> Option<SyntaxNode>
        decreases path.len(),
    {
        if path.len() == 0 {
            Some(*self)
        } else if path[0] < self.children@.len() {
            self.children@[path[0] as int].node_at(path.drop_first())
        } else {
            None
        }
    }

    /// The source text that the node spans.
    pub open spec fn text(&self, source: Seq<u8>) -> Seq<u8> {
        span_text(source, self.start_byte, self.end_byte)
    }

    /// The name an identifier node stands for: its text, without the
    /// surrounding double quotes where it is a quoted identifier.
    pub open spec fn name(&self, source: Seq<u8>) -> Seq<u8> {
        if self.kind_is("quoted_identifier") {
            trimmed_of(self.text(source), 0x22)
        } else {
            self.text(source)
        }
    }

    /// Whether the node's byte range, both ends included, holds `offset`.
    pub fn contains_offset(&self, offset: usize) -> (r: bool)
        ensures
            r == self.covers(offset),
    {
        self.start_byte <= offset && offset <= self.end_byte
    }

    /// Whether the node's grammar kind is `name`.
    pub fn has_kind(&self, name: &str) -> (r: bool)
        ensures
            r == self.kind_is(name),
    {
        bytes_eq(self.kind.as_slice(), name.as_bytes())
    }

    /// Whether the parent holds the node in field `name`.
    pub fn has_field(&self, name: &str) -> (r: bool)
        ensures
            r == self.field_is(name),
    {
        match &self.field {
            Some(f) => bytes_eq(f.as_slice(), name.as_bytes()),
            None => false,
        }
    }

    /// Whether the node is a bare or a quoted identifier.
    pub fn has_identifier_kind(&self) -> (r: bool)
        ensures
            r == self.is_identifier(),
    {
        self.has_kind("identifier") || self.has_kind("quoted_identifier")
    }

    /// Whether the node's kind ends in `_declaration`.
    pub fn has_declaration_kind(&self) -> (r: bool)
        ensures
            r == self.is_declaration(),
    {
        ends_with(self.kind.as_slice(), "_declaration".as_bytes())
    }

    /// Index of the first child held in field `name`.
    pub fn field_child_index(&self, name: &str) -> (r: Option<usize>)
        ensures
            match r {
                Some(i) => field_index(self.children@, name, 0) == Some(i as int) && i
                    < self.children@.len(),
                None => field_index(self.children@, name, 0) is None,
            },
    {
        let mut i: usize = 0;
        while i < self.children.len()
            invariant
                i <= self.children.len(),
                field_index(self.children@, name, 0) == field_index(self.children@, name, i as int),
            decreases self.children.len() - i,
        {
            if self.children[i].has_field(name) {
                return Some(i);
            }
            i += 1;
        }
        None
    }

    /// The first child held in field `name`.
    pub fn child_by_field_name(&self, name: &str) -> (r: Option<&SyntaxNode>)
        ensures
            match r {
                Some(c) => field_index(self.children@, name, 0) is Some && *c
                    == self.children@[field_index(self.children@, name, 0).unwrap()],
                None => field_index(self.children@, name, 0) is None,
            },
    {
        match self.field_child_index(name) {
            Some(i) => Some(&self.children[i]),
            None => None,
        }
    }

    /// Index of the first named child that is an identifier.
    pub fn identifier_child_index(&self) -> (r: Option<usize>)
        ensures
            match r {
                Some(i) => identifier_index(self.children@, 0) == Some(i as int) && i
                    < self.children@.len(),
                None => identifier_index(self.children@, 0) is None,
            },
    {
        let mut i: usize = 0;
        while i < self.children.len()
            invariant
                i <= self.children.len(),
                identifier_index(self.children@, 0) == identifier_index(self.children@, i as int),
            decreases self.children.len() - i,
        {
            if self.children[i].named && self.children[i].has_identifier_kind() {
                return Some(i);
            }
            i += 1;
        }
        None
    }

    /// The node that `path` leads to from this one.
    pub fn descend(&self, path: &[usize]) -> (r: Option<&SyntaxNode>)
        ensures
            match r {
                Some(n) => self.node_at(path@) == Some(*n),
                None => self.node_at(path@) is None,
            },
    {
        let mut cur: &SyntaxNode = self;
        let mut k: usize = 0;
        assert(path@.skip(0) =~= path@);
        while k < path.len()
            invariant
                k <= path.len(),
                self.node_at(path@) == cur.node_at(path@.skip(k as int)),
            decreases path.len() - k,
        {
            let i = path[k];
            proof {
                assert(path@.skip(k as int)[0] == path@[k as int]);
                assert(path@.skip(k as int).drop_first() =~= path@.skip(k + 1));
            }
            if i >= cur.children.len() {
                return None;
            }
            cur = &cur.children[i];
            k += 1;
        }
        assert(path@.skip(k as int).len() == 0);
        Some(cur)
    }
}

/// The text of the byte range `start..end` of `source`; empty when the range
/// does not lie inside `source`.
pub fn slice_text(source: &[u8], start: usize, end: usize) -> (r: &[u8])
    ensures
        r@ == span_text(source@, start, end),
{
    if start <= end && end <= source.len() {
        vstd::slice::slice_subrange(source, start, end)
    } else {
        vstd::slice::slice_subrange(source, 0, 0)
    }
}

/// Extract the text of a node from the source.
pub fn node_text<'a>(node: &SyntaxNode, source: &'a [u8]) -> (r: &'a [u8])
    ensures
        r@ == node.text(source@),
{
    slice_text(source, node.start_byte, node.end_byte)
}

/// Extract the name from an identifier or quoted identifier node. For quoted
/// identifiers, strips the surrounding double quotes.
pub fn extract_name(node: &SyntaxNode, source: &[u8]) -> (r: Vec<u8>)
    ensures
        r@ == node.name(source@),
{
    let text = node_text(node, source);
    if node.has_kind("quoted_identifier") {
        crate::text::copy_of(trim_matches(text, 0x22))
    } else {
        crate::text::copy_of(text)
    }
}

/// A text that neither begins nor ends with a double quote is what is left
/// of it between double quotes once they are taken away.
pub proof fn lemma_unquoted(x: Seq<u8>)
    requires
        x.len() > 0 ==> x[0] != 0x22 && x.last() != 0x22,
    ensures
        trimmed_of(seq![0x22u8] + x + seq![0x22u8], 0x22) == x,
{
    let q = seq![0x22u8] + x + seq![0x22u8];
    let set = crate::text::ByteSet::Only(0x22);
    if x.len() == 0 {
        assert(q =~= seq![0x22u8, 0x22u8]);
        crate::text::lemma_lead_is(q, set, 2);
        assert(q.skip(2) =~= Seq::<u8>::empty());
        crate::text::lemma_trail_is(q.skip(2), set, 0);
        assert(trimmed_of(q, 0x22) =~= x);
    } else {
        assert(q[0] == 0x22);
        assert(q[1] == x[0]);
        crate::text::lemma_lead_is(q, set, 1);
        let t = q.skip(1);
        assert(t =~= x + seq![0x22u8]);
        assert(t.last() == 0x22);
        assert(t[t.len() - 2] == x.last());
        crate::text::lemma_trail_is(t, set, 1);
        assert(t.take(t.len() - 1) =~= x);
    }
}

/// A quoted identifier and a bare identifier stand for the same name where
/// the text of the first is the text of the second between double quotes.
/// (A bare identifier neither begins nor ends with a double quote.)
pub proof fn law_quoted_name(quoted: SyntaxNode, source: Seq<u8>, bare: SyntaxNode, other: Seq<u8>)
    requires
        quoted.kind_is("quoted_identifier"),
        !bare.kind_is("quoted_identifier"),
        quoted.text(source) == seq![0x22u8] + bare.text(other) + seq![0x22u8],
        bare.text(other).len() > 0 ==> bare.text(other)[0] != 0x22 && bare.text(other).last()
            != 0x22,
    ensures
        quoted.name(source) == bare.name(other),
{
    lemma_unquoted(bare.text(other));
}

/// A path that leads to a node, extended by the index of one of the node's
/// children, leads to that child.
pub proof fn lemma_node_at_push(root: SyntaxNode, path: Seq<usize>, node: SyntaxNode, i: usize)
    requires
        root.node_at(path) == Some(node),
        i < node.children@.len(),
    ensures
        root.node_at(path.push(i)) == Some(node.children@[i as int]),
    decreases path.len(),
{
    if path.len() == 0 {
        assert(path.push(i).drop_first() =~= Seq::<usize>::empty());
        assert(root.children@[i as int].node_at(Seq::<usize>::empty()) == Some(
            root.children@[i as int],
        ));
    } else {
        assert(path.push(i).drop_first() =~= path.drop_first().push(i));
        lemma_node_at_push(root.children@[path[0] as int], path.drop_first(), node, i);
    }
}

} // verus!
