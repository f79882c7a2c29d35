//! Symbols and their extraction from the syntax tree.

use crate::syntax::{extract_name, field_index, identifier_index, node_text, Point, SyntaxNode};
use crate::text::{bytes_eq, copy_of, trim, trim_start_by, trim_start_matches, trimmed, ByteSet};
use vstd::prelude::*;
use vstd::string::StringSliceAdditionalSpecFns;

verus! {

/// The kind of AL object declaration.
#[derive(Debug, Clone, Copy, PartialEq, Eq, Structural)]
pub enum AlObjectKind {
    Table,
    TableExtension,
    Page,
    PageExtension,
    Codeunit,
    Report,
    Enum,
    EnumExtension,
    Xmlport,
    Query,
    Interface,
    PermissionSet,
    ControlAddin,
}

/// The kind of symbol extracted from the tree.
#[derive(Debug, Clone, Copy, PartialEq, Eq, Structural)]
pub enum AlSymbolKind {
    Object(AlObjectKind),
    Procedure,
    Trigger,
    Variable,
    Parameter,
    Field,
    Key,
    EnumValue,
}

/// The kind under which an editor lists a symbol.
#[derive(Debug, Clone, Copy, PartialEq, Eq, Structural)]
pub enum OutlineKind {
    Class,
    Function,
    Event,
    Variable,
    Field,
    Key,
    EnumMember,
}

/// A symbol extracted from the parse tree with its location.
#[derive(Debug)]
pub struct AlSymbol {
    /// The name as written, without the double quotes of a quoted identifier.
    pub name: Vec<u8>,
    pub kind: AlSymbolKind,
    /// The declared type, the return type, or the object keyword.
    pub type_info: Option<Vec<u8>>,
    pub start_byte: usize,
    pub end_byte: usize,
    pub start_point: Point,
    pub end_point: Point,
    /// The byte range of the identifier that names the symbol.
    pub name_start_byte: usize,
    pub name_end_byte: usize,
    /// Where the identifier that names the symbol starts.
    pub name_start_point: Point,
    /// Where the identifier that names the symbol ends.
    pub name_end_point: Point,
    /// The interfaces named on an object's header.
    pub implements: Vec<Vec<u8>>,
    /// Members of an object; parameters, then locals, of a procedure.
    pub children: Vec<AlSymbol>,
}

/// The mathematical value of a symbol.
pub struct SymbolModel {
    pub name: Seq<u8>,
    pub kind: AlSymbolKind,
    pub type_info: Option<Seq<u8>>,
    pub start_byte: usize,
    pub end_byte: usize,
    pub start_point: Point,
    pub end_point: Point,
    pub name_start_byte: usize,
    pub name_end_byte: usize,
    pub name_start_point: Point,
    pub name_end_point: Point,
    pub implements: Seq<Seq<u8>>,
    pub children: Seq<SymbolModel>,
}

/// The byte strings that a vector of byte vectors holds.
pub open spec fn texts(v: Seq<Vec<u8>>) -> Seq<Seq<u8>> {
    Seq::new(v.len(), |i: int| v[i]@)
}

/// The byte string that an optional byte vector holds.
pub open spec fn opt_text(v: Option<Vec<u8>>) -> Option<Seq<u8>> {
    match v {
        Some(t) => Some(t@),
        None => None,
    }
}

/// The mathematical value of a symbol.
pub open spec fn model_of(symbol: AlSymbol) -> SymbolModel
    decreases symbol, 1int,
{
    SymbolModel {
        name: symbol.name@,
        kind: symbol.kind,
        type_info: opt_text(symbol.type_info),
        start_byte: symbol.start_byte,
        end_byte: symbol.end_byte,
        start_point: symbol.start_point,
        end_point: symbol.end_point,
        name_start_byte: symbol.name_start_byte,
        name_end_byte: symbol.name_end_byte,
        name_start_point: symbol.name_start_point,
        name_end_point: symbol.name_end_point,
        implements: texts(symbol.implements@),
        children: models(symbol.children@),
    }
}

/// The mathematical values of a sequence of symbols.
pub open spec fn models(symbols: Seq<AlSymbol>) -> Seq<SymbolModel>
    decreases symbols, 0int,
{
    if symbols.len() == 0 {
        Seq::empty()
    } else {
        models(symbols.drop_last()).push(model_of(symbols.last()))
    }
}

impl View for AlSymbol {
    type V = SymbolModel;

    open spec fn view(&self) -> SymbolModel {
        model_of(*self)
    }
}

impl AlObjectKind {
    /// The object kind that a node of the given grammar kind declares.
    pub open spec fn of_node_kind(kind: Seq<u8>) -> Option<AlObjectKind> {
        if kind == "table_declaration".spec_bytes() {
            Some(AlObjectKind::Table)
        } else if kind == "table_extension_declaration".spec_bytes() {
            Some(AlObjectKind::TableExtension)
        } else if kind == "page_declaration".spec_bytes() {
            Some(AlObjectKind::Page)
        } else if kind == "page_extension_declaration".spec_bytes() {
            Some(AlObjectKind::PageExtension)
        } else if kind == "codeunit_declaration".spec_bytes() {
            Some(AlObjectKind::Codeunit)
        } else if kind == "report_declaration".spec_bytes() {
            Some(AlObjectKind::Report)
        } else if kind == "enum_declaration".spec_bytes() {
            Some(AlObjectKind::Enum)
        } else if kind == "enum_extension_declaration".spec_bytes() {
            Some(AlObjectKind::EnumExtension)
        } else if kind == "xmlport_declaration".spec_bytes() {
            Some(AlObjectKind::Xmlport)
        } else if kind == "query_declaration".spec_bytes() {
            Some(AlObjectKind::Query)
        } else if kind == "interface_declaration".spec_bytes() {
            Some(AlObjectKind::Interface)
        } else if kind == "permissionset_declaration".spec_bytes() {
            Some(AlObjectKind::PermissionSet)
        } else if kind == "controladdin_declaration".spec_bytes() {
            Some(AlObjectKind::ControlAddin)
        } else {
            None
        }
    }

    /// The keyword that opens a declaration of this kind.
    pub open spec fn keyword(self) -> Seq<u8> {
        match self {
            AlObjectKind::Table => "table".spec_bytes(),
            AlObjectKind::TableExtension => "tableextension".spec_bytes(),
            AlObjectKind::Page => "page".spec_bytes(),
            AlObjectKind::PageExtension => "pageextension".spec_bytes(),
            AlObjectKind::Codeunit => "codeunit".spec_bytes(),
            AlObjectKind::Report => "report".spec_bytes(),
            AlObjectKind::Enum => "enum".spec_bytes(),
            AlObjectKind::EnumExtension => "enumextension".spec_bytes(),
            AlObjectKind::Xmlport => "xmlport".spec_bytes(),
            AlObjectKind::Query => "query".spec_bytes(),
            AlObjectKind::Interface => "interface".spec_bytes(),
            AlObjectKind::PermissionSet => "permissionset".spec_bytes(),
            AlObjectKind::ControlAddin => "controladdin".spec_bytes(),
        }
    }

    /// The object kind that a node of the given grammar kind declares.
    pub fn from_node_kind(kind: &[u8]) -> (r: Option<Self>)
        ensures
            r == Self::of_node_kind(kind@),
    {
        if bytes_eq(kind, "table_declaration".as_bytes()) {
            Some(AlObjectKind::Table)
        } else if bytes_eq(kind, "table_extension_declaration".as_bytes()) {
            Some(AlObjectKind::TableExtension)
        } else if bytes_eq(kind, "page_declaration".as_bytes()) {
            Some(AlObjectKind::Page)
        } else if bytes_eq(kind, "page_extension_declaration".as_bytes()) {
            Some(AlObjectKind::PageExtension)
        } else if bytes_eq(kind, "codeunit_declaration".as_bytes()) {
            Some(AlObjectKind::Codeunit)
        } else if bytes_eq(kind, "report_declaration".as_bytes()) {
            Some(AlObjectKind::Report)
        } else if bytes_eq(kind, "enum_declaration".as_bytes()) {
            Some(AlObjectKind::Enum)
        } else if bytes_eq(kind, "enum_extension_declaration".as_bytes()) {
            Some(AlObjectKind::EnumExtension)
        } else if bytes_eq(kind, "xmlport_declaration".as_bytes()) {
            Some(AlObjectKind::Xmlport)
        } else if bytes_eq(kind, "query_declaration".as_bytes()) {
            Some(AlObjectKind::Query)
        } else if bytes_eq(kind, "interface_declaration".as_bytes()) {
            Some(AlObjectKind::Interface)
        } else if bytes_eq(kind, "permissionset_declaration".as_bytes()) {
            Some(AlObjectKind::PermissionSet)
        } else if bytes_eq(kind, "controladdin_declaration".as_bytes()) {
            Some(AlObjectKind::ControlAddin)
        } else {
            None
        }
    }

    /// The keyword that opens a declaration of this kind.
    pub fn label(&self) -> (r: &'static str)
        ensures
            r.spec_bytes() == self.keyword(),
    {
        match self {
            AlObjectKind::Table => "table",
            AlObjectKind::TableExtension => "tableextension",
            AlObjectKind::Page => "page",
            AlObjectKind::PageExtension => "pageextension",
            AlObjectKind::Codeunit => "codeunit",
            AlObjectKind::Report => "report",
            AlObjectKind::Enum => "enum",
            AlObjectKind::EnumExtension => "enumextension",
            AlObjectKind::Xmlport => "xmlport",
            AlObjectKind::Query => "query",
            AlObjectKind::Interface => "interface",
            AlObjectKind::PermissionSet => "permissionset",
            AlObjectKind::ControlAddin => "controladdin",
        }
    }
}

impl AlSymbolKind {
    /// The kind under which an editor lists symbols of this kind.
    pub open spec fn outline(self) -> OutlineKind {
        match self {
            AlSymbolKind::Object(_) => OutlineKind::Class,
            AlSymbolKind::Procedure => OutlineKind::Function,
            AlSymbolKind::Trigger => OutlineKind::Event,
            AlSymbolKind::Variable => OutlineKind::Variable,
            AlSymbolKind::Parameter => OutlineKind::Variable,
            AlSymbolKind::Field => OutlineKind::Field,
            AlSymbolKind::Key => OutlineKind::Key,
            AlSymbolKind::EnumValue => OutlineKind::EnumMember,
        }
    }

    /// The kind under which an editor lists symbols of this kind.
    pub fn lsp_kind(&self) -> (r: OutlineKind)
        ensures
            r == self.outline(),
    {
        match self {
            AlSymbolKind::Object(_) => OutlineKind::Class,
            AlSymbolKind::Procedure => OutlineKind::Function,
            AlSymbolKind::Trigger => OutlineKind::Event,
            AlSymbolKind::Variable => OutlineKind::Variable,
            AlSymbolKind::Parameter => OutlineKind::Variable,
            AlSymbolKind::Field => OutlineKind::Field,
            AlSymbolKind::Key => OutlineKind::Key,
            AlSymbolKind::EnumValue => OutlineKind::EnumMember,
        }
    }
}

/// The child of `node` held in field `name`, if there is one.
pub open spec fn field_child(node: SyntaxNode, name: &str) -> Option<SyntaxNode> {
    match field_index(node.children@, name, 0) {
        Some(i) => Some(node.children@[i]),
        None => None,
    }
}

/// The text of the child held in field `name`, if there is one.
pub open spec fn field_text(node: SyntaxNode, name: &str, source: Seq<u8>) -> Option<Seq<u8>> {
    match field_child(node, name) {
        Some(c) => Some(c.text(source)),
        None => None,
    }
}

/// A return type as written behind the parameter list, without the colon
/// and the white space round it.
pub open spec fn return_type_text(text: Seq<u8>) -> Seq<u8> {
    trimmed(trim_start_by(text, ByteSet::Only(0x3a)))
}

/// A sequence of one symbol, or of none.
pub open spec fn opt_seq(symbol: Option<SymbolModel>) -> Seq<SymbolModel> {
    match symbol {
        Some(s) => seq![s],
        None => Seq::empty(),
    }
}

/// The symbol of kind `kind` that the declaration `item` yields: it is named
/// by the child in the field `name`, and where `typed` is set it carries the
/// text of the child in the field `type`. A declaration without a name yields
/// no symbol.
pub open spec fn leaf_symbol(item: SyntaxNode, source: Seq<u8>, kind: AlSymbolKind, typed: bool)
    -> Option<SymbolModel> {
    match field_child(item, "name") {
        None => None,
        Some(name_node) => Some(
            SymbolModel {
                name: name_node.name(source),
                kind,
                type_info: if typed {
                    field_text(item, "type", source)
                } else {
                    None
                },
                start_byte: item.start_byte,
                end_byte: item.end_byte,
                start_point: item.start_point,
                end_point: item.end_point,
                name_start_byte: name_node.start_byte,
                name_end_byte: name_node.end_byte,
                name_start_point: name_node.start_point,
                name_end_point: name_node.end_point,
                implements: Seq::empty(),
                children: Seq::empty(),
            },
        ),
    }
}

/// The symbols of the named children of kind `item_kind` among the first `n`
/// children of `section`, in source order.
pub open spec fn section_symbols(
    section: SyntaxNode,
    source: Seq<u8>,
    item_kind: &str,
    kind: AlSymbolKind,
    typed: bool,
    n: int,
) -> Seq<SymbolModel>
    decreases n,
{
    if n <= 0 || n > section.children@.len() {
        Seq::empty()
    } else {
        let before = section_symbols(section, source, item_kind, kind, typed, n - 1);
        let c = section.children@[n - 1];
        if c.named && c.kind_is(item_kind) {
            before + opt_seq(leaf_symbol(c, source, kind, typed))
        } else {
            before
        }
    }
}

/// All symbols of the items of kind `item_kind` in `section`.
pub open spec fn all_section_symbols(
    section: SyntaxNode,
    source: Seq<u8>,
    item_kind: &str,
    kind: AlSymbolKind,
    typed: bool,
) -> Seq<SymbolModel> {
    section_symbols(section, source, item_kind, kind, typed, section.children@.len() as int)
}

/// The parameters of a routine, in source order.
pub open spec fn parameter_symbols(node: SyntaxNode, source: Seq<u8>) -> Seq<SymbolModel> {
    match field_child(node, "parameters") {
        Some(p) => all_section_symbols(p, source, "parameter", AlSymbolKind::Parameter, true),
        None => Seq::empty(),
    }
}

/// The local variables of a routine, in source order.
pub open spec fn local_symbols(node: SyntaxNode, source: Seq<u8>) -> Seq<SymbolModel> {
    match field_child(node, "vars") {
        Some(v) => all_section_symbols(
            v,
            source,
            "variable_declaration",
            AlSymbolKind::Variable,
            true,
        ),
        None => Seq::empty(),
    }
}

/// The symbol of a procedure declaration: its children are its parameters,
/// then its locals; its type is its return type.
pub open spec fn procedure_symbol(node: SyntaxNode, source: Seq<u8>) -> Option<SymbolModel> {
    match field_child(node, "name") {
        None => None,
        Some(name_node) => Some(
            SymbolModel {
                name: name_node.name(source),
                kind: AlSymbolKind::Procedure,
                type_info: match field_text(node, "return_type", source) {
                    Some(t) => Some(return_type_text(t)),
                    None => None,
                },
                start_byte: node.start_byte,
                end_byte: node.end_byte,
                start_point: node.start_point,
                end_point: node.end_point,
                name_start_byte: name_node.start_byte,
                name_end_byte: name_node.end_byte,
                name_start_point: name_node.start_point,
                name_end_point: name_node.end_point,
                implements: Seq::empty(),
                children: parameter_symbols(node, source) + local_symbols(node, source),
            },
        ),
    }
}

/// The symbol of a trigger declaration: its children are its locals.
pub open spec fn trigger_symbol(node: SyntaxNode, source: Seq<u8>) -> Option<SymbolModel> {
    match field_child(node, "name") {
        None => None,
        Some(name_node) => Some(
            SymbolModel {
                name: name_node.name(source),
                kind: AlSymbolKind::Trigger,
                type_info: None,
                start_byte: node.start_byte,
                end_byte: node.end_byte,
                start_point: node.start_point,
                end_point: node.end_point,
                name_start_byte: name_node.start_byte,
                name_end_byte: name_node.end_byte,
                name_start_point: name_node.start_point,
                name_end_point: name_node.end_point,
                implements: Seq::empty(),
                children: local_symbols(node, source),
            },
        ),
    }
}

/// The symbols that one child of an object declaration yields.
pub open spec fn child_symbols(c: SyntaxNode, source: Seq<u8>) -> Seq<SymbolModel> {
    if !c.named {
        Seq::empty()
    } else if c.kind_is("procedure_declaration") {
        opt_seq(procedure_symbol(c, source))
    } else if c.kind_is("trigger_declaration") {
        opt_seq(trigger_symbol(c, source))
    } else if c.kind_is("var_section") {
        all_section_symbols(c, source, "variable_declaration", AlSymbolKind::Variable, true)
    } else if c.kind_is("fields_section") {
        all_section_symbols(c, source, "field_declaration", AlSymbolKind::Field, true)
    } else if c.kind_is("keys_section") {
        all_section_symbols(c, source, "key_declaration", AlSymbolKind::Key, false)
    } else if c.kind_is("enum_value_declaration") {
        opt_seq(leaf_symbol(c, source, AlSymbolKind::EnumValue, false))
    } else {
        Seq::empty()
    }
}

/// The symbols that the first `n` children of an object declaration yield.
pub open spec fn member_symbols(node: SyntaxNode, source: Seq<u8>, n: int) -> Seq<SymbolModel>
    decreases n,
{
    if n <= 0 || n > node.children@.len() {
        Seq::empty()
    } else {
        member_symbols(node, source, n - 1) + child_symbols(node.children@[n - 1], source)
    }
}

/// The names of the identifiers among the first `n` children of an
/// `implements` clause.
pub open spec fn clause_names(clause: SyntaxNode, source: Seq<u8>, n: int) -> Seq<Seq<u8>>
    decreases n,
{
    if n <= 0 || n > clause.children@.len() {
        Seq::empty()
    } else {
        let before = clause_names(clause, source, n - 1);
        let c = clause.children@[n - 1];
        if c.named && c.is_identifier() {
            before.push(c.name(source))
        } else {
            before
        }
    }
}

/// The interface names in the `implements` clauses among the first `n`
/// children of an object declaration.
pub open spec fn implements_names(node: SyntaxNode, source: Seq<u8>, n: int) -> Seq<Seq<u8>>
    decreases n,
{
    if n <= 0 || n > node.children@.len() {
        Seq::empty()
    } else {
        let before = implements_names(node, source, n - 1);
        let c = node.children@[n - 1];
        if c.named && c.kind_is("implements_clause") {
            before + clause_names(c, source, c.children@.len() as int)
        } else {
            before
        }
    }
}

/// The symbol of an object declaration. The object is named by its first
/// identifier child; a declaration without one yields no symbol.
pub open spec fn object_symbol(node: SyntaxNode, source: Seq<u8>, kind: AlObjectKind) -> Option<
    SymbolModel,
> {
    match identifier_index(node.children@, 0) {
        None => None,
        Some(i) => Some(
            SymbolModel {
                name: node.children@[i].name(source),
                kind: AlSymbolKind::Object(kind),
                type_info: Some(kind.keyword()),
                start_byte: node.start_byte,
                end_byte: node.end_byte,
                start_point: node.start_point,
                end_point: node.end_point,
                name_start_byte: node.children@[i].start_byte,
                name_end_byte: node.children@[i].end_byte,
                name_start_point: node.children@[i].start_point,
                name_end_point: node.children@[i].end_point,
                implements: implements_names(node, source, node.children@.len() as int),
                children: member_symbols(node, source, node.children@.len() as int),
            },
        ),
    }
}

/// The object symbols that the first `n` children of the root yield.
pub open spec fn document_symbols(root: SyntaxNode, source: Seq<u8>, n: int) -> Seq<SymbolModel>
    decreases n,
{
    if n <= 0 || n > root.children@.len() {
        Seq::empty()
    } else {
        let before = document_symbols(root, source, n - 1);
        let c = root.children@[n - 1];
        if c.named {
            match AlObjectKind::of_node_kind(c.kind@) {
                Some(kind) => before + opt_seq(object_symbol(c, source, kind)),
                None => before,
            }
        } else {
            before
        }
    }
}

/// The symbols of a document: one per object declaration at the top of the
/// tree, in source order, each with its members nested in it.
pub open spec fn symbols_of(root: SyntaxNode, source: Seq<u8>) -> Seq<SymbolModel> {
    document_symbols(root, source, root.children@.len() as int)
}

proof fn lemma_models_push(symbols: Seq<AlSymbol>, symbol: AlSymbol)
    ensures
        models(symbols.push(symbol)) == models(symbols).push(symbol@),
{
    assert(symbols.push(symbol).drop_last() =~= symbols);
}

proof fn lemma_children_view(symbol: AlSymbol)
    ensures
        symbol@.children == models(symbol.children@),
{
}

fn push_symbol(symbols: &mut Vec<AlSymbol>, symbol: Option<AlSymbol>, Ghost(model): Ghost<
    Option<SymbolModel>,
>)
    requires
        match symbol {
            Some(s) => model == Some(s@),
            None => model is None,
        },
    ensures
        models(final(symbols)@) == models(old(symbols)@) + opt_seq(model),
{
    match symbol {
        Some(s) => {
            proof {
                lemma_models_push(symbols@, s);
            }
            symbols.push(s);
            assert(models(symbols@) =~= models(old(symbols)@) + opt_seq(model));
        },
        None => {
            assert(models(symbols@) =~= models(old(symbols)@) + opt_seq(model));
        },
    }
}

fn field_text_of(node: &SyntaxNode, name: &str, source: &[u8]) -> (r: Option<Vec<u8>>)
    ensures
        opt_text(r) == field_text(*node, name, source@),
{
    match node.child_by_field_name(name) {
        Some(c) => Some(copy_of(node_text(c, source))),
        None => None,
    }
}

fn extract_leaf_symbol(item: &SyntaxNode, source: &[u8], kind: AlSymbolKind, typed: bool) -> (r:
    Option<AlSymbol>)
    ensures
        match r {
            Some(s) => leaf_symbol(*item, source@, kind, typed) == Some(s@),
            None => leaf_symbol(*item, source@, kind, typed) is None,
        },
{
    match item.child_by_field_name("name") {
        None => None,
        Some(name_node) => {
            let type_info = if typed {
                field_text_of(item, "type", source)
            } else {
                None
            };
            let symbol = AlSymbol {
                name: extract_name(name_node, source),
                kind,
                type_info,
                start_byte: item.start_byte,
                end_byte: item.end_byte,
                start_point: item.start_point,
                end_point: item.end_point,
                name_start_byte: name_node.start_byte,
                name_end_byte: name_node.end_byte,
                name_start_point: name_node.start_point,
                name_end_point: name_node.end_point,
                implements: Vec::new(),
                children: Vec::new(),
            };
            proof {
                lemma_children_view(symbol);
                assert(symbol@.children =~= Seq::empty());
                assert(symbol@.implements =~= Seq::empty());
            }
            Some(symbol)
        },
    }
}

fn extract_section_symbols(
    section: &SyntaxNode,
    source: &[u8],
    item_kind: &str,
    kind: AlSymbolKind,
    typed: bool,
    symbols: &mut Vec<AlSymbol>,
)
    ensures
        models(final(symbols)@) == models(old(symbols)@) + all_section_symbols(
            *section,
            source@,
            item_kind,
            kind,
            typed,
        ),
{
    let mut i: usize = 0;
    assert(models(symbols@) =~= models(old(symbols)@) + section_symbols(
        *section,
        source@,
        item_kind,
        kind,
        typed,
        0,
    ));
    while i < section.children.len()
        invariant
            i <= section.children.len(),
            models(symbols@) == models(old(symbols)@) + section_symbols(
                *section,
                source@,
                item_kind,
                kind,
                typed,
                i as int,
            ),
        decreases section.children.len() - i,
    {
        let child = &section.children[i];
        let ghost before = section_symbols(*section, source@, item_kind, kind, typed, i as int);
        if child.named && child.has_kind(item_kind) {
            let symbol = extract_leaf_symbol(child, source, kind, typed);
            let ghost model = leaf_symbol(*child, source@, kind, typed);
            push_symbol(symbols, symbol, Ghost(model));
            assert(models(symbols@) =~= models(old(symbols)@) + (before + opt_seq(model)));
        }
        i += 1;
    }
}

fn extract_var_symbols(node: &SyntaxNode, source: &[u8], symbols: &mut Vec<AlSymbol>)
    ensures
        models(final(symbols)@) == models(old(symbols)@) + all_section_symbols(
            *node,
            source@,
            "variable_declaration",
            AlSymbolKind::Variable,
            true,
        ),
{
    extract_section_symbols(
        node,
        source,
        "variable_declaration",
        AlSymbolKind::Variable,
        true,
        symbols,
    );
}

fn extract_parameter_symbols(node: &SyntaxNode, source: &[u8], symbols: &mut Vec<AlSymbol>)
    ensures
        models(final(symbols)@) == models(old(symbols)@) + all_section_symbols(
            *node,
            source@,
            "parameter",
            AlSymbolKind::Parameter,
            true,
        ),
{
    extract_section_symbols(node, source, "parameter", AlSymbolKind::Parameter, true, symbols);
}

fn extract_field_symbols(node: &SyntaxNode, source: &[u8], symbols: &mut Vec<AlSymbol>)
    ensures
        models(final(symbols)@) == models(old(symbols)@) + all_section_symbols(
            *node,
            source@,
            "field_declaration",
            AlSymbolKind::Field,
            true,
        ),
{
    extract_section_symbols(node, source, "field_declaration", AlSymbolKind::Field, true, symbols);
}

fn extract_key_symbols(node: &SyntaxNode, source: &[u8], symbols: &mut Vec<AlSymbol>)
    ensures
        models(final(symbols)@) == models(old(symbols)@) + all_section_symbols(
            *node,
            source@,
            "key_declaration",
            AlSymbolKind::Key,
            false,
        ),
{
    extract_section_symbols(node, source, "key_declaration", AlSymbolKind::Key, false, symbols);
}

fn extract_enum_value_symbol(node: &SyntaxNode, source: &[u8]) -> (r: Option<AlSymbol>)
    ensures
        match r {
            Some(s) => leaf_symbol(*node, source@, AlSymbolKind::EnumValue, false) == Some(s@),
            None => leaf_symbol(*node, source@, AlSymbolKind::EnumValue, false) is None,
        },
{
    extract_leaf_symbol(node, source, AlSymbolKind::EnumValue, false)
}

fn extract_locals(node: &SyntaxNode, source: &[u8], symbols: &mut Vec<AlSymbol>)
    ensures
        models(final(symbols)@) == models(old(symbols)@) + local_symbols(*node, source@),
{
    match node.child_by_field_name("vars") {
        Some(vars) => {
            extract_var_symbols(vars, source, symbols);
        },
        None => {
            assert(models(symbols@) =~= models(old(symbols)@) + local_symbols(*node, source@));
        },
    }
}

fn extract_procedure_symbol(node: &SyntaxNode, source: &[u8]) -> (r: Option<AlSymbol>)
    ensures
        match r {
            Some(s) => procedure_symbol(*node, source@) == Some(s@),
            None => procedure_symbol(*node, source@) is None,
        },
{
    match node.child_by_field_name("name") {
        None => None,
        Some(name_node) => {
            let type_info = match node.child_by_field_name("return_type") {
                Some(rt) => Some(
                    copy_of(trim(trim_start_matches(node_text(rt, source), 0x3a))),
                ),
                None => None,
            };
            let mut children: Vec<AlSymbol> = Vec::new();
            assert(models(children@) =~= Seq::empty());
            match node.child_by_field_name("parameters") {
                Some(params) => {
                    extract_parameter_symbols(params, source, &mut children);
                },
                None => {},
            }
            assert(models(children@) =~= parameter_symbols(*node, source@));
            extract_locals(node, source, &mut children);
            let symbol = AlSymbol {
                name: extract_name(name_node, source),
                kind: AlSymbolKind::Procedure,
                type_info,
                start_byte: node.start_byte,
                end_byte: node.end_byte,
                start_point: node.start_point,
                end_point: node.end_point,
                name_start_byte: name_node.start_byte,
                name_end_byte: name_node.end_byte,
                name_start_point: name_node.start_point,
                name_end_point: name_node.end_point,
                implements: Vec::new(),
                children,
            };
            proof {
                lemma_children_view(symbol);
                assert(symbol@.implements =~= Seq::empty());
            }
            Some(symbol)
        },
    }
}

fn extract_trigger_symbol(node: &SyntaxNode, source: &[u8]) -> (r: Option<AlSymbol>)
    ensures
        match r {
            Some(s) => trigger_symbol(*node, source@) == Some(s@),
            None => trigger_symbol(*node, source@) is None,
        },
{
    match node.child_by_field_name("name") {
        None => None,
        Some(name_node) => {
            let mut children: Vec<AlSymbol> = Vec::new();
            assert(models(children@) =~= Seq::empty());
            extract_locals(node, source, &mut children);
            assert(models(children@) =~= local_symbols(*node, source@));
            let symbol = AlSymbol {
                name: extract_name(name_node, source),
                kind: AlSymbolKind::Trigger,
                type_info: None,
                start_byte: node.start_byte,
                end_byte: node.end_byte,
                start_point: node.start_point,
                end_point: node.end_point,
                name_start_byte: name_node.start_byte,
                name_end_byte: name_node.end_byte,
                name_start_point: name_node.start_point,
                name_end_point: name_node.end_point,
                implements: Vec::new(),
                children,
            };
            proof {
                lemma_children_view(symbol);
                assert(symbol@.implements =~= Seq::empty());
            }
            Some(symbol)
        },
    }
}

fn extract_children_symbols(node: &SyntaxNode, source: &[u8], symbols: &mut Vec<AlSymbol>)
    ensures
        models(final(symbols)@) == models(old(symbols)@) + member_symbols(
            *node,
            source@,
            node.children@.len() as int,
        ),
{
    let mut i: usize = 0;
    assert(models(symbols@) =~= models(old(symbols)@) + member_symbols(*node, source@, 0));
    while i < node.children.len()
        invariant
            i <= node.children.len(),
            models(symbols@) == models(old(symbols)@) + member_symbols(*node, source@, i as int),
        decreases node.children.len() - i,
    {
        let child = &node.children[i];
        let ghost before = member_symbols(*node, source@, i as int);
        let ghost own = child_symbols(*child, source@);
        let ghost start = models(symbols@);
        if !child.named {
        } else if child.has_kind("procedure_declaration") {
            let symbol = extract_procedure_symbol(child, source);
            push_symbol(symbols, symbol, Ghost(procedure_symbol(*child, source@)));
        } else if child.has_kind("trigger_declaration") {
            let symbol = extract_trigger_symbol(child, source);
            push_symbol(symbols, symbol, Ghost(trigger_symbol(*child, source@)));
        } else if child.has_kind("var_section") {
            extract_var_symbols(child, source, symbols);
        } else if child.has_kind("fields_section") {
            extract_field_symbols(child, source, symbols);
        } else if child.has_kind("keys_section") {
            extract_key_symbols(child, source, symbols);
        } else if child.has_kind("enum_value_declaration") {
            let symbol = extract_enum_value_symbol(child, source);
            push_symbol(
                symbols,
                symbol,
                Ghost(leaf_symbol(*child, source@, AlSymbolKind::EnumValue, false)),
            );
        }
        assert(models(symbols@) =~= start + own);
        assert(models(symbols@) =~= models(old(symbols)@) + (before + own));
        i += 1;
    }
}

fn extract_clause_names(clause: &SyntaxNode, source: &[u8], names: &mut Vec<Vec<u8>>)
    ensures
        texts(final(names)@) == texts(old(names)@) + clause_names(
            *clause,
            source@,
            clause.children@.len() as int,
        ),
{
    let mut i: usize = 0;
    assert(texts(names@) =~= texts(old(names)@) + clause_names(*clause, source@, 0));
    while i < clause.children.len()
        invariant
            i <= clause.children.len(),
            texts(names@) == texts(old(names)@) + clause_names(*clause, source@, i as int),
        decreases clause.children.len() - i,
    {
        let child = &clause.children[i];
        let ghost before = clause_names(*clause, source@, i as int);
        if child.named && child.has_identifier_kind() {
            let name = extract_name(child, source);
            let ghost start = texts(names@);
            names.push(name);
            assert(texts(names@) =~= start.push(name@));
            assert(texts(names@) =~= texts(old(names)@) + before.push(name@));
        }
        i += 1;
    }
}

fn extract_implements(node: &SyntaxNode, source: &[u8]) -> (names: Vec<Vec<u8>>)
    ensures
        texts(names@) == implements_names(*node, source@, node.children@.len() as int),
{
    let mut names: Vec<Vec<u8>> = Vec::new();
    let mut i: usize = 0;
    assert(texts(names@) =~= implements_names(*node, source@, 0));
    while i < node.children.len()
        invariant
            i <= node.children.len(),
            texts(names@) == implements_names(*node, source@, i as int),
        decreases node.children.len() - i,
    {
        let child = &node.children[i];
        if child.named && child.has_kind("implements_clause") {
            extract_clause_names(child, source, &mut names);
        }
        i += 1;
    }
    names
}

fn extract_object_symbol(node: &SyntaxNode, source: &[u8], kind: AlObjectKind) -> (r: Option<
    AlSymbol,
>)
    ensures
        match r {
            Some(s) => object_symbol(*node, source@, kind) == Some(s@),
            None => object_symbol(*node, source@, kind) is None,
        },
{
    match node.identifier_child_index() {
        None => None,
        Some(i) => {
            let name_node = &node.children[i];
            let mut children: Vec<AlSymbol> = Vec::new();
            assert(models(children@) =~= Seq::empty());
            extract_children_symbols(node, source, &mut children);
            assert(models(children@) =~= member_symbols(
                *node,
                source@,
                node.children@.len() as int,
            ));
            let symbol = AlSymbol {
                name: extract_name(name_node, source),
                kind: AlSymbolKind::Object(kind),
                type_info: Some(copy_of(kind.label().as_bytes())),
                start_byte: node.start_byte,
                end_byte: node.end_byte,
                start_point: node.start_point,
                end_point: node.end_point,
                name_start_byte: name_node.start_byte,
                name_end_byte: name_node.end_byte,
                name_start_point: name_node.start_point,
                name_end_point: name_node.end_point,
                implements: extract_implements(node, source),
                children,
            };
            proof {
                lemma_children_view(symbol);
            }
            Some(symbol)
        },
    }
}

/// Walk the tree and extract all symbols, building a nested structure.
pub fn extract_symbols(tree: &SyntaxNode, source: &[u8]) -> (symbols: Vec<AlSymbol>)
    ensures
        models(symbols@) == symbols_of(*tree, source@),
{
    let mut symbols: Vec<AlSymbol> = Vec::new();
    let mut i: usize = 0;
    assert(models(symbols@) =~= document_symbols(*tree, source@, 0));
    while i < tree.children.len()
        invariant
            i <= tree.children.len(),
            models(symbols@) == document_symbols(*tree, source@, i as int),
        decreases tree.children.len() - i,
    {
        let child = &tree.children[i];
        if child.named {
            match AlObjectKind::from_node_kind(child.kind.as_slice()) {
                Some(kind) => {
                    let symbol = extract_object_symbol(child, source, kind);
                    push_symbol(&mut symbols, symbol, Ghost(object_symbol(*child, source@, kind)));
                },
                None => {},
            }
        }
        i += 1;
    }
    symbols
}

impl SymbolModel {
    /// Whether the symbol's byte range lies inside `start..end` without
    /// being the whole of it.
    pub open spec fn inside(&self, start: usize, end: usize) -> bool {
        &&& start <= self.start_byte
        &&& self.end_byte <= end
        &&& !(self.start_byte == start && self.end_byte == end)
    }

    /// Whether the byte range of every symbol nested in this one, at any
    /// depth, is strictly contained in the range of the symbol it is
    /// nested in.
    pub open spec fn nested(&self) -> bool
        decreases self,
    {
        forall|i: int|
            #![trigger self.children[i]]
            0 <= i < self.children.len() ==> self.children[i].inside(self.start_byte, self.end_byte)
                && self.children[i].nested()
    }
}

/// Every symbol lies strictly inside `start..end` and is nested in itself.
pub open spec fn all_inside(symbols: Seq<SymbolModel>, start: usize, end: usize) -> bool {
    forall|i: int|
        #![trigger symbols[i]]
        0 <= i < symbols.len() ==> symbols[i].inside(start, end) && symbols[i].nested()
}

impl SyntaxNode {
    /// Whether the node has the same byte range as `other`.
    pub open spec fn same_range(&self, other: SyntaxNode) -> bool {
        self.start_byte == other.start_byte && self.end_byte == other.end_byte
    }

    /// No child and no grandchild of the node spans the whole node.
    pub open spec fn spans_more(&self) -> bool {
        forall|i: int|
            #![trigger self.children@[i]]
            0 <= i < self.children@.len() ==> {
                &&& !self.children@[i].same_range(*self)
                &&& forall|j: int|
                    #![trigger self.children@[i].children@[j]]
                    0 <= j < self.children@[i].children@.len()
                        ==> !self.children@[i].children@[j].same_range(*self)
            }
    }

    /// Whether the node is a procedure or a trigger declaration.
    pub open spec fn is_routine(&self) -> bool {
        self.kind_is("procedure_declaration") || self.kind_is("trigger_declaration")
    }
}

/// Every object declaration at the top of the tree, and every routine
/// directly in one, spans more than any of its children and grandchildren.
pub open spec fn declarations_proper(root: SyntaxNode) -> bool {
    forall|i: int|
        #![trigger root.children@[i]]
        0 <= i < root.children@.len() && AlObjectKind::of_node_kind(root.children@[i].kind@)
            is Some ==> {
            &&& root.children@[i].spans_more()
            &&& forall|j: int|
                #![trigger root.children@[i].children@[j]]
                0 <= j < root.children@[i].children@.len()
                    && root.children@[i].children@[j].is_routine()
                    ==> root.children@[i].children@[j].spans_more()
        }
}

proof fn lemma_section_nested(
    section: SyntaxNode,
    source: Seq<u8>,
    item_kind: &str,
    kind: AlSymbolKind,
    typed: bool,
    n: int,
    start: usize,
    end: usize,
)
    requires
        0 <= n <= section.children@.len(),
        forall|k: int|
            #![trigger section.children@[k]]
            0 <= k < section.children@.len() ==> start <= section.children@[k].start_byte
                && section.children@[k].end_byte <= end && !(section.children@[k].start_byte
                == start && section.children@[k].end_byte == end),
    ensures
        all_inside(section_symbols(section, source, item_kind, kind, typed, n), start, end),
    decreases n,
{
    if n > 0 {
        lemma_section_nested(section, source, item_kind, kind, typed, n - 1, start, end);
        let c = section.children@[n - 1];
        let before = section_symbols(section, source, item_kind, kind, typed, n - 1);
        if c.named && c.kind_is(item_kind) {
            match leaf_symbol(c, source, kind, typed) {
                Some(s) => {
                    assert(s.nested());
                    assert(s.inside(start, end));
                },
                None => {},
            }
        }
    }
}

proof fn lemma_field_section_nested(
    routine: SyntaxNode,
    source: Seq<u8>,
    field: &str,
    item_kind: &str,
    kind: AlSymbolKind,
)
    requires
        routine.well_formed(),
        routine.spans_more(),
    ensures
        match field_child(routine, field) {
            Some(p) => all_inside(
                all_section_symbols(p, source, item_kind, kind, true),
                routine.start_byte,
                routine.end_byte,
            ),
            None => true,
        },
{
    match field_index(routine.children@, field, 0) {
        Some(i) => {
            crate::syntax::lemma_field_index(routine.children@, field, 0);
            let p = routine.children@[i];
            assert(p.well_formed());
            assert forall|k: int|
                #![trigger p.children@[k]]
                0 <= k < p.children@.len() implies routine.start_byte <= p.children@[k].start_byte
                && p.children@[k].end_byte <= routine.end_byte && !(p.children@[k].start_byte
                == routine.start_byte && p.children@[k].end_byte == routine.end_byte) by {
                assert(!routine.children@[i].children@[k].same_range(routine));
            }
            lemma_section_nested(
                p,
                source,
                item_kind,
                kind,
                true,
                p.children@.len() as int,
                routine.start_byte,
                routine.end_byte,
            );
        },
        None => {},
    }
}

proof fn lemma_routine_nested(routine: SyntaxNode, source: Seq<u8>)
    requires
        routine.well_formed(),
        routine.spans_more(),
    ensures
        match procedure_symbol(routine, source) {
            Some(s) => s.nested() && s.start_byte == routine.start_byte && s.end_byte
                == routine.end_byte,
            None => true,
        },
        match trigger_symbol(routine, source) {
            Some(s) => s.nested() && s.start_byte == routine.start_byte && s.end_byte
                == routine.end_byte,
            None => true,
        },
{
    lemma_field_section_nested(routine, source, "parameters", "parameter", AlSymbolKind::Parameter);
    lemma_field_section_nested(
        routine,
        source,
        "vars",
        "variable_declaration",
        AlSymbolKind::Variable,
    );
}

proof fn lemma_members_nested(object: SyntaxNode, source: Seq<u8>, n: int)
    requires
        0 <= n <= object.children@.len(),
        object.well_formed(),
        object.spans_more(),
        forall|j: int|
            #![trigger object.children@[j]]
            0 <= j < object.children@.len() && object.children@[j].is_routine()
                ==> object.children@[j].spans_more(),
    ensures
        all_inside(member_symbols(object, source, n), object.start_byte, object.end_byte),
    decreases n,
{
    if n > 0 {
        lemma_members_nested(object, source, n - 1);
        let c = object.children@[n - 1];
        assert(c.well_formed());
        assert(!c.same_range(object));
        let own = child_symbols(c, source);
        if !c.named {
        } else if c.kind_is("procedure_declaration") || c.kind_is("trigger_declaration") {
            lemma_routine_nested(c, source);
        } else if c.kind_is("var_section") || c.kind_is("fields_section") || c.kind_is(
            "keys_section",
        ) {
            assert forall|k: int|
                #![trigger c.children@[k]]
                0 <= k < c.children@.len() implies object.start_byte <= c.children@[k].start_byte
                && c.children@[k].end_byte <= object.end_byte && !(c.children@[k].start_byte
                == object.start_byte && c.children@[k].end_byte == object.end_byte) by {
                assert(!object.children@[n - 1].children@[k].same_range(object));
            }
            lemma_section_nested(
                c,
                source,
                "variable_declaration",
                AlSymbolKind::Variable,
                true,
                c.children@.len() as int,
                object.start_byte,
                object.end_byte,
            );
            lemma_section_nested(
                c,
                source,
                "field_declaration",
                AlSymbolKind::Field,
                true,
                c.children@.len() as int,
                object.start_byte,
                object.end_byte,
            );
            lemma_section_nested(
                c,
                source,
                "key_declaration",
                AlSymbolKind::Key,
                false,
                c.children@.len() as int,
                object.start_byte,
                object.end_byte,
            );
        } else if c.kind_is("enum_value_declaration") {
        }
        assert(all_inside(own, object.start_byte, object.end_byte));
    }
}

/// Every symbol is nested in itself.
pub open spec fn all_nested(symbols: Seq<SymbolModel>) -> bool {
    forall|i: int| #![trigger symbols[i]] 0 <= i < symbols.len() ==> symbols[i].nested()
}

proof fn lemma_object_nested(object: SyntaxNode, source: Seq<u8>, kind: AlObjectKind)
    requires
        object.well_formed(),
        object.spans_more(),
        forall|j: int|
            #![trigger object.children@[j]]
            0 <= j < object.children@.len() && object.children@[j].is_routine()
                ==> object.children@[j].spans_more(),
    ensures
        all_nested(opt_seq(object_symbol(object, source, kind))),
{
    lemma_members_nested(object, source, object.children@.len() as int);
    match object_symbol(object, source, kind) {
        Some(s) => {
            assert(s.children == member_symbols(object, source, object.children@.len() as int));
            assert(s.start_byte == object.start_byte && s.end_byte == object.end_byte);
            assert(s.nested());
        },
        None => {},
    }
}

proof fn lemma_document_nested(root: SyntaxNode, source: Seq<u8>, n: int)
    requires
        0 <= n <= root.children@.len(),
        root.well_formed(),
        declarations_proper(root),
    ensures
        all_nested(document_symbols(root, source, n)),
    decreases n,
{
    if n > 0 {
        lemma_document_nested(root, source, n - 1);
        let c = root.children@[n - 1];
        let before = document_symbols(root, source, n - 1);
        assert(c.well_formed());
        if c.named {
            match AlObjectKind::of_node_kind(c.kind@) {
                Some(kind) => {
                    lemma_object_nested(c, source, kind);
                    let own = opt_seq(object_symbol(c, source, kind));
                    assert(document_symbols(root, source, n) == before + own);
                    assert forall|i: int|
                        #![trigger (before + own)[i]]
                        0 <= i < (before + own).len() implies (before + own)[i].nested() by {
                        if i < before.len() {
                            assert((before + own)[i] == before[i]);
                        } else {
                            assert((before + own)[i] == own[i - before.len()]);
                        }
                    }
                },
                None => {},
            }
        }
    }
}

/// In the symbols of a document, the byte range of every symbol is
/// strictly contained in the range of the symbol it is nested in.
///
/// This holds of a well-formed tree in which no declaration has a child or
/// grandchild that spans the whole declaration.
pub proof fn law_symbols_nested(tree: SyntaxNode, source: Seq<u8>)
    requires
        tree.well_formed(),
        declarations_proper(tree),
    ensures
        all_nested(symbols_of(tree, source)),
{
    lemma_document_nested(tree, source, tree.children@.len() as int);
}

impl SymbolModel {
    /// Whether the symbol ends before `other` starts.
    pub open spec fn before(&self, other: SymbolModel) -> bool {
        self.end_byte <= other.start_byte
    }

    /// Whether no two symbols nested in this one, at any depth, overlap.
    pub open spec fn apart(&self) -> bool
        decreases self,
    {
        &&& forall|i: int, j: int|
            #![trigger self.children[i], self.children[j]]
            0 <= i < j < self.children.len() ==> self.children[i].before(self.children[j])
                || self.children[j].before(self.children[i])
        &&& forall|i: int|
            #![trigger self.children[i]]
            0 <= i < self.children.len() ==> self.children[i].apart()
    }
}

/// The symbols lie inside `lo..hi`, each ends before the next starts, and
/// none holds symbols that overlap.
pub open spec fn in_order(symbols: Seq<SymbolModel>, lo: int, hi: int) -> bool {
    &&& forall|i: int|
        #![trigger symbols[i]]
        0 <= i < symbols.len() ==> lo <= symbols[i].start_byte && symbols[i].start_byte
            <= symbols[i].end_byte && symbols[i].end_byte <= hi && symbols[i].apart()
    &&& forall|i: int, j: int|
        #![trigger symbols[i], symbols[j]]
        0 <= i < j < symbols.len() ==> symbols[i].before(symbols[j])
}

/// No symbol holds symbols that overlap.
pub open spec fn all_apart(symbols: Seq<SymbolModel>) -> bool {
    forall|i: int| #![trigger symbols[i]] 0 <= i < symbols.len() ==> symbols[i].apart()
}

proof fn lemma_in_order_add(a: Seq<SymbolModel>, b: Seq<SymbolModel>, lo: int, mid: int, hi: int)
    requires
        in_order(a, lo, mid),
        in_order(b, mid, hi),
        lo <= mid <= hi,
    ensures
        in_order(a + b, lo, hi),
{
    let c = a + b;
    assert forall|i: int|
        #![trigger c[i]]
        0 <= i < c.len() implies lo <= c[i].start_byte && c[i].start_byte <= c[i].end_byte
        && c[i].end_byte <= hi && c[i].apart() by {
        if i < a.len() {
            assert(c[i] == a[i]);
        } else {
            assert(c[i] == b[i - a.len()]);
        }
    }
    assert forall|i: int, j: int|
        #![trigger c[i], c[j]]
        0 <= i < j < c.len() implies c[i].before(c[j]) by {
        if j < a.len() {
            assert(c[i] == a[i] && c[j] == a[j]);
        } else if i >= a.len() {
            assert(c[i] == b[i - a.len()] && c[j] == b[j - a.len()]);
        } else {
            assert(c[i] == a[i] && c[j] == b[j - a.len()]);
        }
    }
}

/// In a well-formed node, an earlier child ends before a later one starts.
proof fn lemma_children_sorted(node: SyntaxNode, i: int, j: int)
    requires
        node.well_formed(),
        0 <= i < j < node.children@.len(),
    ensures
        node.children@[i].end_byte <= node.children@[j].start_byte,
    decreases j - i,
{
    if i + 1 < j {
        lemma_children_sorted(node, i, j - 1);
        assert(node.children@[j - 1].well_formed());
        assert(node.children@[j - 1].end_byte <= node.children@[j].start_byte);
    } else {
        assert(node.children@[i].end_byte <= node.children@[i + 1].start_byte);
    }
}

/// Where the first `n` children of a node end.
pub open spec fn end_of_first(node: SyntaxNode, n: int) -> int {
    if 0 < n <= node.children@.len() {
        node.children@[n - 1].end_byte as int
    } else {
        node.start_byte as int
    }
}

proof fn lemma_section_in_order(
    section: SyntaxNode,
    source: Seq<u8>,
    item_kind: &str,
    kind: AlSymbolKind,
    typed: bool,
    n: int,
)
    requires
        0 <= n <= section.children@.len(),
        section.well_formed(),
    ensures
        in_order(
            section_symbols(section, source, item_kind, kind, typed, n),
            section.start_byte as int,
            end_of_first(section, n),
        ),
        section.start_byte <= end_of_first(section, n) <= section.end_byte,
    decreases n,
{
    if n > 0 {
        lemma_section_in_order(section, source, item_kind, kind, typed, n - 1);
        let c = section.children@[n - 1];
        assert(c.well_formed());
        if n > 1 {
            lemma_children_sorted(section, n - 2, n - 1);
        }
        let before = section_symbols(section, source, item_kind, kind, typed, n - 1);
        let own = if c.named && c.kind_is(item_kind) {
            opt_seq(leaf_symbol(c, source, kind, typed))
        } else {
            Seq::empty()
        };
        assert(in_order(own, c.start_byte as int, c.end_byte as int)) by {
            match leaf_symbol(c, source, kind, typed) {
                Some(s) => {
                    assert(s.apart());
                },
                None => {},
            }
        }
        assert(in_order(before, section.start_byte as int, c.start_byte as int));
        lemma_in_order_add(
            before,
            own,
            section.start_byte as int,
            c.start_byte as int,
            c.end_byte as int,
        );
        assert(before + own =~= section_symbols(section, source, item_kind, kind, typed, n));
    }
}

/// The symbols of a section of a well-formed tree, in order inside the section.
proof fn lemma_whole_section_in_order(
    section: SyntaxNode,
    source: Seq<u8>,
    item_kind: &str,
    kind: AlSymbolKind,
    typed: bool,
)
    requires
        section.well_formed(),
    ensures
        in_order(
            all_section_symbols(section, source, item_kind, kind, typed),
            section.start_byte as int,
            section.end_byte as int,
        ),
{
    lemma_section_in_order(
        section,
        source,
        item_kind,
        kind,
        typed,
        section.children@.len() as int,
    );
}

proof fn lemma_routine_apart(routine: SyntaxNode, source: Seq<u8>)
    requires
        routine.well_formed(),
    ensures
        match procedure_symbol(routine, source) {
            Some(s) => s.apart(),
            None => true,
        },
        match trigger_symbol(routine, source) {
            Some(s) => s.apart(),
            None => true,
        },
{
    match field_index(routine.children@, "vars", 0) {
        Some(v) => {
            crate::syntax::lemma_field_index(routine.children@, "vars", 0);
            assert(routine.children@[v].well_formed());
            lemma_whole_section_in_order(
                routine.children@[v],
                source,
                "variable_declaration",
                AlSymbolKind::Variable,
                true,
            );
        },
        None => {},
    }
    let locals = local_symbols(routine, source);
    match field_index(routine.children@, "parameters", 0) {
        Some(p) => {
            crate::syntax::lemma_field_index(routine.children@, "parameters", 0);
            assert(routine.children@[p].well_formed());
            lemma_whole_section_in_order(
                routine.children@[p],
                source,
                "parameter",
                AlSymbolKind::Parameter,
                true,
            );
        },
        None => {},
    }
    let parameters = parameter_symbols(routine, source);
    let both = parameters + locals;
    match (field_index(routine.children@, "parameters", 0), field_index(routine.children@, "vars", 0)) {
        (Some(p), Some(v)) => {
            lemma_field_names_differ();
            assert(p != v);
            if p < v {
                lemma_children_sorted(routine, p, v);
            } else {
                lemma_children_sorted(routine, v, p);
            }
        },
        _ => {},
    }
    assert forall|i: int, j: int|
        #![trigger both[i], both[j]]
        0 <= i < j < both.len() implies both[i].before(both[j]) || both[j].before(both[i]) by {
        if j < parameters.len() {
            assert(both[i] == parameters[i] && both[j] == parameters[j]);
        } else if i >= parameters.len() {
            assert(both[i] == locals[i - parameters.len()] && both[j] == locals[j
                - parameters.len()]);
        } else {
            assert(both[i] == parameters[i] && both[j] == locals[j - parameters.len()]);
        }
    }
    assert forall|i: int| #![trigger both[i]] 0 <= i < both.len() implies both[i].apart() by {
        if i < parameters.len() {
            assert(both[i] == parameters[i]);
        } else {
            assert(both[i] == locals[i - parameters.len()]);
        }
    }
}

/// The fields `parameters` and `vars` have different names.
proof fn lemma_field_names_differ()
    ensures
        "parameters".spec_bytes() != "vars".spec_bytes(),
{
    reveal_strlit("parameters");
    reveal_strlit("vars");
    vstd::string::is_ascii_spec_bytes("parameters");
    vstd::string::is_ascii_spec_bytes("vars");
    assert("parameters".spec_bytes().len() == 10);
    assert("vars".spec_bytes().len() == 4);
}

proof fn lemma_child_in_order(c: SyntaxNode, source: Seq<u8>)
    requires
        c.well_formed(),
    ensures
        in_order(child_symbols(c, source), c.start_byte as int, c.end_byte as int),
{
    lemma_routine_apart(c, source);
    lemma_whole_section_in_order(c, source, "variable_declaration", AlSymbolKind::Variable, true);
    lemma_whole_section_in_order(c, source, "field_declaration", AlSymbolKind::Field, true);
    lemma_whole_section_in_order(c, source, "key_declaration", AlSymbolKind::Key, false);
    match leaf_symbol(c, source, AlSymbolKind::EnumValue, false) {
        Some(s) => {
            assert(s.apart());
        },
        None => {},
    }
}

proof fn lemma_members_in_order(object: SyntaxNode, source: Seq<u8>, n: int)
    requires
        0 <= n <= object.children@.len(),
        object.well_formed(),
    ensures
        in_order(
            member_symbols(object, source, n),
            object.start_byte as int,
            end_of_first(object, n),
        ),
        object.start_byte <= end_of_first(object, n) <= object.end_byte,
    decreases n,
{
    if n > 0 {
        lemma_members_in_order(object, source, n - 1);
        let c = object.children@[n - 1];
        assert(c.well_formed());
        if n > 1 {
            lemma_children_sorted(object, n - 2, n - 1);
        }
        lemma_child_in_order(c, source);
        let before = member_symbols(object, source, n - 1);
        assert(in_order(before, object.start_byte as int, c.start_byte as int));
        lemma_in_order_add(
            before,
            child_symbols(c, source),
            object.start_byte as int,
            c.start_byte as int,
            c.end_byte as int,
        );
    }
}

proof fn lemma_document_apart(root: SyntaxNode, source: Seq<u8>, n: int)
    requires
        0 <= n <= root.children@.len(),
        root.well_formed(),
    ensures
        all_apart(document_symbols(root, source, n)),
    decreases n,
{
    if n > 0 {
        lemma_document_apart(root, source, n - 1);
        let c = root.children@[n - 1];
        let before = document_symbols(root, source, n - 1);
        assert(c.well_formed());
        if c.named {
            match AlObjectKind::of_node_kind(c.kind@) {
                Some(kind) => {
                    lemma_members_in_order(c, source, c.children@.len() as int);
                    let own = opt_seq(object_symbol(c, source, kind));
                    match object_symbol(c, source, kind) {
                        Some(s) => {
                            assert(s.children == member_symbols(
                                c,
                                source,
                                c.children@.len() as int,
                            ));
                            assert(s.apart());
                        },
                        None => {},
                    }
                    assert forall|i: int|
                        #![trigger (before + own)[i]]
                        0 <= i < (before + own).len() implies (before + own)[i].apart() by {
                        if i < before.len() {
                            assert((before + own)[i] == before[i]);
                        } else {
                            assert((before + own)[i] == own[i - before.len()]);
                        }
                    }
                },
                None => {},
            }
        }
    }
}

/// In the symbols of a document with a well-formed tree, no two symbols
/// that are nested in the same symbol overlap.
pub proof fn law_symbols_apart(tree: SyntaxNode, source: Seq<u8>)
    requires
        tree.well_formed(),
    ensures
        all_apart(symbols_of(tree, source)),
{
    lemma_document_apart(tree, source, tree.children@.len() as int);
}

} // verus!
