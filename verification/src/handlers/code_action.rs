//! Code actions: toggling the visibility of a procedure, and extracting
//! statements into a procedure of their own.

use crate::ast::field_child;
use crate::document::DocumentState;
use crate::navigation::node_at_offset;
use crate::protocol::{
    edit_models, lemma_change_models_push, lemma_edit_models_push, range_of,
    ts_range_to_lsp_range, DocumentEdits, EditModel, FileEdits, Range, TextEdit, WorkspaceEdit,
};
use crate::rope::{
    byte_offset_of, byte_offset_to_point, lsp_position_to_byte_offset, point_of_offset,
    rope_len_lines, rope_line_count, rope_line_start, rope_line_to_byte,
};
use crate::state::{position_of_uri, DocumentEntry, WorldState};
use crate::syntax::{extract_name, node_text, slice_text, span_text, NodePath, SyntaxNode};
use crate::text::{
    append, bytes_eq_nocase, copy_of, ends_with, eq_ascii_nocase, find_first_nocase,
    first_nocase, has_key, index_lines, lines_of, lowercase, lowercase_of, starts_with, trim_end,
    trimmed_end,
};
use vstd::prelude::*;
use vstd::string::StringSliceAdditionalSpecFns;

verus! {

/// What kind of change a code action makes.
#[derive(Clone, Copy, Debug, PartialEq, Eq, Structural)]
pub enum CodeActionKind {
    Refactor,
    RefactorExtract,
}

/// A change that the editor offers to make.
#[derive(Debug)]
pub struct CodeAction {
    pub title: Vec<u8>,
    pub kind: CodeActionKind,
    pub edit: WorkspaceEdit,
}

/// The mathematical value of a code action.
pub struct ActionModel {
    pub title: Seq<u8>,
    pub kind: CodeActionKind,
    pub changes: Seq<FileEdits>,
}

impl View for CodeAction {
    type V = ActionModel;

    open spec fn view(&self) -> ActionModel {
        ActionModel { title: self.title@, kind: self.kind, changes: self.edit@ }
    }
}

/// The mathematical values of a sequence of code actions.
pub open spec fn action_models(actions: Seq<CodeAction>) -> Seq<ActionModel>
    decreases actions.len(),
{
    if actions.len() == 0 {
        Seq::empty()
    } else {
        action_models(actions.drop_last()).push(actions.last()@)
    }
}

proof fn lemma_action_models_push(actions: Seq<CodeAction>, action: CodeAction)
    ensures
        action_models(actions.push(action)) == action_models(actions).push(action@),
{
    assert(actions.push(action).drop_last() =~= actions);
}

/// The path to the node at `path` or its nearest ancestor of kind `kind`.
pub open spec fn ancestor_of_kind(tree: SyntaxNode, path: Seq<usize>, kind: &str) -> Option<
    Seq<usize>,
>
    decreases path.len(),
{
    match tree.node_at(path) {
        Some(n) => if n.kind_is(kind) {
            Some(path)
        } else if path.len() == 0 {
            None
        } else {
            ancestor_of_kind(tree, path.drop_last(), kind)
        },
        None => None,
    }
}

/// The procedure declaration round `offset`.
pub open spec fn procedure_round(tree: SyntaxNode, offset: usize) -> Option<SyntaxNode> {
    match tree.deepest_named(offset) {
        Some(p) => match ancestor_of_kind(tree, p, "procedure_declaration") {
            Some(pp) => tree.node_at(pp),
            None => None,
        },
        None => None,
    }
}

/// Walk up from a node to find the nearest ancestor of the given kind.
fn find_ancestor<'a>(tree: &'a SyntaxNode, path: &NodePath, kind: &str) -> (r: Option<
    &'a SyntaxNode,
>)
    ensures
        match r {
            Some(found) => ancestor_of_kind(*tree, path@, kind) is Some && tree.node_at(
                ancestor_of_kind(*tree, path@, kind).unwrap(),
            ) == Some(*found),
            None => ancestor_of_kind(*tree, path@, kind) is None,
        },
{
    let mut len: usize = path.len();
    assert(path@.take(len as int) =~= path@);
    loop
        invariant
            len <= path.len(),
            ancestor_of_kind(*tree, path@, kind) == ancestor_of_kind(
                *tree,
                path@.take(len as int),
                kind,
            ),
        decreases len,
    {
        let prefix = vstd::slice::slice_subrange(path.as_slice(), 0, len);
        assert(prefix@ =~= path@.take(len as int));
        match tree.descend(prefix) {
            Some(node) => {
                if node.has_kind(kind) {
                    return Some(node);
                }
                if len == 0 {
                    return None;
                }
                assert(path@.take(len as int).drop_last() =~= path@.take(len - 1));
                len -= 1;
            },
            None => {
                return None;
            },
        }
    }
}

fn find_procedure<'a>(tree: &'a SyntaxNode, byte_offset: usize) -> (r: Option<&'a SyntaxNode>)
    ensures
        match r {
            Some(found) => procedure_round(*tree, byte_offset) == Some(*found),
            None => procedure_round(*tree, byte_offset) is None,
        },
{
    match node_at_offset(tree, byte_offset) {
        Some(path) => find_ancestor(tree, &path, "procedure_declaration"),
        None => None,
    }
}

/// An access modifier in front of a procedure.
pub struct Modifier {
    /// The modifier, in lower case.
    pub word: Seq<u8>,
    /// The number of bytes from the start of the declaration to the
    /// keyword `procedure`.
    pub length: int,
}

/// The access modifier that `before` is, in lower case: `local`, `internal`
/// or `protected` in any case.
pub open spec fn modifier_word(before: Seq<u8>) -> Option<Seq<u8>> {
    if eq_ascii_nocase(before, "local".spec_bytes()) {
        Some("local".spec_bytes())
    } else if eq_ascii_nocase(before, "internal".spec_bytes()) {
        Some("internal".spec_bytes())
    } else if eq_ascii_nocase(before, "protected".spec_bytes()) {
        Some("protected".spec_bytes())
    } else {
        None
    }
}

/// The access modifier of a procedure with the given text: what stands
/// before the first `procedure`, without trailing white space, where that
/// is one of the modifiers.
pub open spec fn access_modifier(text: Seq<u8>) -> Option<Modifier> {
    match first_nocase(text, "procedure".spec_bytes(), 0) {
        Some(k) => if k == 0 {
            None
        } else {
            match modifier_word(trimmed_end(text.take(k))) {
                Some(word) => Some(Modifier { word, length: k }),
                None => None,
            }
        },
        None => None,
    }
}

/// Detect the access modifier (local/internal/protected) before the
/// `procedure` keyword by examining the source text of the procedure node.
/// Returns the modifier and the byte range that it and the white space
/// behind it take.
fn detect_access_modifier(source: &[u8], proc_node: &SyntaxNode) -> (r: Option<
    (&'static str, usize, usize),
>)
    ensures
        match r {
            Some(found) => {
                &&& access_modifier(proc_node.text(source@)) is Some
                &&& found.0.spec_bytes() == access_modifier(proc_node.text(source@)).unwrap().word
                &&& found.1 == proc_node.start_byte
                &&& found.2 == proc_node.start_byte + access_modifier(
                    proc_node.text(source@),
                ).unwrap().length
                &&& found.1 <= found.2 <= source@.len()
            },
            None => access_modifier(proc_node.text(source@)) is None,
        },
{
    let proc_text = node_text(proc_node, source);
    let keyword = match find_first_nocase(proc_text, "procedure".as_bytes()) {
        Some(k) => k,
        None => {
            return None;
        },
    };
    if keyword == 0 {
        return None;
    }
    let head = vstd::slice::slice_subrange(proc_text, 0, keyword);
    assert(head@ =~= proc_text@.take(keyword as int));
    let before = trim_end(head);
    let word = if bytes_eq_nocase(before, "local".as_bytes()) {
        "local"
    } else if bytes_eq_nocase(before, "internal".as_bytes()) {
        "internal"
    } else if bytes_eq_nocase(before, "protected".as_bytes()) {
        "protected"
    } else {
        return None;
    };
    Some((word, proc_node.start_byte, proc_node.start_byte + keyword))
}

/// The changes that make one edit to one document.
pub open spec fn one_edit(uri: Seq<char>, range: Range, new_text: Seq<u8>) -> Seq<FileEdits> {
    seq![FileEdits { uri, edits: seq![EditModel { range, new_text }] }]
}

/// The title of the action that removes a modifier.
pub open spec fn removal_title(word: Seq<u8>) -> Seq<u8> {
    "Remove '".spec_bytes() + word + "' modifier".spec_bytes()
}

/// The action that toggles the visibility of the procedure round `offset`:
/// where the procedure has an access modifier, the action removes the
/// modifier and the white space behind it; else it puts `local ` in front
/// of the procedure.
pub open spec fn toggle_action(doc: DocumentState, uri: Seq<char>, offset: usize) -> Option<
    ActionModel,
> {
    match procedure_round(doc.syntax(), offset) {
        Some(procedure) => match access_modifier(procedure.text(doc.text())) {
            Some(m) => Some(
                ActionModel {
                    title: removal_title(m.word),
                    kind: CodeActionKind::Refactor,
                    changes: one_edit(
                        uri,
                        range_of(
                            point_of_offset(doc.text(), procedure.start_byte),
                            point_of_offset(
                                doc.text(),
                                (procedure.start_byte + m.length) as usize,
                            ),
                        ),
                        Seq::empty(),
                    ),
                },
            ),
            None => Some(
                ActionModel {
                    title: "Add 'local' modifier".spec_bytes(),
                    kind: CodeActionKind::Refactor,
                    changes: one_edit(
                        uri,
                        range_of(procedure.start_point, procedure.start_point),
                        "local ".spec_bytes(),
                    ),
                },
            ),
        },
        None => None,
    }
}

fn single_edit(uri: &String, range: Range, new_text: Vec<u8>) -> (r: WorkspaceEdit)
    ensures
        r@ == one_edit(uri@, range, new_text@),
{
    let edit = TextEdit { range, new_text };
    let mut edits: Vec<TextEdit> = Vec::new();
    proof {
        lemma_edit_models_push(edits@, edit);
    }
    edits.push(edit);
    let entry = DocumentEdits { uri: uri.clone(), edits };
    let mut changes: Vec<DocumentEdits> = Vec::new();
    proof {
        lemma_change_models_push(changes@, entry);
        assert(edit_models(entry.edits@) =~= seq![edit@]);
    }
    changes.push(entry);
    let r = WorkspaceEdit { changes };
    assert(r@ =~= one_edit(uri@, range, new_text@));
    r
}

/// Toggle procedure visibility code action. When the cursor is in a
/// procedure declaration: if it has local/internal/protected, offer to
/// remove the modifier; if it has none, offer to add `local`.
fn toggle_visibility_action(doc: &DocumentState, source: &[u8], uri: &String, byte_offset: usize)
    -> (r: Option<CodeAction>)
    requires
        source@ == doc.text(),
    ensures
        match r {
            Some(action) => toggle_action(*doc, uri@, byte_offset) == Some(action@),
            None => toggle_action(*doc, uri@, byte_offset) is None,
        },
{
    let proc_node = match find_procedure(doc.tree(), byte_offset) {
        Some(n) => n,
        None => {
            return None;
        },
    };
    match detect_access_modifier(source, proc_node) {
        Some(found) => {
            let mut title: Vec<u8> = Vec::new();
            append(&mut title, "Remove '".as_bytes());
            append(&mut title, found.0.as_bytes());
            append(&mut title, "' modifier".as_bytes());
            let start_point = byte_offset_to_point(doc.rope(), found.1);
            let end_point = byte_offset_to_point(doc.rope(), found.2);
            Some(
                CodeAction {
                    title,
                    kind: CodeActionKind::Refactor,
                    edit: single_edit(
                        uri,
                        ts_range_to_lsp_range(start_point, end_point),
                        Vec::new(),
                    ),
                },
            )
        },
        None => {
            let at = proc_node.start_point;
            Some(
                CodeAction {
                    title: copy_of("Add 'local' modifier".as_bytes()),
                    kind: CodeActionKind::Refactor,
                    edit: single_edit(
                        uri,
                        ts_range_to_lsp_range(at, at),
                        copy_of("local ".as_bytes()),
                    ),
                },
            )
        },
    }
}

/// A line with the indent `new_indent` in place of the indent `old_indent`;
/// a line that does not begin with `old_indent` stays as it is.
pub open spec fn reindented_line(line: Seq<u8>, old_indent: Seq<u8>, new_indent: Seq<u8>) -> Seq<
    u8,
> {
    if old_indent.is_prefix_of(line) {
        new_indent + line.skip(old_indent.len() as int)
    } else {
        line
    }
}

/// The first `n` lines, re-indented and joined by line feeds.
pub open spec fn reindented_lines(
    lines: Seq<Seq<u8>>,
    old_indent: Seq<u8>,
    new_indent: Seq<u8>,
    n: int,
) -> Seq<u8>
    decreases n,
{
    if n <= 0 || n > lines.len() {
        Seq::empty()
    } else if n == 1 {
        reindented_line(lines[0], old_indent, new_indent)
    } else {
        reindented_lines(lines, old_indent, new_indent, n - 1) + seq![0x0au8] + reindented_line(
            lines[n - 1],
            old_indent,
            new_indent,
        )
    }
}

/// A text with the indent `new_indent` in place of the indent `old_indent`
/// on each of its lines, the lines joined by line feeds.
pub open spec fn reindented(text: Seq<u8>, old_indent: Seq<u8>, new_indent: Seq<u8>) -> Seq<u8> {
    reindented_lines(lines_of(text), old_indent, new_indent, lines_of(text).len() as int)
}

/// Re-indent text by replacing the `old_indent` prefix with `new_indent` on each line.
pub fn reindent(text: &[u8], old_indent: &[u8], new_indent: &[u8]) -> (r: Vec<u8>)
    ensures
        r@ == reindented(text@, old_indent@, new_indent@),
{
    let index = index_lines(text);
    let ghost lines = lines_of(text@);
    let mut out: Vec<u8> = Vec::new();
    let count = index.len();
    let mut k: usize = 0;
    while k < count
        invariant
            k <= count,
            index.describes(text@),
            lines == lines_of(text@),
            count == lines.len(),
            out@ == reindented_lines(lines, old_indent@, new_indent@, k as int),
        decreases count - k,
    {
        let line = index.line(text, k);
        let ghost before = out@;
        if k > 0 {
            out.push(0x0a);
        }
        if starts_with(line, old_indent) {
            append(&mut out, new_indent);
            let rest = vstd::slice::slice_subrange(line, old_indent.len(), line.len());
            assert(rest@ =~= line@.skip(old_indent@.len() as int));
            append(&mut out, rest);
        } else {
            append(&mut out, line);
        }
        assert(out@ =~= if k == 0 {
            reindented_line(lines[k as int], old_indent@, new_indent@)
        } else {
            before + seq![0x0au8] + reindented_line(lines[k as int], old_indent@, new_indent@)
        });
        k += 1;
    }
    out
}

/// A variable of a procedure: its name and its type.
pub struct Variable {
    pub name: Vec<u8>,
    pub type_info: Vec<u8>,
}

/// The mathematical value of a variable.
pub struct VariableModel {
    pub name: Seq<u8>,
    pub type_info: Seq<u8>,
}

impl View for Variable {
    type V = VariableModel;

    open spec fn view(&self) -> VariableModel {
        VariableModel { name: self.name@, type_info: self.type_info@ }
    }
}

/// The mathematical values of a sequence of variables.
pub open spec fn variable_models(variables: Seq<Variable>) -> Seq<VariableModel>
    decreases variables.len(),
{
    if variables.len() == 0 {
        Seq::empty()
    } else {
        variable_models(variables.drop_last()).push(variables.last()@)
    }
}

proof fn lemma_variable_models_push(variables: Seq<Variable>, variable: Variable)
    ensures
        variable_models(variables.push(variable)) == variable_models(variables).push(variable@),
{
    assert(variables.push(variable).drop_last() =~= variables);
}

proof fn lemma_variable_models(variables: Seq<Variable>)
    ensures
        variable_models(variables).len() == variables.len(),
        forall|i: int|
            0 <= i < variables.len() ==> #[trigger] variable_models(variables)[i] == variables[i]@,
    decreases variables.len(),
{
    if variables.len() > 0 {
        lemma_variable_models(variables.drop_last());
    }
}

/// Whether a node is a statement: a named node whose kind ends in
/// `_statement`, or a call.
pub open spec fn is_statement(node: SyntaxNode) -> bool {
    node.named && ("_statement".spec_bytes().is_suffix_of(node.kind@) || node.kind_is(
        "function_call",
    ) || node.kind_is("method_call"))
}

/// Index of the first statement among the children of `body` at or after
/// `from` that lies inside the byte range `start..end`.
pub open spec fn first_selected(body: SyntaxNode, start: usize, end: usize, from: int) -> Option<
    int,
>
    decreases body.children@.len() - from,
{
    if from < 0 || from >= body.children@.len() {
        None
    } else {
        let c = body.children@[from];
        if is_statement(c) && c.start_byte >= start && c.end_byte <= end {
            Some(from)
        } else {
            first_selected(body, start, end, from + 1)
        }
    }
}

/// Index of the last statement among the first `n` children of `body` that
/// lies inside the byte range `start..end`.
pub open spec fn last_selected(body: SyntaxNode, start: usize, end: usize, n: int) -> Option<int>
    decreases n,
{
    if n <= 0 || n > body.children@.len() {
        None
    } else {
        let c = body.children@[n - 1];
        if is_statement(c) && c.start_byte >= start && c.end_byte <= end {
            Some(n - 1)
        } else {
            last_selected(body, start, end, n - 1)
        }
    }
}

impl SyntaxNode {
    /// Whether the node is an identifier with the key `key` inside the byte
    /// range `start..end`.
    pub open spec fn mentions_here(&self, source: Seq<u8>, key: Seq<u8>, start: usize, end: usize)
        -> bool {
        self.is_identifier() && self.start_byte >= start && self.end_byte <= end && lowercase_of(
            self.name(source),
        ) == key
    }

    /// Whether the node or a node below it is an identifier with the key
    /// `key` inside the byte range `start..end`. Nodes that end before the
    /// range or start behind it are not looked into.
    pub open spec fn mentions(&self, source: Seq<u8>, key: Seq<u8>, start: usize, end: usize)
        -> bool
        decreases self, 1int, 0int,
    {
        if self.end_byte < start || self.start_byte > end {
            false
        } else {
            self.mentions_here(source, key, start, end) || self.mentions_below(
                self.children@.len() as int,
                source,
                key,
                start,
                end,
            )
        }
    }

    /// Whether one of the first `n` children mentions the key.
    pub open spec fn mentions_below(
        &self,
        n: int,
        source: Seq<u8>,
        key: Seq<u8>,
        start: usize,
        end: usize,
    ) -> bool
        decreases self, 0int, n,
    {
        if n <= 0 || n > self.children@.len() {
            false
        } else {
            self.mentions_below(n - 1, source, key, start, end) || self.children@[n
                - 1].mentions(source, key, start, end)
        }
    }
}

/// The variables that the items of kind `item_kind` among the first `n`
/// children of `section` declare: those with a name and a type.
pub open spec fn declared_in(section: SyntaxNode, source: Seq<u8>, item_kind: &str, n: int) -> Seq<
    VariableModel,
>
    decreases n,
{
    if n <= 0 || n > section.children@.len() {
        Seq::empty()
    } else {
        let before = declared_in(section, source, item_kind, n - 1);
        let c = section.children@[n - 1];
        if c.named && c.kind_is(item_kind) {
            match (field_child(c, "name"), field_child(c, "type")) {
                (Some(name), Some(t)) => before.push(
                    VariableModel { name: name.name(source), type_info: t.text(source) },
                ),
                _ => before,
            }
        } else {
            before
        }
    }
}

/// The variables that the section in the field `field` of a procedure declares.
pub open spec fn declared_by(procedure: SyntaxNode, source: Seq<u8>, field: &str, item_kind: &str)
    -> Seq<VariableModel> {
    match field_child(procedure, field) {
        Some(section) => declared_in(section, source, item_kind, section.children@.len() as int),
        None => Seq::empty(),
    }
}

/// The parameters, then the locals, of a procedure.
pub open spec fn declared(procedure: SyntaxNode, source: Seq<u8>) -> Seq<VariableModel> {
    declared_by(procedure, source, "parameters", "parameter") + declared_by(
        procedure,
        source,
        "vars",
        "variable_declaration",
    )
}

/// Those among the first `n` variables that the tree mentions inside the
/// byte range `start..end`.
pub open spec fn mentioned(
    variables: Seq<VariableModel>,
    tree: SyntaxNode,
    source: Seq<u8>,
    start: usize,
    end: usize,
    n: int,
) -> Seq<VariableModel>
    decreases n,
{
    if n <= 0 || n > variables.len() {
        Seq::empty()
    } else {
        let before = mentioned(variables, tree, source, start, end, n - 1);
        if tree.mentions(source, lowercase_of(variables[n - 1].name), start, end) {
            before.push(variables[n - 1])
        } else {
            before
        }
    }
}

/// The free variables of the byte range `start..end`: the parameters and
/// locals of the procedure that the range mentions.
pub open spec fn free_variables(
    tree: SyntaxNode,
    source: Seq<u8>,
    procedure: SyntaxNode,
    start: usize,
    end: usize,
) -> Seq<VariableModel> {
    mentioned(
        declared(procedure, source),
        tree,
        source,
        start,
        end,
        declared(procedure, source).len() as int,
    )
}

/// `var name: type` for each of the first `n` variables, joined by `; `.
pub open spec fn parameter_list(variables: Seq<VariableModel>, n: int) -> Seq<u8>
    decreases n,
{
    if n <= 0 || n > variables.len() {
        Seq::empty()
    } else {
        let item = "var ".spec_bytes() + variables[n - 1].name + ": ".spec_bytes() + variables[n
            - 1].type_info;
        if n == 1 {
            item
        } else {
            parameter_list(variables, n - 1) + "; ".spec_bytes() + item
        }
    }
}

/// The names of the first `n` variables, joined by `, `.
pub open spec fn argument_list(variables: Seq<VariableModel>, n: int) -> Seq<u8>
    decreases n,
{
    if n <= 0 || n > variables.len() {
        Seq::empty()
    } else if n == 1 {
        variables[0].name
    } else {
        argument_list(variables, n - 1) + ", ".spec_bytes() + variables[n - 1].name
    }
}

/// What stands on row `row` before byte `before`: the indent of what
/// starts there.
pub open spec fn indent_before(text: Seq<u8>, row: usize, before: usize) -> Seq<u8> {
    if row <= rope_line_count(text) {
        span_text(text, rope_line_start(text, row as int) as usize, before)
    } else {
        Seq::empty()
    }
}

/// The text of the extracted procedure.
pub open spec fn extracted_procedure(indent: Seq<u8>, parameters: Seq<u8>, body: Seq<u8>) -> Seq<
    u8,
> {
    "\n\n".spec_bytes() + indent + "local procedure ExtractedProcedure(".spec_bytes() + parameters
        + ")\n".spec_bytes() + indent + "begin\n".spec_bytes() + body + "\n".spec_bytes() + indent
        + "end;".spec_bytes()
}

/// The call that takes the place of the extracted statements.
pub open spec fn extracted_call(arguments: Seq<u8>) -> Seq<u8> {
    "ExtractedProcedure(".spec_bytes() + arguments + ");".spec_bytes()
}

/// The action that extracts the statements inside the byte range
/// `start..end` into a procedure of their own.
///
/// There is one where the range is not empty, starts inside a procedure
/// whose body is a block, and holds at least one whole statement of that
/// block. The action replaces the statements from the first to the last one
/// inside the range by a call of `ExtractedProcedure`, and puts the new
/// procedure behind the enclosing one. The parameters and locals of the
/// enclosing procedure that the statements mention are handed over by
/// reference.
pub open spec fn extract_action(doc: DocumentState, uri: Seq<char>, start: usize, end: usize)
    -> Option<ActionModel> {
    if start >= end {
        None
    } else {
        match procedure_round(doc.syntax(), start) {
            Some(procedure) => match field_child(procedure, "body") {
                Some(body) => if body.kind_is("block") {
                    match (
                        first_selected(body, start, end, 0),
                        last_selected(body, start, end, body.children@.len() as int),
                    ) {
                        (Some(i), Some(j)) => Some(
                            extraction(
                                doc,
                                uri,
                                procedure,
                                body.children@[i],
                                body.children@[j],
                            ),
                        ),
                        _ => None,
                    }
                } else {
                    None
                },
                None => None,
            },
            None => None,
        }
    }
}

/// The action that extracts the statements from `first` to `last` out of `procedure`.
pub open spec fn extraction(
    doc: DocumentState,
    uri: Seq<char>,
    procedure: SyntaxNode,
    first: SyntaxNode,
    last: SyntaxNode,
) -> ActionModel {
    let text = doc.text();
    let free = free_variables(doc.syntax(), text, procedure, first.start_byte, last.end_byte);
    let indent = indent_before(text, procedure.start_point.row, procedure.start_byte);
    let statement_indent = indent_before(text, first.start_point.row, first.start_byte);
    let body = reindented(
        span_text(text, first.start_byte, last.end_byte),
        statement_indent,
        indent + "    ".spec_bytes(),
    );
    ActionModel {
        title: "Extract procedure".spec_bytes(),
        kind: CodeActionKind::RefactorExtract,
        changes: seq![
            FileEdits {
                uri,
                edits: seq![
                    EditModel {
                        range: range_of(first.start_point, last.end_point),
                        new_text: extracted_call(argument_list(free, free.len() as int)),
                    },
                    EditModel {
                        range: range_of(procedure.end_point, procedure.end_point),
                        new_text: extracted_procedure(
                            indent,
                            parameter_list(free, free.len() as int),
                            body,
                        ),
                    },
                ],
            },
        ],
    }
}

fn is_statement_node(node: &SyntaxNode) -> (r: bool)
    ensures
        r == is_statement(*node),
{
    node.named && (ends_with(node.kind.as_slice(), "_statement".as_bytes()) || node.has_kind(
        "function_call",
    ) || node.has_kind("method_call"))
}

proof fn lemma_mentions_below(
    node: SyntaxNode,
    k: int,
    n: int,
    source: Seq<u8>,
    key: Seq<u8>,
    start: usize,
    end: usize,
)
    requires
        0 <= k <= n <= node.children@.len(),
        node.mentions_below(k, source, key, start, end),
    ensures
        node.mentions_below(n, source, key, start, end),
    decreases n - k,
{
    if k < n {
        lemma_mentions_below(node, k, n - 1, source, key, start, end);
    }
}

/// Whether the node or a node below it is an identifier with the key `key`
/// inside the byte range.
fn collect_identifiers_in_range(
    node: &SyntaxNode,
    source: &[u8],
    start: usize,
    end: usize,
    key: &[u8],
) -> (r: bool)
    ensures
        r == node.mentions(source@, key@, start, end),
    decreases node,
{
    if node.end_byte < start || node.start_byte > end {
        return false;
    }
    if node.has_identifier_kind() && node.start_byte >= start && node.end_byte <= end {
        let name = extract_name(node, source);
        if has_key(name.as_slice(), key) {
            return true;
        }
    }
    let mut i: usize = 0;
    while i < node.children.len()
        invariant
            i <= node.children.len(),
            !(node.end_byte < start || node.start_byte > end),
            !node.mentions_here(source@, key@, start, end),
            !node.mentions_below(i as int, source@, key@, start, end),
        decreases node.children.len() - i,
    {
        if collect_identifiers_in_range(&node.children[i], source, start, end, key) {
            proof {
                lemma_mentions_below(
                    *node,
                    i + 1,
                    node.children@.len() as int,
                    source@,
                    key@,
                    start,
                    end,
                );
            }
            return true;
        }
        i += 1;
    }
    false
}

fn collect_declared(
    procedure: &SyntaxNode,
    source: &[u8],
    field: &str,
    item_kind: &str,
    declared: &mut Vec<Variable>,
)
    ensures
        variable_models(final(declared)@) == variable_models(old(declared)@) + declared_by(
            *procedure,
            source@,
            field,
            item_kind,
        ),
{
    let section = match procedure.child_by_field_name(field) {
        Some(s) => s,
        None => {
            assert(variable_models(declared@) =~= variable_models(old(declared)@) + declared_by(
                *procedure,
                source@,
                field,
                item_kind,
            ));
            return ;
        },
    };
    let mut i: usize = 0;
    assert(variable_models(declared@) =~= variable_models(old(declared)@) + declared_in(
        *section,
        source@,
        item_kind,
        0,
    ));
    while i < section.children.len()
        invariant
            i <= section.children.len(),
            variable_models(declared@) == variable_models(old(declared)@) + declared_in(
                *section,
                source@,
                item_kind,
                i as int,
            ),
        decreases section.children.len() - i,
    {
        let child = &section.children[i];
        let ghost before = declared_in(*section, source@, item_kind, i as int);
        if child.named && child.has_kind(item_kind) {
            match (child.child_by_field_name("name"), child.child_by_field_name("type")) {
                (Some(name_node), Some(type_node)) => {
                    let variable = Variable {
                        name: extract_name(name_node, source),
                        type_info: copy_of(node_text(type_node, source)),
                    };
                    proof {
                        lemma_variable_models_push(declared@, variable);
                    }
                    declared.push(variable);
                    assert(variable_models(declared@) =~= variable_models(old(declared)@)
                        + before.push(variable@));
                },
                _ => {},
            }
        }
        i += 1;
    }
}

/// Collect the free variables referenced in the byte range that are
/// declared as parameters or local variables in the enclosing procedure.
fn collect_free_variables(
    tree: &SyntaxNode,
    source: &[u8],
    proc_node: &SyntaxNode,
    start: usize,
    end: usize,
) -> (r: Vec<Variable>)
    ensures
        variable_models(r@) == free_variables(*tree, source@, *proc_node, start, end),
{
    let mut declared: Vec<Variable> = Vec::new();
    assert(variable_models(declared@) =~= Seq::empty());
    collect_declared(proc_node, source, "parameters", "parameter", &mut declared);
    collect_declared(proc_node, source, "vars", "variable_declaration", &mut declared);
    let ghost all = variable_models(declared@);
    assert(all =~= crate::handlers::code_action::declared(*proc_node, source@));
    proof {
        lemma_variable_models(declared@);
    }
    let mut free: Vec<Variable> = Vec::new();
    let mut i: usize = 0;
    assert(variable_models(free@) =~= mentioned(all, *tree, source@, start, end, 0));
    while i < declared.len()
        invariant
            i <= declared.len(),
            all == variable_models(declared@),
            all.len() == declared@.len(),
            forall|k: int| 0 <= k < declared@.len() ==> #[trigger] all[k] == declared@[k]@,
            variable_models(free@) == mentioned(all, *tree, source@, start, end, i as int),
        decreases declared.len() - i,
    {
        let key = lowercase(declared[i].name.as_slice());
        if collect_identifiers_in_range(tree, source, start, end, key.as_slice()) {
            let variable = Variable {
                name: copy_of(declared[i].name.as_slice()),
                type_info: copy_of(declared[i].type_info.as_slice()),
            };
            proof {
                lemma_variable_models_push(free@, variable);
            }
            free.push(variable);
        }
        i += 1;
    }
    free
}

fn parameters_text(variables: &Vec<Variable>) -> (r: Vec<u8>)
    ensures
        r@ == parameter_list(variable_models(variables@), variables@.len() as int),
{
    let ghost models = variable_models(variables@);
    proof {
        lemma_variable_models(variables@);
    }
    let mut out: Vec<u8> = Vec::new();
    let mut i: usize = 0;
    while i < variables.len()
        invariant
            i <= variables.len(),
            models == variable_models(variables@),
            models.len() == variables@.len(),
            forall|k: int| 0 <= k < variables@.len() ==> #[trigger] models[k] == variables@[k]@,
            out@ == parameter_list(models, i as int),
        decreases variables.len() - i,
    {
        let ghost before = out@;
        if i > 0 {
            append(&mut out, "; ".as_bytes());
        }
        append(&mut out, "var ".as_bytes());
        append(&mut out, variables[i].name.as_slice());
        append(&mut out, ": ".as_bytes());
        append(&mut out, variables[i].type_info.as_slice());
        let ghost item = "var ".spec_bytes() + models[i as int].name + ": ".spec_bytes()
            + models[i as int].type_info;
        assert(out@ =~= if i == 0 {
            item
        } else {
            before + "; ".spec_bytes() + item
        });
        i += 1;
    }
    out
}

fn arguments_text(variables: &Vec<Variable>) -> (r: Vec<u8>)
    ensures
        r@ == argument_list(variable_models(variables@), variables@.len() as int),
{
    let ghost models = variable_models(variables@);
    proof {
        lemma_variable_models(variables@);
    }
    let mut out: Vec<u8> = Vec::new();
    let mut i: usize = 0;
    while i < variables.len()
        invariant
            i <= variables.len(),
            models == variable_models(variables@),
            models.len() == variables@.len(),
            forall|k: int| 0 <= k < variables@.len() ==> #[trigger] models[k] == variables@[k]@,
            out@ == argument_list(models, i as int),
        decreases variables.len() - i,
    {
        let ghost before = out@;
        if i > 0 {
            append(&mut out, ", ".as_bytes());
        }
        append(&mut out, variables[i].name.as_slice());
        assert(out@ =~= if i == 0 {
            models[0].name
        } else {
            before + ", ".spec_bytes() + models[i as int].name
        });
        i += 1;
    }
    out
}

fn indent_of<'a>(doc: &DocumentState, source: &'a [u8], row: usize, before: usize) -> (r: &'a [u8])
    requires
        source@ == doc.text(),
    ensures
        r@ == indent_before(doc.text(), row, before),
{
    if row <= rope_len_lines(doc.rope()) {
        let line_start = rope_line_to_byte(doc.rope(), row);
        slice_text(source, line_start, before)
    } else {
        slice_text(source, 0, 0)
    }
}

fn selected_range(body: &SyntaxNode, start: usize, end: usize) -> (r: Option<(usize, usize)>)
    ensures
        match r {
            Some(found) => {
                &&& first_selected(*body, start, end, 0) == Some(found.0 as int)
                &&& last_selected(*body, start, end, body.children@.len() as int) == Some(
                    found.1 as int,
                )
                &&& found.0 < body.children@.len()
                &&& found.1 < body.children@.len()
            },
            None => first_selected(*body, start, end, 0) is None || last_selected(
                *body,
                start,
                end,
                body.children@.len() as int,
            ) is None,
        },
{
    let mut i: usize = 0;
    let mut first: Option<usize> = None;
    while first.is_none() && i < body.children.len()
        invariant
            i <= body.children.len(),
            match first {
                Some(f) => first_selected(*body, start, end, 0) == Some(f as int) && f
                    < body.children@.len(),
                None => first_selected(*body, start, end, 0) == first_selected(
                    *body,
                    start,
                    end,
                    i as int,
                ),
            },
        decreases body.children.len() - i + if first is None {
            1int
        } else {
            0int
        },
    {
        let c = &body.children[i];
        if is_statement_node(c) && c.start_byte >= start && c.end_byte <= end {
            first = Some(i);
        } else {
            i += 1;
        }
    }
    let first_index = match first {
        Some(f) => f,
        None => {
            return None;
        },
    };
    let mut n: usize = body.children.len();
    while n > 0
        invariant
            n <= body.children.len(),
            first_selected(*body, start, end, 0) == Some(first_index as int),
            first_index < body.children@.len(),
            last_selected(*body, start, end, body.children@.len() as int) == last_selected(
                *body,
                start,
                end,
                n as int,
            ),
        decreases n,
    {
        let c = &body.children[n - 1];
        if is_statement_node(c) && c.start_byte >= start && c.end_byte <= end {
            return Some((first_index, n - 1));
        }
        n -= 1;
    }
    None
}

/// Extract procedure code action. When the selection covers whole
/// statements of the body of a procedure, offer to extract those
/// statements into a new local procedure.
fn extract_procedure_action(
    doc: &DocumentState,
    source: &[u8],
    uri: &String,
    start_offset: usize,
    end_offset: usize,
) -> (r: Option<CodeAction>)
    requires
        source@ == doc.text(),
    ensures
        match r {
            Some(action) => extract_action(*doc, uri@, start_offset, end_offset) == Some(action@),
            None => extract_action(*doc, uri@, start_offset, end_offset) is None,
        },
{
    if start_offset >= end_offset {
        return None;
    }
    let tree = doc.tree();
    let proc_node = match find_procedure(tree, start_offset) {
        Some(n) => n,
        None => {
            return None;
        },
    };
    let body = match proc_node.child_by_field_name("body") {
        Some(b) => b,
        None => {
            return None;
        },
    };
    if !body.has_kind("block") {
        return None;
    }
    let selected = match selected_range(body, start_offset, end_offset) {
        Some(s) => s,
        None => {
            return None;
        },
    };
    let first_stmt = &body.children[selected.0];
    let last_stmt = &body.children[selected.1];
    let extract_start = first_stmt.start_byte;
    let extract_end = last_stmt.end_byte;
    let extracted_text = slice_text(source, extract_start, extract_end);
    let free_vars = collect_free_variables(tree, source, proc_node, extract_start, extract_end);
    let params_str = parameters_text(&free_vars);
    let args_str = arguments_text(&free_vars);
    let proc_indent = indent_of(doc, source, proc_node.start_point.row, proc_node.start_byte);
    let stmt_indent = indent_of(doc, source, first_stmt.start_point.row, first_stmt.start_byte);
    let mut new_body_indent = copy_of(proc_indent);
    append(&mut new_body_indent, "    ".as_bytes());
    assert(new_body_indent@ =~= proc_indent@ + "    ".spec_bytes());
    let body_text = reindent(extracted_text, stmt_indent, new_body_indent.as_slice());
    let mut new_proc: Vec<u8> = Vec::new();
    append(&mut new_proc, "\n\n".as_bytes());
    append(&mut new_proc, proc_indent);
    append(&mut new_proc, "local procedure ExtractedProcedure(".as_bytes());
    append(&mut new_proc, params_str.as_slice());
    append(&mut new_proc, ")\n".as_bytes());
    append(&mut new_proc, proc_indent);
    append(&mut new_proc, "begin\n".as_bytes());
    append(&mut new_proc, body_text.as_slice());
    append(&mut new_proc, "\n".as_bytes());
    append(&mut new_proc, proc_indent);
    append(&mut new_proc, "end;".as_bytes());
    assert(new_proc@ =~= extracted_procedure(proc_indent@, params_str@, body_text@));
    let mut call_text: Vec<u8> = Vec::new();
    append(&mut call_text, "ExtractedProcedure(".as_bytes());
    append(&mut call_text, args_str.as_slice());
    append(&mut call_text, ");".as_bytes());
    assert(call_text@ =~= extracted_call(args_str@));
    let replace_edit = TextEdit {
        range: ts_range_to_lsp_range(first_stmt.start_point, last_stmt.end_point),
        new_text: call_text,
    };
    let insert_edit = TextEdit {
        range: ts_range_to_lsp_range(proc_node.end_point, proc_node.end_point),
        new_text: new_proc,
    };
    let mut edits: Vec<TextEdit> = Vec::new();
    proof {
        lemma_edit_models_push(edits@, replace_edit);
    }
    edits.push(replace_edit);
    proof {
        lemma_edit_models_push(edits@, insert_edit);
    }
    edits.push(insert_edit);
    assert(edit_models(edits@) =~= seq![replace_edit@, insert_edit@]);
    let entry = DocumentEdits { uri: uri.clone(), edits };
    let mut changes: Vec<DocumentEdits> = Vec::new();
    proof {
        lemma_change_models_push(changes@, entry);
    }
    changes.push(entry);
    let action = CodeAction {
        title: copy_of("Extract procedure".as_bytes()),
        kind: CodeActionKind::RefactorExtract,
        edit: WorkspaceEdit { changes },
    };
    proof {
        let model = extraction(*doc, uri@, *proc_node, *first_stmt, *last_stmt);
        lemma_variable_models(free_vars@);
        assert(entry@.edits =~= model.changes[0].edits);
        assert(action@.changes =~= model.changes);
    }
    Some(action)
}

/// The code actions for a range of a document: the toggle of visibility at
/// the start of the range, then, for a range that is not empty and whose
/// ends lie in the document, the extraction of the statements in it.
pub open spec fn code_actions(doc: DocumentState, uri: Seq<char>, range: Range) -> Seq<ActionModel> {
    let toggle = match byte_offset_of(doc.text(), range.start) {
        Some(offset) => match toggle_action(doc, uri, offset) {
            Some(a) => seq![a],
            None => Seq::empty(),
        },
        None => Seq::empty(),
    };
    let extract = if range.start != range.end {
        match (byte_offset_of(doc.text(), range.start), byte_offset_of(doc.text(), range.end)) {
            (Some(start), Some(end)) => match extract_action(doc, uri, start, end) {
                Some(a) => seq![a],
                None => Seq::empty(),
            },
            _ => Seq::empty(),
        }
    } else {
        Seq::empty()
    };
    toggle + extract
}

/// The answer to a request for code actions: nothing for an unknown
/// document and where there is no action to offer.
pub open spec fn code_action_answer(entries: Seq<DocumentEntry>, uri: Seq<char>, range: Range)
    -> Option<Seq<ActionModel>> {
    match position_of_uri(entries, uri, 0) {
        Some(i) => {
            let actions = code_actions(entries[i].document, uri, range);
            if actions.len() > 0 {
                Some(actions)
            } else {
                None
            }
        },
        None => None,
    }
}

/// The code actions that can be offered for a range of a document.
pub fn handle_code_action(state: &WorldState, uri: &String, range: Range) -> (r: Option<
    Vec<CodeAction>,
>)
    ensures
        match r {
            Some(actions) => code_action_answer(state@, uri@, range) == Some(
                action_models(actions@),
            ),
            None => code_action_answer(state@, uri@, range) is None,
        },
{
    let doc = match state.get(uri.as_str()) {
        Some(d) => d,
        None => {
            return None;
        },
    };
    let source = doc.source();
    let mut actions: Vec<CodeAction> = Vec::new();
    let start = lsp_position_to_byte_offset(doc.rope(), range.start);
    match start {
        Some(offset) => match toggle_visibility_action(doc, source.as_slice(), uri, offset) {
            Some(action) => {
                proof {
                    lemma_action_models_push(actions@, action);
                }
                actions.push(action);
            },
            None => {},
        },
        None => {},
    }
    let ghost toggle = action_models(actions@);
    if range.start != range.end {
        let end = lsp_position_to_byte_offset(doc.rope(), range.end);
        match (start, end) {
            (Some(s), Some(e)) => match extract_procedure_action(
                doc,
                source.as_slice(),
                uri,
                s,
                e,
            ) {
                Some(action) => {
                    proof {
                        lemma_action_models_push(actions@, action);
                    }
                    actions.push(action);
                },
                None => {},
            },
            _ => {},
        }
    }
    assert(action_models(actions@) =~= code_actions(*doc, uri@, range));
    if actions.len() == 0 {
        None
    } else {
        Some(actions)
    }
}

} // verus!
