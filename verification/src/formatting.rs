//! Structural formatting of a document.
//!
//! Formatting runs in two passes. The first walks the syntax tree and gives
//! every line an indent level, marks the lines that are glued onto the line
//! before them and the blank lines that are dropped. The second emits the
//! lines with their indentation and with canonical spacing round operators
//! and separators.

use crate::syntax::SyntaxNode;
use crate::text::{
    append, bytes_eq, index_lines, line_or_empty, lines_of, occurs_nocase_at, starts_with,
    starts_with_nocase, trail, trailing_of, trim, trim_end_by, trimmed, trimmed_end, ByteSet,
    LineIndex,
};
use vstd::prelude::*;
use vstd::string::StringSliceAdditionalSpecFns;

verus! {

/// Options for document formatting.
#[derive(Debug, Clone)]
pub struct FormatOptions {
    pub tab_size: usize,
    pub insert_spaces: bool,
}

impl Default for FormatOptions {
    fn default() -> (r: Self)
        ensures
            r.tab_size == 4,
            r.insert_spaces,
    {
        FormatOptions { tab_size: 4, insert_spaces: true }
    }
}

/// How a node lays out the lines it spans.
#[derive(Clone, Copy, Debug, PartialEq, Eq, Structural)]
pub enum Layout {
    /// A node without children.
    Leaf,
    /// `begin` … `end`.
    Block,
    /// `var` followed by declarations.
    VarSection,
    /// An object declaration with its braces.
    Object,
    /// A section with braces, such as `fields` or `keys`.
    Braced,
    /// A field, key or similar declaration with an optional brace body.
    FieldLike,
    /// A procedure or a trigger.
    Routine,
    /// `if` … `then` … `else`.
    If,
    /// `for`, `while` or `with`.
    Loop,
    /// `repeat` … `until`.
    Repeat,
    /// `case` … `of` … `end`.
    Case,
    /// One branch of a `case`.
    CaseBranch,
    /// Anything else: the children keep the node's depth.
    Plain,
}

/// What the first pass records for each line.
pub struct Marks {
    /// The indent level of a line, once a node has claimed it.
    pub levels: Seq<Option<usize>>,
    /// Lines that are appended to the line before them.
    pub join: Seq<bool>,
    /// Lines that are left out.
    pub remove: Seq<bool>,
}

/// What the first pass records for each line.
pub struct LineMarks {
    pub levels: Vec<Option<usize>>,
    pub join_to_prev: Vec<bool>,
    pub remove_line: Vec<bool>,
}

impl View for LineMarks {
    type V = Marks;

    open spec fn view(&self) -> Marks {
        Marks { levels: self.levels@, join: self.join_to_prev@, remove: self.remove_line@ }
    }
}

/// Whether nodes of this kind declare an object.
pub open spec fn object_declaration_kind(kind: Seq<u8>) -> bool {
    ||| kind == "codeunit_declaration".spec_bytes()
    ||| kind == "table_declaration".spec_bytes()
    ||| kind == "table_extension_declaration".spec_bytes()
    ||| kind == "page_declaration".spec_bytes()
    ||| kind == "page_extension_declaration".spec_bytes()
    ||| kind == "report_declaration".spec_bytes()
    ||| kind == "enum_declaration".spec_bytes()
    ||| kind == "enum_extension_declaration".spec_bytes()
    ||| kind == "xmlport_declaration".spec_bytes()
    ||| kind == "query_declaration".spec_bytes()
    ||| kind == "interface_declaration".spec_bytes()
    ||| kind == "permissionset_declaration".spec_bytes()
    ||| kind == "controladdin_declaration".spec_bytes()
}

/// Whether nodes of this kind are sections with braces.
pub open spec fn braced_section_kind(kind: Seq<u8>) -> bool {
    ||| kind == "fields_section".spec_bytes()
    ||| kind == "keys_section".spec_bytes()
    ||| kind == "fieldgroups_section".spec_bytes()
    ||| kind == "layout_section".spec_bytes()
    ||| kind == "actions_section".spec_bytes()
    ||| kind == "dataset_section".spec_bytes()
    ||| kind == "requestpage_section".spec_bytes()
    ||| kind == "area_section".spec_bytes()
    ||| kind == "group_section".spec_bytes()
    ||| kind == "repeater_section".spec_bytes()
    ||| kind == "part_section".spec_bytes()
}

/// Whether nodes of this kind are declarations with an optional brace body.
pub open spec fn field_like_kind(kind: Seq<u8>) -> bool {
    ||| kind == "field_declaration".spec_bytes()
    ||| kind == "key_declaration".spec_bytes()
    ||| kind == "enum_value_declaration".spec_bytes()
    ||| kind == "page_field".spec_bytes()
    ||| kind == "page_action".spec_bytes()
}

/// Marks for `count` lines, none of them claimed, joined or removed.
pub open spec fn blank_marks(count: nat) -> Marks {
    Marks {
        levels: Seq::new(count, |k: int| None::<usize>),
        join: Seq::new(count, |k: int| false),
        remove: Seq::new(count, |k: int| false),
    }
}

/// One level deeper; the depth stays where it is once it cannot grow.
pub open spec fn deeper(depth: usize) -> usize {
    if depth < usize::MAX {
        (depth + 1) as usize
    } else {
        depth
    }
}

/// Gives `line` the level `depth` unless the line has a level already: the
/// first token to claim a line wins.
pub open spec fn claim(m: Marks, line: usize, depth: usize) -> Marks {
    if line < m.levels.len() && m.levels[line as int] is None {
        Marks { levels: m.levels.update(line as int, Some(depth)), ..m }
    } else {
        m
    }
}

/// Marks `line` as joined to the line before it, unless it is the line on
/// which the statement itself starts.
pub open spec fn join_mark(m: Marks, line: usize, statement_line: usize) -> Marks {
    if line != statement_line && line < m.join.len() {
        Marks { join: m.join.update(line as int, true), ..m }
    } else {
        m
    }
}

/// Whether line `k` holds nothing but white space.
pub open spec fn blank_line(lines: Seq<Seq<u8>>, k: int) -> bool {
    trimmed(line_or_empty(lines, k)).len() == 0
}

/// Marks every blank line strictly between `after` and `before` as removed.
pub open spec fn remove_blank(m: Marks, lines: Seq<Seq<u8>>, after: usize, before: usize) -> Marks {
    Marks {
        remove: Seq::new(
            m.remove.len(),
            |k: int| m.remove[k] || (after < k < before && blank_line(lines, k)),
        ),
        ..m
    }
}

/// The row of the `else` that stands above row `below`: the nearest line
/// above that is not blank, where that line begins with `else`.
pub open spec fn else_row(lines: Seq<Seq<u8>>, below: int) -> Option<int>
    decreases below,
{
    if below <= 0 {
        None
    } else {
        let text = trimmed(line_or_empty(lines, below - 1));
        if occurs_nocase_at(text, "else".spec_bytes(), 0) {
            Some(below - 1)
        } else if text.len() > 0 {
            None
        } else {
            else_row(lines, below - 1)
        }
    }
}

/// Gives the `else` line above row `below`, if there is one, the level `depth`.
pub open spec fn mark_else(m: Marks, lines: Seq<Seq<u8>>, below: usize, depth: usize) -> Marks {
    match else_row(lines, below as int) {
        Some(k) => claim(m, k as usize, depth),
        None => m,
    }
}

/// Whether one of the first `i` nodes is a block.
pub open spec fn block_before(nodes: Seq<SyntaxNode>, i: int) -> bool
    decreases i,
{
    0 < i <= nodes.len() && (nodes[i - 1].kind_is("block") || block_before(nodes, i - 1))
}

/// What a node does for its child `i` before it descends into it.
pub struct ChildPlan {
    /// The marks after what the node itself records for the child.
    pub marks: Marks,
    /// The depth at which the descent continues.
    pub depth: usize,
    /// Whether the descent skips the child itself and goes on with the
    /// child's own children.
    pub flat: bool,
}

impl SyntaxNode {
    /// Whether the node is an opening or a closing brace.
    pub open spec fn is_brace(&self) -> bool {
        self.kind_is("{") || self.kind_is("}")
    }

    /// How the node lays out the lines it spans.
    pub open spec fn layout(&self) -> Layout {
        if self.children@.len() == 0 {
            Layout::Leaf
        } else if self.kind_is("block") {
            Layout::Block
        } else if self.kind_is("var_section") {
            Layout::VarSection
        } else if object_declaration_kind(self.kind@) {
            Layout::Object
        } else if braced_section_kind(self.kind@) {
            Layout::Braced
        } else if field_like_kind(self.kind@) {
            Layout::FieldLike
        } else if self.kind_is("procedure_declaration") || self.kind_is("trigger_declaration") {
            Layout::Routine
        } else if self.kind_is("if_statement") {
            Layout::If
        } else if self.kind_is("for_statement") || self.kind_is("while_statement") || self.kind_is(
            "with_statement",
        ) {
            Layout::Loop
        } else if self.kind_is("repeat_statement") {
            Layout::Repeat
        } else if self.kind_is("case_statement") {
            Layout::Case
        } else if self.kind_is("case_branch") {
            Layout::CaseBranch
        } else {
            Layout::Plain
        }
    }

    /// The marks after the node has claimed the lines of its own keywords.
    pub open spec fn claim_own(&self, m: Marks, depth: usize) -> Marks {
        match self.layout() {
            Layout::Plain => m,
            Layout::Block | Layout::Repeat | Layout::Case => claim(
                claim(m, self.start_point.row, depth),
                self.end_point.row,
                depth,
            ),
            _ => claim(m, self.start_point.row, depth),
        }
    }

    /// The row on which the part of the node before child `i` ends.
    pub open spec fn row_before(&self, i: int) -> usize {
        if 0 < i <= self.children@.len() {
            self.children@[i - 1].end_point.row
        } else {
            self.start_point.row
        }
    }

    /// What the node does for its child `i` before it descends into it.
    pub open spec fn plan(&self, i: int, lines: Seq<Seq<u8>>, m: Marks, depth: usize) -> ChildPlan {
        let c = self.children@[i];
        let same = ChildPlan { marks: m, depth, flat: false };
        let inner = ChildPlan { marks: m, depth: deeper(depth), flat: false };
        match self.layout() {
            Layout::Leaf | Layout::Plain => same,
            Layout::Block | Layout::VarSection => inner,
            Layout::Object | Layout::FieldLike => if c.start_point.row == self.start_point.row
                || c.is_brace() {
                same
            } else {
                inner
            },
            Layout::Braced => if c.is_brace() {
                same
            } else {
                inner
            },
            Layout::Routine => if c.kind_is("var_section") || c.kind_is("block") {
                ChildPlan {
                    marks: remove_blank(m, lines, self.row_before(i), c.start_point.row),
                    depth,
                    flat: false,
                }
            } else {
                same
            },
            Layout::If => if c.kind_is("block") {
                ChildPlan {
                    marks: if block_before(self.children@, i) {
                        mark_else(m, lines, c.start_point.row, depth)
                    } else {
                        m
                    },
                    depth: deeper(depth),
                    flat: false,
                }
            } else {
                same
            },
            Layout::Loop => if c.kind_is("block") {
                ChildPlan {
                    marks: claim(
                        join_mark(m, c.start_point.row, self.start_point.row),
                        c.end_point.row,
                        depth,
                    ),
                    depth: deeper(deeper(depth)),
                    flat: true,
                }
            } else {
                same
            },
            Layout::Repeat => if c.start_point.row == self.end_point.row {
                same
            } else {
                inner
            },
            Layout::Case => if c.kind_is("case_branch") {
                inner
            } else {
                same
            },
            Layout::CaseBranch => if c.kind_is("block") {
                inner
            } else {
                same
            },
        }
    }

    /// The marks after the first pass has gone through the node at `depth`.
    pub open spec fn assign(&self, lines: Seq<Seq<u8>>, m: Marks, depth: usize) -> Marks
        decreases self, 2int, 0int,
    {
        if self.children@.len() == 0 {
            claim(m, self.start_point.row, depth)
        } else {
            self.assign_children(
                self.children@.len() as int,
                lines,
                self.claim_own(m, depth),
                depth,
            )
        }
    }

    /// The marks after the first pass has gone through the first `n`
    /// children of the node, each as the node's layout asks.
    pub open spec fn assign_children(
        &self,
        n: int,
        lines: Seq<Seq<u8>>,
        m: Marks,
        depth: usize,
    ) -> Marks
        decreases self, 1int, n,
    {
        if n <= 0 || n > self.children@.len() {
            m
        } else {
            let before = self.assign_children(n - 1, lines, m, depth);
            let plan = self.plan(n - 1, lines, before, depth);
            let c = self.children@[n - 1];
            if plan.flat {
                c.assign_flat(c.children@.len() as int, lines, plan.marks, plan.depth)
            } else {
                c.assign(lines, plan.marks, plan.depth)
            }
        }
    }

    /// The marks after the first pass has gone through the first `n`
    /// children of the node, all of them at `depth`.
    pub open spec fn assign_flat(&self, n: int, lines: Seq<Seq<u8>>, m: Marks, depth: usize) -> Marks
        decreases self, 1int, n,
    {
        if n <= 0 || n > self.children@.len() {
            m
        } else {
            self.children@[n - 1].assign(lines, self.assign_flat(n - 1, lines, m, depth), depth)
        }
    }
}

/// Whether nodes of this kind declare an object.
pub fn is_object_declaration(kind: &[u8]) -> (r: bool)
    ensures
        r == object_declaration_kind(kind@),
{
    bytes_eq(kind, "codeunit_declaration".as_bytes()) || bytes_eq(
        kind,
        "table_declaration".as_bytes(),
    ) || bytes_eq(kind, "table_extension_declaration".as_bytes()) || bytes_eq(
        kind,
        "page_declaration".as_bytes(),
    ) || bytes_eq(kind, "page_extension_declaration".as_bytes()) || bytes_eq(
        kind,
        "report_declaration".as_bytes(),
    ) || bytes_eq(kind, "enum_declaration".as_bytes()) || bytes_eq(
        kind,
        "enum_extension_declaration".as_bytes(),
    ) || bytes_eq(kind, "xmlport_declaration".as_bytes()) || bytes_eq(
        kind,
        "query_declaration".as_bytes(),
    ) || bytes_eq(kind, "interface_declaration".as_bytes()) || bytes_eq(
        kind,
        "permissionset_declaration".as_bytes(),
    ) || bytes_eq(kind, "controladdin_declaration".as_bytes())
}

/// Whether nodes of this kind are sections with braces.
pub fn is_braced_section(kind: &[u8]) -> (r: bool)
    ensures
        r == braced_section_kind(kind@),
{
    bytes_eq(kind, "fields_section".as_bytes()) || bytes_eq(kind, "keys_section".as_bytes())
        || bytes_eq(kind, "fieldgroups_section".as_bytes()) || bytes_eq(
        kind,
        "layout_section".as_bytes(),
    ) || bytes_eq(kind, "actions_section".as_bytes()) || bytes_eq(
        kind,
        "dataset_section".as_bytes(),
    ) || bytes_eq(kind, "requestpage_section".as_bytes()) || bytes_eq(
        kind,
        "area_section".as_bytes(),
    ) || bytes_eq(kind, "group_section".as_bytes()) || bytes_eq(
        kind,
        "repeater_section".as_bytes(),
    ) || bytes_eq(kind, "part_section".as_bytes())
}

/// Whether nodes of this kind are declarations with an optional brace body.
pub fn is_field_like_declaration(kind: &[u8]) -> (r: bool)
    ensures
        r == field_like_kind(kind@),
{
    bytes_eq(kind, "field_declaration".as_bytes()) || bytes_eq(kind, "key_declaration".as_bytes())
        || bytes_eq(kind, "enum_value_declaration".as_bytes()) || bytes_eq(
        kind,
        "page_field".as_bytes(),
    ) || bytes_eq(kind, "page_action".as_bytes())
}

/// How a node lays out the lines it spans.
pub fn layout_of(node: &SyntaxNode) -> (r: Layout)
    ensures
        r == node.layout(),
{
    if node.children.len() == 0 {
        Layout::Leaf
    } else if node.has_kind("block") {
        Layout::Block
    } else if node.has_kind("var_section") {
        Layout::VarSection
    } else if is_object_declaration(node.kind.as_slice()) {
        Layout::Object
    } else if is_braced_section(node.kind.as_slice()) {
        Layout::Braced
    } else if is_field_like_declaration(node.kind.as_slice()) {
        Layout::FieldLike
    } else if node.has_kind("procedure_declaration") || node.has_kind("trigger_declaration") {
        Layout::Routine
    } else if node.has_kind("if_statement") {
        Layout::If
    } else if node.has_kind("for_statement") || node.has_kind("while_statement") || node.has_kind(
        "with_statement",
    ) {
        Layout::Loop
    } else if node.has_kind("repeat_statement") {
        Layout::Repeat
    } else if node.has_kind("case_statement") {
        Layout::Case
    } else if node.has_kind("case_branch") {
        Layout::CaseBranch
    } else {
        Layout::Plain
    }
}

/// One level deeper; the depth stays where it is once it cannot grow.
pub fn one_deeper(depth: usize) -> (r: usize)
    ensures
        r == deeper(depth),
{
    if depth < usize::MAX {
        depth + 1
    } else {
        depth
    }
}

/// Set the indent level for `line` only if it hasn't been set yet. The first
/// token to claim a line wins.
pub fn set_line_indent(levels: &mut Vec<Option<usize>>, line: usize, depth: usize)
    ensures
        final(levels)@ == if line < old(levels)@.len() && old(levels)@[line as int] is None {
            old(levels)@.update(line as int, Some(depth))
        } else {
            old(levels)@
        },
{
    if line < levels.len() && levels[line].is_none() {
        levels[line] = Some(depth);
    }
}

impl LineMarks {
    /// Marks for `count` lines, none of them claimed, joined or removed.
    pub fn new(count: usize) -> (r: LineMarks)
        ensures
            r@ == blank_marks(count as nat),
    {
        let mut levels: Vec<Option<usize>> = Vec::new();
        let mut join_to_prev: Vec<bool> = Vec::new();
        let mut remove_line: Vec<bool> = Vec::new();
        let mut k: usize = 0;
        while k < count
            invariant
                k <= count,
                levels@ =~= Seq::new(k as nat, |j: int| None::<usize>),
                join_to_prev@ =~= Seq::new(k as nat, |j: int| false),
                remove_line@ =~= Seq::new(k as nat, |j: int| false),
            decreases count - k,
        {
            levels.push(None);
            join_to_prev.push(false);
            remove_line.push(false);
            k += 1;
        }
        let r = LineMarks { levels, join_to_prev, remove_line };
        assert(r@.levels =~= blank_marks(count as nat).levels);
        assert(r@.join =~= blank_marks(count as nat).join);
        assert(r@.remove =~= blank_marks(count as nat).remove);
        r
    }

    fn claim(&mut self, line: usize, depth: usize)
        ensures
            final(self)@ == claim(old(self)@, line, depth),
    {
        set_line_indent(&mut self.levels, line, depth);
    }

    fn join(&mut self, line: usize, statement_line: usize)
        ensures
            final(self)@ == join_mark(old(self)@, line, statement_line),
    {
        if line != statement_line && line < self.join_to_prev.len() {
            self.join_to_prev[line] = true;
        }
    }

    fn drop_blank(&mut self, source: &[u8], index: &LineIndex, after: usize, before: usize)
        requires
            index.describes(source@),
        ensures
            final(self)@ == remove_blank(old(self)@, lines_of(source@), after, before),
    {
        let ghost lines = lines_of(source@);
        let ghost start = self.remove_line@;
        let mut k: usize = after;
        while k < before
            invariant
                after <= k,
                k <= before || k == after,
                index.describes(source@),
                lines == lines_of(source@),
                self.levels@ == old(self).levels@,
                self.join_to_prev@ == old(self).join_to_prev@,
                start == old(self).remove_line@,
                self.remove_line@ =~= Seq::new(
                    start.len(),
                    |j: int| start[j] || (after < j < k && blank_line(lines, j)),
                ),
            decreases before - k,
        {
            if k > after && k < self.remove_line.len() {
                let line = index.line(source, k);
                if trim(line).len() == 0 {
                    self.remove_line[k] = true;
                }
            }
            k += 1;
        }
        assert(self.remove_line@ =~= remove_blank(old(self)@, lines, after, before).remove);
    }

    fn claim_else(&mut self, source: &[u8], index: &LineIndex, below: usize, depth: usize)
        requires
            index.describes(source@),
        ensures
            final(self)@ == mark_else(old(self)@, lines_of(source@), below, depth),
    {
        let ghost lines = lines_of(source@);
        let mut k: usize = below;
        while k > 0
            invariant
                k <= below,
                index.describes(source@),
                lines == lines_of(source@),
                else_row(lines, below as int) == else_row(lines, k as int),
                *self == *old(self),
            decreases k,
        {
            let text = trim(index.line(source, k - 1));
            if starts_with_nocase(text, "else".as_bytes()) {
                self.claim(k - 1, depth);
                return ;
            }
            if text.len() > 0 {
                return ;
            }
            k -= 1;
        }
    }
}

/// Recursively walk the tree and assign indentation to each line. `depth` is
/// the indentation level of the node itself; the node decides what depth to
/// pass to each of its children.
pub fn assign_indentation(node: &SyntaxNode, source: &[u8], marks: &mut LineMarks, depth: usize)
    ensures
        final(marks)@ == node.assign(lines_of(source@), old(marks)@, depth),
{
    let index = index_lines(source);
    assign_lines(node, source, &index, marks, depth);
}

/// Walks the tree with the lines of the text at hand.
fn assign_lines(
    node: &SyntaxNode,
    source: &[u8],
    index: &LineIndex,
    marks: &mut LineMarks,
    depth: usize,
)
    requires
        index.describes(source@),
    ensures
        final(marks)@ == node.assign(lines_of(source@), old(marks)@, depth),
    decreases node, 1int,
{
    let layout = layout_of(node);
    let start_line = node.start_point.row;
    let end_line = node.end_point.row;
    match layout {
        Layout::Leaf => {
            marks.claim(start_line, depth);
            return ;
        },
        Layout::Plain => {},
        Layout::Block | Layout::Repeat | Layout::Case => {
            marks.claim(start_line, depth);
            marks.claim(end_line, depth);
        },
        _ => {
            marks.claim(start_line, depth);
        },
    }
    let ghost lines = lines_of(source@);
    let ghost base = marks@;
    let mut seen_block = false;
    let mut i: usize = 0;
    while i < node.children.len()
        invariant
            i <= node.children.len(),
            index.describes(source@),
            lines == lines_of(source@),
            layout == node.layout(),
            start_line == node.start_point.row,
            end_line == node.end_point.row,
            seen_block == block_before(node.children@, i as int),
            marks@ == node.assign_children(i as int, lines, base, depth),
        decreases node.children.len() - i,
    {
        let child = &node.children[i];
        let child_line = child.start_point.row;
        let brace = child.has_kind("{") || child.has_kind("}");
        let is_block = child.has_kind("block");
        let mut child_depth = depth;
        let mut flat = false;
        match layout {
            Layout::Leaf | Layout::Plain => {},
            Layout::Block | Layout::VarSection => {
                child_depth = one_deeper(depth);
            },
            Layout::Object | Layout::FieldLike => {
                if !(child_line == start_line || brace) {
                    child_depth = one_deeper(depth);
                }
            },
            Layout::Braced => {
                if !brace {
                    child_depth = one_deeper(depth);
                }
            },
            Layout::Routine => {
                if child.has_kind("var_section") || is_block {
                    let prev_end = if i > 0 {
                        node.children[i - 1].end_point.row
                    } else {
                        start_line
                    };
                    marks.drop_blank(source, index, prev_end, child_line);
                }
            },
            Layout::If => {
                if is_block {
                    if seen_block {
                        marks.claim_else(source, index, child_line, depth);
                    }
                    child_depth = one_deeper(depth);
                }
            },
            Layout::Loop => {
                if is_block {
                    marks.join(child_line, start_line);
                    marks.claim(child.end_point.row, depth);
                    child_depth = one_deeper(one_deeper(depth));
                    flat = true;
                }
            },
            Layout::Repeat => {
                if child_line != end_line {
                    child_depth = one_deeper(depth);
                }
            },
            Layout::Case => {
                if child.has_kind("case_branch") {
                    child_depth = one_deeper(depth);
                }
            },
            Layout::CaseBranch => {
                if is_block {
                    child_depth = one_deeper(depth);
                }
            },
        }
        proof {
            let plan = node.plan(
                i as int,
                lines,
                node.assign_children(i as int, lines, base, depth),
                depth,
            );
            assert(plan.marks == marks@);
            assert(plan.depth == child_depth);
            assert(plan.flat == flat);
        }
        if flat {
            assign_flat(child, source, index, marks, child_depth);
        } else {
            assign_lines(child, source, index, marks, child_depth);
        }
        if is_block {
            seen_block = true;
        }
        i += 1;
    }
}

/// Walks the children of `node`, all of them at `depth`.
fn assign_flat(
    node: &SyntaxNode,
    source: &[u8],
    index: &LineIndex,
    marks: &mut LineMarks,
    depth: usize,
)
    requires
        index.describes(source@),
    ensures
        final(marks)@ == node.assign_flat(
            node.children@.len() as int,
            lines_of(source@),
            old(marks)@,
            depth,
        ),
    decreases node, 0int,
{
    let ghost lines = lines_of(source@);
    let ghost base = marks@;
    let mut i: usize = 0;
    while i < node.children.len()
        invariant
            i <= node.children.len(),
            index.describes(source@),
            lines == lines_of(source@),
            marks@ == node.assign_flat(i as int, lines, base, depth),
        decreases node.children.len() - i,
    {
        assign_lines(&node.children[i], source, index, marks, depth);
        i += 1;
    }
}

/// `acc`, followed by a space unless it is empty or ends in one.
pub open spec fn pad_before(acc: Seq<u8>) -> Seq<u8> {
    if acc.len() > 0 && acc.last() != 0x20 {
        acc.push(0x20)
    } else {
        acc
    }
}

/// `acc`, followed by a space unless the line ends at `j` or has a space there.
pub open spec fn pad_after(acc: Seq<u8>, s: Seq<u8>, j: int) -> Seq<u8> {
    if 0 <= j < s.len() && s[j] != 0x20 {
        acc.push(0x20)
    } else {
        acc
    }
}

/// Index just behind the first single quote of `s` at or after `from`; the
/// length of `s` where there is none.
pub open spec fn quote_end(s: Seq<u8>, from: int) -> int
    decreases s.len() - from,
{
    if from < 0 || from >= s.len() {
        s.len() as int
    } else if s[from] == 0x27 {
        from + 1
    } else {
        quote_end(s, from + 1)
    }
}

/// Whether one of `:=`, `+=`, `-=`, `*=`, `/=`, `<>`, `<=`, `>=`, `>>` stands at `i`.
pub open spec fn operator_pair_at(s: Seq<u8>, i: int) -> bool {
    0 <= i && i + 1 < s.len() && {
        let a = s[i];
        let b = s[i + 1];
        ||| (a == 0x3a && b == 0x3d)
        ||| ((a == 0x2b || a == 0x2d || a == 0x2a || a == 0x2f) && b == 0x3d)
        ||| ((a == 0x3c || a == 0x3e) && (b == 0x3e || b == 0x3d))
    }
}

/// Where the spacing pass stands: the next byte to read and the text written so far.
pub struct Scan {
    pub next: int,
    pub out: Seq<u8>,
}

/// One step of the spacing pass, made at byte `i` of `s` with `acc` written so far.
pub open spec fn spacing_step(s: Seq<u8>, i: int, acc: Seq<u8>) -> Scan {
    let ch = s[i];
    if ch == 0x27 {
        let j = quote_end(s, i + 1);
        Scan { next: j, out: acc + s.subrange(i, j) }
    } else if operator_pair_at(s, i) {
        Scan { next: i + 2, out: pad_after(pad_before(acc) + s.subrange(i, i + 2), s, i + 2) }
    } else if ch == 0x3c || ch == 0x3e {
        Scan { next: i + 1, out: pad_after(pad_before(acc).push(ch), s, i + 1) }
    } else if ch == 0x2c {
        Scan {
            next: i + 1,
            out: pad_after(trim_end_by(acc, ByteSet::Only(0x20)).push(0x2c), s, i + 1),
        }
    } else if ch == 0x3b {
        let a = trim_end_by(acc, ByteSet::Only(0x20)).push(0x3b);
        Scan {
            next: i + 1,
            out: if i + 1 < s.len() && s[i + 1] != 0x20 && s[i + 1] != 0x0a {
                a.push(0x20)
            } else {
                a
            },
        }
    } else if ch == 0x20 && acc.len() > 0 && acc.last() == 0x20 {
        Scan { next: i + 1, out: acc }
    } else {
        Scan { next: i + 1, out: acc.push(ch) }
    }
}

/// The text written once the spacing pass, standing at byte `i` with `acc`
/// written so far, has reached the end of `s`.
pub open spec fn spaced_from(s: Seq<u8>, i: int, acc: Seq<u8>) -> Seq<u8>
    decreases s.len() - i,
{
    if i < 0 || i >= s.len() {
        acc
    } else {
        let step = spacing_step(s, i, acc);
        if step.next <= i || step.next > s.len() {
            acc
        } else {
            spaced_from(s, step.next, step.out)
        }
    }
}

/// Whether a line is left as it is: it begins with `//`, `/*` or `*`.
pub open spec fn comment_line(line: Seq<u8>) -> bool {
    ||| "//".spec_bytes().is_prefix_of(line)
    ||| "/*".spec_bytes().is_prefix_of(line)
    ||| "*".spec_bytes().is_prefix_of(line)
}

/// A line with canonical spacing: text in single quotes is kept; `:=`, `+=`,
/// `-=`, `*=`, `/=`, `<>`, `<=`, `>=`, `<` and `>` stand between single
/// spaces; `,` and `;` have no space before them and one after them; runs of
/// spaces shrink to one; nothing trails.
pub open spec fn spaced(line: Seq<u8>) -> Seq<u8> {
    if line.len() == 0 {
        line
    } else if comment_line(line) {
        line
    } else {
        trimmed_end(spaced_from(line, 0, Seq::empty()))
    }
}

/// Removes the trailing occurrences of the byte `c`.
pub fn pop_trailing(out: &mut Vec<u8>, c: u8)
    ensures
        final(out)@ == trim_end_by(old(out)@, ByteSet::Only(c)),
{
    let n = trailing_of(out.as_slice(), c);
    out.truncate(out.len() - n);
    assert(out@ =~= old(out)@.take(old(out)@.len() - n));
}

fn push_space_before(out: &mut Vec<u8>)
    ensures
        final(out)@ == pad_before(old(out)@),
{
    if out.len() > 0 && out[out.len() - 1] != 0x20 {
        out.push(0x20);
    }
}

fn push_space_after(out: &mut Vec<u8>, line: &[u8], j: usize)
    ensures
        final(out)@ == pad_after(old(out)@, line@, j as int),
{
    if j < line.len() && line[j] != 0x20 {
        out.push(0x20);
    }
}

/// Apply basic spacing rules to a trimmed line of AL code.
pub fn apply_spacing(line: &[u8]) -> (r: Vec<u8>)
    ensures
        r@ == spaced(line@),
{
    if line.len() == 0 {
        return Vec::new();
    }
    if starts_with(line, "//".as_bytes()) || starts_with(line, "/*".as_bytes()) || starts_with(
        line,
        "*".as_bytes(),
    ) {
        return crate::text::copy_of(line);
    }
    let len = line.len();
    let mut result: Vec<u8> = Vec::new();
    let mut i: usize = 0;
    while i < len
        invariant
            i <= len,
            len == line@.len(),
            spaced_from(line@, 0, Seq::empty()) == spaced_from(line@, i as int, result@),
        decreases len - i,
    {
        let ch = line[i];
        let ghost step = spacing_step(line@, i as int, result@);
        if ch == 0x27 {
            let mut j: usize = i + 1;
            while j < len && line[j] != 0x27
                invariant
                    i < j <= len,
                    len == line@.len(),
                    quote_end(line@, i + 1) == quote_end(line@, j as int),
                decreases len - j,
            {
                j += 1;
            }
            if j < len {
                j += 1;
            }
            append(&mut result, vstd::slice::slice_subrange(line, i, j));
            i = j;
        } else if i + 1 < len && ((ch == 0x3a && line[i + 1] == 0x3d) || ((ch == 0x2b || ch == 0x2d
            || ch == 0x2a || ch == 0x2f) && line[i + 1] == 0x3d) || ((ch == 0x3c || ch == 0x3e) && (
        line[i + 1] == 0x3e || line[i + 1] == 0x3d))) {
            push_space_before(&mut result);
            append(&mut result, vstd::slice::slice_subrange(line, i, i + 2));
            i += 2;
            push_space_after(&mut result, line, i);
        } else if ch == 0x3c || ch == 0x3e {
            push_space_before(&mut result);
            result.push(ch);
            i += 1;
            push_space_after(&mut result, line, i);
        } else if ch == 0x2c {
            pop_trailing(&mut result, 0x20);
            result.push(0x2c);
            i += 1;
            push_space_after(&mut result, line, i);
        } else if ch == 0x3b {
            pop_trailing(&mut result, 0x20);
            result.push(0x3b);
            i += 1;
            if i < len && line[i] != 0x20 && line[i] != 0x0a {
                result.push(0x20);
            }
        } else if ch == 0x20 && result.len() > 0 && result[result.len() - 1] == 0x20 {
            i += 1;
        } else {
            result.push(ch);
            i += 1;
        }
        assert(i as int == step.next);
        assert(result@ == step.out);
    }
    let n = crate::text::trailing_space(result.as_slice());
    result.truncate(result.len() - n);
    assert(result@ =~= trimmed_end(spaced_from(line@, 0, Seq::empty())));
    result
}

/// One unit of indentation: `tab_size` spaces, or one tab.
pub open spec fn indent_unit(options: FormatOptions) -> Seq<u8> {
    if options.insert_spaces {
        Seq::new(options.tab_size as nat, |k: int| 0x20u8)
    } else {
        seq![0x09u8]
    }
}

/// `unit`, `n` times over.
pub open spec fn repeated(unit: Seq<u8>, n: nat) -> Seq<u8>
    decreases n,
{
    if n == 0 {
        Seq::empty()
    } else {
        repeated(unit, (n - 1) as nat) + unit
    }
}

/// Whether line `k` carries the flag.
pub open spec fn flagged(flags: Seq<bool>, k: int) -> bool {
    0 <= k < flags.len() && flags[k]
}

/// The indent level of line `k`; 0 where no node has claimed the line.
pub open spec fn level_of(levels: Seq<Option<usize>>, k: int) -> usize {
    if 0 <= k < levels.len() {
        match levels[k] {
            Some(depth) => depth,
            None => 0,
        }
    } else {
        0
    }
}

/// The output after line `k` has been emitted behind `out`: a removed line
/// leaves nothing, a blank line an empty line; a joined line goes behind the
/// line before it, after one space; any other line is indented to its level.
pub open spec fn emit_line(out: Seq<u8>, lines: Seq<Seq<u8>>, k: int, m: Marks, unit: Seq<u8>) -> Seq<
    u8,
> {
    let text = trimmed(line_or_empty(lines, k));
    if flagged(m.remove, k) {
        out
    } else if text.len() == 0 {
        out.push(0x0a)
    } else if flagged(m.join, k) && out.len() > 0 {
        (if out.last() == 0x0a {
            out.drop_last()
        } else {
            out
        }).push(0x20) + spaced(text) + seq![0x0au8]
    } else {
        out + repeated(unit, level_of(m.levels, k) as nat) + spaced(text) + seq![0x0au8]
    }
}

/// The output after the first `n` lines have been emitted.
pub open spec fn emitted(lines: Seq<Seq<u8>>, m: Marks, unit: Seq<u8>, n: int) -> Seq<u8>
    decreases n,
{
    if n <= 0 {
        Seq::empty()
    } else {
        emit_line(emitted(lines, m, unit, n - 1), lines, n - 1, m, unit)
    }
}

/// `out` with exactly one line feed at its end.
pub open spec fn finished(out: Seq<u8>) -> Seq<u8> {
    let n = trail(out, ByteSet::Only(0x0a));
    if n >= 1 {
        out.take(out.len() - n + 1)
    } else {
        out.push(0x0a)
    }
}

/// The formatted text of a document.
pub open spec fn formatted(tree: SyntaxNode, source: Seq<u8>, options: FormatOptions) -> Seq<u8> {
    let lines = lines_of(source);
    let marks = tree.assign(lines, blank_marks(lines.len()), 0);
    finished(emitted(lines, marks, indent_unit(options), lines.len() as int))
}

/// One unit of indentation: `tab_size` spaces, or one tab.
pub fn indent_string(options: &FormatOptions) -> (r: Vec<u8>)
    ensures
        r@ == indent_unit(*options),
{
    let mut unit: Vec<u8> = Vec::new();
    if options.insert_spaces {
        let mut k: usize = 0;
        while k < options.tab_size
            invariant
                k <= options.tab_size,
                unit@ =~= Seq::new(k as nat, |j: int| 0x20u8),
            decreases options.tab_size - k,
        {
            unit.push(0x20);
            k += 1;
        }
        assert(unit@ =~= indent_unit(*options));
    } else {
        unit.push(0x09);
        assert(unit@ =~= indent_unit(*options));
    }
    unit
}

fn push_repeated(out: &mut Vec<u8>, unit: &[u8], n: usize)
    ensures
        final(out)@ == old(out)@ + repeated(unit@, n as nat),
{
    let mut k: usize = 0;
    assert(out@ =~= old(out)@ + repeated(unit@, 0));
    while k < n
        invariant
            k <= n,
            out@ == old(out)@ + repeated(unit@, k as nat),
        decreases n - k,
    {
        append(out, unit);
        k += 1;
        assert(out@ =~= old(out)@ + repeated(unit@, k as nat));
    }
}

fn finish(out: &mut Vec<u8>)
    ensures
        final(out)@ == finished(old(out)@),
{
    let n = trailing_of(out.as_slice(), 0x0a);
    if n >= 1 {
        out.truncate(out.len() - n + 1);
        assert(out@ =~= finished(old(out)@));
    } else {
        out.push(0x0a);
    }
}

/// Format an AL document using the parse tree to determine structure.
///
/// Walks the tree to compute the indentation of each line, applies the
/// spacing rules to each line, and keeps the line breaks of the source but
/// for the lines that are joined or removed. The result ends in exactly one
/// line feed.
pub fn format_document(tree: &SyntaxNode, source: &[u8], options: &FormatOptions) -> (r: Vec<u8>)
    ensures
        r@ == formatted(*tree, source@, *options),
{
    let unit = indent_string(options);
    let index = index_lines(source);
    let count = index.len();
    let mut marks = LineMarks::new(count);
    assign_lines(tree, source, &index, &mut marks, 0);
    let ghost lines = lines_of(source@);
    let mut result: Vec<u8> = Vec::new();
    let mut k: usize = 0;
    while k < count
        invariant
            k <= count,
            count == lines.len(),
            lines == lines_of(source@),
            index.describes(source@),
            result@ == emitted(lines, marks@, unit@, k as int),
        decreases count - k,
    {
        let text = trim(index.line(source, k));
        let removed = k < marks.remove_line.len() && marks.remove_line[k];
        let joined = k < marks.join_to_prev.len() && marks.join_to_prev[k];
        if removed {
        } else if text.len() == 0 {
            result.push(0x0a);
        } else if joined && result.len() > 0 {
            if result[result.len() - 1] == 0x0a {
                result.pop();
                assert(result@ =~= emitted(lines, marks@, unit@, k as int).drop_last());
            }
            result.push(0x20);
            let line = apply_spacing(text);
            append(&mut result, line.as_slice());
            result.push(0x0a);
        } else {
            let level = if k < marks.levels.len() {
                match marks.levels[k] {
                    Some(depth) => depth,
                    None => 0,
                }
            } else {
                0
            };
            push_repeated(&mut result, unit.as_slice(), level);
            let line = apply_spacing(text);
            append(&mut result, line.as_slice());
            result.push(0x0a);
        }
        k += 1;
    }
    finish(&mut result);
    result
}

} // verus!
