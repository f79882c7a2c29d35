//! Plain values that requests carry and answers are made of.
//!
//! Positions count lines and columns from zero. A column is a byte offset
//! into its line.

use crate::syntax::Point;
use vstd::prelude::*;

verus! {

/// A line and a column in a document.
#[derive(Clone, Copy, Debug, PartialEq, Eq, Structural)]
pub struct Position {
    pub line: u32,
    pub character: u32,
}

/// A range between two positions.
#[derive(Clone, Copy, Debug, PartialEq, Eq, Structural)]
pub struct Range {
    pub start: Position,
    pub end: Position,
}

/// A range in a document.
#[derive(Debug)]
pub struct Location {
    pub uri: String,
    pub range: Range,
}

/// The mathematical value of a location.
pub struct LocationModel {
    pub uri: Seq<char>,
    pub range: Range,
}

/// A replacement of a range by a text.
#[derive(Debug)]
pub struct TextEdit {
    pub range: Range,
    pub new_text: Vec<u8>,
}

/// The mathematical value of a text edit.
pub struct EditModel {
    pub range: Range,
    pub new_text: Seq<u8>,
}

/// The edits to one document.
#[derive(Debug)]
pub struct DocumentEdits {
    pub uri: String,
    pub edits: Vec<TextEdit>,
}

/// Edits to any number of documents, each document listed once, in the order
/// in which the documents were first edited.
#[derive(Debug)]
pub struct WorkspaceEdit {
    pub changes: Vec<DocumentEdits>,
}

/// An edit together with the document it applies to.
pub struct PlacedEdit {
    pub uri: Seq<char>,
    pub range: Range,
    pub new_text: Seq<u8>,
}

/// How grave a diagnostic is.
#[derive(Clone, Copy, Debug, PartialEq, Eq, Structural)]
pub enum DiagnosticSeverity {
    Error,
    Warning,
    Information,
    Hint,
}

/// A finding about a range of a document.
#[derive(Debug)]
pub struct Diagnostic {
    pub range: Range,
    pub severity: DiagnosticSeverity,
    pub source: Vec<u8>,
    pub message: Vec<u8>,
}

/// The mathematical value of a diagnostic.
pub struct DiagnosticModel {
    pub range: Range,
    pub severity: DiagnosticSeverity,
    pub source: Seq<u8>,
    pub message: Seq<u8>,
}

impl View for Location {
    type V = LocationModel;

    open spec fn view(&self) -> LocationModel {
        LocationModel { uri: self.uri@, range: self.range }
    }
}

impl View for TextEdit {
    type V = EditModel;

    open spec fn view(&self) -> EditModel {
        EditModel { range: self.range, new_text: self.new_text@ }
    }
}

impl View for Diagnostic {
    type V = DiagnosticModel;

    open spec fn view(&self) -> DiagnosticModel {
        DiagnosticModel {
            range: self.range,
            severity: self.severity,
            source: self.source@,
            message: self.message@,
        }
    }
}

/// The position of a point. Rows and columns beyond the range of `u32` wrap.
pub open spec fn position_of(point: Point) -> Position {
    Position { line: point.row as u32, character: point.column as u32 }
}

/// The range between two points.
pub open spec fn range_of(start: Point, end: Point) -> Range {
    Range { start: position_of(start), end: position_of(end) }
}

/// Convert a point of the syntax tree to a position.
pub fn ts_point_to_lsp_position(point: Point) -> (r: Position)
    ensures
        r == position_of(point),
{
    Position {
        line: #[verifier::truncate]
        (point.row as u32),
        character: #[verifier::truncate]
        (point.column as u32),
    }
}

/// Convert a position to a point of the syntax tree.
pub fn lsp_position_to_ts_point(pos: Position) -> (r: Point)
    ensures
        r.row == pos.line,
        r.column == pos.character,
{
    Point { row: pos.line as usize, column: pos.character as usize }
}

/// Convert a pair of points to a range.
pub fn ts_range_to_lsp_range(start: Point, end: Point) -> (r: Range)
    ensures
        r == range_of(start, end),
{
    Range { start: ts_point_to_lsp_position(start), end: ts_point_to_lsp_position(end) }
}

/// The mathematical values of a sequence of locations.
pub open spec fn location_models(locations: Seq<Location>) -> Seq<LocationModel>
    decreases locations.len(),
{
    if locations.len() == 0 {
        Seq::empty()
    } else {
        location_models(locations.drop_last()).push(locations.last()@)
    }
}

/// The mathematical values of a sequence of text edits.
pub open spec fn edit_models(edits: Seq<TextEdit>) -> Seq<EditModel>
    decreases edits.len(),
{
    if edits.len() == 0 {
        Seq::empty()
    } else {
        edit_models(edits.drop_last()).push(edits.last()@)
    }
}

/// The mathematical values of a sequence of diagnostics.
pub open spec fn diagnostic_models(diagnostics: Seq<Diagnostic>) -> Seq<DiagnosticModel>
    decreases diagnostics.len(),
{
    if diagnostics.len() == 0 {
        Seq::empty()
    } else {
        diagnostic_models(diagnostics.drop_last()).push(diagnostics.last()@)
    }
}

/// The values of locations with one more location.
pub proof fn lemma_location_models_push(locations: Seq<Location>, location: Location)
    ensures
        location_models(locations.push(location)) == location_models(locations).push(location@),
{
    assert(locations.push(location).drop_last() =~= locations);
}

/// The values of edits with one more edit.
pub proof fn lemma_edit_models_push(edits: Seq<TextEdit>, edit: TextEdit)
    ensures
        edit_models(edits.push(edit)) == edit_models(edits).push(edit@),
{
    assert(edits.push(edit).drop_last() =~= edits);
}

/// The values of diagnostics with one more diagnostic.
pub proof fn lemma_diagnostic_models_push(diagnostics: Seq<Diagnostic>, diagnostic: Diagnostic)
    ensures
        diagnostic_models(diagnostics.push(diagnostic)) == diagnostic_models(diagnostics).push(
            diagnostic@,
        ),
{
    assert(diagnostics.push(diagnostic).drop_last() =~= diagnostics);
}

/// The values of locations, location by location.
pub proof fn lemma_location_models(locations: Seq<Location>)
    ensures
        location_models(locations).len() == locations.len(),
        forall|i: int|
            0 <= i < locations.len() ==> #[trigger] location_models(locations)[i] == locations[i]@,
    decreases locations.len(),
{
    if locations.len() > 0 {
        lemma_location_models(locations.drop_last());
    }
}

/// The mathematical value of the edits to one document.
pub struct FileEdits {
    pub uri: Seq<char>,
    pub edits: Seq<EditModel>,
}

impl View for DocumentEdits {
    type V = FileEdits;

    open spec fn view(&self) -> FileEdits {
        FileEdits { uri: self.uri@, edits: edit_models(self.edits@) }
    }
}

/// The mathematical value of edits to documents.
pub open spec fn change_models(changes: Seq<DocumentEdits>) -> Seq<FileEdits>
    decreases changes.len(),
{
    if changes.len() == 0 {
        Seq::empty()
    } else {
        change_models(changes.drop_last()).push(changes.last()@)
    }
}

impl View for WorkspaceEdit {
    type V = Seq<FileEdits>;

    open spec fn view(&self) -> Seq<FileEdits> {
        change_models(self.changes@)
    }
}

/// The values of changes, document by document.
pub proof fn lemma_change_models(changes: Seq<DocumentEdits>)
    ensures
        change_models(changes).len() == changes.len(),
        forall|i: int| 0 <= i < changes.len() ==> #[trigger] change_models(changes)[i] == changes[i]@,
    decreases changes.len(),
{
    if changes.len() > 0 {
        lemma_change_models(changes.drop_last());
    }
}

/// The values of changes with the edits to one more document.
pub proof fn lemma_change_models_push(changes: Seq<DocumentEdits>, change: DocumentEdits)
    ensures
        change_models(changes.push(change)) == change_models(changes).push(change@),
{
    assert(changes.push(change).drop_last() =~= changes);
}

/// Index of the first entry at or after `from` that holds the edits to `uri`.
pub open spec fn edits_position(changes: Seq<FileEdits>, uri: Seq<char>, from: int) -> Option<int>
    decreases changes.len() - from,
{
    if from < 0 || from >= changes.len() {
        None
    } else if changes[from].uri == uri {
        Some(from)
    } else {
        edits_position(changes, uri, from + 1)
    }
}

/// The changes with one more edit to the document `uri`: behind the edits
/// to that document, or as the first edit to a document not edited so far.
pub open spec fn with_edit(changes: Seq<FileEdits>, uri: Seq<char>, edit: EditModel) -> Seq<
    FileEdits,
> {
    match edits_position(changes, uri, 0) {
        Some(i) => changes.update(i, FileEdits { uri, edits: changes[i].edits.push(edit) }),
        None => changes.push(FileEdits { uri, edits: seq![edit] }),
    }
}

/// Insert an edit into the changes for the given URI.
pub fn insert_edit(changes: &mut Vec<DocumentEdits>, uri: String, edit: TextEdit)
    ensures
        change_models(final(changes)@) == with_edit(change_models(old(changes)@), uri@, edit@),
{
    let ghost before = change_models(changes@);
    proof {
        lemma_change_models(changes@);
    }
    let mut i: usize = 0;
    while i < changes.len()
        invariant
            i <= changes.len(),
            changes@ == old(changes)@,
            before == change_models(changes@),
            before.len() == changes@.len(),
            forall|k: int| 0 <= k < changes@.len() ==> #[trigger] before[k] == changes@[k]@,
            edits_position(before, uri@, 0) == edits_position(before, uri@, i as int),
        decreases changes.len() - i,
    {
        if changes[i].uri == uri {
            let ghost old_edits = changes@[i as int].edits@;
            let mut entry = changes.remove(i);
            proof {
                lemma_edit_models_push(entry.edits@, edit);
            }
            entry.edits.push(edit);
            changes.insert(i, entry);
            proof {
                lemma_change_models(changes@);
                assert(change_models(changes@) =~= with_edit(before, uri@, edit@));
            }
            return ;
        }
        i += 1;
    }
    let mut edits: Vec<TextEdit> = Vec::new();
    proof {
        lemma_edit_models_push(edits@, edit);
    }
    edits.push(edit);
    let entry = DocumentEdits { uri, edits };
    proof {
        lemma_change_models_push(changes@, entry);
        assert(edit_models(entry.edits@) =~= seq![edit@]);
    }
    changes.push(entry);
}

} // verus!
