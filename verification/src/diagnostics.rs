//! Diagnostics for the places where a document does not parse.

use crate::protocol::{
    diagnostic_models, lemma_diagnostic_models_push, position_of, range_of,
    ts_point_to_lsp_position, ts_range_to_lsp_range, Diagnostic, DiagnosticModel,
    DiagnosticSeverity, Position, Range,
};
use crate::syntax::{node_text, Point, SyntaxNode};
use crate::text::{append, copy_of, first_characters, take_characters};
use vstd::prelude::*;
use vstd::string::StringSliceAdditionalSpecFns;

verus! {

/// The column after `column`; the last column has none after it.
pub open spec fn next_column(column: u32) -> u32 {
    if column < u32::MAX {
        (column + 1) as u32
    } else {
        column
    }
}

/// The message for text that the parser could not make sense of: it quotes
/// the first 50 characters of the text.
pub open spec fn error_message(text: Seq<u8>) -> Seq<u8> {
    "Syntax error: unexpected `".spec_bytes() + first_characters(text, 50) + "`".spec_bytes()
}

/// The message for a node that the parser had to insert.
pub open spec fn missing_message(kind: Seq<u8>) -> Seq<u8> {
    "Expected `".spec_bytes() + kind + "`".spec_bytes()
}

/// The range of one column at a point.
pub open spec fn column_at(point: Point) -> Range {
    Range {
        start: position_of(point),
        end: Position {
            line: position_of(point).line,
            character: next_column(position_of(point).character),
        },
    }
}

impl SyntaxNode {
    /// The diagnostic for the node itself: one for an error node, which
    /// covers the node; else one for a missing node, which covers one
    /// column at its start.
    pub open spec fn own_diagnostic(&self, source: Seq<u8>) -> Seq<DiagnosticModel> {
        if self.error {
            seq![
                DiagnosticModel {
                    range: range_of(self.start_point, self.end_point),
                    severity: DiagnosticSeverity::Error,
                    source: "al-lsp".spec_bytes(),
                    message: error_message(self.text(source)),
                },
            ]
        } else if self.missing {
            seq![
                DiagnosticModel {
                    range: column_at(self.start_point),
                    severity: DiagnosticSeverity::Error,
                    source: "al-lsp".spec_bytes(),
                    message: missing_message(self.kind@),
                },
            ]
        } else {
            Seq::empty()
        }
    }

    /// The diagnostics for the node and everything below it, in source order.
    pub open spec fn diagnostics(&self, source: Seq<u8>) -> Seq<DiagnosticModel>
        decreases self, 1int, 0int,
    {
        self.own_diagnostic(source) + self.diagnostics_below(
            self.children@.len() as int,
            source,
        )
    }

    /// The diagnostics in and below the first `n` children.
    pub open spec fn diagnostics_below(&self, n: int, source: Seq<u8>) -> Seq<DiagnosticModel>
        decreases self, 0int, n,
    {
        if n <= 0 || n > self.children@.len() {
            Seq::empty()
        } else {
            self.diagnostics_below(n - 1, source) + self.children@[n - 1].diagnostics(source)
        }
    }
}

fn walk_for_errors(node: &SyntaxNode, source: &[u8], diagnostics: &mut Vec<Diagnostic>)
    ensures
        diagnostic_models(final(diagnostics)@) == diagnostic_models(old(diagnostics)@)
            + node.diagnostics(source@),
    decreases node,
{
    let ghost own = node.own_diagnostic(source@);
    let ghost start = diagnostic_models(diagnostics@);
    if node.error {
        let mut message: Vec<u8> = Vec::new();
        append(&mut message, "Syntax error: unexpected `".as_bytes());
        append(&mut message, take_characters(node_text(node, source), 50));
        append(&mut message, "`".as_bytes());
        let diagnostic = Diagnostic {
            range: ts_range_to_lsp_range(node.start_point, node.end_point),
            severity: DiagnosticSeverity::Error,
            source: copy_of("al-lsp".as_bytes()),
            message,
        };
        proof {
            lemma_diagnostic_models_push(diagnostics@, diagnostic);
        }
        diagnostics.push(diagnostic);
    } else if node.missing {
        let at = ts_point_to_lsp_position(node.start_point);
        let mut message: Vec<u8> = Vec::new();
        append(&mut message, "Expected `".as_bytes());
        append(&mut message, node.kind.as_slice());
        append(&mut message, "`".as_bytes());
        let diagnostic = Diagnostic {
            range: Range {
                start: at,
                end: Position {
                    line: at.line,
                    character: if at.character < u32::MAX {
                        at.character + 1
                    } else {
                        at.character
                    },
                },
            },
            severity: DiagnosticSeverity::Error,
            source: copy_of("al-lsp".as_bytes()),
            message,
        };
        proof {
            lemma_diagnostic_models_push(diagnostics@, diagnostic);
        }
        diagnostics.push(diagnostic);
    }
    assert(diagnostic_models(diagnostics@) =~= start + own);
    let mut i: usize = 0;
    assert(diagnostic_models(diagnostics@) =~= start + own + node.diagnostics_below(0, source@));
    while i < node.children.len()
        invariant
            i <= node.children.len(),
            diagnostic_models(diagnostics@) == start + own + node.diagnostics_below(
                i as int,
                source@,
            ),
        decreases node.children.len() - i,
    {
        let ghost before = node.diagnostics_below(i as int, source@);
        walk_for_errors(&node.children[i], source, diagnostics);
        assert(diagnostic_models(diagnostics@) =~= start + own + (before
            + node.children@[i as int].diagnostics(source@)));
        i += 1;
    }
    assert(diagnostic_models(diagnostics@) =~= start + (own + node.diagnostics_below(
        node.children@.len() as int,
        source@,
    )));
}

/// Walk the tree and extract diagnostics from error and missing nodes.
pub fn extract_diagnostics(tree: &SyntaxNode, source: &[u8]) -> (r: Vec<Diagnostic>)
    ensures
        diagnostic_models(r@) == tree.diagnostics(source@),
{
    let mut diagnostics: Vec<Diagnostic> = Vec::new();
    assert(diagnostic_models(diagnostics@) =~= Seq::empty());
    walk_for_errors(tree, source, &mut diagnostics);
    assert(diagnostic_models(diagnostics@) =~= tree.diagnostics(source@));
    diagnostics
}

} // verus!
