//! Document formatting.

use crate::formatting::{format_document, formatted, FormatOptions};
use crate::protocol::{edit_models, lemma_edit_models_push, EditModel, Position, Range, TextEdit};
use crate::rope::{
    character_count, rope_len_chars, rope_len_lines, rope_line_count, rope_line_first_char,
    rope_line_to_char,
};
use crate::state::{position_of_uri, DocumentEntry, WorldState};
use crate::text::bytes_eq;
use vstd::prelude::*;

verus! {

/// The range of a whole text: from its start to the end of its last line,
/// whose length is counted in characters. Lines and columns beyond the
/// range of `u32` wrap.
pub open spec fn whole_range(text: Seq<u8>) -> Range {
    let last_line = rope_line_count(text) - 1;
    Range {
        start: Position { line: 0, character: 0 },
        end: Position {
            line: (last_line as usize) as u32,
            character: ((character_count(text) - rope_line_first_char(text, last_line))
                as usize) as u32,
        },
    }
}

/// The answer to a formatting request: one edit that replaces the whole
/// document by its formatted text, if and only if the formatted text
/// differs from the text of the document.
pub open spec fn formatting_answer(
    entries: Seq<DocumentEntry>,
    uri: Seq<char>,
    tab_size: u32,
    insert_spaces: bool,
) -> Option<Seq<EditModel>> {
    match position_of_uri(entries, uri, 0) {
        Some(i) => {
            let doc = entries[i].document;
            let text = formatted(
                doc.syntax(),
                doc.text(),
                FormatOptions { tab_size: tab_size as usize, insert_spaces },
            );
            if text == doc.text() {
                None
            } else {
                Some(seq![EditModel { range: whole_range(doc.text()), new_text: text }])
            }
        },
        None => None,
    }
}

/// Format a document.
pub fn handle_formatting(state: &WorldState, uri: &String, tab_size: u32, insert_spaces: bool) -> (r:
    Option<Vec<TextEdit>>)
    ensures
        match r {
            Some(edits) => formatting_answer(state@, uri@, tab_size, insert_spaces) == Some(
                edit_models(edits@),
            ),
            None => formatting_answer(state@, uri@, tab_size, insert_spaces) is None,
        },
{
    let doc = match state.get(uri.as_str()) {
        Some(d) => d,
        None => {
            return None;
        },
    };
    let source = doc.source();
    let options = FormatOptions { tab_size: tab_size as usize, insert_spaces };
    let text = format_document(doc.tree(), source.as_slice(), &options);
    if bytes_eq(text.as_slice(), source.as_slice()) {
        return None;
    }
    let line_count = rope_len_lines(doc.rope());
    let last_line = line_count - 1;
    let last_col = rope_len_chars(doc.rope()) - rope_line_to_char(doc.rope(), last_line);
    let edit = TextEdit {
        range: Range {
            start: Position { line: 0, character: 0 },
            end: Position {
                line: #[verifier::truncate]
                (last_line as u32),
                character: #[verifier::truncate]
                (last_col as u32),
            },
        },
        new_text: text,
    };
    let mut edits: Vec<TextEdit> = Vec::new();
    proof {
        lemma_edit_models_push(edits@, edit);
    }
    edits.push(edit);
    assert(edit_models(edits@) =~= seq![edit@]);
    Some(edits)
}

} // verus!
