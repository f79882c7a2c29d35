//! Folding ranges.

use crate::navigation::{collect_folding_ranges, FoldingArea, FoldingAreaKind};
use crate::state::{position_of_uri, DocumentEntry, WorldState};
use vstd::prelude::*;

verus! {

/// A range of lines that folds. Rows beyond the range of `u32` wrap.
#[derive(Clone, Copy, Debug, PartialEq, Eq, Structural)]
pub struct FoldingRange {
    pub start_line: u32,
    pub end_line: u32,
    pub kind: FoldingAreaKind,
}

/// The folding range of an area.
pub open spec fn folding_range(area: FoldingArea) -> FoldingRange {
    FoldingRange {
        start_line: area.start_line as u32,
        end_line: area.end_line as u32,
        kind: area.kind,
    }
}

/// The folding ranges of the first `n` areas.
pub open spec fn folding_ranges(areas: Seq<FoldingArea>, n: int) -> Seq<FoldingRange>
    decreases n,
{
    if n <= 0 || n > areas.len() {
        Seq::empty()
    } else {
        folding_ranges(areas, n - 1).push(folding_range(areas[n - 1]))
    }
}

/// The answer to a request for folding ranges: the folding ranges of the
/// tree, in source order; nothing for an unknown document and where
/// nothing folds.
pub open spec fn folding_answer(entries: Seq<DocumentEntry>, uri: Seq<char>) -> Option<
    Seq<FoldingRange>,
> {
    match position_of_uri(entries, uri, 0) {
        Some(i) => {
            let areas = entries[i].document.syntax().folds();
            if areas.len() > 0 {
                Some(folding_ranges(areas, areas.len() as int))
            } else {
                None
            }
        },
        None => None,
    }
}

/// The ranges of a document that fold.
pub fn handle_folding_range(state: &WorldState, uri: &String) -> (r: Option<Vec<FoldingRange>>)
    ensures
        match r {
            Some(ranges) => folding_answer(state@, uri@) == Some(ranges@),
            None => folding_answer(state@, uri@) is None,
        },
{
    let doc = match state.get(uri.as_str()) {
        Some(d) => d,
        None => {
            return None;
        },
    };
    let areas = collect_folding_ranges(doc.tree());
    if areas.len() == 0 {
        return None;
    }
    let mut ranges: Vec<FoldingRange> = Vec::new();
    let mut i: usize = 0;
    while i < areas.len()
        invariant
            i <= areas.len(),
            ranges@ == folding_ranges(areas@, i as int),
        decreases areas.len() - i,
    {
        ranges.push(
            FoldingRange {
                start_line: #[verifier::truncate]
                (areas[i].start_line as u32),
                end_line: #[verifier::truncate]
                (areas[i].end_line as u32),
                kind: areas[i].kind,
            },
        );
        i += 1;
    }
    Some(ranges)
}

} // verus!
