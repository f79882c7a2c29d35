//! The map that holds the documents, each under its URI.
//!
//! The map is `dashmap::DashMap`. Nothing inside it is visible here: what it
//! holds is named, and each of its methods that the state calls is stated
//! over that name. The state owns its map and changes it only while it has
//! the map to itself; between changes it keeps the map as a
//! `dashmap::ReadOnlyView`, whose values can be borrowed.

use crate::document::DocumentState;
use vstd::prelude::*;

verus! {

/// `dashmap::DashMap`, a hash map that is split into shards.
#[verifier::external_type_specification]
#[verifier::external_body]
#[verifier::reject_recursive_types(K)]
#[verifier::reject_recursive_types(V)]
#[verifier::reject_recursive_types(S)]
pub struct ExDashMap<K, V, S>(dashmap::DashMap<K, V, S>);

/// `dashmap::ReadOnlyView`, a `DashMap` that can only be read.
#[verifier::external_type_specification]
#[verifier::external_body]
#[verifier::reject_recursive_types(K)]
#[verifier::reject_recursive_types(V)]
#[verifier::reject_recursive_types(S)]
pub struct ExReadOnlyView<K, V, S>(dashmap::ReadOnlyView<K, V, S>);

/// The documents that a map holds, each under the characters of its URI.
pub uninterp spec fn stored(map: dashmap::DashMap<String, DocumentState>) -> Map<
    Seq<char>,
    DocumentState,
>;

/// The documents that a read-only map holds, each under the characters of
/// its URI.
pub uninterp spec fn held(map: dashmap::ReadOnlyView<String, DocumentState>) -> Map<
    Seq<char>,
    DocumentState,
>;

/// Calls `dashmap::DashMap::new`: the new map holds nothing.
#[verifier::external_body]
pub(crate) fn store_new() -> (fresh: dashmap::DashMap<String, DocumentState>)
    ensures
        stored(fresh).dom() == Set::<Seq<char>>::empty(),
{
    dashmap::DashMap::new()
}

/// Calls `dashmap::DashMap::insert` on a map that nothing else refers to:
/// the map then holds `document` under `uri`, in the place of what it held
/// under that URI before, and everything else as before.
#[verifier::external_body]
pub(crate) fn store_insert(
    map: dashmap::DashMap<String, DocumentState>,
    uri: String,
    document: DocumentState,
) -> (after: dashmap::DashMap<String, DocumentState>)
    ensures
        stored(after) == stored(map).insert(uri@, document),
{
    map.insert(uri, document);
    map
}

/// Calls `dashmap::DashMap::remove` on a map that nothing else refers to:
/// the map then holds nothing under `uri`, and everything else as before.
#[verifier::external_body]
pub(crate) fn store_remove(map: dashmap::DashMap<String, DocumentState>, uri: &str) -> (after:
    dashmap::DashMap<String, DocumentState>)
    ensures
        stored(after) == stored(map).remove(uri@),
{
    map.remove(uri);
    map
}

/// Calls `dashmap::DashMap::into_read_only`, which wraps the map: the view
/// holds what the map held.
#[verifier::external_body]
pub(crate) fn store_freeze(map: dashmap::DashMap<String, DocumentState>) -> (view:
    dashmap::ReadOnlyView<String, DocumentState>)
    ensures
        held(view) == stored(map),
{
    map.into_read_only()
}

/// Calls `dashmap::ReadOnlyView::into_inner`, which unwraps the map: the
/// map holds what the view held.
#[verifier::external_body]
pub(crate) fn store_thaw(view: dashmap::ReadOnlyView<String, DocumentState>) -> (map:
    dashmap::DashMap<String, DocumentState>)
    ensures
        stored(map) == held(view),
{
    view.into_inner()
}

/// Calls `dashmap::ReadOnlyView::get`: the document that the view holds
/// under `uri`, if it holds one.
#[verifier::external_body]
pub(crate) fn store_get<'a>(
    view: &'a dashmap::ReadOnlyView<String, DocumentState>,
    uri: &str,
) -> (r: Option<&'a DocumentState>)
    ensures
        match r {
            Some(document) => held(*view).contains_key(uri@) && *document == held(*view)[uri@],
            None => !held(*view).contains_key(uri@),
        },
{
    view.get(uri)
}

} // verus!
