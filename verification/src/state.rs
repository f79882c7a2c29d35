//! The documents that the server knows, and what becomes of them when a
//! document is opened, changed, closed, or changes on disk.
//!
//! A document is known from the moment it is first seen (opened in the
//! editor, found by the workspace scan, or created on disk) until it is
//! deleted on disk. Closing a document in the editor does not forget it.

use crate::document::DocumentState;
use crate::store::{held, store_freeze, store_get, store_insert, store_new, store_remove, store_thaw};
use crate::syntax::SyntaxNode;
use crate::text::{bytes_eq, bytes_eq_nocase, eq_ascii_nocase, starts_with};
use vstd::prelude::*;
use vstd::string::StringSliceAdditionalSpecFns;

verus! {

/// A document together with the URI that identifies it.
pub struct DocumentEntry {
    pub uri: String,
    pub document: DocumentState,
}

/// Global server state holding all known documents, each under its URI, in
/// the order in which they were first seen. The documents are in a map,
/// keyed by URI; beside it stands the list of the URIs in that order.
pub struct WorldState {
    pub(crate) order: Vec<String>,
    pub(crate) documents: dashmap::ReadOnlyView<String, DocumentState>,
}

/// What a look at a file on disk gave.
pub enum Reload {
    /// There is no file at the path.
    Missing,
    /// The file could not be read.
    Unreadable,
    /// The text of the file, and its parse tree where the text could be parsed.
    Loaded { text: String, tree: Option<SyntaxNode> },
}

/// Index of the first entry at or after `from` with the URI `uri`.
pub open spec fn position_of_uri(entries: Seq<DocumentEntry>, uri: Seq<char>, from: int) -> Option<
    int,
>
    decreases entries.len() - from,
{
    if from < 0 || from >= entries.len() {
        None
    } else if entries[from].uri@ == uri {
        Some(from)
    } else {
        position_of_uri(entries, uri, from + 1)
    }
}

/// No two entries have the same URI.
pub open spec fn distinct_uris(entries: Seq<DocumentEntry>) -> bool {
    forall|i: int, j: int|
        0 <= i < j < entries.len() ==> (#[trigger] entries[i]).uri@ != (#[trigger] entries[j]).uri@
}

/// Where the search for a URI ends: at the first entry with that URI.
pub proof fn lemma_position_of_uri(entries: Seq<DocumentEntry>, uri: Seq<char>, from: int)
    requires
        0 <= from,
    ensures
        match position_of_uri(entries, uri, from) {
            Some(i) => from <= i < entries.len() && entries[i].uri@ == uri && forall|j: int|
                from <= j < i ==> (#[trigger] entries[j]).uri@ != uri,
            None => forall|j: int| from <= j < entries.len() ==> (#[trigger] entries[j]).uri@ != uri,
        },
    decreases entries.len() - from,
{
    if from < entries.len() && entries[from].uri@ != uri {
        lemma_position_of_uri(entries, uri, from + 1);
    }
}

/// The entries that a list of URIs and a map of documents make: for each
/// URI of the list, in its order, the document that the map holds under it.
pub open spec fn entries_of(order: Seq<String>, documents: Map<Seq<char>, DocumentState>) -> Seq<
    DocumentEntry,
> {
    Seq::new(
        order.len(),
        |i: int| (DocumentEntry { uri: order[i], document: documents[order[i]@] }),
    )
}

/// Every URI of the list has a document in the map, and none is listed twice.
pub open spec fn listed(order: Seq<String>, documents: Map<Seq<char>, DocumentState>) -> bool {
    &&& forall|i: int| 0 <= i < order.len() ==> documents.contains_key((#[trigger] order[i])@)
    &&& forall|i: int, j: int|
        0 <= i < j < order.len() ==> (#[trigger] order[i])@ != (#[trigger] order[j])@
}

/// What the entries of a list and a map are, one by one.
pub proof fn lemma_entries_of(order: Seq<String>, documents: Map<Seq<char>, DocumentState>)
    ensures
        entries_of(order, documents).len() == order.len(),
        forall|i: int|
            0 <= i < order.len() ==> (#[trigger] entries_of(order, documents)[i]) == (DocumentEntry {
                uri: order[i],
                document: documents[order[i]@],
            }),
{
}

impl View for WorldState {
    type V = Seq<DocumentEntry>;

    closed spec fn view(&self) -> Seq<DocumentEntry> {
        entries_of(self.order@, held(self.documents))
    }
}

impl WorldState {
    #[verifier::type_invariant]
    closed spec fn inv(&self) -> bool {
        listed(self.order@, held(self.documents))
    }

    /// Whether a document is known under `uri`.
    pub open spec fn knows(&self, uri: Seq<char>) -> bool {
        position_of_uri(self@, uri, 0) is Some
    }

    /// The document known under `uri`.
    pub open spec fn document(&self, uri: Seq<char>) -> DocumentState {
        self@[position_of_uri(self@, uri, 0).unwrap()].document
    }

    /// A state without documents.
    pub fn new() -> (state: Self)
        ensures
            state@.len() == 0,
    {
        WorldState { order: Vec::new(), documents: store_freeze(store_new()) }
    }

    /// Return the number of currently loaded documents.
    pub fn document_count(&self) -> (n: usize)
        ensures
            n == self@.len(),
    {
        self.order.len()
    }

    /// The `i`-th of the known documents, in the order in which they were
    /// first seen, with its URI. No two of them have the same URI.
    pub fn entry(&self, i: usize) -> (r: Option<(&String, &DocumentState)>)
        ensures
            match r {
                Some((uri, document)) => i < self@.len() && *uri == self@[i as int].uri
                    && *document == self@[i as int].document,
                None => i >= self@.len(),
            },
            distinct_uris(self@),
    {
        proof {
            use_type_invariant(self);
        }
        if i < self.order.len() {
            let uri = &self.order[i];
            match store_get(&self.documents, uri.as_str()) {
                Some(document) => Some((uri, document)),
                None => None,
            }
        } else {
            None
        }
    }

    /// Index of the document known under `uri`.
    pub fn position(&self, uri: &str) -> (r: Option<usize>)
        ensures
            match r {
                Some(i) => position_of_uri(self@, uri@, 0) == Some(i as int) && i < self@.len(),
                None => position_of_uri(self@, uri@, 0) is None,
            },
    {
        let mut i: usize = 0;
        while i < self.order.len()
            invariant
                i <= self.order.len(),
                self@.len() == self.order.len(),
                forall|k: int| 0 <= k < self.order.len() ==> (#[trigger] self@[k]).uri == self.order[k],
                position_of_uri(self@, uri@, 0) == position_of_uri(self@, uri@, i as int),
            decreases self.order.len() - i,
        {
            if str_eq(self.order[i].as_str(), uri) {
                return Some(i);
            }
            i += 1;
        }
        None
    }

    /// Whether a document is known under `uri`.
    pub fn contains(&self, uri: &str) -> (r: bool)
        ensures
            r == self.knows(uri@),
    {
        self.position(uri).is_some()
    }

    /// The document known under `uri`.
    pub fn get(&self, uri: &str) -> (r: Option<&DocumentState>)
        ensures
            match r {
                Some(doc) => self.knows(uri@) && *doc == self.document(uri@),
                None => !self.knows(uri@),
            },
    {
        proof {
            use_type_invariant(self);
            lemma_position_of_uri(self@, uri@, 0);
        }
        match store_get(&self.documents, uri) {
            Some(document) => match self.position(uri) {
                Some(_) => Some(document),
                None => None,
            },
            None => {
                assert(!self.knows(uri@)) by {
                    if let Some(i) = position_of_uri(self@, uri@, 0) {
                        assert(self.order@[i]@ == uri@);
                    }
                }
                None
            },
        }
    }
}

impl WorldState {
    /// Puts a document under `uri`: in the place of the document known
    /// under that URI, or behind all known documents.
    pub fn insert(&mut self, uri: String, document: DocumentState)
        ensures
            match position_of_uri(old(self)@, uri@, 0) {
                Some(i) => final(self)@ == old(self)@.update(i, (DocumentEntry { uri, document })),
                None => final(self)@ == old(self)@.push((DocumentEntry { uri, document })),
            },
    {
        proof {
            lemma_position_of_uri(self@, uri@, 0);
        }
        let ghost before = self@;
        let found = self.position(uri.as_str());
        let (mut order, documents) = self.take_documents();
        let ghost listing = order@;
        let ghost content = held(documents);
        proof {
            lemma_entries_of(listing, content);
        }
        let map = store_insert(store_thaw(documents), uri.clone(), document);
        match found {
            Some(i) => {
                order[i] = uri;
            },
            None => {
                order.push(uri);
            },
        }
        let documents = store_freeze(map);
        proof {
            assert(held(documents) == content.insert(uri@, document));
            assert forall|k: int| 0 <= k < order@.len() implies held(documents).contains_key(
                (#[trigger] order@[k])@,
            ) by {
                if k < listing.len() {
                    assert(content.contains_key(listing[k]@));
                }
            }
            assert forall|k: int, j: int| 0 <= k < j < order@.len() implies (#[trigger] order@[k])@
                != (#[trigger] order@[j])@ by {
                if k < listing.len() {
                    assert(before[k].uri == listing[k]);
                }
                if j < listing.len() {
                    assert(before[j].uri == listing[j]);
                }
            }
            assert(listed(order@, held(documents)));
            lemma_entries_of(order@, held(documents));
            match found {
                Some(i) => {
                    assert(entries_of(order@, held(documents)) =~= before.update(
                        i as int,
                        (DocumentEntry { uri, document }),
                    ));
                },
                None => {
                    assert(entries_of(order@, held(documents)) =~= before.push(
                        (DocumentEntry { uri, document }),
                    ));
                },
            }
        }
        *self = WorldState { order, documents };
    }

    /// Forgets the document known under `uri`. Says whether there was one.
    pub fn remove(&mut self, uri: &str) -> (removed: bool)
        ensures
            match position_of_uri(old(self)@, uri@, 0) {
                Some(i) => removed && final(self)@ == old(self)@.remove(i),
                None => !removed && final(self)@ == old(self)@,
            },
    {
        proof {
            lemma_position_of_uri(self@, uri@, 0);
        }
        let ghost before = self@;
        match self.position(uri) {
            Some(i) => {
                let (mut order, documents) = self.take_documents();
                let ghost listing = order@;
                let ghost content = held(documents);
                proof {
                    lemma_entries_of(listing, content);
                    assert(before[i as int].uri == listing[i as int]);
                }
                let map = store_remove(store_thaw(documents), uri);
                order.remove(i);
                let documents = store_freeze(map);
                proof {
                    assert(held(documents) == content.remove(uri@));
                    assert forall|k: int| 0 <= k < order@.len() implies held(
                        documents,
                    ).contains_key((#[trigger] order@[k])@) by {
                        let from = if k < i { k } else { k + 1 };
                        assert(order@[k] == listing[from]);
                        assert(content.contains_key(listing[from]@));
                        assert(listing[from]@ != listing[i as int]@);
                    }
                    assert forall|k: int, j: int| 0 <= k < j < order@.len() implies (
                    #[trigger] order@[k])@ != (#[trigger] order@[j])@ by {
                        let a = if k < i { k } else { k + 1 };
                        let b = if j < i { j } else { j + 1 };
                        assert(order@[k] == listing[a]);
                        assert(order@[j] == listing[b]);
                    }
                    assert(listed(order@, held(documents)));
                    lemma_entries_of(order@, held(documents));
                    assert(entries_of(order@, held(documents)) =~= before.remove(i as int));
                }
                *self = WorldState { order, documents };
                true
            },
            None => false,
        }
    }

    fn take_documents(&mut self) -> (r: (Vec<String>, dashmap::ReadOnlyView<String, DocumentState>))
        ensures
            entries_of(r.0@, held(r.1)) == old(self)@,
            listed(r.0@, held(r.1)),
            final(self)@.len() == 0,
    {
        proof {
            use_type_invariant(&*self);
        }
        let mut other = WorldState::new();
        core::mem::swap(self, &mut other);
        (other.order, other.documents)
    }
}

/// How a file changed on disk.
#[derive(Clone, Copy, Debug, PartialEq, Eq, Structural)]
pub enum FileEvent {
    Created,
    Changed,
    Deleted,
}

/// The entries after a document with the given text and tree has been put
/// under `uri`: in the place of the document known under that URI, or
/// behind all known documents.
pub open spec fn with_document(
    entries: Seq<DocumentEntry>,
    after: Seq<DocumentEntry>,
    uri: Seq<char>,
    text: Seq<u8>,
    tree: SyntaxNode,
) -> bool {
    &&& match position_of_uri(entries, uri, 0) {
        Some(i) => after.len() == entries.len() && forall|j: int|
            0 <= j < entries.len() && j != i ==> after[j] == entries[j],
        None => after.len() == entries.len() + 1 && forall|j: int|
            0 <= j < entries.len() ==> after[j] == entries[j],
    }
    &&& position_of_uri(after, uri, 0) == Some(
        match position_of_uri(entries, uri, 0) {
            Some(i) => i,
            None => entries.len() as int,
        },
    )
    &&& after[position_of_uri(after, uri, 0).unwrap()].document.text() == text
    &&& after[position_of_uri(after, uri, 0).unwrap()].document.syntax() == tree
}

/// The entries without the document known under `uri`.
pub open spec fn without_document(entries: Seq<DocumentEntry>, uri: Seq<char>) -> Seq<
    DocumentEntry,
> {
    match position_of_uri(entries, uri, 0) {
        Some(i) => entries.remove(i),
        None => entries,
    }
}

impl WorldState {
    fn put(&mut self, uri: String, text: &str, tree: SyntaxNode)
        ensures
            with_document(old(self)@, final(self)@, uri@, text.spec_bytes(), tree),
    {
        proof {
            lemma_position_of_uri(self@, uri@, 0);
        }
        let ghost before = self@;
        let ghost place = position_of_uri(before, uri@, 0);
        match DocumentState::new(text, Some(tree)) {
            Some(document) => {
                self.insert(uri, document);
                proof {
                    lemma_position_of_uri(self@, uri@, 0);
                    match place {
                        Some(i) => {
                            assert(self@[i].uri@ == uri@);
                        },
                        None => {
                            assert(self@[before.len() as int].uri@ == uri@);
                        },
                    }
                }
            },
            None => {},
        }
    }

    /// A document was opened in the editor with the given text. Where the
    /// text could be parsed, the document is known from now on with that
    /// text, and its diagnostics are to be published: the answer is `true`.
    /// Else nothing changes.
    pub fn did_open(&mut self, uri: String, text: &str, tree: Option<SyntaxNode>) -> (publish:
        bool)
        ensures
            publish == (tree is Some),
            match tree {
                Some(t) => with_document(old(self)@, final(self)@, uri@, text.spec_bytes(), t),
                None => final(self)@ == old(self)@,
            },
    {
        match tree {
            Some(t) => {
                self.put(uri, text, t);
                true
            },
            None => false,
        }
    }

    /// A known document got a new text. Where the text could be parsed, the
    /// document has that text from now on. The diagnostics of a known
    /// document are to be published either way: the answer is `true`. For
    /// an unknown document nothing changes.
    pub fn did_change(&mut self, uri: String, text: &str, tree: Option<SyntaxNode>) -> (publish:
        bool)
        ensures
            publish == old(self).knows(uri@),
            match tree {
                Some(t) => if old(self).knows(uri@) {
                    with_document(old(self)@, final(self)@, uri@, text.spec_bytes(), t)
                } else {
                    final(self)@ == old(self)@
                },
                None => final(self)@ == old(self)@,
            },
    {
        if !self.contains(uri.as_str()) {
            return false;
        }
        match tree {
            Some(t) => {
                self.put(uri, text, t);
            },
            None => {},
        }
        true
    }

    /// A document was closed in the editor. It stays known: features that
    /// span documents depend on it.
    pub fn did_close(&mut self, uri: &str)
        ensures
            final(self)@ == old(self)@,
    {
    }

    /// Load a single file by URI, as the workspace scan does. A document
    /// that is known already is left untouched. Says whether the document
    /// is known afterwards.
    pub fn load_file_uri(&mut self, uri: String, loaded: Reload) -> (known: bool)
        ensures
            if old(self).knows(uri@) {
                known && final(self)@ == old(self)@
            } else {
                match loaded {
                    Reload::Loaded { text, tree: Some(t) } => known && with_document(
                        old(self)@,
                        final(self)@,
                        uri@,
                        vstd::utf8::encode_utf8(text@),
                        t,
                    ),
                    _ => !known && final(self)@ == old(self)@,
                }
            },
    {
        if self.contains(uri.as_str()) {
            return true;
        }
        match loaded {
            Reload::Loaded { text, tree: Some(t) } => {
                self.put(uri, text.as_str(), t);
                true
            },
            _ => false,
        }
    }

    /// Reload a file from disk (after an external change notification). A
    /// file that is gone is forgotten; one that cannot be read or parsed
    /// leaves the document as it is.
    pub fn reload_file_from_disk(&mut self, uri: String, loaded: Reload)
        ensures
            match loaded {
                Reload::Missing => final(self)@ == without_document(old(self)@, uri@),
                Reload::Unreadable => final(self)@ == old(self)@,
                Reload::Loaded { text, tree: Some(t) } => with_document(
                    old(self)@,
                    final(self)@,
                    uri@,
                    vstd::utf8::encode_utf8(text@),
                    t,
                ),
                Reload::Loaded { text, tree: None } => final(self)@ == old(self)@,
            },
    {
        match loaded {
            Reload::Missing => {
                self.remove(uri.as_str());
            },
            Reload::Unreadable => {},
            Reload::Loaded { text, tree } => match tree {
                Some(t) => {
                    self.put(uri, text.as_str(), t);
                },
                None => {},
            },
        }
    }

    /// A watched file changed on disk: a created or changed file is
    /// reloaded, a deleted one forgotten.
    pub fn did_change_watched_file(&mut self, uri: String, event: FileEvent, loaded: Reload)
        ensures
            match event {
                FileEvent::Deleted => final(self)@ == without_document(old(self)@, uri@),
                _ => match loaded {
                    Reload::Missing => final(self)@ == without_document(old(self)@, uri@),
                    Reload::Unreadable => final(self)@ == old(self)@,
                    Reload::Loaded { text, tree: Some(t) } => with_document(
                        old(self)@,
                        final(self)@,
                        uri@,
                        vstd::utf8::encode_utf8(text@),
                        t,
                    ),
                    Reload::Loaded { text, tree: None } => final(self)@ == old(self)@,
                },
            },
    {
        match event {
            FileEvent::Deleted => {
                self.remove(uri.as_str());
            },
            _ => {
                self.reload_file_from_disk(uri, loaded);
            },
        }
    }
}

/// Whether the workspace scan passes over a directory of this name: hidden
/// directories, `node_modules` and `target`.
pub open spec fn skipped_directory(name: Seq<u8>) -> bool {
    ||| ".".spec_bytes().is_prefix_of(name)
    ||| name == "node_modules".spec_bytes()
    ||| name == "target".spec_bytes()
}

/// Whether the workspace scan passes over a directory of this name.
pub fn skip_directory(name: &[u8]) -> (r: bool)
    ensures
        r == skipped_directory(name@),
{
    starts_with(name, ".".as_bytes()) || bytes_eq(name, "node_modules".as_bytes()) || bytes_eq(
        name,
        "target".as_bytes(),
    )
}

/// Whether a file with this extension is an AL source file: the extension
/// is `al` in any case.
pub fn is_al_extension(extension: &[u8]) -> (r: bool)
    ensures
        r == eq_ascii_nocase(extension@, "al".spec_bytes()),
{
    bytes_eq_nocase(extension, "al".as_bytes())
}

/// The workspace roots that a client names when it starts the server: its
/// workspace folders; without any, its root URI; without that, its root
/// path, where that is a directory.
pub open spec fn chosen_roots(
    folders: Seq<String>,
    root_uri: Option<String>,
    root_directory: Option<String>,
) -> Seq<String> {
    if folders.len() > 0 {
        folders
    } else {
        match root_uri {
            Some(root) => seq![root],
            None => match root_directory {
                Some(root) => seq![root],
                None => Seq::empty(),
            },
        }
    }
}

/// The workspace roots that a client names when it starts the server.
pub fn resolve_roots(
    folders: Vec<String>,
    root_uri: Option<String>,
    root_directory: Option<String>,
) -> (roots: Vec<String>)
    ensures
        roots@ == chosen_roots(folders@, root_uri, root_directory),
{
    if folders.len() > 0 {
        return folders;
    }
    let mut roots: Vec<String> = Vec::new();
    match root_uri {
        Some(root) => {
            roots.push(root);
        },
        None => match root_directory {
            Some(root) => {
                roots.push(root);
            },
            None => {},
        },
    }
    assert(roots@ =~= chosen_roots(folders@, root_uri, root_directory));
    roots
}

/// Whether one of `roots` is the path `path`.
pub open spec fn lists_root(roots: Seq<String>, path: Seq<char>) -> bool {
    exists|i: int| 0 <= i < roots.len() && (#[trigger] roots[i])@ == path
}

/// Whether one of `roots` is the path `path`.
pub fn has_root(roots: &Vec<String>, path: &str) -> (r: bool)
    ensures
        r == lists_root(roots@, path@),
{
    let mut i: usize = 0;
    while i < roots.len()
        invariant
            i <= roots.len(),
            forall|j: int| 0 <= j < i ==> (#[trigger] roots@[j])@ != path@,
        decreases roots.len() - i,
    {
        if str_eq(roots[i].as_str(), path) {
            return true;
        }
        i += 1;
    }
    false
}

/// The roots among the first `n` of `roots` that `removed` does not list.
pub open spec fn kept_roots(roots: Seq<String>, removed: Seq<String>, n: int) -> Seq<String>
    decreases n,
{
    if n <= 0 || n > roots.len() {
        Seq::empty()
    } else if lists_root(removed, roots[n - 1]@) {
        kept_roots(roots, removed, n - 1)
    } else {
        kept_roots(roots, removed, n - 1).push(roots[n - 1])
    }
}

/// `roots`, followed by those among the first `n` of `added` that are not
/// listed yet.
pub open spec fn joined_roots(roots: Seq<String>, added: Seq<String>, n: int) -> Seq<String>
    decreases n,
{
    if n <= 0 || n > added.len() {
        roots
    } else {
        let before = joined_roots(roots, added, n - 1);
        if lists_root(before, added[n - 1]@) {
            before
        } else {
            before.push(added[n - 1])
        }
    }
}

/// The workspace roots after folders were removed and added: the roots
/// that were not removed, then the added ones that are new.
pub fn update_roots(roots: Vec<String>, removed: &Vec<String>, added: Vec<String>) -> (r: Vec<
    String,
>)
    ensures
        r@ == joined_roots(
            kept_roots(roots@, removed@, roots@.len() as int),
            added@,
            added@.len() as int,
        ),
{
    let mut kept: Vec<String> = Vec::new();
    let mut i: usize = 0;
    assert(kept@ =~= kept_roots(roots@, removed@, 0));
    while i < roots.len()
        invariant
            i <= roots.len(),
            kept@ == kept_roots(roots@, removed@, i as int),
        decreases roots.len() - i,
    {
        if !has_root(removed, roots[i].as_str()) {
            kept.push(roots[i].clone());
        }
        i += 1;
    }
    let ghost base = kept@;
    let mut j: usize = 0;
    while j < added.len()
        invariant
            j <= added.len(),
            kept@ == joined_roots(base, added@, j as int),
        decreases added.len() - j,
    {
        if !has_root(&kept, added[j].as_str()) {
            kept.push(added[j].clone());
        }
        j += 1;
    }
    kept
}

/// Whether two strings are equal.
pub fn str_eq(a: &str, b: &str) -> (r: bool)
    ensures
        r == (a@ == b@),
{
    let r = bytes_eq(a.as_bytes(), b.as_bytes());
    proof {
        vstd::utf8::encode_utf8_decode_utf8(a@);
        vstd::utf8::encode_utf8_decode_utf8(b@);
    }
    r
}

} // verus!
