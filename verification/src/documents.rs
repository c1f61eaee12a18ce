//! The documents open in the editor, by URI, with the text and version the
//! client last sent.
use vstd::prelude::*;
use vstd::string::StringSliceAdditionalSpecFns;
use crate::text::string_bytes;

verus! {

/// An open text document.
#[derive(Debug)]
pub struct Document {
    /// The full text the client supplied last.
    pub text: String,
    /// The client's latest version of the document.
    pub version: Option<i32>,
}

/// The content of an open document: its text as UTF-8 bytes and its version.
pub struct DocumentView {
    pub text: Seq<u8>,
    pub version: Option<i32>,
}

impl View for Document {
    type V = DocumentView;

    open spec fn view(&self) -> DocumentView {
        DocumentView { text: string_bytes(self.text), version: self.version }
    }
}

/// The documents open in the editor.
#[derive(Debug)]
pub struct DocumentStore {
    entries: Vec<(String, Document)>,
}

impl DocumentStore {
    /// No URI is stored twice.
    pub closed spec fn well_formed(&self) -> bool {
        forall|i: int, j: int|
            0 <= i < j < self.entries@.len() ==> string_bytes(#[trigger] self.entries@[i].0) != string_bytes(
                #[trigger] self.entries@[j].0,
            )
    }

    /// The open documents by the bytes of their URI.
    pub closed spec fn documents(&self) -> Map<Seq<u8>, DocumentView> {
        Map::new(
            |u: Seq<u8>| exists|i: int| 0 <= i < self.entries@.len() && string_bytes(self.entries@[i].0) == u,
            |u: Seq<u8>|
                {
                    let i = choose|i: int| 0 <= i < self.entries@.len() && string_bytes(self.entries@[i].0) == u;
                    self.entries@[i].1@
                },
        )
    }

    /// An empty store.
    pub fn new() -> (r: DocumentStore)
        ensures
            r.well_formed(),
            r.documents() == Map::<Seq<u8>, DocumentView>::empty(),
    {
        let r = DocumentStore { entries: Vec::new() };
        assert(r.documents() =~= Map::<Seq<u8>, DocumentView>::empty());
        r
    }

    proof fn lemma_entry(&self, i: int)
        requires
            self.well_formed(),
            0 <= i < self.entries@.len(),
        ensures
            self.documents().contains_key(string_bytes(self.entries@[i].0)),
            self.documents()[string_bytes(self.entries@[i].0)] == self.entries@[i].1@,
    {
        let u = string_bytes(self.entries@[i].0);
        assert(self.documents().dom().contains(u));
        let k = choose|k: int| 0 <= k < self.entries@.len() && string_bytes(self.entries@[k].0) == u;
        if k != i {
            if k < i {
                assert(string_bytes(self.entries@[k].0) != string_bytes(self.entries@[i].0));
            } else {
                assert(string_bytes(self.entries@[i].0) != string_bytes(self.entries@[k].0));
            }
        }
    }

    fn find(&self, uri: &str) -> (r: Option<usize>)
        requires
            self.well_formed(),
        ensures
            match r {
                Some(i) => i < self.entries@.len() && string_bytes(self.entries@[i as int].0) == uri.spec_bytes(),
                None => !self.documents().contains_key(uri.spec_bytes()),
            },
    {
        let mut i: usize = 0;
        while i < self.entries.len()
            invariant
                0 <= i <= self.entries@.len(),
                forall|k: int| 0 <= k < i ==> string_bytes(#[trigger] self.entries@[k].0) != uri.spec_bytes(),
            decreases self.entries@.len() - i,
        {
            if crate::text::bytes_equal(self.entries[i].0.as_str().as_bytes(), uri.as_bytes()) {
                return Some(i);
            }
            i = i + 1;
        }
        None
    }

    /// The open document with a URI (`get`).
    pub fn get(&self, uri: &str) -> (r: Option<&Document>)
        requires
            self.well_formed(),
        ensures
            r.is_some() == self.documents().contains_key(uri.spec_bytes()),
            r matches Some(d) ==> d@ == self.documents()[uri.spec_bytes()],
    {
        match self.find(uri) {
            Some(i) => {
                proof {
                    self.lemma_entry(i as int);
                }
                Some(&self.entries[i].1)
            },
            None => None,
        }
    }

    /// The URIs of the open documents, each once.
    pub fn uris(&self) -> (r: Vec<String>)
        requires
            self.well_formed(),
        ensures
            forall|u: Seq<u8>| self.documents().contains_key(u) <==> exists|k: int| 0 <= k < r@.len() && #[trigger] string_bytes(r@[k]) == u,
            forall|a: int, b: int| 0 <= a < b < r@.len() ==> string_bytes(#[trigger] r@[a]) != string_bytes(#[trigger] r@[b]),
    {
        let mut r: Vec<String> = Vec::new();
        let mut i: usize = 0;
        while i < self.entries.len()
            invariant
                self.well_formed(),
                i <= self.entries@.len(),
                r@.len() == i,
                forall|k: int| 0 <= k < i ==> #[trigger] string_bytes(r@[k]) == string_bytes(self.entries@[k].0),
            decreases self.entries@.len() - i,
        {
            r.push(self.entries[i].0.clone());
            i = i + 1;
        }
        proof {
            assert forall|u: Seq<u8>| self.documents().contains_key(u) <==> exists|k: int| 0 <= k < r@.len() && #[trigger] string_bytes(r@[k]) == u by {
                if self.documents().contains_key(u) {
                    let k = choose|k: int| 0 <= k < self.entries@.len() && string_bytes(self.entries@[k].0) == u;
                    assert(string_bytes(r@[k]) == u);
                }
                if exists|k: int| 0 <= k < r@.len() && #[trigger] string_bytes(r@[k]) == u {
                    let k = choose|k: int| 0 <= k < r@.len() && #[trigger] string_bytes(r@[k]) == u;
                    assert(string_bytes(self.entries@[k].0) == u);
                }
            }
            assert forall|a: int, b: int| 0 <= a < b < r@.len() implies string_bytes(#[trigger] r@[a]) != string_bytes(#[trigger] r@[b]) by {
                assert(string_bytes(self.entries@[a].0) != string_bytes(self.entries@[b].0));
            }
        }
        r
    }

    /// Opens a document, or replaces the one open with that URI (`open`).
    pub fn open(&mut self, uri: String, text: String, version: i32)
        requires
            old(self).well_formed(),
        ensures
            final(self).well_formed(),
            final(self).documents() == old(self).documents().insert(
                string_bytes(uri),
                DocumentView { text: string_bytes(text), version: Some(version) },
            ),
    {
        let ghost before = self.documents();
        let ghost key = string_bytes(uri);
        let ghost value = DocumentView { text: string_bytes(text), version: Some(version) };
        match self.find(uri.as_str()) {
            Some(i) => {
                let ghost old_entries = self.entries@;
                self.entries.set(i, (uri, Document { text, version: Some(version) }));
                proof {
                    assert forall|a: int, b: int| 0 <= a < b < self.entries@.len() implies string_bytes(
                        #[trigger] self.entries@[a].0,
                    ) != string_bytes(#[trigger] self.entries@[b].0) by {
                        assert(string_bytes(old_entries[a].0) != string_bytes(old_entries[b].0));
                    }
                    assert forall|u: Seq<u8>| #[trigger] self.documents().contains_key(u) == before.insert(key, value).contains_key(u) by {
                        if self.documents().contains_key(u) {
                            let k = choose|k: int| 0 <= k < self.entries@.len() && string_bytes(self.entries@[k].0) == u;
                            if k != i {
                                assert(string_bytes(old_entries[k].0) == u);
                            }
                        }
                        if before.contains_key(u) {
                            let k = choose|k: int| 0 <= k < old_entries.len() && string_bytes(old_entries[k].0) == u;
                            if k != i {
                                assert(string_bytes(self.entries@[k].0) == u);
                            }
                        }
                    }
                    assert forall|u: Seq<u8>| #[trigger] self.documents().contains_key(u) implies self.documents()[u]
                        == before.insert(key, value)[u] by {
                        let k = choose|k: int| 0 <= k < self.entries@.len() && string_bytes(self.entries@[k].0) == u;
                        self.lemma_entry(k);
                        if k != i {
                            assert(string_bytes(old_entries[k].0) == u);
                            assert(u != key);
                            let j = choose|j: int| 0 <= j < old_entries.len() && string_bytes(old_entries[j].0) == u;
                            if j != k {
                                if j < k {
                                    assert(string_bytes(old_entries[j].0) != string_bytes(old_entries[k].0));
                                } else {
                                    assert(string_bytes(old_entries[k].0) != string_bytes(old_entries[j].0));
                                }
                            }
                        }
                    }
                    assert(self.documents() =~= before.insert(key, value));
                }
            },
            None => {
                let ghost old_entries = self.entries@;
                self.entries.push((uri, Document { text, version: Some(version) }));
                proof {
                    let n = old_entries.len() as int;
                    assert forall|a: int, b: int| 0 <= a < b < self.entries@.len() implies string_bytes(
                        #[trigger] self.entries@[a].0,
                    ) != string_bytes(#[trigger] self.entries@[b].0) by {
                        if b < n {
                            assert(string_bytes(old_entries[a].0) != string_bytes(old_entries[b].0));
                        } else {
                            assert(self.entries@[a].0 == old_entries[a].0);
                            if string_bytes(old_entries[a].0) == key {
                                assert(before.contains_key(key));
                            }
                        }
                    }
                    assert forall|u: Seq<u8>| #[trigger] self.documents().contains_key(u) == before.insert(key, value).contains_key(u) by {
                        if self.documents().contains_key(u) {
                            let k = choose|k: int| 0 <= k < self.entries@.len() && string_bytes(self.entries@[k].0) == u;
                            if k < n {
                                assert(string_bytes(old_entries[k].0) == u);
                            }
                        }
                        if before.contains_key(u) {
                            let k = choose|k: int| 0 <= k < old_entries.len() && string_bytes(old_entries[k].0) == u;
                            assert(string_bytes(self.entries@[k].0) == u);
                        }
                        if u == key {
                            assert(string_bytes(self.entries@[n].0) == u);
                        }
                    }
                    assert forall|u: Seq<u8>| #[trigger] self.documents().contains_key(u) implies self.documents()[u]
                        == before.insert(key, value)[u] by {
                        let k = choose|k: int| 0 <= k < self.entries@.len() && string_bytes(self.entries@[k].0) == u;
                        self.lemma_entry(k);
                        if k < n {
                            let j = choose|j: int| 0 <= j < old_entries.len() && string_bytes(old_entries[j].0) == u;
                            assert(string_bytes(old_entries[k].0) == u);
                            if j != k {
                                if j < k {
                                    assert(string_bytes(old_entries[j].0) != string_bytes(old_entries[k].0));
                                } else {
                                    assert(string_bytes(old_entries[k].0) != string_bytes(old_entries[j].0));
                                }
                            }
                        }
                    }
                    assert(self.documents() =~= before.insert(key, value));
                }
            },
        }
    }

    /// Replaces the entry at `i`, which keeps its URI.
    fn replace_document(&mut self, i: usize, document: Document)
        requires
            old(self).well_formed(),
            i < old(self).entries@.len(),
        ensures
            final(self).well_formed(),
            final(self).documents() == old(self).documents().insert(string_bytes(old(self).entries@[i as int].0), document@),
    {
        let ghost before = self.documents();
        let ghost old_entries = self.entries@;
        let ghost key = string_bytes(old_entries[i as int].0);
        let ghost value = document@;
        let uri = self.entries[i].0.clone();
        self.entries.set(i, (uri, document));
        proof {
            assert forall|a: int, b: int| 0 <= a < b < self.entries@.len() implies string_bytes(
                #[trigger] self.entries@[a].0,
            ) != string_bytes(#[trigger] self.entries@[b].0) by {
                assert(string_bytes(old_entries[a].0) != string_bytes(old_entries[b].0));
            }
            assert forall|u: Seq<u8>| #[trigger] self.documents().contains_key(u) == before.insert(key, value).contains_key(u) by {
                if self.documents().contains_key(u) {
                    let k = choose|k: int| 0 <= k < self.entries@.len() && string_bytes(self.entries@[k].0) == u;
                    assert(string_bytes(old_entries[k].0) == u);
                }
                if before.contains_key(u) {
                    let k = choose|k: int| 0 <= k < old_entries.len() && string_bytes(old_entries[k].0) == u;
                    assert(string_bytes(self.entries@[k].0) == u);
                }
                if u == key {
                    assert(string_bytes(self.entries@[i as int].0) == u);
                }
            }
            assert forall|u: Seq<u8>| #[trigger] self.documents().contains_key(u) implies self.documents()[u]
                == before.insert(key, value)[u] by {
                let k = choose|k: int| 0 <= k < self.entries@.len() && string_bytes(self.entries@[k].0) == u;
                self.lemma_entry(k);
                if k != i {
                    assert(string_bytes(old_entries[k].0) == u);
                    let j = choose|j: int| 0 <= j < old_entries.len() && string_bytes(old_entries[j].0) == u;
                    if j != k {
                        if j < k {
                            assert(string_bytes(old_entries[j].0) != string_bytes(old_entries[k].0));
                        } else {
                            assert(string_bytes(old_entries[k].0) != string_bytes(old_entries[j].0));
                        }
                    }
                }
            }
            assert(self.documents() =~= before.insert(key, value));
        }
    }

    /// Replaces the text and version of an open document; false when none
    /// is open with that URI (`change`).
    pub fn change(&mut self, uri: &str, text: String, version: i32) -> (changed: bool)
        requires
            old(self).well_formed(),
        ensures
            final(self).well_formed(),
            changed == old(self).documents().contains_key(uri.spec_bytes()),
            changed ==> final(self).documents() == old(self).documents().insert(
                uri.spec_bytes(),
                DocumentView { text: string_bytes(text), version: Some(version) },
            ),
            !changed ==> final(self).documents() == old(self).documents(),
    {
        match self.find(uri) {
            Some(i) => {
                proof {
                    self.lemma_entry(i as int);
                }
                self.replace_document(i, Document { text, version: Some(version) });
                true
            },
            None => false,
        }
    }

    /// Replaces the text of an open document, keeping its version; false
    /// when none is open with that URI (`save_text`).
    pub fn save_text(&mut self, uri: &str, text: String) -> (saved: bool)
        requires
            old(self).well_formed(),
        ensures
            final(self).well_formed(),
            saved == old(self).documents().contains_key(uri.spec_bytes()),
            saved ==> final(self).documents() == old(self).documents().insert(
                uri.spec_bytes(),
                DocumentView { text: string_bytes(text), version: old(self).documents()[uri.spec_bytes()].version },
            ),
            !saved ==> final(self).documents() == old(self).documents(),
    {
        match self.find(uri) {
            Some(i) => {
                proof {
                    self.lemma_entry(i as int);
                }
                let version = self.entries[i].1.version;
                self.replace_document(i, Document { text, version });
                true
            },
            None => false,
        }
    }

    /// Closes a document, handing it back if it was open (`close`).
    pub fn close(&mut self, uri: &str) -> (r: Option<Document>)
        requires
            old(self).well_formed(),
        ensures
            final(self).well_formed(),
            r.is_some() == old(self).documents().contains_key(uri.spec_bytes()),
            r matches Some(d) ==> d@ == old(self).documents()[uri.spec_bytes()],
            final(self).documents() == old(self).documents().remove(uri.spec_bytes()),
    {
        let ghost before = self.documents();
        let ghost key = uri.spec_bytes();
        match self.find(uri) {
            Some(i) => {
                proof {
                    self.lemma_entry(i as int);
                }
                let ghost old_entries = self.entries@;
                let (_, document) = self.entries.remove(i);
                proof {
                    assert forall|a: int, b: int| 0 <= a < b < self.entries@.len() implies string_bytes(
                        #[trigger] self.entries@[a].0,
                    ) != string_bytes(#[trigger] self.entries@[b].0) by {
                        let a0 = if a < i { a } else { a + 1 };
                        let b0 = if b < i { b } else { b + 1 };
                        assert(self.entries@[a] == old_entries[a0] && self.entries@[b] == old_entries[b0]);
                        assert(string_bytes(old_entries[a0].0) != string_bytes(old_entries[b0].0));
                    }
                    assert forall|u: Seq<u8>| #[trigger] self.documents().contains_key(u) == before.remove(key).contains_key(u) by {
                        if self.documents().contains_key(u) {
                            let k = choose|k: int| 0 <= k < self.entries@.len() && string_bytes(self.entries@[k].0) == u;
                            let k0 = if k < i { k } else { k + 1 };
                            assert(self.entries@[k] == old_entries[k0]);
                            assert(string_bytes(old_entries[k0].0) == u);
                            if u == key {
                                assert(string_bytes(old_entries[i as int].0) == key);
                                if k0 < i {
                                    assert(string_bytes(old_entries[k0].0) != string_bytes(old_entries[i as int].0));
                                } else {
                                    assert(string_bytes(old_entries[i as int].0) != string_bytes(old_entries[k0].0));
                                }
                            }
                        }
                        if before.remove(key).contains_key(u) {
                            let k = choose|k: int| 0 <= k < old_entries.len() && string_bytes(old_entries[k].0) == u;
                            assert(k != i);
                            let k1 = if k < i { k } else { k - 1 };
                            assert(self.entries@[k1] == old_entries[k]);
                        }
                    }
                    assert forall|u: Seq<u8>| #[trigger] self.documents().contains_key(u) implies self.documents()[u]
                        == before.remove(key)[u] by {
                        let k = choose|k: int| 0 <= k < self.entries@.len() && string_bytes(self.entries@[k].0) == u;
                        self.lemma_entry(k);
                        let k0 = if k < i { k } else { k + 1 };
                        assert(self.entries@[k] == old_entries[k0]);
                        let j = choose|j: int| 0 <= j < old_entries.len() && string_bytes(old_entries[j].0) == u;
                        if j != k0 {
                            if j < k0 {
                                assert(string_bytes(old_entries[j].0) != string_bytes(old_entries[k0].0));
                            } else {
                                assert(string_bytes(old_entries[k0].0) != string_bytes(old_entries[j].0));
                            }
                        }
                    }
                    assert(self.documents() =~= before.remove(key));
                }
                Some(document)
            },
            None => {
                assert(self.documents() =~= before.remove(key));
                None
            },
        }
    }
}

/// What a read gives back of a write: after a document is opened, it is
/// open with the text and version given; after it is closed, it is not.
pub proof fn law_open_then_read(store: DocumentStore, uri: Seq<u8>, text: Seq<u8>, version: i32, other: Seq<u8>)
    requires
        store.well_formed(),
    ensures
        store.documents().insert(uri, DocumentView { text, version: Some(version) })[uri] == (DocumentView {
            text,
            version: Some(version),
        }),
        other != uri ==> store.documents().insert(uri, DocumentView { text, version: Some(version) }).contains_key(other)
            == store.documents().contains_key(other),
        !store.documents().remove(uri).contains_key(uri),
{
}

} // verus!
