//! A generic structured document: what a parser of JSON, YAML or the like
//! hands over.

use vstd::prelude::*;

verus! {

/// A node of a structured document.
#[derive(Debug, PartialEq, Eq)]
pub enum Document {
    Null,
    Bool(bool),
    /// A number, by its text. The grammar of schemas reads no number.
    Number(String),
    Text(String),
    List(Vec<Document>),
    /// A map from keys to nodes, as its entries in the order of the document.
    Object(Vec<(String, Document)>),
}

/// Mathematical model of a document.
pub enum DocumentView {
    Null,
    Bool(bool),
    Number(Seq<char>),
    Text(Seq<char>),
    List(Seq<DocumentView>),
    Object(Seq<(Seq<char>, DocumentView)>),
}

/// The model of a document.
pub open spec fn document_view(doc: Document) -> DocumentView
    decreases doc,
{
    match doc {
        Document::Null => DocumentView::Null,
        Document::Bool(b) => DocumentView::Bool(b),
        Document::Number(n) => DocumentView::Number(n@),
        Document::Text(t) => DocumentView::Text(t@),
        Document::List(items) => DocumentView::List(
            Seq::new(
                items@.len(),
                |i: int|
                    if 0 <= i < items@.len() {
                        document_view(items@[i])
                    } else {
                        arbitrary()
                    },
            ),
        ),
        Document::Object(entries) => DocumentView::Object(
            Seq::new(
                entries@.len(),
                |i: int|
                    if 0 <= i < entries@.len() {
                        (entries@[i].0@, document_view(entries@[i].1))
                    } else {
                        arbitrary()
                    },
            ),
        ),
    }
}

impl View for Document {
    type V = DocumentView;

    open spec fn view(&self) -> DocumentView {
        document_view(*self)
    }
}

/// The views of the items of a list.
pub open spec fn items_view(v: Seq<Document>) -> Seq<DocumentView> {
    Seq::new(v.len(), |i: int| v[i]@)
}

/// The views of the entries of a map.
pub open spec fn entries_view(v: Seq<(String, Document)>) -> Seq<(Seq<char>, DocumentView)> {
    Seq::new(v.len(), |i: int| (v[i].0@, v[i].1@))
}

/// The view of a list holds the views of its items.
pub proof fn lemma_list_view(items: Vec<Document>)
    ensures
        Document::List(items)@ == DocumentView::List(items_view(items@)),
{
    assert(Document::List(items)@->List_0 =~= items_view(items@));
}

/// The view of a map holds the views of its entries.
pub proof fn lemma_map_view(entries: Vec<(String, Document)>)
    ensures
        Document::Object(entries)@ == DocumentView::Object(entries_view(entries@)),
{
    assert(Document::Object(entries)@->Object_0 =~= entries_view(entries@));
}

/// The keys of the entries of a map, in order.
pub open spec fn entry_keys(entries: Seq<(Seq<char>, DocumentView)>) -> Seq<Seq<char>> {
    Seq::new(entries.len(), |i: int| entries[i].0)
}

/// The position of the first entry under `key`, or -1 where there is none.
pub open spec fn position(entries: Seq<(Seq<char>, DocumentView)>, key: Seq<char>) -> int {
    match entry_keys(entries).index_of_first(key) {
        Some(i) => i,
        None => -1,
    }
}

/// `position` is -1 or the first position of an entry under `key`.
pub proof fn lemma_position(entries: Seq<(Seq<char>, DocumentView)>, key: Seq<char>)
    ensures
        -1 <= position(entries, key) < entries.len(),
        position(entries, key) >= 0 ==> entries[position(entries, key)].0 == key,
        forall|j: int|
            0 <= j < entries.len() && (j < position(entries, key) || position(entries, key) < 0)
                ==> (#[trigger] entries[j]).0 != key,
{
    let keys = entry_keys(entries);
    keys.index_of_first_ensures(key);
    assert forall|j: int|
        0 <= j < entries.len() && (j < position(entries, key) || position(entries, key)
            < 0) implies (#[trigger] entries[j]).0 != key by {
        assert(keys[j] == entries[j].0);
    }
}

} // verus!
