//! The documents that are searched and the matches that a search gives.

use crate::metadata::{copy_optional, ZoteroMetadata, ZoteroMetadataView};
use vstd::prelude::*;

verus! {

/// A PDF as the search sees it: where it is, and the text of its pages.
#[derive(Debug)]
pub struct Document {
    /// The path of the file.
    pub path: String,
    /// The last component of the path.
    pub name: String,
    /// Each page as its number, counted from 1, and its text. A page whose
    /// text could not be read has the empty text.
    pub pages: Vec<(usize, String)>,
}

impl Document {
    /// The document whose pages, in order, have the texts `texts`, where
    /// `None` stands for a page whose text could not be read.
    pub fn from_page_texts(path: String, name: String, texts: Vec<Option<String>>) -> (r: Self)
        ensures
            r.path@ == path@,
            r.name@ == name@,
            r.pages.len() == texts.len(),
            forall|i: int|
                0 <= i < texts.len() ==> (#[trigger] r.pages@[i]).0 == i + 1 && r.pages@[i].1@
                    == match texts@[i] {
                    Some(text) => text@,
                    None => Seq::<char>::empty(),
                },
    {
        let mut pages: Vec<(usize, String)> = Vec::new();
        let mut i: usize = 0;
        while i < texts.len()
            invariant
                i <= texts.len(),
                pages.len() == i,
                forall|j: int|
                    0 <= j < i ==> (#[trigger] pages@[j]).0 == j + 1 && pages@[j].1@
                        == match texts@[j] {
                        Some(text) => text@,
                        None => Seq::<char>::empty(),
                    },
            decreases texts.len() - i,
        {
            let text = match &texts[i] {
                Some(t) => t.clone(),
                None => String::new(),
            };
            pages.push((i + 1, text));
            i += 1;
        }
        Document { path, name, pages }
    }
}

/// A `Document` as plain values.
pub struct DocumentView {
    pub path: Seq<char>,
    pub name: Seq<char>,
    pub pages: Seq<(usize, Seq<char>)>,
}

impl DeepView for Document {
    type V = DocumentView;

    open spec fn deep_view(&self) -> DocumentView {
        DocumentView { path: self.path@, name: self.name@, pages: self.pages.deep_view() }
    }
}

impl View for Document {
    type V = DocumentView;

    open spec fn view(&self) -> DocumentView {
        self.deep_view()
    }
}

/// One occurrence of a query in a document.
#[derive(Debug)]
pub struct SearchMatch {
    pub file_path: String,
    pub file_name: String,
    /// The number of the page, counted from 1.
    pub page_number: usize,
    pub context_before: String,
    pub matched_text: String,
    pub context_after: String,
    pub zotero_link: Option<String>,
    pub zotero_metadata: Option<ZoteroMetadata>,
}

/// A `SearchMatch` as plain values.
pub struct SearchMatchView {
    pub file_path: Seq<char>,
    pub file_name: Seq<char>,
    pub page_number: usize,
    pub context_before: Seq<char>,
    pub matched_text: Seq<char>,
    pub context_after: Seq<char>,
    pub zotero_link: Option<Seq<char>>,
    pub zotero_metadata: Option<ZoteroMetadataView>,
}

impl DeepView for SearchMatch {
    type V = SearchMatchView;

    open spec fn deep_view(&self) -> SearchMatchView {
        SearchMatchView {
            file_path: self.file_path@,
            file_name: self.file_name@,
            page_number: self.page_number,
            context_before: self.context_before@,
            matched_text: self.matched_text@,
            context_after: self.context_after@,
            zotero_link: self.zotero_link.deep_view(),
            zotero_metadata: self.zotero_metadata.deep_view(),
        }
    }
}

impl View for SearchMatch {
    type V = SearchMatchView;

    open spec fn view(&self) -> SearchMatchView {
        self.deep_view()
    }
}

impl Clone for SearchMatch {
    fn clone(&self) -> (r: Self)
        ensures
            r@ == self@,
    {
        SearchMatch {
            file_path: self.file_path.clone(),
            file_name: self.file_name.clone(),
            page_number: self.page_number,
            context_before: self.context_before.clone(),
            matched_text: self.matched_text.clone(),
            context_after: self.context_after.clone(),
            zotero_link: copy_optional(&self.zotero_link),
            zotero_metadata: match &self.zotero_metadata {
                Some(m) => Some(m.clone()),
                None => None,
            },
        }
    }
}

} // verus!
