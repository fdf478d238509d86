//! The collection manifest (doc ids to PDF anchors) and the self-describing
//! manifest embedded in each generated PDF for read-back.
use vstd::prelude::*;

verus! {

/// 0-based inclusive PDF page range an article occupies.
#[derive(Debug, Clone, Copy, PartialEq, Eq, Structural)]
pub struct PageRange {
    pub first: usize,
    pub last: usize,
}

#[derive(Debug, Clone, PartialEq)]
pub struct ManifestItem {
    pub id: String,
    pub title: String,
    pub url: String,
    pub article_anchor: String,
    pub author: String,
    pub source_url: String,
    pub category: String,
    pub page_range: Option<PageRange>,
}

#[derive(Debug, Clone, PartialEq)]
pub struct Manifest {
    /// "Library" or "Feed".
    pub collection: String,
    pub items: Vec<ManifestItem>,
}

/// Per-doc record embedded in the PDF for read-back.
#[derive(Debug, Clone, PartialEq)]
pub struct EmbeddedDoc {
    pub id: String,
    pub title: String,
    pub url: String,
    pub author: String,
    pub category: String,
    pub page_range: PageRange,
}

/// The self-describing manifest embedded inside each generated PDF. (The
/// action-band rectangles recovered from the rendered page geometry travel
/// alongside it outside the library.)
#[derive(Debug, Clone, PartialEq)]
pub struct EmbeddedManifest {
    pub schema_version: u32,
    pub collection: String,
    pub docs: Vec<EmbeddedDoc>,
}

pub open spec fn covers(r: PageRange, page: usize) -> bool {
    r.first <= page <= r.last
}

/// The first doc whose page range contains `page`.
pub open spec fn page_doc(docs: Seq<EmbeddedDoc>, page: usize) -> Option<EmbeddedDoc>
    decreases docs.len(),
{
    if docs.len() == 0 {
        None
    } else if covers(docs[0].page_range, page) {
        Some(docs[0])
    } else {
        page_doc(docs.drop_first(), page)
    }
}

proof fn lemma_page_doc_scan(docs: Seq<EmbeddedDoc>, page: usize, i: int)
    requires
        0 <= i <= docs.len(),
        forall|k: int| 0 <= k < i ==> !covers((#[trigger] docs[k]).page_range, page),
    ensures
        page_doc(docs, page) == page_doc(docs.skip(i), page),
    decreases i,
{
    if i > 0 {
        let t = docs.drop_first();
        assert forall|k: int| 0 <= k < i - 1 implies !covers((#[trigger] t[k]).page_range, page) by {
            assert(t[k] == docs[k + 1]);
        }
        lemma_page_doc_scan(t, page, i - 1);
        assert(t.skip(i - 1) =~= docs.skip(i));
    } else {
        assert(docs.skip(0) =~= docs);
    }
}

impl EmbeddedManifest {
    /// The doc whose page range contains `page` (0-based); the first one when
    /// ranges overlap.
    pub fn doc_for_page(&self, page: usize) -> (r: Option<&EmbeddedDoc>)
        ensures
            r matches Some(d) ==> page_doc(self.docs@, page) == Some(*d),
            (r is None) <==> (page_doc(self.docs@, page) is None),
    {
        let mut i: usize = 0;
        while i < self.docs.len()
            invariant
                i <= self.docs.len(),
                forall|k: int| 0 <= k < i ==> !covers((#[trigger] self.docs@[k]).page_range, page),
            decreases self.docs.len() - i,
        {
            let d = &self.docs[i];
            if d.page_range.first <= page && page <= d.page_range.last {
                proof {
                    lemma_page_doc_scan(self.docs@, page, i as int);
                    assert(self.docs@.skip(i as int)[0] == self.docs@[i as int]);
                }
                return Some(d);
            }
            i = i + 1;
        }
        proof {
            lemma_page_doc_scan(self.docs@, page, i as int);
        }
        None
    }
}

/// When no page belongs to two docs, every page of a doc's range reads back
/// to that doc.
pub proof fn doc_for_page_finds_owner(docs: Seq<EmbeddedDoc>, i: int, page: usize)
    requires
        0 <= i < docs.len(),
        covers(docs[i].page_range, page),
        forall|j: int, k: int|
            0 <= j < docs.len() && 0 <= k < docs.len() && j != k ==> !(covers(
                #[trigger] docs[j].page_range,
                page,
            ) && covers(#[trigger] docs[k].page_range, page)),
    ensures
        page_doc(docs, page) == Some(docs[i]),
{
    assert forall|k: int| 0 <= k < i implies !covers((#[trigger] docs[k]).page_range, page) by {
        assert(!(covers(docs[k].page_range, page) && covers(docs[i].page_range, page)));
    }
    lemma_page_doc_scan(docs, page, i);
    assert(docs.skip(i)[0] == docs[i]);
}

/// The embedded record for a manifest item: the article's source URL when
/// known (else the Readwise URL), and page range 0..=0 until render fills it.
pub open spec fn embedded_doc_of(it: ManifestItem) -> EmbeddedDoc {
    EmbeddedDoc {
        id: it.id,
        title: it.title,
        url: if it.source_url@.len() > 0 {
            it.source_url
        } else {
            it.url
        },
        author: it.author,
        category: it.category,
        page_range: match it.page_range {
            Some(r) => r,
            None => PageRange { first: 0, last: 0 },
        },
    }
}

impl Manifest {
    /// The manifest to embed in the PDF (schema version 1).
    pub fn to_embedded(&self) -> (r: EmbeddedManifest)
        ensures
            r.schema_version == 1,
            r.collection == self.collection,
            r.docs@.len() == self.items@.len(),
            forall|i: int| 0 <= i < r.docs@.len() ==> r.docs@[i] == embedded_doc_of(
                #[trigger] self.items@[i],
            ),
    {
        let mut docs: Vec<EmbeddedDoc> = Vec::new();
        let mut i: usize = 0;
        while i < self.items.len()
            invariant
                i <= self.items.len(),
                docs@.len() == i,
                forall|k: int| 0 <= k < i ==> docs@[k] == embedded_doc_of(#[trigger] self.items@[k]),
            decreases self.items.len() - i,
        {
            let it = &self.items[i];
            let url = if !it.source_url.as_str().is_empty() {
                it.source_url.clone()
            } else {
                it.url.clone()
            };
            let page_range = match it.page_range {
                Some(r) => r,
                None => PageRange { first: 0, last: 0 },
            };
            docs.push(
                EmbeddedDoc {
                    id: it.id.clone(),
                    title: it.title.clone(),
                    url,
                    author: it.author.clone(),
                    category: it.category.clone(),
                    page_range,
                },
            );
            i = i + 1;
        }
        EmbeddedManifest { schema_version: 1, collection: self.collection.clone(), docs }
    }
}

} // verus!
