//! The text of a statement held in a PDF document.
//!
//! lopdf may load the objects of a large document on several threads, and
//! where two object streams hold different copies of one object the copy it
//! keeps depends on their order; so the page map and the page texts are not
//! functions of the bytes, and nothing is claimed of them beyond what holds
//! of every outcome. The freedom from panics of `page_texts` and
//! `extract_text` rests on lopdf: that lopdf returns on every input is not
//! claimed here.

use vstd::prelude::*;

use std::collections::BTreeMap;

verus! {

#[verifier::external_type_specification]
#[verifier::external_body]
pub struct ExDocument(lopdf::Document);

/// Whether `lopdf::Document::load_mem` reads a document from the bytes (in its
/// default, lenient mode this depends on the bytes alone).
pub uninterp spec fn pdf_loads(data: Seq<u8>) -> bool;

/// Calls `lopdf::Document::load_mem`; a document comes back exactly where
/// `pdf_loads` holds of the bytes. What the document holds is not stated.
#[verifier::external_body]
fn load_document(data: &[u8]) -> (r: Option<lopdf::Document>)
    ensures
        r is Some <==> pdf_loads(data@),
{
    lopdf::Document::load_mem(data).ok()
}

/// Calls `lopdf::Document::get_pages`: the page map, page numbers to object
/// ids. Nothing is stated of it.
#[verifier::external_body]
fn pages_of(doc: &lopdf::Document) -> (r: BTreeMap<u32, (u32, u16)>) {
    doc.get_pages()
}

/// Calls `lopdf::Document::extract_text` on one page; `None` where lopdf
/// reports an error. Nothing is stated of the text.
#[verifier::external_body]
fn page_text(doc: &lopdf::Document, page: u32) -> (r: Option<String>) {
    doc.extract_text(&[page]).ok()
}

/// The text that lopdf gave for one page, beside the page's number.
pub struct PageText {
    pub number: u32,
    pub text: Option<String>,
}

/// The texts of the pages joined, a page that gave none counting as empty.
pub open spec fn joined_texts(texts: Seq<Option<Seq<char>>>) -> Seq<char>
    decreases texts.len(),
{
    if texts.len() == 0 {
        seq![]
    } else {
        joined_texts(texts.drop_last()) + match texts.last() {
            Some(t) => t,
            None => seq![],
        }
    }
}

/// The texts of the pages, in order.
pub open spec fn texts_view(v: Seq<PageText>) -> Seq<Option<Seq<char>>> {
    v.map_values(|p: PageText| match p.text {
        Some(t) => Some(t@),
        None => None,
    })
}

/// The pages are numbered from 1, in order.
pub open spec fn numbered_from_one(v: Seq<PageText>) -> bool {
    forall|i: int| 0 <= i < v.len() ==> #[trigger] v[i].number == (i + 1) as u32
}

/// Joins the texts of the pages in order; a page that gave no text adds
/// nothing.
pub fn join_page_texts(pages: Vec<PageText>) -> (r: String)
    ensures
        r@ == joined_texts(texts_view(pages@)),
{
    let mut out = String::new();
    let mut i: usize = 0;
    while i < pages.len()
        invariant
            i <= pages.len(),
            out@ == joined_texts(texts_view(pages@.take(i as int))),
        decreases pages.len() - i,
    {
        assert(texts_view(pages@.take(i + 1)).drop_last() =~= texts_view(pages@.take(i as int)));
        match &pages[i].text {
            Some(t) => out.append(t.as_str()),
            None => {},
        }
        i += 1;
    }
    assert(pages@.take(pages.len() as int) =~= pages@);
    out
}

/// The text of each page of a PDF document as lopdf extracts it, asked for
/// page by page with the numbers 1 up to the number of entries of lopdf's page
/// map. `None` where lopdf reads no document from the bytes.
pub fn page_texts(data: &[u8]) -> (r: Option<Vec<PageText>>)
    ensures
        r is Some <==> pdf_loads(data@),
        r matches Some(v) ==> numbered_from_one(v@),
{
    let doc = match load_document(data) {
        Some(d) => d,
        None => return None,
    };
    let pages = pages_of(&doc);
    let n = pages.len();
    let mut texts: Vec<PageText> = Vec::new();
    let mut i: usize = 0;
    while i < n
        invariant
            i <= n,
            texts.len() == i,
            numbered_from_one(texts@),
        decreases n - i,
    {
        let number = (i + 1) as u32;
        let text = page_text(&doc, number);
        texts.push(PageText { number, text });
        i += 1;
    }
    Some(texts)
}

/// The text of a PDF document: the texts of `page_texts` joined by
/// `join_page_texts`, in page order. `None` where lopdf reads no document
/// from the bytes.
pub fn extract_text(data: &[u8]) -> (r: Option<String>)
    ensures
        r is Some <==> pdf_loads(data@),
{
    match page_texts(data) {
        Some(pages) => Some(join_page_texts(pages)),
        None => None,
    }
}

} // verus!
