//! PDF text extraction for the corpus scan.
//!
//! Parsing is `lopdf`'s work, carried out on in-memory bytes; what each
//! call returns is a function of the bytes alone, so it is given a name
//! and the page loop around it is verified against those names. A page
//! whose extraction fails is skipped, never fatal; only a document that
//! cannot be loaded at all is an error.

use vstd::prelude::*;

use crate::command::spec_starts_with;
use crate::engine::RagError;

verus! {

broadcast use vstd::string::group_string_axioms;

/// Whether `lopdf::Document::load_mem` accepts the bytes as a PDF.
pub uninterp spec fn pdf_load_ok(bytes: Seq<u8>) -> bool;

/// The page count `lopdf::Document::get_pages` reports for the bytes.
pub uninterp spec fn pdf_page_count_of(bytes: Seq<u8>) -> int;

/// What `lopdf::Document::extract_text` returns for one page of the
/// bytes: the page's text, or `None` when that page will not extract.
pub uninterp spec fn pdf_page_text_of(bytes: Seq<u8>, page: int) -> Option<Seq<char>>;

/// View of an optional extracted page text.
pub open spec fn opt_text_view(o: Option<String>) -> Option<Seq<char>> {
    match o {
        Some(s) => Some(s@),
        None => None,
    }
}

/// The extracted text of pages `1..=upto`, in page order: every page that
/// extracts contributes its text followed by one space, a skipped page
/// contributes nothing.
pub open spec fn spec_pdf_text(bytes: Seq<u8>, upto: int) -> Seq<char>
    decreases upto,
{
    if upto <= 0 {
        Seq::empty()
    } else {
        spec_pdf_text(bytes, upto - 1) + match pdf_page_text_of(bytes, upto) {
            Some(t) => t + seq![' '],
            None => Seq::empty(),
        }
    }
}

/// Relies on `lopdf::Document::load_mem`: whether the bytes parse as a
/// PDF document, a function of the bytes alone.
#[verifier::external_body]
fn pdf_load_check(bytes: &Vec<u8>) -> (r: bool)
    ensures
        r == pdf_load_ok(bytes@),
{
    lopdf::Document::load_mem(bytes.as_slice()).is_ok()
}

/// Relies on `lopdf::Document::load_mem` and the `Display` rendering of
/// `lopdf::Error`: the description of why the bytes do not load.
#[verifier::external_body]
fn pdf_load_error_text(bytes: &Vec<u8>) -> String
    requires
        !pdf_load_ok(bytes@),
{
    match lopdf::Document::load_mem(bytes.as_slice()) {
        Ok(_) => String::new(),
        Err(e) => format!("{}", e),
    }
}

/// Relies on `lopdf::Document::load_mem` and `get_pages`: the page count,
/// a function of the bytes alone.
#[verifier::external_body]
fn pdf_page_count(bytes: &Vec<u8>) -> (r: usize)
    requires
        pdf_load_ok(bytes@),
    ensures
        r == pdf_page_count_of(bytes@),
{
    match lopdf::Document::load_mem(bytes.as_slice()) {
        Ok(doc) => doc.get_pages().len(),
        Err(_) => 0,
    }
}

/// Relies on `lopdf::Document::load_mem` and `extract_text`: the text of
/// one page, a function of the bytes and the page number alone.
#[verifier::external_body]
fn pdf_extract_page(bytes: &Vec<u8>, page: usize) -> (r: Option<String>)
    requires
        pdf_load_ok(bytes@),
    ensures
        opt_text_view(r) == pdf_page_text_of(bytes@, page as int),
{
    let page32: u32 = match page.try_into() {
        Ok(p) => p,
        Err(_) => {
            return None;
        },
    };
    match lopdf::Document::load_mem(bytes.as_slice()) {
        Ok(doc) => doc.extract_text(&[page32]).ok(),
        Err(_) => None,
    }
}

/// Extracts the text of every page of a PDF, in page order, each
/// extracted page followed by one space; a page that will not extract is
/// skipped. Fails exactly when the bytes do not load as a document, with
/// the load error described.
pub fn extract_text_from_pdf(bytes: &Vec<u8>) -> (r: Result<String, RagError>)
    ensures
        r is Ok <==> pdf_load_ok(bytes@),
        r matches Ok(s) ==> s@ == spec_pdf_text(bytes@, pdf_page_count_of(bytes@)),
        r matches Err(e) ==> (e matches RagError::Io(m) && spec_starts_with(
            m@,
            "Failed to load PDF: "@,
        )),
{
    proof {
        reveal_strlit("Failed to load PDF: ");
    }
    if !pdf_load_check(bytes) {
        let mut m = "Failed to load PDF: ".to_owned();
        let detail = pdf_load_error_text(bytes);
        m.append(detail.as_str());
        proof {
            assert(m@.subrange(0, ("Failed to load PDF: ")@.len() as int) =~= ("Failed to load PDF: ")@);
        }
        return Err(RagError::Io(m));
    }
    let n = pdf_page_count(bytes);
    let mut text = String::new();
    let mut idx: usize = 0;
    while idx < n
        invariant
            0 <= idx <= n,
            pdf_load_ok(bytes@),
            n == pdf_page_count_of(bytes@),
            text@ == spec_pdf_text(bytes@, idx as int),
        decreases n - idx,
    {
        let page = idx + 1;
        match pdf_extract_page(bytes, page) {
            Some(page_text) => {
                text.append(page_text.as_str());
                text.append(" ");
                proof {
                    reveal_strlit(" ");
                    assert((" ")@ =~= seq![' ']);
                }
            },
            None => {},
        }
        idx = idx + 1;
    }
    Ok(text)
}

} // verus!
