use levchat::engine::RagError;
use levchat::pdf::extract_text_from_pdf;
use lopdf::content::{Content, Operation};
use lopdf::{Dictionary, Document, Object, Stream};

fn one_page_pdf(text: &str) -> Vec<u8> {
    let mut doc = Document::with_version("1.5");
    let pages_id = doc.new_object_id();
    let mut font = Dictionary::new();
    font.set("Type", "Font");
    font.set("Subtype", "Type1");
    font.set("BaseFont", "Courier");
    let font_id = doc.add_object(font);
    let mut fonts = Dictionary::new();
    fonts.set("F1", font_id);
    let mut resources = Dictionary::new();
    resources.set("Font", fonts);
    let resources_id = doc.add_object(resources);
    let content = Content {
        operations: vec![
            Operation::new("BT", vec![]),
            Operation::new("Tf", vec!["F1".into(), 48.into()]),
            Operation::new("Td", vec![100.into(), 600.into()]),
            Operation::new("Tj", vec![Object::string_literal(text)]),
            Operation::new("ET", vec![]),
        ],
    };
    let content_id = doc.add_object(Stream::new(Dictionary::new(), content.encode().unwrap()));
    let mut page = Dictionary::new();
    page.set("Type", "Page");
    page.set("Parent", pages_id);
    page.set("Contents", content_id);
    let page_id = doc.add_object(page);
    let mut pages = Dictionary::new();
    pages.set("Type", "Pages");
    pages.set("Kids", vec![page_id.into()]);
    pages.set("Count", 1);
    pages.set("Resources", resources_id);
    pages.set(
        "MediaBox",
        vec![0.into(), 0.into(), 595.into(), 842.into()],
    );
    doc.objects.insert(pages_id, Object::Dictionary(pages));
    let mut catalog = Dictionary::new();
    catalog.set("Type", "Catalog");
    catalog.set("Pages", pages_id);
    let catalog_id = doc.add_object(catalog);
    doc.trailer.set("Root", catalog_id);
    let mut out = Vec::new();
    doc.save_to(&mut out).unwrap();
    out
}

#[test]
fn extracts_text_from_a_real_pdf() {
    let bytes = one_page_pdf("Hello World");
    let text = extract_text_from_pdf(&bytes).unwrap();
    assert!(text.contains("Hello World"), "extracted: {:?}", text);
}

#[test]
fn rejects_bytes_that_are_no_pdf() {
    let garbage = vec![0x00u8, 0x01, 0x02, 0x03];
    match extract_text_from_pdf(&garbage) {
        Err(RagError::Io(m)) => assert!(m.starts_with("Failed to load PDF: "), "message: {}", m),
        _ => panic!("expected a load failure"),
    }
}
