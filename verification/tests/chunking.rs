use levchat::chunker::chunk_spans;
use levchat::engine::{chunk_text_with, RagError, RagProcessor, ScanPhase};
use levchat::text::join_words;

fn words(text: &str) -> Vec<String> {
    text.split_whitespace().map(|w| w.to_string()).collect()
}

#[test]
fn spans_cover_words_with_overlap() {
    // Ten words, window four, overlap one: starts advance by three and the
    // last span ends exactly at the word count.
    let spans = chunk_spans(10, 4, 1);
    assert_eq!(spans, vec![(0, 4), (3, 7), (6, 10)]);
}

#[test]
fn spans_empty_text() {
    let spans = chunk_spans(0, 4, 1);
    assert!(spans.is_empty());
}

#[test]
fn spans_window_larger_than_text() {
    let spans = chunk_spans(3, 10, 2);
    assert_eq!(spans, vec![(0, 3)]);
}

#[test]
fn spans_last_end_is_word_count() {
    for len in 1usize..40 {
        let spans = chunk_spans(len, 5, 2);
        assert_eq!(spans.first().unwrap().0, 0);
        assert_eq!(spans.last().unwrap().1, len);
        for w in spans.windows(2) {
            assert_eq!(w[1].0, w[0].1 - 2);
        }
    }
}

#[test]
fn documents_are_chunked_by_words_not_bytes() {
    // Splitting happens on whitespace runs: a document with ragged spacing
    // yields space-joined chunk text. An engine that failed to split would
    // keep the raw spacing.
    let mut engine = RagProcessor::new(2, 1);
    let outcomes = vec![Some(vec![1i64, 0])];
    engine
        .add_document("d.pdf".to_string(), "  hello   world ".to_string(), &outcomes)
        .unwrap();
    assert_eq!(engine.documents[0].chunks[0].text, "hello world");
}

#[test]
fn join_words_single_spaces() {
    let w = vec!["a".to_string(), "b".to_string(), "c".to_string()];
    assert_eq!(join_words(&w, 0, 3), "a b c");
    assert_eq!(join_words(&w, 1, 3), "b c");
    assert_eq!(join_words(&w, 1, 1), "");
}

fn emb(v: &[i64]) -> Vec<i64> {
    v.to_vec()
}

#[test]
fn chunk_text_with_all_outcomes() {
    let w = words("a b c d");
    let outcomes = vec![Some(emb(&[1, 0])), Some(emb(&[0, 1])), Some(emb(&[1, 1]))];
    let chunks = chunk_text_with(2, 1, &w, &outcomes).unwrap();
    assert_eq!(chunks.len(), 3);
    assert_eq!(chunks[0].text, "a b");
    assert_eq!(chunks[1].text, "b c");
    assert_eq!(chunks[2].text, "c d");
    assert_eq!(chunks[0].embedding, vec![1, 0]);
}

#[test]
fn chunk_text_with_failed_outcome_skips_window() {
    // Six words, window two, overlap one: five windows when everything
    // succeeds. One failed embedding drops that chunk and jumps past it.
    let w = words("a b c d e f");
    let all = vec![
        Some(emb(&[1, 0])),
        Some(emb(&[1, 0])),
        Some(emb(&[1, 0])),
        Some(emb(&[1, 0])),
        Some(emb(&[1, 0])),
    ];
    let chunks = chunk_text_with(2, 1, &w, &all).unwrap();
    assert_eq!(chunks.len(), 5);
    let one_failed = vec![
        Some(emb(&[1, 0])),
        Some(emb(&[1, 0])),
        Some(emb(&[1, 0])),
        Some(emb(&[1, 0])),
        None,
    ];
    let chunks = chunk_text_with(2, 1, &w, &one_failed).unwrap();
    assert_eq!(chunks.len(), 4);
    assert_eq!(chunks[3].text, "d e");
}

#[test]
fn empty_text_yields_no_chunks_without_error() {
    let no_words: Vec<String> = Vec::new();
    let no_outcomes: Vec<Option<Vec<i64>>> = Vec::new();
    let chunks = chunk_text_with(2, 1, &no_words, &no_outcomes).unwrap();
    assert!(chunks.is_empty());
    let mut engine = RagProcessor::new(2, 1);
    let n = engine.add_document("empty.pdf".to_string(), "".to_string(), &no_outcomes).unwrap();
    assert_eq!(n, 0);
    assert_eq!(engine.documents.len(), 1);
    assert!(engine.documents[0].chunks.is_empty());
}

#[test]
fn chunk_text_with_no_usable_chunks_fails() {
    let w = words("a b c");
    let outcomes: Vec<Option<Vec<i64>>> = vec![None, None, None];
    match chunk_text_with(2, 1, &w, &outcomes) {
        Err(RagError::Server(m)) => assert_eq!(m, "Failed to generate any valid chunks"),
        _ => panic!("expected a server error for a chunkless document"),
    }
}

#[test]
fn add_document_records_partial_document() {
    // One failing chunk out of five leaves a document with four chunks and
    // does not raise past the document level.
    let mut engine = RagProcessor::new(2, 1);
    let outcomes = vec![
        Some(emb(&[1, 0])),
        Some(emb(&[1, 0])),
        None,
        Some(emb(&[1, 0])),
        Some(emb(&[1, 0])),
    ];
    let n = engine
        .add_document("doc.pdf".to_string(), "a b c d e f g".to_string(), &outcomes)
        .unwrap();
    assert_eq!(n, 4);
    assert_eq!(engine.documents.len(), 1);
    assert_eq!(engine.documents[0].chunks.len(), 4);
    assert_eq!(engine.documents[0].filename, "doc.pdf");
}

#[test]
fn add_document_rejects_chunkless_document_and_scan_goes_on() {
    let mut engine = RagProcessor::new(2, 1);
    let bad: Vec<Option<Vec<i64>>> = vec![];
    assert!(engine.add_document("bad.pdf".to_string(), "a b".to_string(), &bad).is_err());
    assert_eq!(engine.documents.len(), 0);
    let good = vec![Some(emb(&[1, 0]))];
    engine.add_document("good.pdf".to_string(), "a b".to_string(), &good).unwrap();
    assert_eq!(engine.documents.len(), 1);
    engine.complete_scan();
    assert_eq!(engine.phase, ScanPhase::Ready);
    engine.begin_rescan();
    assert_eq!(engine.documents.len(), 0);
    assert_eq!(engine.phase, ScanPhase::Scanning);
}
