//! The retrieval context engine: an in-memory corpus of chunked, embedded
//! documents, similarity retrieval over it, and augmented prompt building.
//!
//! The engine never performs I/O itself: documents arrive as extracted
//! text, and every embedding arrives as the outcome the embedding service
//! returned for one chunk attempt — `None` when the request failed, which
//! skips that chunk and advances the window past it.

use vstd::prelude::*;

use crate::ranker::{is_stable_ranking, rank_indices};
use crate::similarity::{cosine_similarity, emb_bounded, spec_similarity, Similarity};
use crate::text::{join_words, spec_join_space, split_words, words_of};

verus! {

/// How many times the embedding server health endpoint is polled before
/// construction fails.
pub const MAX_RETRIES: u32 = 5;

/// How many bytes of a chunk are submitted for embedding at most.
pub const EMBED_TRUNCATE_LEN: usize = 384;

/// A span of a document paired with the embedding obtained for it.
pub struct Chunk {
    /// The chunk's words, joined by single spaces.
    pub text: String,
    /// Fixed-point embedding vector.
    pub embedding: Vec<i64>,
}

/// One corpus member.
pub struct SourceDocument {
    /// Name of the source file.
    pub filename: String,
    /// The full extracted text.
    pub content: String,
    /// The chunks whose embedding succeeded, in document order.
    pub chunks: Vec<Chunk>,
}

/// Failures of retrieval and corpus processing.
#[derive(Debug)]
pub enum RagError {
    /// A filesystem-level failure, described.
    Io(String),
    /// The embedding server failed or answered unusably.
    Server(String),
    /// An embedding request could not be sent.
    Request(String),
    /// An embedding response could not be decoded.
    Serde(String),
}

/// Lifecycle of the engine: documents may only be added while scanning,
/// retrieval only once the scan is complete.
#[derive(Clone, Copy, Debug, PartialEq, Eq, Structural)]
pub enum ScanPhase {
    Scanning,
    Ready,
}

/// What the engine decides an embedding-server startup loop should do
/// after one health poll.
#[derive(Clone, Copy, Debug, PartialEq, Eq, Structural)]
pub enum RetryAction {
    /// The server is healthy: construction proceeds.
    Proceed,
    /// Not healthy yet: wait the fixed delay and poll again.
    RetryAfterDelay,
    /// The retry budget is exhausted: construction fails.
    Fail,
}

/// Decides the startup loop's next step after health poll `attempt`
/// (counted from zero) came back `healthy` or not.
pub fn health_retry_decision(attempt: u32, healthy: bool) -> (r: RetryAction)
    ensures
        healthy ==> r == RetryAction::Proceed,
        !healthy && attempt + 1 < MAX_RETRIES ==> r == RetryAction::RetryAfterDelay,
        !healthy && attempt + 1 >= MAX_RETRIES ==> r == RetryAction::Fail,
{
    if healthy {
        RetryAction::Proceed
    } else if attempt < MAX_RETRIES - 1 {
        RetryAction::RetryAfterDelay
    } else {
        RetryAction::Fail
    }
}

/// Truncates an embedding payload to the fixed maximum byte length, a raw
/// cut as the embedding client applies it.
pub fn truncate_for_embedding(bytes: &Vec<u8>) -> (r: Vec<u8>)
    ensures
        bytes@.len() <= EMBED_TRUNCATE_LEN ==> r@ == bytes@,
        bytes@.len() > EMBED_TRUNCATE_LEN ==> r@ == bytes@.subrange(0, EMBED_TRUNCATE_LEN as int),
{
    if bytes.len() <= EMBED_TRUNCATE_LEN {
        let r = crate::capture::copy_range(bytes, 0, bytes.len());
        proof {
            assert(bytes@.subrange(0, bytes@.len() as int) =~= bytes@);
        }
        r
    } else {
        crate::capture::copy_range(bytes, 0, EMBED_TRUNCATE_LEN)
    }
}

/// View of one embedding outcome.
pub open spec fn outcome_view(o: Option<Vec<i64>>) -> Option<Seq<i64>> {
    match o {
        Some(v) => Some(v@),
        None => None,
    }
}

/// The chunk walk: which windows of a `len`-word text yield chunks, given
/// the embedding outcome of each attempt in order. Each kept entry is
/// `(start, end, attempt)`. A failed attempt (or one past the provided
/// outcomes) contributes no chunk and moves the window start to the failed
/// window's end; a successful one advances by `window - overlap`.
pub open spec fn spec_chunk_walk(
    len: int,
    window: int,
    overlap: int,
    outcomes: Seq<Option<Seq<i64>>>,
    i: int,
    k: int,
) -> Seq<(int, int, int)>
    decreases len - i
        when 0 <= overlap < window && 0 <= i && 0 <= k
{
    if i >= len {
        Seq::empty()
    } else {
        let end = if i + window < len {
            i + window
        } else {
            len
        };
        if 0 <= k < outcomes.len() && outcomes[k] is Some {
            if end == len {
                seq![(i, end, k)]
            } else {
                seq![(i, end, k)] + spec_chunk_walk(
                    len,
                    window,
                    overlap,
                    outcomes,
                    end - overlap,
                    k + 1,
                )
            }
        } else {
            spec_chunk_walk(len, window, overlap, outcomes, end, k + 1)
        }
    }
}

/// When every embedding attempt succeeds and there are enough outcomes
/// for every window, the walk visits exactly the chunker's windows: the
/// same spans, in the same order.
pub proof fn lemma_walk_matches_spans(
    len: int,
    window: int,
    overlap: int,
    outcomes: Seq<Option<Seq<i64>>>,
    i: int,
    k: int,
)
    requires
        0 <= overlap < window,
        0 <= i,
        0 <= k,
        forall|j: int| 0 <= j < outcomes.len() ==> (#[trigger] outcomes[j]) is Some,
        k + (len - i) <= outcomes.len(),
    ensures
        spec_chunk_walk(len, window, overlap, outcomes, i, k).map_values(
            |t: (int, int, int)| (t.0, t.1),
        ) == crate::chunker::chunk_spans_from(len, window, overlap, i),
    decreases len - i,
{
    let walk = spec_chunk_walk(len, window, overlap, outcomes, i, k);
    let spans = crate::chunker::chunk_spans_from(len, window, overlap, i);
    if i >= len {
        assert(walk.map_values(|t: (int, int, int)| (t.0, t.1)) =~= spans);
    } else {
        let end = if i + window < len {
            i + window
        } else {
            len
        };
        if end == len {
            assert(walk =~= seq![(i, end, k)]);
            assert(walk.map_values(|t: (int, int, int)| (t.0, t.1)) =~= spans);
        } else {
            lemma_walk_matches_spans(len, window, overlap, outcomes, end - overlap, k + 1);
            let rest = spec_chunk_walk(len, window, overlap, outcomes, end - overlap, k + 1);
            assert(walk =~= seq![(i, end, k)] + rest);
            assert(walk.map_values(|t: (int, int, int)| (t.0, t.1)) =~= spans);
        }
    }
}

/// The chunks a walk and its outcomes describe.
pub open spec fn chunks_match_walk(
    chunks: Seq<Chunk>,
    words: Seq<Seq<char>>,
    outcomes: Seq<Option<Seq<i64>>>,
    walk: Seq<(int, int, int)>,
) -> bool {
    &&& chunks.len() == walk.len()
    &&& forall|j: int|
        0 <= j < walk.len() ==> ((#[trigger] chunks[j]).text@ == spec_join_space(
            words.subrange(walk[j].0, walk[j].1),
        ) && 0 <= walk[j].2 < outcomes.len() && outcomes[walk[j].2] == Some(
            chunks[j].embedding@,
        ))
}

/// Builds the chunks of a text from its words and the per-attempt
/// embedding outcomes, as the walk describes. An empty text yields an
/// empty sequence of chunks; a non-empty text none of whose attempts
/// succeeded is a document-level error, as the corpus pass treats a
/// document with zero usable chunks.
pub fn chunk_text_with(
    window: usize,
    overlap: usize,
    words: &Vec<String>,
    outcomes: &Vec<Option<Vec<i64>>>,
) -> (r: Result<Vec<Chunk>, RagError>)
    requires
        overlap < window,
    ensures
        ({
            let walk = spec_chunk_walk(
                words@.len() as int,
                window as int,
                overlap as int,
                outcomes@.map_values(|o: Option<Vec<i64>>| outcome_view(o)),
                0,
                0,
            );
            &&& (r is Ok <==> words@.len() == 0 || walk.len() > 0)
            &&& match r {
                Ok(chunks) => chunks_match_walk(
                    chunks@,
                    words@.map_values(|w: String| w@),
                    outcomes@.map_values(|o: Option<Vec<i64>>| outcome_view(o)),
                    walk,
                ),
                Err(e) => e matches RagError::Server(m) && m@
                    == "Failed to generate any valid chunks"@,
            }
        }),
{
    let ghost wviews = words@.map_values(|w: String| w@);
    let ghost oviews = outcomes@.map_values(|o: Option<Vec<i64>>| outcome_view(o));
    let ghost full = spec_chunk_walk(
        words@.len() as int,
        window as int,
        overlap as int,
        oviews,
        0,
        0,
    );
    let mut chunks: Vec<Chunk> = Vec::new();
    let ghost mut built: Seq<(int, int, int)> = Seq::empty();
    let mut i: usize = 0;
    let mut k: usize = 0;
    proof {
        assert(built + full =~= full);
    }
    while i < words.len()
        invariant
            overlap < window,
            0 <= k <= i,
            wviews == words@.map_values(|w: String| w@),
            oviews == outcomes@.map_values(|o: Option<Vec<i64>>| outcome_view(o)),
            full == spec_chunk_walk(
                words@.len() as int,
                window as int,
                overlap as int,
                oviews,
                0,
                0,
            ),
            built + spec_chunk_walk(
                words@.len() as int,
                window as int,
                overlap as int,
                oviews,
                i as int,
                k as int,
            ) == full,
            chunks_match_walk(chunks@, wviews, oviews, built),
        decreases words@.len() - i,
    {
        let end = if words.len() - i > window {
            i + window
        } else {
            words.len()
        };
        let mut outcome: Option<Vec<i64>> = None;
        if k < outcomes.len() {
            match &outcomes[k] {
                Some(v) => {
                    outcome = Some(v.clone());
                },
                None => {},
            }
        }
        proof {
            if k < outcomes@.len() {
                assert(oviews[k as int] == outcome_view(outcomes@[k as int]));
            }
        }
        match outcome {
            Some(embedding) => {
                let text = join_words(words, i, end);
                proof {
                    assert(words@.subrange(i as int, end as int).map_values(|w: String| w@)
                        =~= wviews.subrange(i as int, end as int));
                }
                chunks.push(Chunk { text, embedding });
                proof {
                    built = built.push((i as int, end as int, k as int));
                    assert(chunks_match_walk(chunks@, wviews, oviews, built));
                }
                if end == words.len() {
                    proof {
                        assert(built =~= built.drop_last() + seq![
                            (i as int, end as int, k as int),
                        ]);
                        assert(built + spec_chunk_walk(
                            words@.len() as int,
                            window as int,
                            overlap as int,
                            oviews,
                            i as int,
                            k as int,
                        ).skip(1) =~= full);
                        assert(full =~= built);
                    }
                    return Ok(chunks);
                }
                proof {
                    assert(built + spec_chunk_walk(
                        words@.len() as int,
                        window as int,
                        overlap as int,
                        oviews,
                        end - overlap,
                        k + 1,
                    ) =~= full);
                }
                i = end - overlap;
            },
            None => {
                i = end;
            },
        }
        k = k + 1;
    }
    proof {
        assert(spec_chunk_walk(
            words@.len() as int,
            window as int,
            overlap as int,
            oviews,
            i as int,
            k as int,
        ) =~= Seq::<(int, int, int)>::empty());
        assert(built + Seq::<(int, int, int)>::empty() =~= built);
    }
    if chunks.len() == 0 && words.len() > 0 {
        return Err(RagError::Server("Failed to generate any valid chunks".to_owned()));
    }
    Ok(chunks)
}


/// The `(text, filename)` pairs a document contributes, in chunk order.
pub open spec fn doc_pairs(d: SourceDocument) -> Seq<(Seq<char>, Seq<char>)> {
    d.chunks@.map_values(|c: Chunk| (c.text@, d.filename@))
}

/// The embeddings a document contributes, in chunk order.
pub open spec fn doc_embs(d: SourceDocument) -> Seq<Seq<i64>> {
    d.chunks@.map_values(|c: Chunk| c.embedding@)
}

/// All `(text, filename)` pairs of the corpus, documents in order.
pub open spec fn corpus_pairs(docs: Seq<SourceDocument>) -> Seq<(Seq<char>, Seq<char>)>
    decreases docs.len(),
{
    if docs.len() == 0 {
        Seq::empty()
    } else {
        corpus_pairs(docs.drop_last()) + doc_pairs(docs.last())
    }
}

/// All embeddings of the corpus, documents in order.
pub open spec fn corpus_embs(docs: Seq<SourceDocument>) -> Seq<Seq<i64>>
    decreases docs.len(),
{
    if docs.len() == 0 {
        Seq::empty()
    } else {
        corpus_embs(docs.drop_last()) + doc_embs(docs.last())
    }
}

/// A corpus contributes as many pairs as embeddings.
pub proof fn lemma_corpus_lens(docs: Seq<SourceDocument>)
    ensures
        corpus_pairs(docs).len() == corpus_embs(docs).len(),
    decreases docs.len(),
{
    if docs.len() > 0 {
        lemma_corpus_lens(docs.drop_last());
    }
}

/// Every chunk embedding of the document is within comparison bounds.
pub open spec fn doc_wf(d: SourceDocument) -> bool {
    forall|c: int| 0 <= c < d.chunks@.len() ==> emb_bounded((#[trigger] d.chunks@[c]).embedding@)
}

/// The similarities of a query against a sequence of embeddings.
pub open spec fn query_sims(q: Seq<i64>, embs: Seq<Seq<i64>>) -> Seq<Similarity> {
    Seq::new(embs.len(), |i: int| spec_similarity(q, embs[i]))
}

/// One retrieved pair rendered for the prompt: `From <filename>: <text>`.
pub open spec fn spec_context_line(pair: (Seq<char>, Seq<char>)) -> Seq<char> {
    "From "@ + pair.1 + ": "@ + pair.0
}

/// Retrieved pairs rendered and joined by blank lines.
pub open spec fn spec_context_block(pairs: Seq<(Seq<char>, Seq<char>)>) -> Seq<char>
    decreases pairs.len(),
{
    if pairs.len() == 0 {
        Seq::empty()
    } else if pairs.len() == 1 {
        spec_context_line(pairs[0])
    } else {
        spec_context_block(pairs.drop_last()) + "\n\n"@ + spec_context_line(pairs.last())
    }
}

/// The fixed instruction template around the retrieved context: the model
/// is asked to analyse the context, answer the query, and end with the
/// completion sentinel the capture machine watches for.
pub open spec fn spec_rag_prompt(ctx: Seq<char>, query: Seq<char>) -> Seq<char> {
    "Take your time and analyse the following context:\n"@ + ctx
        + "\n\nNow use the context to answer the following query: "@ + query
        + "\nPS: (End your response with [done])\nYour response: "@
}

/// The retrieval context engine. It owns the corpus; everything it holds
/// arrived through `add_document`.
pub struct RagProcessor {
    /// Window size in words.
    pub chunk_size: usize,
    /// Window overlap in words.
    pub overlap: usize,
    /// The corpus, in scan order.
    pub documents: Vec<SourceDocument>,
    /// Where in its lifecycle the engine stands.
    pub phase: ScanPhase,
}

impl RagProcessor {
    /// The engine invariant: a sane window and bounded embeddings.
    pub open spec fn wf(self) -> bool {
        &&& self.overlap < self.chunk_size
        &&& forall|d: int|
            0 <= d < self.documents@.len() ==> doc_wf(#[trigger] self.documents@[d])
    }

    /// A fresh engine with an empty corpus, ready to scan.
    pub fn new(chunk_size: usize, overlap: usize) -> (r: Self)
        requires
            overlap < chunk_size,
        ensures
            r.wf(),
            r.chunk_size == chunk_size,
            r.overlap == overlap,
            r.documents@.len() == 0,
            r.phase == ScanPhase::Scanning,
    {
        RagProcessor { chunk_size, overlap, documents: Vec::new(), phase: ScanPhase::Scanning }
    }

    /// Chunks one extracted text against the embedding outcomes and records
    /// it; an empty text is recorded with no chunks. A non-empty document
    /// none of whose chunks embedded is a document-level error and is not
    /// recorded; the caller goes on with the next file.
    pub fn add_document(
        &mut self,
        filename: String,
        content: String,
        outcomes: &Vec<Option<Vec<i64>>>,
    ) -> (r: Result<usize, RagError>)
        requires
            old(self).wf(),
            old(self).phase == ScanPhase::Scanning,
            forall|k: int|
                0 <= k < outcomes@.len() ==> ((#[trigger] outcomes@[k]) matches Some(v)
                    ==> emb_bounded(v@)),
        ensures
            final(self).wf(),
            final(self).chunk_size == old(self).chunk_size,
            final(self).overlap == old(self).overlap,
            final(self).phase == old(self).phase,
            ({
                let walk = spec_chunk_walk(
                    words_of(content@).len() as int,
                    old(self).chunk_size as int,
                    old(self).overlap as int,
                    outcomes@.map_values(|o: Option<Vec<i64>>| outcome_view(o)),
                    0,
                    0,
                );
                &&& (r is Ok <==> words_of(content@).len() == 0 || walk.len() > 0)
                &&& match r {
                    Ok(n) => {
                        &&& n == walk.len()
                        &&& final(self).documents@.len() == old(self).documents@.len() + 1
                        &&& final(self).documents@.subrange(0, old(self).documents@.len() as int)
                            == old(self).documents@
                        &&& final(self).documents@.last().filename@ == filename@
                        &&& final(self).documents@.last().content@ == content@
                        &&& chunks_match_walk(
                            final(self).documents@.last().chunks@,
                            words_of(content@),
                            outcomes@.map_values(|o: Option<Vec<i64>>| outcome_view(o)),
                            walk,
                        )
                    },
                    Err(e) => final(self).documents@ == old(self).documents@ && (e matches
                        RagError::Server(m) && m@ == "Failed to generate any valid chunks"@),
                }
            }),
    {
        let words = split_words(content.as_str());
        match chunk_text_with(self.chunk_size, self.overlap, &words, outcomes) {
            Ok(chunks) => {
                let n = chunks.len();
                proof {
                    let oviews = outcomes@.map_values(|o: Option<Vec<i64>>| outcome_view(o));
                    assert forall|c: int| 0 <= c < chunks@.len() implies emb_bounded(
                        (#[trigger] chunks@[c]).embedding@,
                    ) by {
                        let walk = spec_chunk_walk(
                            words_of(content@).len() as int,
                            self.chunk_size as int,
                            self.overlap as int,
                            oviews,
                            0,
                            0,
                        );
                        assert(oviews[walk[c].2] == Some(chunks@[c].embedding@));
                        assert(outcomes@[walk[c].2] matches Some(v) && v@ == chunks@[c].embedding@);
                    }
                }
                let doc = SourceDocument { filename, content, chunks };
                let ghost pre = self.documents@;
                self.documents.push(doc);
                proof {
                    assert(final(self).documents@.subrange(0, pre.len() as int) =~= pre);
                }
                Ok(n)
            },
            Err(e) => Err(e),
        }
    }

    /// Finishes the scan: retrieval may now be used.
    pub fn complete_scan(&mut self)
        requires
            old(self).wf(),
        ensures
            final(self).wf(),
            final(self).phase == ScanPhase::Ready,
            final(self).documents == old(self).documents,
            final(self).chunk_size == old(self).chunk_size,
            final(self).overlap == old(self).overlap,
    {
        self.phase = ScanPhase::Ready;
    }

    /// Drops the corpus for an explicit rescan; documents are then added
    /// anew. Nothing watches the filesystem.
    pub fn begin_rescan(&mut self)
        requires
            old(self).wf(),
        ensures
            final(self).wf(),
            final(self).phase == ScanPhase::Scanning,
            final(self).documents@.len() == 0,
            final(self).chunk_size == old(self).chunk_size,
            final(self).overlap == old(self).overlap,
    {
        self.documents = Vec::new();
        self.phase = ScanPhase::Scanning;
    }

    /// The `top_n` best-matching `(text, filename)` pairs for the already
    /// embedded query, by descending similarity, ties in corpus order; the
    /// whole corpus when it has fewer chunks than `top_n`.
    pub fn retrieve_context(&self, query_embedding: &Vec<i64>, top_n: usize) -> (r: Vec<
        (String, String),
    >)
        requires
            self.wf(),
            self.phase == ScanPhase::Ready,
            emb_bounded(query_embedding@),
        ensures
            ({
                let pairs = corpus_pairs(self.documents@);
                let sims = query_sims(query_embedding@, corpus_embs(self.documents@));
                &&& r@.len() == if top_n <= pairs.len() {
                    top_n as int
                } else {
                    pairs.len() as int
                }
                &&& exists|rank: Seq<usize>|
                    #[trigger] is_stable_ranking(sims, rank) && forall|j: int|
                        0 <= j < r@.len() ==> ((#[trigger] r@[j]).0@, r@[j].1@) == pairs[
                            rank[j] as int]
            }),
    {
        let ghost pairs = corpus_pairs(self.documents@);
        let ghost embs = corpus_embs(self.documents@);
        let mut texts: Vec<String> = Vec::new();
        let mut files: Vec<String> = Vec::new();
        let mut sims: Vec<Similarity> = Vec::new();
        let mut d: usize = 0;
        proof {
            assert(corpus_pairs(self.documents@.subrange(0, 0)) =~= Seq::<
                (Seq<char>, Seq<char>),
            >::empty());
            assert(corpus_embs(self.documents@.subrange(0, 0)) =~= Seq::<Seq<i64>>::empty());
        }
        while d < self.documents.len()
            invariant
                self.wf(),
                emb_bounded(query_embedding@),
                0 <= d <= self.documents@.len(),
                texts@.len() == files@.len() && files@.len() == sims@.len(),
                forall|j: int| 0 <= j < sims@.len() ==> crate::similarity::sim_wf(#[trigger] sims@[j]),
                texts@.len() == corpus_pairs(self.documents@.subrange(0, d as int)).len(),
                forall|j: int|
                    0 <= j < texts@.len() ==> ((#[trigger] texts@[j])@, files@[j]@)
                        == corpus_pairs(self.documents@.subrange(0, d as int))[j],
                forall|j: int|
                    0 <= j < sims@.len() ==> #[trigger] sims@[j] == spec_similarity(
                        query_embedding@,
                        corpus_embs(self.documents@.subrange(0, d as int))[j],
                    ),
            decreases self.documents@.len() - d,
        {
            let ghost prev_docs = self.documents@.subrange(0, d as int);
            let ghost next_docs = self.documents@.subrange(0, d + 1);
            proof {
                assert(next_docs.drop_last() =~= prev_docs);
                assert(next_docs.last() == self.documents@[d as int]);
            }
            let doc_len = self.documents[d].chunks.len();
            let mut c: usize = 0;
            while c < doc_len
                invariant
                    self.wf(),
                    emb_bounded(query_embedding@),
                    0 <= d < self.documents@.len(),
                    doc_len == self.documents@[d as int].chunks@.len(),
                    0 <= c <= doc_len,
                    prev_docs == self.documents@.subrange(0, d as int),
                    texts@.len() == files@.len() && files@.len() == sims@.len(),
                    forall|j: int|
                        0 <= j < sims@.len() ==> crate::similarity::sim_wf(#[trigger] sims@[j]),
                    texts@.len() == corpus_pairs(prev_docs).len() + c,
                    forall|j: int|
                        0 <= j < corpus_pairs(prev_docs).len() ==> ((#[trigger] texts@[j])@,
                        files@[j]@) == corpus_pairs(prev_docs)[j],
                    forall|j: int|
                        0 <= j < corpus_pairs(prev_docs).len() ==> #[trigger] sims@[j]
                            == spec_similarity(query_embedding@, corpus_embs(prev_docs)[j]),
                    forall|j: int|
                        corpus_pairs(prev_docs).len() <= j < texts@.len() ==> ((
                        #[trigger] texts@[j])@, files@[j]@) == doc_pairs(
                            self.documents@[d as int],
                        )[j - corpus_pairs(prev_docs).len()],
                    forall|j: int|
                        corpus_pairs(prev_docs).len() <= j < sims@.len() ==> #[trigger] sims@[j]
                            == spec_similarity(
                            query_embedding@,
                            doc_embs(self.documents@[d as int])[j - corpus_pairs(
                                prev_docs,
                            ).len()],
                        ),
                decreases doc_len - c,
            {
                let text = self.documents[d].chunks[c].text.clone();
                let file = self.documents[d].filename.clone();
                let sim = cosine_similarity(query_embedding, &self.documents[d].chunks[c].embedding);
                texts.push(text);
                files.push(file);
                sims.push(sim);
                c = c + 1;
            }
            proof {
                assert(corpus_pairs(next_docs) =~= corpus_pairs(prev_docs) + doc_pairs(
                    self.documents@[d as int],
                ));
                assert(corpus_embs(next_docs) =~= corpus_embs(prev_docs) + doc_embs(
                    self.documents@[d as int],
                ));
                lemma_corpus_lens(prev_docs);
                lemma_corpus_lens(next_docs);
                assert forall|j: int| 0 <= j < sims@.len() implies #[trigger] sims@[j]
                    == spec_similarity(query_embedding@, corpus_embs(next_docs)[j]) by {
                    if j < corpus_pairs(prev_docs).len() {
                        assert(corpus_embs(next_docs)[j] == corpus_embs(prev_docs)[j]);
                    } else {
                        assert(corpus_embs(next_docs)[j] == doc_embs(self.documents@[d as int])[j
                            - corpus_pairs(prev_docs).len()]);
                    }
                }
                assert forall|j: int| 0 <= j < texts@.len() implies ((#[trigger] texts@[j])@,
                files@[j]@) == corpus_pairs(next_docs)[j] by {
                    if j < corpus_pairs(prev_docs).len() {
                        assert(corpus_pairs(next_docs)[j] == corpus_pairs(prev_docs)[j]);
                    } else {
                        assert(corpus_pairs(next_docs)[j] == doc_pairs(self.documents@[d as int])[j
                            - corpus_pairs(prev_docs).len()]);
                    }
                }
            }
            d = d + 1;
        }
        proof {
            assert(self.documents@.subrange(0, self.documents@.len() as int)
                =~= self.documents@);
            lemma_corpus_lens(self.documents@);
            assert(sims@ =~= query_sims(query_embedding@, embs));
        }
        let rank = rank_indices(&sims);
        let n = if top_n <= texts.len() {
            top_n
        } else {
            texts.len()
        };
        let mut r: Vec<(String, String)> = Vec::new();
        let mut j: usize = 0;
        while j < n
            invariant
                0 <= j <= n,
                n <= texts@.len() && texts@.len() == files@.len(),
                is_stable_ranking(query_sims(query_embedding@, embs), rank@),
                rank@.len() == texts@.len(),
                forall|q: int| 0 <= q < rank@.len() ==> (#[trigger] rank@[q]) < texts@.len(),
                forall|q: int|
                    0 <= q < texts@.len() ==> ((#[trigger] texts@[q])@, files@[q]@) == pairs[q],
                r@.len() == j,
                forall|q: int|
                    0 <= q < j ==> ((#[trigger] r@[q]).0@, r@[q].1@) == pairs[rank@[q] as int],
            decreases n - j,
        {
            let idx = rank[j];
            r.push((texts[idx].clone(), files[idx].clone()));
            j = j + 1;
        }
        proof {
            assert(pairs.len() == texts@.len());
        }
        r
    }

    /// The augmented prompt for a query: the retrieved pairs rendered as
    /// `From <filename>: <text>`, joined by blank lines, inside the fixed
    /// instruction template, ending with the response marker.
    pub fn generate_rag_prompt(
        &self,
        query_embedding: &Vec<i64>,
        query: &str,
        top_n: usize,
    ) -> (r: String)
        requires
            self.wf(),
            self.phase == ScanPhase::Ready,
            emb_bounded(query_embedding@),
        ensures
            ({
                let pairs = corpus_pairs(self.documents@);
                let sims = query_sims(query_embedding@, corpus_embs(self.documents@));
                let n = if top_n <= pairs.len() {
                    top_n as int
                } else {
                    pairs.len() as int
                };
                exists|rank: Seq<usize>|
                    #[trigger] is_stable_ranking(sims, rank) && r@ == spec_rag_prompt(
                        spec_context_block(Seq::new(n as nat, |j: int| pairs[rank[j] as int])),
                        query@,
                    )
            }),
    {
        let contexts = self.retrieve_context(query_embedding, top_n);
        let mut ctx = String::new();
        let mut j: usize = 0;
        let ghost cpairs = contexts@.map_values(|p: (String, String)| (p.0@, p.1@));
        proof {
            assert(cpairs.subrange(0, 0) =~= Seq::<(Seq<char>, Seq<char>)>::empty());
            assert(spec_context_block(cpairs.subrange(0, 0)) =~= Seq::<char>::empty());
        }
        while j < contexts.len()
            invariant
                0 <= j <= contexts@.len(),
                cpairs == contexts@.map_values(|p: (String, String)| (p.0@, p.1@)),
                ctx@ == spec_context_block(cpairs.subrange(0, j as int)),
            decreases contexts@.len() - j,
        {
            proof {
                assert(cpairs.subrange(0, j + 1).drop_last() =~= cpairs.subrange(0, j as int));
                assert(cpairs.subrange(0, j + 1).last() == cpairs[j as int]);
            }
            if j > 0 {
                ctx.append("\n\n");
            }
            ctx.append("From ");
            ctx.append(contexts[j].1.as_str());
            ctx.append(": ");
            ctx.append(contexts[j].0.as_str());
            j = j + 1;
        }
        proof {
            assert(cpairs.subrange(0, cpairs.len() as int) =~= cpairs);
        }
        let mut r = String::new();
        r.append("Take your time and analyse the following context:\n");
        r.append(ctx.as_str());
        r.append("\n\nNow use the context to answer the following query: ");
        r.append(query);
        r.append("\nPS: (End your response with [done])\nYour response: ");
        proof {
            let pairs = corpus_pairs(self.documents@);
            let sims = query_sims(query_embedding@, corpus_embs(self.documents@));
            let n = if top_n <= pairs.len() {
                top_n as int
            } else {
                pairs.len() as int
            };
            let rank = choose|rank: Seq<usize>|
                #[trigger] is_stable_ranking(sims, rank) && forall|q: int|
                    0 <= q < contexts@.len() ==> ((#[trigger] contexts@[q]).0@, contexts@[q].1@)
                        == pairs[rank[q] as int];
            assert(cpairs =~= Seq::new(n as nat, |q: int| pairs[rank[q] as int]));
            assert(r@ =~= spec_rag_prompt(
                spec_context_block(Seq::new(n as nat, |q: int| pairs[rank[q] as int])),
                query@,
            ));
            assert(is_stable_ranking(sims, rank) && r@ == spec_rag_prompt(
                spec_context_block(Seq::new(n as nat, |q: int| pairs[rank[q] as int])),
                query@,
            ));
        }
        r
    }
}

} // verus!
