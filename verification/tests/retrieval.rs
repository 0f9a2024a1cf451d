use levchat::engine::RagProcessor;
use levchat::ranker::rank_indices;
use levchat::similarity::{cosine_similarity, sim_cmp, SimOrd, Similarity};

fn emb(v: &[i64]) -> Vec<i64> {
    v.to_vec()
}

#[test]
fn cosine_of_vector_with_itself_is_exactly_one() {
    // dot / sqrt(den_sq) == 1 exactly: the dot equals the norm product's
    // square root, with no floating-point tolerance involved.
    let a = emb(&[3, 4, 0]);
    let s = cosine_similarity(&a, &a);
    assert_eq!(s.dot, 25);
    assert_eq!(s.den_sq, 625);
    assert!(s.dot > 0 && (s.dot as i128) * (s.dot as i128) == s.den_sq as i128);
}

#[test]
fn cosine_is_symmetric() {
    let a = emb(&[1, 2, 3]);
    let b = emb(&[-4, 5, 6]);
    assert_eq!(cosine_similarity(&a, &b), cosine_similarity(&b, &a));
}

#[test]
fn zero_vector_compares_equal_to_anything() {
    let q = emb(&[1, 0]);
    let zero = emb(&[0, 0]);
    let one = emb(&[1, 0]);
    let s_nan = cosine_similarity(&q, &zero);
    let s_one = cosine_similarity(&q, &one);
    assert_eq!(s_nan.den_sq, 0);
    assert_eq!(sim_cmp(&s_nan, &s_one), SimOrd::Equal);
    assert_eq!(sim_cmp(&s_one, &s_nan), SimOrd::Equal);
    assert_eq!(sim_cmp(&s_nan, &s_nan), SimOrd::Equal);
}

#[test]
fn sim_cmp_orders_by_cosine() {
    let q = emb(&[1000, 0]);
    let close = cosine_similarity(&q, &emb(&[999, 40]));
    let far = cosine_similarity(&q, &emb(&[10, 1000]));
    let negative = cosine_similarity(&q, &emb(&[-1000, 0]));
    assert_eq!(sim_cmp(&close, &far), SimOrd::Greater);
    assert_eq!(sim_cmp(&far, &close), SimOrd::Less);
    assert_eq!(sim_cmp(&negative, &far), SimOrd::Less);
    assert_eq!(sim_cmp(&close, &close), SimOrd::Equal);
}

#[test]
fn ranking_is_descending() {
    let q = emb(&[1000, 0]);
    let sims = vec![
        cosine_similarity(&q, &emb(&[0, 1000])),
        cosine_similarity(&q, &emb(&[1000, 0])),
        cosine_similarity(&q, &emb(&[707, 707])),
    ];
    assert_eq!(rank_indices(&sims), vec![1, 2, 0]);
}

#[test]
fn ranking_is_stable_on_ties() {
    // Equal similarities keep their input order.
    let s = Similarity { dot: 1, den_sq: 4 };
    let t = Similarity { dot: 2, den_sq: 16 };
    let low = Similarity { dot: 1, den_sq: 16 };
    let sims = vec![s, low, t, s];
    // s and t denote the same cosine (1/2), so positions 0, 2, 3 tie and
    // stay in order; the smaller value goes last.
    assert_eq!(rank_indices(&sims), vec![0, 2, 3, 1]);
}

#[test]
fn ranking_with_undefined_values_keeps_order_of_ties() {
    let nan = Similarity { dot: 0, den_sq: 0 };
    let hi = Similarity { dot: 1, den_sq: 1 };
    let sims = vec![nan, hi, nan];
    let rank = rank_indices(&sims);
    assert_eq!(rank.len(), 3);
    // Undefined compares equal to everything, so nothing may overtake:
    // the input order is kept.
    assert_eq!(rank, vec![0, 1, 2]);
}

#[test]
fn retrieve_returns_top_n_pairs_ranked() {
    // A corpus of one document whose chunking yields three chunks:
    // retrieving two returns exactly the two best, best first.
    let mut engine = RagProcessor::new(2, 1);
    let outcomes = vec![
        Some(emb(&[1000, 0])),
        Some(emb(&[0, 1000])),
        Some(emb(&[707, 707])),
    ];
    engine.add_document("doc.pdf".to_string(), "a b c d".to_string(), &outcomes).unwrap();
    engine.complete_scan();
    let query = emb(&[1000, 0]);
    let got = engine.retrieve_context(&query, 2);
    assert_eq!(got.len(), 2);
    assert_eq!(got[0], ("a b".to_string(), "doc.pdf".to_string()));
    assert_eq!(got[1], ("c d".to_string(), "doc.pdf".to_string()));
    let all = engine.retrieve_context(&query, 10);
    assert_eq!(all.len(), 3);
}

#[test]
fn generate_rag_prompt_uses_template() {
    let mut engine = RagProcessor::new(2, 1);
    let outcomes = vec![Some(emb(&[1000, 0]))];
    engine.add_document("notes.pdf".to_string(), "alpha beta".to_string(), &outcomes).unwrap();
    engine.complete_scan();
    let query = emb(&[1000, 0]);
    let prompt = engine.generate_rag_prompt(&query, "What is alpha?", 3);
    let expected = format!(
        "Take your time and analyse the following context:\n{}\n\nNow use the context to answer the following query: {}\nPS: (End your response with [done])\nYour response: ",
        "From notes.pdf: alpha beta", "What is alpha?"
    );
    assert_eq!(prompt, expected);
}
