//! Cosine similarity over fixed-point embedding vectors.
//!
//! Embeddings are held as integer fixed-point components. A similarity value
//! `dot / sqrt(den_sq)` is kept unreduced as the pair `(dot, den_sq)`, where
//! `den_sq` is the product of the two squared vector norms; comparisons are
//! carried out exactly by comparing signs and cross-multiplied squares, so no
//! rounding is ever introduced. A zero vector yields `den_sq == 0`, the
//! undefined case, which every comparison treats as equal to anything.

use vstd::prelude::*;

verus! {

/// Largest admitted embedding dimension.
pub const MAX_EMBED_DIM: usize = 1024;

/// Largest admitted magnitude of one fixed-point component.
pub const MAX_EMBED_MAG: i64 = 1024;

/// Dot products of admitted vectors stay within this magnitude.
pub const MAX_DOT: i64 = 0x4000_0000;

/// A vector whose dimension and component magnitudes are admitted.
pub open spec fn emb_bounded(a: Seq<i64>) -> bool {
    &&& a.len() <= MAX_EMBED_DIM
    &&& forall|k: int| 0 <= k < a.len() ==> -MAX_EMBED_MAG <= #[trigger] a[k] <= MAX_EMBED_MAG
}

/// Dot product of the first `n` components of `a` and `b`.
pub open spec fn dot_prefix(a: Seq<i64>, b: Seq<i64>, n: int) -> int
    decreases n,
{
    if n <= 0 {
        0
    } else {
        dot_prefix(a, b, n - 1) + a[n - 1] * b[n - 1]
    }
}

/// Number of component pairs entering a dot product: the shorter length.
pub open spec fn dot_len(a: Seq<i64>, b: Seq<i64>) -> int {
    if a.len() <= b.len() {
        a.len() as int
    } else {
        b.len() as int
    }
}

/// Dot product of two vectors, over the components both of them have.
pub open spec fn spec_dot(a: Seq<i64>, b: Seq<i64>) -> int {
    dot_prefix(a, b, dot_len(a, b))
}

/// Squared Euclidean norm.
pub open spec fn spec_norm_sq(a: Seq<i64>) -> int {
    spec_dot(a, a)
}

/// An unevaluated cosine similarity `dot / sqrt(den_sq)`.
#[derive(Clone, Copy, Debug, PartialEq, Eq, Structural)]
pub struct Similarity {
    /// Dot product of the two vectors.
    pub dot: i64,
    /// Product of the two squared norms; zero exactly when the value is
    /// undefined (one of the vectors is zero).
    pub den_sq: i64,
}

/// The similarity a pair of admitted vectors denotes.
pub open spec fn spec_similarity(a: Seq<i64>, b: Seq<i64>) -> Similarity {
    Similarity {
        dot: spec_dot(a, b) as i64,
        den_sq: (spec_norm_sq(a) * spec_norm_sq(b)) as i64,
    }
}

/// Bounds under which comparisons cannot overflow.
pub open spec fn sim_wf(s: Similarity) -> bool {
    &&& -MAX_DOT <= s.dot <= MAX_DOT
    &&& 0 <= s.den_sq <= MAX_DOT * MAX_DOT
}

/// The similarity is undefined (a zero vector was involved).
pub open spec fn sim_is_nan(s: Similarity) -> bool {
    s.den_sq == 0
}

/// `x` denotes a strictly smaller cosine than `y`; both must be defined.
///
/// `dot_x / sqrt(den_x) < dot_y / sqrt(den_y)` is decided by sign, then by
/// comparing squares cross-multiplied with the opposite denominator.
pub open spec fn sim_lt(x: Similarity, y: Similarity) -> bool {
    ||| (x.dot < 0 && y.dot >= 0)
    ||| (x.dot >= 0 && y.dot >= 0 && x.dot * x.dot * y.den_sq < y.dot * y.dot * x.den_sq)
    ||| (x.dot < 0 && y.dot < 0 && x.dot * x.dot * y.den_sq > y.dot * y.dot * x.den_sq)
}

/// Ordering of two similarities, as the ranker uses it: an undefined value
/// compares equal to everything, so the order stays total.
#[derive(Clone, Copy, Debug, PartialEq, Eq, Structural)]
pub enum SimOrd {
    Less,
    Equal,
    Greater,
}

/// How `x` compares to `y`.
pub open spec fn spec_sim_cmp(x: Similarity, y: Similarity) -> SimOrd {
    if sim_is_nan(x) || sim_is_nan(y) {
        SimOrd::Equal
    } else if sim_lt(x, y) {
        SimOrd::Less
    } else if sim_lt(y, x) {
        SimOrd::Greater
    } else {
        SimOrd::Equal
    }
}

/// `sim_lt` is asymmetric, so `spec_sim_cmp` never calls the same defined
/// pair both smaller and greater.
pub proof fn lemma_sim_lt_asymmetric(x: Similarity, y: Similarity)
    ensures
        !(sim_lt(x, y) && sim_lt(y, x)),
{
}

/// A dot product of bounded vectors over `n` components is bounded by
/// `n * MAX_EMBED_MAG^2`.
pub proof fn lemma_dot_prefix_bound(a: Seq<i64>, b: Seq<i64>, n: int)
    requires
        emb_bounded(a),
        emb_bounded(b),
        0 <= n <= dot_len(a, b),
    ensures
        -(n * MAX_EMBED_MAG * MAX_EMBED_MAG) <= dot_prefix(a, b, n) <= n * MAX_EMBED_MAG
            * MAX_EMBED_MAG,
    decreases n,
{
    if n > 0 {
        lemma_dot_prefix_bound(a, b, n - 1);
        assert(-(MAX_EMBED_MAG * MAX_EMBED_MAG) <= a[n - 1] * b[n - 1] <= MAX_EMBED_MAG
            * MAX_EMBED_MAG) by (nonlinear_arith)
            requires
                -MAX_EMBED_MAG <= a[n - 1] <= MAX_EMBED_MAG,
                -MAX_EMBED_MAG <= b[n - 1] <= MAX_EMBED_MAG,
        ;
    }
}

/// A squared norm is non-negative, and strictly positive as soon as one of
/// the first `n` components is non-zero.
pub proof fn lemma_norm_sq_prefix_positive(a: Seq<i64>, n: int)
    requires
        0 <= n <= a.len(),
    ensures
        dot_prefix(a, a, n) >= 0,
        (exists|k: int| 0 <= k < n && a[k] != 0) ==> dot_prefix(a, a, n) > 0,
    decreases n,
{
    if n > 0 {
        lemma_norm_sq_prefix_positive(a, n - 1);
        assert(a[n - 1] * a[n - 1] >= 0) by (nonlinear_arith);
        if a[n - 1] == 0 {
            if exists|k: int| 0 <= k < n && a[k] != 0 {
                let k = choose|k: int| 0 <= k < n && a[k] != 0;
                assert(0 <= k < n - 1 && a[k] != 0);
            }
        } else {
            assert(a[n - 1] * a[n - 1] > 0) by (nonlinear_arith)
                requires
                    a[n - 1] != 0,
            ;
        }
    }
}

/// The similarity of a non-zero vector with itself is exactly one:
/// `dot / sqrt(dot * dot) == 1`, with no tolerance involved.
pub open spec fn sim_is_one(s: Similarity) -> bool {
    s.dot > 0 && s.dot * s.dot == s.den_sq
}

/// Similarity of any non-zero admitted vector with itself is exactly one.
pub proof fn lemma_cosine_self_is_one(a: Seq<i64>)
    requires
        emb_bounded(a),
        exists|k: int| 0 <= k < a.len() && a[k] != 0,
    ensures
        sim_is_one(spec_similarity(a, a)),
{
    let n = a.len() as int;
    lemma_norm_sq_prefix_positive(a, n);
    lemma_dot_prefix_bound(a, a, n);
    let d = spec_dot(a, a);
    assert(0 < d <= MAX_DOT) by {
        assert(n * MAX_EMBED_MAG * MAX_EMBED_MAG <= MAX_DOT) by (nonlinear_arith)
            requires
                0 <= n <= MAX_EMBED_DIM,
        ;
    }
    assert(d * d <= MAX_DOT * MAX_DOT) by (nonlinear_arith)
        requires
            0 < d <= MAX_DOT,
    ;
}

/// Dot products, and therefore similarities, are symmetric in their two
/// arguments: `spec_similarity(a, b) == spec_similarity(b, a)`.
pub proof fn lemma_cosine_symmetric(a: Seq<i64>, b: Seq<i64>)
    ensures
        spec_dot(a, b) == spec_dot(b, a),
        spec_similarity(a, b) == spec_similarity(b, a),
{
    assert forall|n: int| 0 <= n <= dot_len(a, b) implies dot_prefix(a, b, n) == dot_prefix(
        b,
        a,
        n,
    ) by {
        lemma_dot_prefix_symmetric(a, b, n);
    }
    assert(spec_norm_sq(a) * spec_norm_sq(b) == spec_norm_sq(b) * spec_norm_sq(a))
        by (nonlinear_arith);
}

proof fn lemma_dot_prefix_symmetric(a: Seq<i64>, b: Seq<i64>, n: int)
    ensures
        dot_prefix(a, b, n) == dot_prefix(b, a, n),
    decreases n,
{
    if n > 0 {
        lemma_dot_prefix_symmetric(a, b, n - 1);
        assert(a[n - 1] * b[n - 1] == b[n - 1] * a[n - 1]) by (nonlinear_arith);
    }
}

/// Computes the similarity of two admitted vectors: their dot product over
/// the product of their norms, kept in exact unevaluated form.
pub fn cosine_similarity(a: &Vec<i64>, b: &Vec<i64>) -> (r: Similarity)
    requires
        emb_bounded(a@),
        emb_bounded(b@),
    ensures
        r == spec_similarity(a@, b@),
        sim_wf(r),
        sim_is_nan(r) <==> spec_norm_sq(a@) == 0 || spec_norm_sq(b@) == 0,
{
    let n = if a.len() <= b.len() {
        a.len()
    } else {
        b.len()
    };
    let mut dot: i64 = 0;
    let mut i: usize = 0;
    while i < n
        invariant
            emb_bounded(a@),
            emb_bounded(b@),
            n == dot_len(a@, b@),
            0 <= i <= n,
            dot == dot_prefix(a@, b@, i as int),
            -(i * MAX_EMBED_MAG * MAX_EMBED_MAG) <= dot <= i * MAX_EMBED_MAG * MAX_EMBED_MAG,
        decreases n - i,
    {
        proof {
            assert(-(MAX_EMBED_MAG * MAX_EMBED_MAG) <= a@[i as int] * b@[i as int] <= MAX_EMBED_MAG
                * MAX_EMBED_MAG) by (nonlinear_arith)
                requires
                    -MAX_EMBED_MAG <= a@[i as int] <= MAX_EMBED_MAG,
                    -MAX_EMBED_MAG <= b@[i as int] <= MAX_EMBED_MAG,
            ;
            assert(i * MAX_EMBED_MAG * MAX_EMBED_MAG + MAX_EMBED_MAG * MAX_EMBED_MAG == (i + 1)
                * MAX_EMBED_MAG * MAX_EMBED_MAG) by (nonlinear_arith);
        }
        dot = dot + a[i] * b[i];
        i = i + 1;
    }
    let norm_a_sq = norm_sq(a);
    let norm_b_sq = norm_sq(b);
    proof {
        assert(n * MAX_EMBED_MAG * MAX_EMBED_MAG <= MAX_DOT) by (nonlinear_arith)
            requires
                0 <= n <= MAX_EMBED_DIM,
        ;
        lemma_norm_sq_prefix_positive(a@, a@.len() as int);
        lemma_norm_sq_prefix_positive(b@, b@.len() as int);
        assert(0 <= spec_norm_sq(a@) * spec_norm_sq(b@) <= MAX_DOT * MAX_DOT) by (nonlinear_arith)
            requires
                0 <= spec_norm_sq(a@) <= MAX_DOT,
                0 <= spec_norm_sq(b@) <= MAX_DOT,
        ;
        assert((spec_norm_sq(a@) * spec_norm_sq(b@) == 0) <==> (spec_norm_sq(a@) == 0
            || spec_norm_sq(b@) == 0)) by (nonlinear_arith)
            requires
                0 <= spec_norm_sq(a@),
                0 <= spec_norm_sq(b@),
        ;
    }
    let den_sq = norm_a_sq * norm_b_sq;
    Similarity { dot, den_sq }
}

/// Computes the squared norm of an admitted vector.
pub fn norm_sq(a: &Vec<i64>) -> (r: i64)
    requires
        emb_bounded(a@),
    ensures
        r == spec_norm_sq(a@),
        0 <= r <= MAX_DOT,
{
    let mut acc: i64 = 0;
    let mut i: usize = 0;
    while i < a.len()
        invariant
            emb_bounded(a@),
            0 <= i <= a@.len(),
            acc == dot_prefix(a@, a@, i as int),
            0 <= acc <= i * MAX_EMBED_MAG * MAX_EMBED_MAG,
        decreases a@.len() - i,
    {
        proof {
            assert(0 <= a@[i as int] * a@[i as int] <= MAX_EMBED_MAG * MAX_EMBED_MAG)
                by (nonlinear_arith)
                requires
                    -MAX_EMBED_MAG <= a@[i as int] <= MAX_EMBED_MAG,
            ;
            assert(i * MAX_EMBED_MAG * MAX_EMBED_MAG + MAX_EMBED_MAG * MAX_EMBED_MAG == (i + 1)
                * MAX_EMBED_MAG * MAX_EMBED_MAG) by (nonlinear_arith);
            assert(i * MAX_EMBED_MAG * MAX_EMBED_MAG <= MAX_DOT) by (nonlinear_arith)
                requires
                    0 <= i < MAX_EMBED_DIM,
            ;
        }
        acc = acc + a[i] * a[i];
        i = i + 1;
    }
    proof {
        assert(a@.len() * MAX_EMBED_MAG * MAX_EMBED_MAG <= MAX_DOT) by (nonlinear_arith)
            requires
                0 <= a@.len() <= MAX_EMBED_DIM,
        ;
    }
    acc
}

/// Compares two similarities exactly, treating an undefined value as equal
/// to anything, as the ranker requires.
pub fn sim_cmp(x: &Similarity, y: &Similarity) -> (r: SimOrd)
    requires
        sim_wf(*x),
        sim_wf(*y),
    ensures
        r == spec_sim_cmp(*x, *y),
{
    if x.den_sq == 0 || y.den_sq == 0 {
        return SimOrd::Equal;
    }
    let xd = x.dot as i128;
    let yd = y.dot as i128;
    proof {
        assert(0 <= xd * xd <= (MAX_DOT as i128) * (MAX_DOT as i128)) by (nonlinear_arith)
            requires
                -MAX_DOT <= xd <= MAX_DOT,
        ;
        assert(0 <= yd * yd <= (MAX_DOT as i128) * (MAX_DOT as i128)) by (nonlinear_arith)
            requires
                -MAX_DOT <= yd <= MAX_DOT,
        ;
        assert(-(MAX_DOT as i128) * (MAX_DOT as i128) * (MAX_DOT as i128) * (MAX_DOT as i128)
            <= xd * xd * (y.den_sq as i128) <= (MAX_DOT as i128) * (MAX_DOT as i128) * (
        MAX_DOT as i128) * (MAX_DOT as i128)) by (nonlinear_arith)
            requires
                -MAX_DOT <= xd <= MAX_DOT,
                0 <= y.den_sq <= MAX_DOT * MAX_DOT,
        ;
        assert(-(MAX_DOT as i128) * (MAX_DOT as i128) * (MAX_DOT as i128) * (MAX_DOT as i128)
            <= yd * yd * (x.den_sq as i128) <= (MAX_DOT as i128) * (MAX_DOT as i128) * (
        MAX_DOT as i128) * (MAX_DOT as i128)) by (nonlinear_arith)
            requires
                -MAX_DOT <= yd <= MAX_DOT,
                0 <= x.den_sq <= MAX_DOT * MAX_DOT,
        ;
    }
    let xsq = xd * xd * (y.den_sq as i128);
    let ysq = yd * yd * (x.den_sq as i128);
    if x.dot < 0 && y.dot >= 0 {
        SimOrd::Less
    } else if x.dot >= 0 && y.dot < 0 {
        SimOrd::Greater
    } else if x.dot >= 0 {
        if xsq < ysq {
            SimOrd::Less
        } else if xsq > ysq {
            SimOrd::Greater
        } else {
            SimOrd::Equal
        }
    } else {
        if xsq > ysq {
            SimOrd::Less
        } else if xsq < ysq {
            SimOrd::Greater
        } else {
            SimOrd::Equal
        }
    }
}

} // verus!
