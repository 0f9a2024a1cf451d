//! Splitting a document's words into overlapping windows.
//!
//! A document is chunked by word count: windows of `window` words start at
//! `0, window - overlap, 2 * (window - overlap), ...`; the final window ends
//! exactly at the last word and may be shorter than `window`.

use vstd::prelude::*;

verus! {

/// The window spans produced for a text of `len` words, starting at word `i`.
///
/// Each span is a half-open interval `(start, end)` of word indices.
pub open spec fn chunk_spans_from(len: int, window: int, overlap: int, i: int) -> Seq<(int, int)>
    decreases len - i
        when 0 <= overlap < window
{
    if i < 0 || i >= len {
        Seq::empty()
    } else {
        let end = if i + window < len {
            i + window
        } else {
            len
        };
        if end == len {
            seq![(i, end)]
        } else {
            seq![(i, end)] + chunk_spans_from(len, window, overlap, i + (window - overlap))
        }
    }
}

/// All window spans for a text of `len` words.
pub open spec fn spec_chunk_spans(len: int, window: int, overlap: int) -> Seq<(int, int)> {
    chunk_spans_from(len, window, overlap, 0)
}

/// Every span in `chunk_spans_from(len, window, overlap, i)` is well formed:
/// starts are spaced `window - overlap` apart, every span but the last is a
/// full window, and the last end equals `len`.
pub proof fn lemma_chunk_spans_from(len: int, window: int, overlap: int, i: int)
    requires
        0 <= overlap < window,
        0 <= i < len,
    ensures
        ({
            let s = chunk_spans_from(len, window, overlap, i);
            &&& s.len() > 0
            &&& s[0].0 == i
            &&& forall|k: int|
                0 <= k < s.len() ==> i <= (#[trigger] s[k]).0 < s[k].1 <= len
            &&& forall|k: int|
                0 <= k < s.len() - 1 ==> (#[trigger] s[k]).1 == s[k].0 + window
            &&& forall|k: int|
                #![trigger s[k], s[k - 1]]
                1 <= k < s.len() ==> s[k].0 == s[k - 1].0 + (window - overlap)
            &&& s[s.len() - 1].1 == len
        }),
    decreases len - i,
{
    let s = chunk_spans_from(len, window, overlap, i);
    let end = if i + window < len {
        i + window
    } else {
        len
    };
    if end != len {
        let j = i + (window - overlap);
        let rest = chunk_spans_from(len, window, overlap, j);
        lemma_chunk_spans_from(len, window, overlap, j);
        assert(s == seq![(i, end)] + rest);
        assert(forall|k: int| 1 <= k < s.len() ==> #[trigger] s[k] == rest[k - 1]);
        assert forall|k: int| 0 <= k < s.len() - 1 implies (#[trigger] s[k]).1 == s[k].0
            + window by {
            if k >= 1 {
                assert(s[k] == rest[k - 1]);
            }
        }
        assert forall|k: int| #![trigger s[k], s[k - 1]] 1 <= k < s.len() implies s[k].0 == s[k
            - 1].0 + (window - overlap) by {
            if k == 1 {
                assert(s[1] == rest[0]);
            } else {
                assert(s[k] == rest[k - 1]);
                assert(s[k - 1] == rest[k - 2]);
            }
        }
        assert(s[s.len() - 1] == rest[rest.len() - 1]);
    }
}

/// The words of a text are covered in order and without gaps: the first chunk
/// starts at word 0, consecutive chunks overlap by exactly `overlap` words,
/// and the last chunk ends exactly at the word count.
#[verifier::rlimit(50)]
pub proof fn lemma_chunk_spans_cover(len: int, window: int, overlap: int)
    requires
        0 <= overlap < window,
        len > 0,
    ensures
        ({
            let s = spec_chunk_spans(len, window, overlap);
            &&& s.len() > 0
            &&& s[0].0 == 0
            &&& s[s.len() - 1].1 == len
            &&& forall|k: int|
                0 <= k < s.len() ==> 0 <= (#[trigger] s[k]).0 < s[k].1 <= len
            &&& forall|k: int|
                #![trigger s[k], s[k - 1]]
                1 <= k < s.len() ==> s[k].0 == s[k - 1].1 - overlap
        }),
{
    lemma_chunk_spans_from(len, window, overlap, 0);
    let s = spec_chunk_spans(len, window, overlap);
    // A chunk other than the last is a full window: its end is its start plus
    // `window`, so the next start, `window - overlap` later, sits `overlap`
    // words before that end.
    assert forall|k: int| #![trigger s[k], s[k - 1]] 1 <= k < s.len() implies s[k].0 == s[k
        - 1].1 - overlap by {
        assert(s[k - 1].1 == s[k - 1].0 + window);
        assert(s[k].0 == s[k - 1].0 + (window - overlap));
    }
}

/// The end of the window starting at word `i`: `window` words on, capped
/// at the word count.
pub fn chunk_window_end(len: usize, window: usize, i: usize) -> (r: usize)
    requires
        i < len,
    ensures
        r == if i + window < len {
            i + window
        } else {
            len as int
        },
{
    if len - i > window {
        i + window
    } else {
        len
    }
}

/// Where the next window starts after the one at `i`, given whether its
/// embedding attempt succeeded: a successful window is followed `window -
/// overlap` later, a failed one is skipped whole; `None` when the text is
/// exhausted. This is the advance rule of both the span list and the
/// chunk walk, for a driving loop to call instead of re-deciding it.
pub fn chunk_next_start(len: usize, window: usize, overlap: usize, i: usize, success: bool) -> (r:
    Option<usize>)
    requires
        overlap < window,
        i < len,
    ensures
        ({
            let end = if i + window < len {
                i + window
            } else {
                len as int
            };
            if end == len {
                r is None
            } else if success {
                r == Some((end - overlap) as usize)
            } else {
                r == Some(end as usize)
            }
        }),
{
    let end = chunk_window_end(len, window, i);
    if end == len {
        None
    } else if success {
        Some(end - overlap)
    } else {
        Some(end)
    }
}

/// Computes the word-index spans of every chunk of a `len`-word text.
pub fn chunk_spans(len: usize, window: usize, overlap: usize) -> (r: Vec<(usize, usize)>)
    requires
        overlap < window,
    ensures
        r@.map_values(|p: (usize, usize)| (p.0 as int, p.1 as int)) == spec_chunk_spans(
            len as int,
            window as int,
            overlap as int,
        ),
{
    let ghost full = spec_chunk_spans(len as int, window as int, overlap as int);
    let mut r: Vec<(usize, usize)> = Vec::new();
    let mut i: usize = 0;
    let mut done = len == 0;
    while !done
        invariant
            overlap < window,
            done ==> r@.map_values(|p: (usize, usize)| (p.0 as int, p.1 as int)) == full,
            !done ==> 0 <= i < len && r@.map_values(|p: (usize, usize)| (p.0 as int, p.1 as int))
                + chunk_spans_from(len as int, window as int, overlap as int, i as int) == full,
        decreases len - i + (if done { 0int } else { 1int }),
    {
        let end = if len - i > window {
            i + window
        } else {
            len
        };
        r.push((i, end));
        if end == len {
            done = true;
            proof {
                assert(r@.map_values(|p: (usize, usize)| (p.0 as int, p.1 as int)) =~= full);
            }
        } else {
            proof {
                assert(r@.map_values(|p: (usize, usize)| (p.0 as int, p.1 as int))
                    + chunk_spans_from(
                    len as int,
                    window as int,
                    overlap as int,
                    i + (window - overlap),
                ) =~= full);
            }
            i = i + (window - overlap);
        }
    }
    r
}

} // verus!
