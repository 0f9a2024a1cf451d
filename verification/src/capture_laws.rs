//! Laws of the capture machine: stripping already-stripped text is a
//! no-op, and the emitted answer does not depend on how the byte stream
//! was cut into blocks.

use vstd::prelude::*;
use vstd::utf8::{pop_first_scalar, valid_utf8};

use crate::capture::{
    done_marker, end_text_marker, find_from, has_sub_at, last_nl, lemma_find_from_props,
    lemma_last_nl_props, match_len_at, spec_feed, spec_feed_capturing, spec_find, spec_strip,
    start_marker, strip_from,
};

verus! {

/// No control bytes that stripping would act on: neither an escape nor the
/// lone control byte.
pub open spec fn control_free(s: Seq<u8>) -> bool {
    forall|k: int| 0 <= k < s.len() ==> (#[trigger] s[k]) != 0x1b && s[k] != 0x03
}

/// Stripping passes a control-free suffix through unchanged.
pub proof fn lemma_strip_control_free(s: Seq<u8>, i: int)
    requires
        control_free(s),
        0 <= i <= s.len(),
    ensures
        strip_from(s, i) == s.subrange(i, s.len() as int),
    decreases s.len() - i,
{
    if i < s.len() {
        assert(match_len_at(s, i) == 0);
        lemma_strip_control_free(s, i + 1);
        assert(seq![s[i]] + s.subrange(i + 1, s.len() as int) =~= s.subrange(i, s.len() as int));
    } else {
        assert(s.subrange(i, s.len() as int) =~= Seq::<u8>::empty());
    }
}

/// A control-free string strips to itself.
pub proof fn lemma_strip_of_clean(s: Seq<u8>)
    requires
        control_free(s),
    ensures
        spec_strip(s) == s,
{
    lemma_strip_control_free(s, 0);
    assert(s.subrange(0, s.len() as int) =~= s);
}

/// One pass leaves no control byte behind: a position is kept only when
/// no sequence starts there, and every escape or lone control byte starts
/// one (a stray escape counts as its own one-byte sequence).
pub proof fn lemma_strip_output_clean(s: Seq<u8>, i: int)
    requires
        0 <= i,
    ensures
        control_free(strip_from(s, i)),
    decreases s.len() - i,
{
    if i < s.len() {
        let m = match_len_at(s, i);
        if m > 0 {
            lemma_strip_output_clean(s, i + m);
        } else {
            lemma_strip_output_clean(s, i + 1);
            assert(s[i] != 0x1b && s[i] != 0x03) by {
                if s[i] == 0x1b || s[i] == 0x03 {
                    crate::capture::lemma_control_byte_matches(s, i);
                }
            }
            let out = seq![s[i]] + strip_from(s, i + 1);
            assert forall|k: int| 0 <= k < out.len() implies (#[trigger] out[k]) != 0x1b
                && out[k] != 0x03 by {
                if k > 0 {
                    assert(out[k] == strip_from(s, i + 1)[k - 1]);
                }
            }
        }
    }
}

/// Stripping already-stripped text is a no-op: the first pass leaves no
/// control byte behind, so the second finds nothing to act on.
pub proof fn lemma_strip_idempotent(s: Seq<u8>)
    ensures
        spec_strip(spec_strip(s)) == spec_strip(s),
{
    lemma_strip_output_clean(s, 0);
    lemma_strip_of_clean(spec_strip(s));
}

/// ASCII bytes only: no control bytes and no multi-byte encodings, so any
/// cut of the stream yields valid UTF-8 blocks that strip to themselves.
pub open spec fn clean_ascii(s: Seq<u8>) -> bool {
    forall|k: int|
        0 <= k < s.len() ==> (#[trigger] s[k]) != 0x1b && s[k] != 0x03 && s[k] < 0x80
}

/// An all-ASCII byte sequence is valid UTF-8.
pub proof fn lemma_ascii_valid_utf8(s: Seq<u8>)
    requires
        forall|k: int| 0 <= k < s.len() ==> (#[trigger] s[k]) < 0x80,
    ensures
        valid_utf8(s),
    decreases s.len(),
{
    if s.len() > 0 {
        let b0 = s[0];
        assert(b0 < 0x80);
        assert((b0 & 0x7f) < 0x80) by (bit_vector)
            requires
                b0 < 0x80,
        ;
        let rest = pop_first_scalar(s);
        assert(rest =~= s.subrange(1, s.len() as int));
        assert(forall|k: int| 0 <= k < rest.len() ==> (#[trigger] rest[k]) < 0x80);
        lemma_ascii_valid_utf8(rest);
    }
}

/// An occurrence inside a subrange is an occurrence in the whole, shifted.
pub proof fn lemma_sub_occurrence(s: Seq<u8>, a: int, b: int, pat: Seq<u8>, i: int)
    requires
        0 <= a <= b <= s.len(),
    ensures
        has_sub_at(s.subrange(a, b), pat, i) <==> (0 <= i && a + i + pat.len() <= b && has_sub_at(
            s,
            pat,
            a + i,
        )),
{
    if 0 <= i && i + pat.len() <= b - a {
        assert(s.subrange(a, b).subrange(i, i + pat.len() as int) =~= s.subrange(
            a + i,
            a + i + pat.len() as int,
        ));
    }
}

/// A find that should land on a known first occurrence does.
pub proof fn lemma_find_is(s: Seq<u8>, pat: Seq<u8>, p: int)
    requires
        has_sub_at(s, pat, p),
        forall|j: int| 0 <= j < p ==> !has_sub_at(s, pat, j),
    ensures
        spec_find(s, pat) == p,
{
    lemma_find_from_props(s, pat, 0);
    let f = spec_find(s, pat);
    if f == -1 {
        assert(!has_sub_at(s, pat, p));
    } else if f < p {
        assert(!has_sub_at(s, pat, f));
    } else if f > p {
        assert(!has_sub_at(s, pat, p));
    }
}

/// A find over a string without occurrences fails.
pub proof fn lemma_find_none(s: Seq<u8>, pat: Seq<u8>)
    requires
        forall|j: int| 0 <= j ==> !has_sub_at(s, pat, j),
    ensures
        spec_find(s, pat) == -1,
{
    lemma_find_from_props(s, pat, 0);
    let f = spec_find(s, pat);
    if f >= 0 {
        assert(!has_sub_at(s, pat, f));
    }
}


/// Concatenation of emitted segments.
pub open spec fn concat_segs(segs: Seq<Seq<u8>>) -> Seq<u8>
    decreases segs.len(),
{
    if segs.len() == 0 {
        Seq::empty()
    } else {
        segs[0] + concat_segs(segs.drop_first())
    }
}

/// Concatenation of a block sequence back into the stream it cuts up.
pub open spec fn concat_blocks(blocks: Seq<Seq<u8>>) -> Seq<u8>
    decreases blocks.len(),
{
    if blocks.len() == 0 {
        Seq::empty()
    } else {
        blocks[0] + concat_blocks(blocks.drop_first())
    }
}

/// Runs the machine over the blocks in order; the third component is the
/// concatenation of everything emitted.
pub open spec fn spec_feed_all(buf: Seq<u8>, cap: bool, blocks: Seq<Seq<u8>>) -> (Seq<u8>, bool, Seq<
    u8,
>)
    decreases blocks.len(),
{
    if blocks.len() == 0 {
        (buf, cap, Seq::empty())
    } else {
        let step = spec_feed(buf, cap, blocks[0]);
        let rest = spec_feed_all(step.0, step.1, blocks.drop_first());
        (rest.0, rest.1, concat_segs(step.2) + rest.2)
    }
}

/// A marked stream: ASCII noise, then the first occurrence of the start
/// marker, then a captured tail whose one and only end-marker occurrence
/// is terminal. `mend` names which end marker closes it.
pub open spec fn stream_ok(pre: Seq<u8>, tail: Seq<u8>, mend: Seq<u8>) -> bool {
    let s = pre + start_marker() + tail;
    &&& clean_ascii(s)
    &&& spec_find(s, start_marker()) == pre.len()
    &&& (mend == done_marker() || mend == end_text_marker())
    &&& tail.len() >= mend.len()
    &&& has_sub_at(tail, mend, tail.len() - mend.len())
    &&& forall|i: int|
        #[trigger] has_sub_at(tail, done_marker(), i) ==> mend == done_marker() && i == tail.len()
            - done_marker().len()
    &&& forall|i: int|
        #[trigger] has_sub_at(tail, end_text_marker(), i) ==> mend == end_text_marker() && i
            == tail.len() - end_text_marker().len()
}

/// The machine's state after consuming the first `c` stream bytes, in any
/// block cut: before the start marker completes everything sits unemitted
/// in the buffer; afterwards the emitted bytes plus the buffer are exactly
/// the captured text so far, and the flush point stays left of the end
/// marker; at the stream's end everything is out and the machine is reset.
pub open spec fn run_inv(
    pre: Seq<u8>,
    tail: Seq<u8>,
    mend: Seq<u8>,
    c: int,
    buf: Seq<u8>,
    cap: bool,
    out: Seq<u8>,
) -> bool {
    let s = pre + start_marker() + tail;
    let m = (pre.len() + start_marker().len()) as int;
    if c < m {
        &&& !cap
        &&& buf == s.subrange(0, c)
        &&& out == Seq::<u8>::empty()
    } else if c < s.len() {
        &&& cap
        &&& out.len() <= c - m
        &&& m + out.len() + mend.len() <= s.len()
        &&& out == s.subrange(m, m + out.len())
        &&& buf == s.subrange(m + out.len(), c)
    } else {
        &&& !cap
        &&& buf.len() == 0
        &&& out == tail
    }
}

/// Concatenating a single emitted segment is that segment.
proof fn lemma_concat_one(x: Seq<u8>)
    ensures
        concat_segs(seq![x]) == x,
{
    assert(seq![x].drop_first() =~= Seq::<Seq<u8>>::empty());
    assert(concat_segs(Seq::<Seq<u8>>::empty()) =~= Seq::<u8>::empty());
    assert(concat_segs(seq![x]) =~= x);
}

/// The captured region of the stream is the tail.
proof fn lemma_tail_subrange(pre: Seq<u8>, tail: Seq<u8>)
    ensures
        (pre + start_marker() + tail).subrange(
            (pre.len() + start_marker().len()) as int,
            (pre + start_marker() + tail).len() as int,
        ) =~= tail,
{
}

/// Neither end marker contains a newline byte.
proof fn lemma_markers_no_newline()
    ensures
        forall|k: int|
            0 <= k < done_marker().len() ==> #[trigger] done_marker()[k] != 0x0a,
        forall|k: int|
            0 <= k < end_text_marker().len() ==> #[trigger] end_text_marker()[k] != 0x0a,
{
    assert forall|k: int| 0 <= k < done_marker().len() implies #[trigger] done_marker()[k]
        != 0x0a by {
        if k == 0 {
        } else if k == 1 {
        } else if k == 2 {
        } else if k == 3 {
        } else if k == 4 {
        } else {
            assert(k == 5);
        }
    }
    assert forall|k: int| 0 <= k < end_text_marker().len() implies #[trigger] end_text_marker()[k]
        != 0x0a by {
        assert(0 <= k < 13);
    }
}

/// One capturing step, on the accumulated suffix `s[f..c2]`: before the
/// stream's end nothing but newline flushing can happen; at the end the
/// terminal marker flushes the whole rest.
#[verifier::rlimit(100)]
proof fn lemma_feed_capturing_step(
    pre: Seq<u8>,
    tail: Seq<u8>,
    mend: Seq<u8>,
    f: int,
    c2: int,
    out: Seq<u8>,
)
    requires
        stream_ok(pre, tail, mend),
        ({
            let s = pre + start_marker() + tail;
            let m = (pre.len() + start_marker().len()) as int;
            &&& f == m + out.len()
            &&& f + mend.len() <= s.len()
            &&& f <= c2 <= s.len()
            &&& out == s.subrange(m, f)
        }),
    ensures
        ({
            let s = pre + start_marker() + tail;
            let acc = s.subrange(f, c2);
            let st = spec_feed_capturing(acc);
            run_inv(pre, tail, mend, c2, st.0, st.1, out + concat_segs(st.2))
        }),
{
    let s = pre + start_marker() + tail;
    let m = (pre.len() + start_marker().len()) as int;
    let acc = s.subrange(f, c2);
    lemma_tail_subrange(pre, tail);
    lemma_markers_no_newline();
    // Any end-marker occurrence in the accumulated text is one in the tail.
    assert forall|j: int| #[trigger] has_sub_at(acc, done_marker(), j) implies mend
        == done_marker() && f + j + done_marker().len() == s.len() by {
        lemma_sub_occurrence(s, f, c2, done_marker(), j);
        lemma_sub_occurrence(s, m, s.len() as int, done_marker(), f + j - m);
        assert(has_sub_at(tail, done_marker(), f + j - m));
    }
    assert forall|j: int| #[trigger] has_sub_at(acc, end_text_marker(), j) implies mend
        == end_text_marker() && f + j + end_text_marker().len() == s.len() by {
        lemma_sub_occurrence(s, f, c2, end_text_marker(), j);
        lemma_sub_occurrence(s, m, s.len() as int, end_text_marker(), f + j - m);
        assert(has_sub_at(tail, end_text_marker(), f + j - m));
    }
    if c2 < s.len() {
        // No end marker can be complete yet: its only occurrence is
        // terminal. Only the newline flush can fire.
        assert forall|j: int| 0 <= j implies !(#[trigger] has_sub_at(acc, done_marker(), j)) by {
            if has_sub_at(acc, done_marker(), j) {
                assert(f + j + done_marker().len() <= c2);
            }
        }
        assert forall|j: int| 0 <= j implies !(#[trigger] has_sub_at(
            acc,
            end_text_marker(),
            j,
        )) by {
            if has_sub_at(acc, end_text_marker(), j) {
                assert(f + j + end_text_marker().len() <= c2);
            }
        }
        lemma_find_none(acc, done_marker());
        lemma_find_none(acc, end_text_marker());
        lemma_last_nl_props(acc);
        let nl = last_nl(acc);
        if nl >= 0 {
            let st = spec_feed_capturing(acc);
            assert(st.2 =~= seq![acc.subrange(0, nl + 1)]);
            lemma_concat_one(acc.subrange(0, nl + 1));
            let out2 = out + acc.subrange(0, nl + 1);
            assert(out2 =~= s.subrange(m, f + nl + 1));
            assert(st.0 =~= s.subrange(f + nl + 1, c2));
            // The flush point stays left of the terminal marker: the byte
            // before it is a newline, and the marker holds none.
            assert(f + nl + 1 + mend.len() <= s.len()) by {
                if f + nl >= s.len() - mend.len() {
                    assert(has_sub_at(tail, mend, tail.len() - mend.len()));
                    lemma_sub_occurrence(s, m, s.len() as int, mend, tail.len() - mend.len());
                    assert(has_sub_at(s, mend, s.len() - mend.len()));
                    let kk = f + nl - (s.len() - mend.len());
                    assert(s.subrange(
                        s.len() - mend.len(),
                        s.len() as int,
                    )[kk] == mend[kk]);
                    assert(s[f + nl] == mend[kk]);
                    assert(acc[nl] == 0x0a);
                    assert(s[f + nl] == 0x0a);
                }
            }
        } else {
            let st = spec_feed_capturing(acc);
            assert(concat_segs(st.2) =~= Seq::<u8>::empty());
            assert(out + Seq::<u8>::empty() =~= out);
        }
    } else {
        // The stream ends here: the terminal marker is complete, and it is
        // the first (and only) occurrence the search can find.
        let istar = s.len() - mend.len() - f;
        assert(has_sub_at(tail, mend, tail.len() - mend.len()));
        lemma_sub_occurrence(s, m, s.len() as int, mend, tail.len() - mend.len());
        assert(has_sub_at(s, mend, s.len() - mend.len()));
        lemma_sub_occurrence(s, f, c2, mend, istar);
        assert(has_sub_at(acc, mend, istar));
        if mend == done_marker() {
            assert forall|j: int| 0 <= j < istar implies !(#[trigger] has_sub_at(
                acc,
                done_marker(),
                j,
            )) by {}
            lemma_find_is(acc, done_marker(), istar);
            let st = spec_feed_capturing(acc);
            assert(st.2 =~= seq![acc.subrange(0, istar + done_marker().len() as int)]);
            assert(acc.subrange(0, istar + done_marker().len() as int) =~= acc);
            lemma_concat_one(acc.subrange(0, istar + done_marker().len() as int));
            assert(out + acc =~= tail);
        } else {
            assert forall|j: int| 0 <= j implies !(#[trigger] has_sub_at(
                acc,
                done_marker(),
                j,
            )) by {}
            lemma_find_none(acc, done_marker());
            assert forall|j: int| 0 <= j < istar implies !(#[trigger] has_sub_at(
                acc,
                end_text_marker(),
                j,
            )) by {}
            lemma_find_is(acc, end_text_marker(), istar);
            let st = spec_feed_capturing(acc);
            assert(st.2 =~= seq![acc.subrange(0, istar + end_text_marker().len() as int)]);
            assert(acc.subrange(0, istar + end_text_marker().len() as int) =~= acc);
            lemma_concat_one(acc.subrange(0, istar + end_text_marker().len() as int));
            assert(out + acc =~= tail);
        }
    }
}

/// One block moves the machine from the state after `c` consumed bytes to
/// the state after `c + |block|`, whatever the cut.
proof fn lemma_feed_one(
    pre: Seq<u8>,
    tail: Seq<u8>,
    mend: Seq<u8>,
    c: int,
    block: Seq<u8>,
    buf: Seq<u8>,
    cap: bool,
    out: Seq<u8>,
)
    requires
        stream_ok(pre, tail, mend),
        0 <= c,
        c + block.len() <= (pre + start_marker() + tail).len(),
        block == (pre + start_marker() + tail).subrange(c, c + block.len()),
        run_inv(pre, tail, mend, c, buf, cap, out),
    ensures
        ({
            let st = spec_feed(buf, cap, block);
            run_inv(pre, tail, mend, c + block.len(), st.0, st.1, out + concat_segs(st.2))
        }),
{
    let s = pre + start_marker() + tail;
    let m = (pre.len() + start_marker().len()) as int;
    let c2 = c + block.len();
    assert forall|k: int| 0 <= k < block.len() implies (#[trigger] block[k]) < 0x80 by {
        assert(block[k] == s[c + k]);
    }
    lemma_ascii_valid_utf8(block);
    assert(control_free(block)) by {
        assert forall|k: int| 0 <= k < block.len() implies (#[trigger] block[k]) != 0x1b
            && block[k] != 0x03 by {
            assert(block[k] == s[c + k]);
        }
    }
    lemma_strip_of_clean(block);
    if c < m {
        let acc0 = buf + spec_strip(block);
        assert(acc0 =~= s.subrange(0, c2));
        if c2 < m {
            assert forall|j: int| 0 <= j implies !(#[trigger] has_sub_at(
                acc0,
                start_marker(),
                j,
            )) by {
                if has_sub_at(acc0, start_marker(), j) {
                    lemma_sub_occurrence(s, 0, c2, start_marker(), j);
                    lemma_find_from_props(s, start_marker(), 0);
                }
            }
            lemma_find_none(acc0, start_marker());
            let st = spec_feed(buf, cap, block);
            assert(concat_segs(st.2) =~= Seq::<u8>::empty());
            assert(out + Seq::<u8>::empty() =~= out);
        } else {
            lemma_find_from_props(s, start_marker(), 0);
            assert(has_sub_at(s, start_marker(), pre.len() as int));
            lemma_sub_occurrence(s, 0, c2, start_marker(), pre.len() as int);
            assert(has_sub_at(acc0, start_marker(), pre.len() as int));
            assert forall|j: int| 0 <= j < pre.len() implies !(#[trigger] has_sub_at(
                acc0,
                start_marker(),
                j,
            )) by {
                if has_sub_at(acc0, start_marker(), j) {
                    lemma_sub_occurrence(s, 0, c2, start_marker(), j);
                }
            }
            lemma_find_is(acc0, start_marker(), pre.len() as int);
            let acc1 = acc0.subrange((pre.len() + start_marker().len()) as int, acc0.len() as int);
            assert(acc1 =~= s.subrange(m, c2));
            assert(Seq::<u8>::empty() =~= s.subrange(m, m));
            lemma_feed_capturing_step(pre, tail, mend, m, c2, Seq::empty());
            let st = spec_feed(buf, cap, block);
            let stc = spec_feed_capturing(s.subrange(m, c2));
            assert(st.0 == stc.0 && st.1 == stc.1 && st.2 == stc.2);
            assert(out + concat_segs(st.2) =~= Seq::<u8>::empty() + concat_segs(stc.2));
        }
    } else if c < s.len() {
        let acc0 = buf + spec_strip(block);
        let f = m + out.len();
        assert(acc0 =~= s.subrange(f, c2));
        lemma_feed_capturing_step(pre, tail, mend, f, c2, out);
        let st = spec_feed(buf, cap, block);
        let stc = spec_feed_capturing(s.subrange(f, c2));
        assert(st.0 == stc.0 && st.1 == stc.1 && st.2 == stc.2);
    } else {
        // The stream is exhausted: only an empty block can remain, and it
        // does nothing.
        assert(block.len() == 0);
        let acc0 = buf + spec_strip(block);
        assert(acc0 =~= Seq::<u8>::empty());
        assert(acc0.len() == 0);
        assert(find_from(acc0, start_marker(), 0) == -1);
        let st = spec_feed(buf, cap, block);
        assert(concat_segs(st.2) =~= Seq::<u8>::empty());
        assert(out + Seq::<u8>::empty() =~= out);
    }
}

/// Running the rest of the stream from any invariant state finishes reset
/// with exactly the tail emitted.
proof fn lemma_feed_blocks(
    pre: Seq<u8>,
    tail: Seq<u8>,
    mend: Seq<u8>,
    blocks: Seq<Seq<u8>>,
    c: int,
    buf: Seq<u8>,
    cap: bool,
    out: Seq<u8>,
)
    requires
        stream_ok(pre, tail, mend),
        0 <= c <= (pre + start_marker() + tail).len(),
        concat_blocks(blocks) == (pre + start_marker() + tail).subrange(
            c,
            (pre + start_marker() + tail).len() as int,
        ),
        run_inv(pre, tail, mend, c, buf, cap, out),
    ensures
        ({
            let r = spec_feed_all(buf, cap, blocks);
            &&& !r.1
            &&& r.0.len() == 0
            &&& out + r.2 == tail
        }),
    decreases blocks.len(),
{
    let s = pre + start_marker() + tail;
    if blocks.len() == 0 {
        assert(s.subrange(c, s.len() as int).len() == 0);
        assert(c == s.len());
        assert(out + Seq::<u8>::empty() =~= out);
    } else {
        let b0 = blocks[0];
        let rest = blocks.drop_first();
        assert(concat_blocks(blocks) == b0 + concat_blocks(rest));
        assert(b0.len() + concat_blocks(rest).len() == s.len() - c);
        assert(b0 =~= s.subrange(c, c + b0.len())) by {
            assert forall|k: int| 0 <= k < b0.len() implies b0[k] == s[c + k] by {
                assert((b0 + concat_blocks(rest))[k] == b0[k]);
                assert(s.subrange(c, s.len() as int)[k] == s[c + k]);
            }
        }
        lemma_feed_one(pre, tail, mend, c, b0, buf, cap, out);
        let st = spec_feed(buf, cap, b0);
        assert(concat_blocks(rest) =~= s.subrange(c + b0.len(), s.len() as int)) by {
            assert forall|k: int| 0 <= k < concat_blocks(rest).len() implies concat_blocks(
                rest,
            )[k] == s[c + b0.len() + k] by {
                assert((b0 + concat_blocks(rest))[b0.len() + k] == concat_blocks(rest)[k]);
                assert(s.subrange(c, s.len() as int)[b0.len() + k] == s[c + b0.len() + k]);
            }
        }
        lemma_feed_blocks(
            pre,
            tail,
            mend,
            rest,
            c + b0.len(),
            st.0,
            st.1,
            out + concat_segs(st.2),
        );
        let r1 = spec_feed_all(st.0, st.1, rest);
        let r = spec_feed_all(buf, cap, blocks);
        assert(r.2 == concat_segs(st.2) + r1.2);
        assert(out + (concat_segs(st.2) + r1.2) =~= (out + concat_segs(st.2)) + r1.2);
    }
}

/// Split invariance of the capture machine: feeding a marked stream in any
/// block partition whatsoever, a fresh machine emits exactly the captured
/// tail — everything after the start marker's first occurrence, end marker
/// included — and finishes reset. The cut points contribute nothing.
pub proof fn lemma_capture_split_invariant(
    pre: Seq<u8>,
    tail: Seq<u8>,
    mend: Seq<u8>,
    blocks: Seq<Seq<u8>>,
)
    requires
        stream_ok(pre, tail, mend),
        concat_blocks(blocks) == pre + start_marker() + tail,
    ensures
        ({
            let r = spec_feed_all(Seq::empty(), false, blocks);
            &&& r.2 == tail
            &&& r.0.len() == 0
            &&& !r.1
        }),
{
    let s = pre + start_marker() + tail;
    assert(Seq::<u8>::empty() =~= s.subrange(0, 0));
    assert(s.subrange(0, s.len() as int) =~= s);
    lemma_feed_blocks(pre, tail, mend, blocks, 0, Seq::empty(), false, Seq::empty());
    let r = spec_feed_all(Seq::<u8>::empty(), false, blocks);
    assert(Seq::<u8>::empty() + r.2 =~= r.2);
}

} // verus!
