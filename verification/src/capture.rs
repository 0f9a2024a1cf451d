//! The output capture state machine.
//!
//! The inference subprocess writes noisy terminal output: colour escapes, a
//! title-bar escape, echoed prompt text, and a preamble. Only the text
//! between a fixed start marker and one of two fixed end markers is wanted.
//! Raw byte blocks are cleaned of control sequences and accumulated; once
//! the start marker has been seen, complete lines are emitted as they form,
//! and the first end marker flushes the rest (marker included) and resets
//! the machine. Buffering before searching lets a marker arrive split
//! across block boundaries.

use vstd::prelude::*;
use vstd::utf8::valid_utf8;

verus! {

/// Byte sequence of the start marker, `"Your response:"`.
pub open spec fn start_marker() -> Seq<u8> {
    seq![
        0x59u8,
        0x6f,
        0x75,
        0x72,
        0x20,
        0x72,
        0x65,
        0x73,
        0x70,
        0x6f,
        0x6e,
        0x73,
        0x65,
        0x3a,
    ]
}

/// Byte sequence of the first end marker, `"[done]"`.
pub open spec fn done_marker() -> Seq<u8> {
    seq![0x5bu8, 0x64, 0x6f, 0x6e, 0x65, 0x5d]
}

/// Byte sequence of the second end marker, `"[end of text]"`.
pub open spec fn end_text_marker() -> Seq<u8> {
    seq![0x5bu8, 0x65, 0x6e, 0x64, 0x20, 0x6f, 0x66, 0x20, 0x74, 0x65, 0x78, 0x74, 0x5d]
}

/// The start marker as bytes.
pub fn start_marker_bytes() -> (r: Vec<u8>)
    ensures
        r@ == start_marker(),
{
    let mut v: Vec<u8> = Vec::new();
    v.push(0x59);
    v.push(0x6f);
    v.push(0x75);
    v.push(0x72);
    v.push(0x20);
    v.push(0x72);
    v.push(0x65);
    v.push(0x73);
    v.push(0x70);
    v.push(0x6f);
    v.push(0x6e);
    v.push(0x73);
    v.push(0x65);
    v.push(0x3a);
    proof {
        assert(v@ =~= start_marker());
    }
    v
}

/// The first end marker as bytes.
pub fn done_marker_bytes() -> (r: Vec<u8>)
    ensures
        r@ == done_marker(),
{
    let mut v: Vec<u8> = Vec::new();
    v.push(0x5b);
    v.push(0x64);
    v.push(0x6f);
    v.push(0x6e);
    v.push(0x65);
    v.push(0x5d);
    proof {
        assert(v@ =~= done_marker());
    }
    v
}

/// The second end marker as bytes.
pub fn end_text_marker_bytes() -> (r: Vec<u8>)
    ensures
        r@ == end_text_marker(),
{
    let mut v: Vec<u8> = Vec::new();
    v.push(0x5b);
    v.push(0x65);
    v.push(0x6e);
    v.push(0x64);
    v.push(0x20);
    v.push(0x6f);
    v.push(0x66);
    v.push(0x20);
    v.push(0x74);
    v.push(0x65);
    v.push(0x78);
    v.push(0x74);
    v.push(0x5d);
    proof {
        assert(v@ =~= end_text_marker());
    }
    v
}

// ------------------------------------------------------------------
// Stripping terminal control sequences
// ------------------------------------------------------------------

/// A parameter byte of a CSI sequence: a digit or `;`.
pub open spec fn is_csi_param(b: u8) -> bool {
    (0x30 <= b <= 0x39) || b == 0x3b
}

/// A letter, which terminates a CSI sequence.
pub open spec fn is_ansi_letter(b: u8) -> bool {
    (0x41 <= b <= 0x5a) || (0x61 <= b <= 0x7a)
}

/// First position at or after `j` that is not a CSI parameter byte, capped
/// at the end of the sequence.
pub open spec fn scan_csi_params(s: Seq<u8>, j: int) -> int
    decreases s.len() - j
        when 0 <= j <= s.len()
{
    if j >= s.len() {
        j
    } else if is_csi_param(s[j]) {
        scan_csi_params(s, j + 1)
    } else {
        j
    }
}

/// First position at or after `j` holding the BEL byte, capped at the end.
pub open spec fn scan_osc_body(s: Seq<u8>, j: int) -> int
    decreases s.len() - j
        when 0 <= j <= s.len()
{
    if j >= s.len() {
        j
    } else if s[j] != 0x07 {
        scan_osc_body(s, j + 1)
    } else {
        j
    }
}

/// Length of the control sequence starting at position `i`, or zero when
/// none starts there. Recognized, as the subprocess emits them: a CSI
/// sequence `ESC [ <digits or ;>* <letter>`, an OSC title sequence
/// `ESC ] 0 ; <not BEL>* BEL`, and a lone `0x03` byte. An escape that
/// begins no complete sequence is itself a stray control byte and is
/// dropped alone; stripping therefore never leaves an escape behind,
/// which is what makes it idempotent.
pub open spec fn raw_match_len(s: Seq<u8>, i: int) -> int {
    if s[i] == 0x03 {
        1
    } else if s[i] == 0x1b {
        if i + 1 < s.len() && s[i + 1] == 0x5b {
            let j = scan_csi_params(s, i + 2);
            if j < s.len() && is_ansi_letter(s[j]) {
                j + 1 - i
            } else {
                1
            }
        } else if i + 3 < s.len() && s[i + 1] == 0x5d && s[i + 2] == 0x30 && s[i + 3] == 0x3b {
            let j = scan_osc_body(s, i + 4);
            if j < s.len() {
                j + 1 - i
            } else {
                1
            }
        } else {
            1
        }
    } else {
        0
    }
}

/// The parameter scan never moves backwards and stays in bounds.
pub proof fn lemma_scan_csi_params_bounds(s: Seq<u8>, j: int)
    requires
        0 <= j <= s.len(),
    ensures
        j <= scan_csi_params(s, j) <= s.len(),
    decreases s.len() - j,
{
    if j < s.len() && is_csi_param(s[j]) {
        lemma_scan_csi_params_bounds(s, j + 1);
    }
}

/// The title-body scan never moves backwards and stays in bounds.
pub proof fn lemma_scan_osc_body_bounds(s: Seq<u8>, j: int)
    requires
        0 <= j <= s.len(),
    ensures
        j <= scan_osc_body(s, j) <= s.len(),
    decreases s.len() - j,
{
    if j < s.len() && s[j] != 0x07 {
        lemma_scan_osc_body_bounds(s, j + 1);
    }
}

/// A control byte always begins a match: stripping consumes it one way or
/// another, so none survives a pass.
pub proof fn lemma_control_byte_matches(s: Seq<u8>, i: int)
    requires
        0 <= i < s.len(),
        s[i] == 0x1b || s[i] == 0x03,
    ensures
        match_len_at(s, i) >= 1,
{
    if s[i] == 0x1b {
        if i + 1 < s.len() && s[i + 1] == 0x5b {
            lemma_scan_csi_params_bounds(s, i + 2);
        } else if i + 3 < s.len() && s[i + 1] == 0x5d && s[i + 2] == 0x30 && s[i + 3] == 0x3b {
            lemma_scan_osc_body_bounds(s, i + 4);
        }
    }
}

/// `raw_match_len`, guarded so that a match always stays in bounds.
pub open spec fn match_len_at(s: Seq<u8>, i: int) -> int {
    let m = raw_match_len(s, i);
    if 1 <= m && i + m <= s.len() {
        m
    } else {
        0
    }
}

/// The bytes of `s` from position `i` on, with every control sequence
/// removed, scanning left to right.
pub open spec fn strip_from(s: Seq<u8>, i: int) -> Seq<u8>
    decreases s.len() - i
        when 0 <= i
{
    if i >= s.len() {
        Seq::empty()
    } else {
        let m = match_len_at(s, i);
        if m > 0 {
            strip_from(s, i + m)
        } else {
            seq![s[i]] + strip_from(s, i + 1)
        }
    }
}

/// `s` with every control sequence removed.
pub open spec fn spec_strip(s: Seq<u8>) -> Seq<u8> {
    strip_from(s, 0)
}

/// Length of the control sequence starting at `i`, or zero when none does.
fn match_len(s: &Vec<u8>, i: usize) -> (r: usize)
    requires
        i < s@.len(),
    ensures
        r == match_len_at(s@, i as int),
        i + r <= s@.len(),
{
    let n = s.len();
    let b = s[i];
    if b == 0x03 {
        return 1;
    }
    if b != 0x1b {
        return 0;
    }
    if i < n - 1 && s[i + 1] == 0x5b {
        let mut j = i + 2;
        while j < s.len() && ((0x30 <= s[j] && s[j] <= 0x39) || s[j] == 0x3b)
            invariant
                i + 2 <= j <= s@.len(),
                scan_csi_params(s@, (i + 2) as int) == scan_csi_params(s@, j as int),
            decreases s@.len() - j,
        {
            j = j + 1;
        }
        if j < s.len() && ((0x41 <= s[j] && s[j] <= 0x5a) || (0x61 <= s[j] && s[j] <= 0x7a)) {
            return j + 1 - i;
        }
        return 1;
    }
    if n >= 4 && i < n - 3 && s[i + 1] == 0x5d && s[i + 2] == 0x30 && s[i + 3] == 0x3b {
        let mut j = i + 4;
        while j < s.len() && s[j] != 0x07
            invariant
                i + 4 <= j <= s@.len(),
                scan_osc_body(s@, (i + 4) as int) == scan_osc_body(s@, j as int),
            decreases s@.len() - j,
        {
            j = j + 1;
        }
        if j < s.len() {
            return j + 1 - i;
        }
        return 1;
    }
    1
}

/// Removes every control sequence from `s`.
pub fn strip_ansi(s: &Vec<u8>) -> (r: Vec<u8>)
    ensures
        r@ == spec_strip(s@),
{
    let mut r: Vec<u8> = Vec::new();
    let mut i: usize = 0;
    while i < s.len()
        invariant
            0 <= i <= s@.len(),
            spec_strip(s@) == r@ + strip_from(s@, i as int),
        decreases s@.len() - i,
    {
        let m = match_len(s, i);
        if m > 0 {
            i = i + m;
        } else {
            let b = s[i];
            proof {
                assert(r@.push(b) + strip_from(s@, i + 1) =~= r@ + (seq![b] + strip_from(
                    s@,
                    i + 1,
                )));
            }
            r.push(b);
            i = i + 1;
        }
    }
    proof {
        assert(r@ + strip_from(s@, i as int) =~= r@);
    }
    r
}

// ------------------------------------------------------------------
// Substring search
// ------------------------------------------------------------------

/// `pat` occurs in `s` starting at position `i`.
pub open spec fn has_sub_at(s: Seq<u8>, pat: Seq<u8>, i: int) -> bool {
    0 <= i && i + pat.len() <= s.len() && s.subrange(i, i + pat.len() as int) == pat
}

/// Position of the first occurrence of `pat` at or after `i`, or `-1`.
pub open spec fn find_from(s: Seq<u8>, pat: Seq<u8>, i: int) -> int
    decreases s.len() - i + 1
        when 0 <= i
{
    if i + pat.len() > s.len() {
        -1
    } else if s.subrange(i, i + pat.len() as int) == pat {
        i
    } else {
        find_from(s, pat, i + 1)
    }
}

/// Position of the first occurrence of `pat` in `s`, or `-1`.
pub open spec fn spec_find(s: Seq<u8>, pat: Seq<u8>) -> int {
    find_from(s, pat, 0)
}

/// What a find result means: a found position carries an occurrence and
/// nothing earlier does; `-1` means no occurrence at all.
pub proof fn lemma_find_from_props(s: Seq<u8>, pat: Seq<u8>, i: int)
    requires
        0 <= i,
    ensures
        find_from(s, pat, i) == -1 || find_from(s, pat, i) >= i,
        find_from(s, pat, i) == -1 ==> forall|j: int| i <= j ==> !(#[trigger] has_sub_at(s, pat, j)),
        find_from(s, pat, i) >= 0 ==> i <= find_from(s, pat, i) && has_sub_at(
            s,
            pat,
            find_from(s, pat, i),
        ) && forall|j: int|
            i <= j < find_from(s, pat, i) ==> !(#[trigger] has_sub_at(s, pat, j)),
    decreases s.len() - i + 1,
{
    if i + pat.len() > s.len() {
        assert forall|j: int| i <= j implies !has_sub_at(s, pat, j) by {}
    } else if s.subrange(i, i + pat.len() as int) == pat {
    } else {
        lemma_find_from_props(s, pat, i + 1);
    }
}

/// Finds the first occurrence of `pat` in `hay`.
pub fn find_sub(hay: &Vec<u8>, pat: &Vec<u8>) -> (r: Option<usize>)
    requires
        pat@.len() > 0,
    ensures
        match r {
            Some(i) => spec_find(hay@, pat@) == i as int,
            None => spec_find(hay@, pat@) == -1,
        },
{
    let hlen = hay.len();
    let plen = pat.len();
    if plen > hlen {
        return None;
    }
    let mut i: usize = 0;
    while i <= hlen - plen
        invariant
            0 < plen == pat@.len(),
            hlen == hay@.len(),
            plen <= hlen,
            i <= hlen - plen + 1,
            spec_find(hay@, pat@) == find_from(hay@, pat@, i as int),
        decreases hay@.len() - i,
    {
        let mut j: usize = 0;
        let mut matched = true;
        loop
            invariant_except_break
                matched,
            invariant
                0 <= j <= plen == pat@.len(),
                hlen == hay@.len(),
                i + plen <= hlen,
                forall|q: int| 0 <= q < j ==> hay@[i + q] == #[trigger] pat@[q],
            ensures
                matched ==> hay@.subrange(i as int, i + pat@.len() as int) == pat@,
                !matched ==> hay@.subrange(i as int, i + pat@.len() as int) != pat@,
            decreases pat@.len() - j,
        {
            if j == plen {
                proof {
                    assert(hay@.subrange(i as int, i + pat@.len() as int) =~= pat@);
                }
                break ;
            }
            if hay[i + j] != pat[j] {
                matched = false;
                proof {
                    assert(hay@.subrange(i as int, i + pat@.len() as int)[j as int] != pat@[
                        j as int]);
                }
                break ;
            }
            j = j + 1;
        }
        if matched {
            return Some(i);
        }
        i = i + 1;
    }
    None
}

/// Position of the last newline byte in `s`, or `-1`.
pub open spec fn last_nl(s: Seq<u8>) -> int
    decreases s.len(),
{
    if s.len() == 0 {
        -1
    } else if s[s.len() - 1] == 0x0a {
        s.len() - 1
    } else {
        last_nl(s.drop_last())
    }
}

/// A last-newline position is a newline with nothing but other bytes after
/// it; `-1` means no newline at all.
pub proof fn lemma_last_nl_props(s: Seq<u8>)
    ensures
        last_nl(s) == -1 ==> forall|j: int| 0 <= j < s.len() ==> s[j] != 0x0a,
        last_nl(s) >= 0 ==> last_nl(s) < s.len() && s[last_nl(s)] == 0x0a && forall|j: int|
            last_nl(s) < j < s.len() ==> s[j] != 0x0a,
    decreases s.len(),
{
    if s.len() > 0 && s[s.len() - 1] != 0x0a {
        lemma_last_nl_props(s.drop_last());
        assert(forall|j: int|
            0 <= j < s.len() - 1 ==> s[j] == s.drop_last()[j]);
    }
}

/// Finds the last newline byte in `s`.
pub fn find_last_nl(s: &Vec<u8>) -> (r: Option<usize>)
    ensures
        match r {
            Some(i) => last_nl(s@) == i as int,
            None => last_nl(s@) == -1,
        },
{
    let mut i: usize = s.len();
    proof {
        assert(s@.subrange(0, s@.len() as int) =~= s@);
    }
    while i > 0
        invariant
            0 <= i <= s@.len(),
            last_nl(s@) == last_nl(s@.subrange(0, i as int)),
        decreases i,
    {
        proof {
            assert(s@.subrange(0, i as int).drop_last() =~= s@.subrange(0, i - 1));
        }
        if s[i - 1] == 0x0a {
            proof {
                assert(last_nl(s@.subrange(0, i as int)) == i - 1);
            }
            return Some(i - 1);
        }
        i = i - 1;
    }
    proof {
        assert(s@.subrange(0, 0) =~= Seq::<u8>::empty());
    }
    None
}

// ------------------------------------------------------------------
// The state machine
// ------------------------------------------------------------------

/// Capture state: the pending buffer and whether the start marker has been
/// seen without a subsequent end marker.
pub struct CaptureState {
    /// Bytes observed but not yet emitted or discarded.
    pub buf: Vec<u8>,
    /// The start marker has been passed; text is being captured.
    pub capturing: bool,
}

/// One step of the machine while capturing, on the accumulated bytes:
/// an end marker flushes everything up to and including it and resets;
/// otherwise complete lines are emitted and the partial tail is kept.
pub open spec fn spec_feed_capturing(acc: Seq<u8>) -> (Seq<u8>, bool, Seq<Seq<u8>>) {
    let d = spec_find(acc, done_marker());
    let e = spec_find(acc, end_text_marker());
    if d >= 0 {
        (Seq::empty(), false, seq![acc.subrange(0, d + done_marker().len() as int)])
    } else if e >= 0 {
        (Seq::empty(), false, seq![acc.subrange(0, e + end_text_marker().len() as int)])
    } else {
        let nl = last_nl(acc);
        if nl >= 0 {
            (acc.subrange(nl + 1, acc.len() as int), true, seq![acc.subrange(0, nl + 1)])
        } else {
            (acc, true, seq![])
        }
    }
}

/// One step of the machine on a raw block: blocks that are not valid UTF-8
/// are dropped whole; otherwise the cleaned block is appended, the start
/// marker is looked for when not yet capturing, and captured text is
/// flushed by lines or by an end marker. Returns the new buffer, the new
/// capturing flag, and the emitted segments in order.
pub open spec fn spec_feed(buf0: Seq<u8>, cap0: bool, block: Seq<u8>) -> (Seq<u8>, bool, Seq<
    Seq<u8>,
>) {
    if !valid_utf8(block) {
        (buf0, cap0, seq![])
    } else {
        let acc0 = buf0 + spec_strip(block);
        if cap0 {
            spec_feed_capturing(acc0)
        } else {
            let s = spec_find(acc0, start_marker());
            if s >= 0 {
                spec_feed_capturing(
                    acc0.subrange(s + start_marker().len() as int, acc0.len() as int),
                )
            } else {
                (acc0, false, seq![])
            }
        }
    }
}

/// Copies `v[from..to]`.
pub fn copy_range(v: &Vec<u8>, from: usize, to: usize) -> (r: Vec<u8>)
    requires
        from <= to <= v@.len(),
    ensures
        r@ == v@.subrange(from as int, to as int),
{
    let mut r: Vec<u8> = Vec::new();
    let mut i: usize = from;
    while i < to
        invariant
            from <= i <= to <= v@.len(),
            r@ == v@.subrange(from as int, i as int),
        decreases to - i,
    {
        proof {
            assert(v@.subrange(from as int, i as int).push(v@[i as int]) =~= v@.subrange(
                from as int,
                i + 1,
            ));
        }
        r.push(v[i]);
        i = i + 1;
    }
    r
}

impl CaptureState {
    /// A fresh machine: empty buffer, not capturing.
    pub fn new() -> (r: Self)
        ensures
            r.buf@ == Seq::<u8>::empty(),
            r.capturing == false,
    {
        CaptureState { buf: Vec::new(), capturing: false }
    }

    /// Feeds one raw block; returns the segments this block released, in
    /// order, exactly as `spec_feed` describes.
    pub fn feed(&mut self, block: &Vec<u8>) -> (segs: Vec<Vec<u8>>)
        ensures
            ({
                let (b, c, s) = spec_feed(old(self).buf@, old(self).capturing, block@);
                &&& final(self).buf@ == b
                &&& final(self).capturing == c
                &&& segs@.map_values(|v: Vec<u8>| v@) == s
            }),
    {
        let ghost buf0 = self.buf@;
        let ghost cap0 = self.capturing;
        if !utf8_check(block.as_slice()) {
            let segs: Vec<Vec<u8>> = Vec::new();
            proof {
                assert(segs@.map_values(|v: Vec<u8>| v@) =~= Seq::<Seq<u8>>::empty());
            }
            return segs;
        }
        let mut cleaned = strip_ansi(block);
        self.buf.append(&mut cleaned);
        if !self.capturing {
            let start = start_marker_bytes();
            match find_sub(&self.buf, &start) {
                Some(idx) => {
                    proof {
                        lemma_find_from_props(self.buf@, start@, 0);
                    }
                    let blen = self.buf.len();
                    let tail = copy_range(&self.buf, idx + start.len(), blen);
                    self.buf = tail;
                    self.capturing = true;
                },
                None => {
                    let segs: Vec<Vec<u8>> = Vec::new();
                    proof {
                        assert(segs@.map_values(|v: Vec<u8>| v@) =~= Seq::<Seq<u8>>::empty());
                    }
                    return segs;
                },
            }
        }
        // Capturing now: look for an end marker, else flush complete lines.
        let done = done_marker_bytes();
        match find_sub(&self.buf, &done) {
            Some(d) => {
                let blen = self.buf.len();
                proof {
                    lemma_find_from_props(self.buf@, done@, 0);
                    assert(d + done@.len() <= blen);
                }
                let seg = copy_range(&self.buf, 0, d + done.len());
                self.buf = Vec::new();
                self.capturing = false;
                let mut segs: Vec<Vec<u8>> = Vec::new();
                segs.push(seg);
                proof {
                    let (b, c, s) = spec_feed(buf0, cap0, block@);
                    assert(segs@.map_values(|v: Vec<u8>| v@) =~= s);
                }
                segs
            },
            None => {
                let eot = end_text_marker_bytes();
                match find_sub(&self.buf, &eot) {
                    Some(e) => {
                        let blen = self.buf.len();
                        proof {
                            lemma_find_from_props(self.buf@, eot@, 0);
                            assert(e + eot@.len() <= blen);
                        }
                        let seg = copy_range(&self.buf, 0, e + eot.len());
                        self.buf = Vec::new();
                        self.capturing = false;
                        let mut segs: Vec<Vec<u8>> = Vec::new();
                        segs.push(seg);
                        proof {
                            let (b, c, s) = spec_feed(buf0, cap0, block@);
                            assert(segs@.map_values(|v: Vec<u8>| v@) =~= s);
                        }
                        segs
                    },
                    None => {
                        match find_last_nl(&self.buf) {
                            Some(nl) => {
                                proof {
                                    lemma_last_nl_props(self.buf@);
                                }
                                let blen = self.buf.len();
                                let seg = copy_range(&self.buf, 0, nl + 1);
                                let tail = copy_range(&self.buf, nl + 1, blen);
                                self.buf = tail;
                                let mut segs: Vec<Vec<u8>> = Vec::new();
                                segs.push(seg);
                                proof {
                                    let (b, c, s) = spec_feed(buf0, cap0, block@);
                                    assert(segs@.map_values(|v: Vec<u8>| v@) =~= s);
                                }
                                segs
                            },
                            None => {
                                let segs: Vec<Vec<u8>> = Vec::new();
                                proof {
                                    assert(segs@.map_values(|v: Vec<u8>| v@)
                                        =~= Seq::<Seq<u8>>::empty());
                                }
                                segs
                            },
                        }
                    },
                }
            },
        }
    }
}

/// Relies on `core::str::from_utf8`, which succeeds exactly on well-formed
/// UTF-8, the property `vstd::utf8::valid_utf8` describes.
#[verifier::external_body]
fn utf8_check(v: &[u8]) -> (r: bool)
    ensures
        r == valid_utf8(v@),
{
    core::str::from_utf8(v).is_ok()
}

} // verus!
