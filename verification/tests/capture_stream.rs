use levchat::capture::{find_sub, strip_ansi, CaptureState};

fn bytes(s: &str) -> Vec<u8> {
    s.as_bytes().to_vec()
}

fn feed_all(machine: &mut CaptureState, blocks: &[Vec<u8>]) -> Vec<Vec<u8>> {
    let mut segs = Vec::new();
    for b in blocks {
        segs.extend(machine.feed(b));
    }
    segs
}

fn concat(segs: &[Vec<u8>]) -> Vec<u8> {
    let mut out = Vec::new();
    for s in segs {
        out.extend_from_slice(s);
    }
    out
}

#[test]
fn strip_removes_csi_sequences() {
    let input = bytes("\u{1b}[31mred\u{1b}[0m plain");
    assert_eq!(strip_ansi(&input), bytes("red plain"));
}

#[test]
fn strip_removes_title_sequence_and_control_byte() {
    let input = bytes("\u{1b}]0;window title\u{7}text\u{3}!");
    assert_eq!(strip_ansi(&input), bytes("text!"));
}

#[test]
fn strip_drops_stray_escapes() {
    // An escape that begins no complete sequence is a stray control byte
    // and goes away alone; the bytes after it stay.
    assert_eq!(strip_ansi(&bytes("\u{1b}[31")), bytes("[31"));
    assert_eq!(strip_ansi(&bytes("a\u{1b}b")), bytes("ab"));
}

#[test]
fn strip_is_idempotent() {
    let samples = vec![
        bytes("\u{1b}[1mbold\u{1b}]0;t\u{7} ok \u{3}"),
        // Removing the control byte here brings a complete-looking CSI
        // together; the stray escape is dropped, so nothing new forms.
        vec![0x1b, 0x03, 0x5b, 0x30, 0x6d],
        bytes("\u{1b}\u{1b}[0m[0m"),
        bytes("plain"),
    ];
    for input in samples {
        let once = strip_ansi(&input);
        assert_eq!(strip_ansi(&once), once);
    }
}

#[test]
fn find_sub_first_occurrence() {
    let hay = bytes("abcabc");
    assert_eq!(find_sub(&hay, &bytes("abc")), Some(0));
    assert_eq!(find_sub(&hay, &bytes("cab")), Some(2));
    assert_eq!(find_sub(&hay, &bytes("zzz")), None);
}

#[test]
fn capture_emits_between_markers_single_block() {
    let mut m = CaptureState::new();
    let stream = bytes("noise Your response:line1\nline2\n[done]");
    let segs = m.feed(&stream);
    assert_eq!(segs, vec![bytes("line1\nline2\n[done]")]);
    assert!(!m.capturing);
    assert!(m.buf.is_empty());
}

#[test]
fn capture_streams_complete_lines() {
    let mut m = CaptureState::new();
    assert!(m.feed(&bytes("noise Your res")).is_empty());
    assert!(m.feed(&bytes("ponse:line1\nli")).len() == 1);
    let segs = m.feed(&bytes("ne2\n[do"));
    assert_eq!(segs, vec![bytes("line2\n")]);
    let segs = m.feed(&bytes("ne]"));
    assert_eq!(segs, vec![bytes("[done]")]);
    assert!(!m.capturing);
}

#[test]
fn capture_split_points_do_not_change_the_answer() {
    // The same stream, cut at every possible single split point and also
    // byte by byte: the concatenated emission never changes.
    let stream = bytes("noise Your response:line1\nline2\n[done]");
    let mut reference = CaptureState::new();
    let expected = concat(&reference.feed(&stream));
    assert_eq!(expected, bytes("line1\nline2\n[done]"));
    for cut in 0..=stream.len() {
        let mut m = CaptureState::new();
        let blocks = vec![stream[..cut].to_vec(), stream[cut..].to_vec()];
        let segs = feed_all(&mut m, &blocks);
        assert_eq!(concat(&segs), expected);
        assert!(!m.capturing);
        assert!(m.buf.is_empty());
    }
    let mut m = CaptureState::new();
    let blocks: Vec<Vec<u8>> = stream.iter().map(|b| vec![*b]).collect();
    let segs = feed_all(&mut m, &blocks);
    assert_eq!(concat(&segs), expected);
}

#[test]
fn capture_handles_end_of_text_marker() {
    let stream = bytes("x Your response:answer[end of text]");
    let mut one = CaptureState::new();
    let expected = concat(&one.feed(&stream));
    assert_eq!(expected, bytes("answer[end of text]"));
    for cut in 0..=stream.len() {
        let mut m = CaptureState::new();
        let blocks = vec![stream[..cut].to_vec(), stream[cut..].to_vec()];
        assert_eq!(concat(&feed_all(&mut m, &blocks)), expected);
    }
}

#[test]
fn capture_drops_invalid_utf8_blocks() {
    let mut m = CaptureState::new();
    assert!(m.feed(&vec![0xff, 0xfe]).is_empty());
    assert!(!m.capturing);
    assert!(m.buf.is_empty());
    // The machine still works afterwards.
    let segs = m.feed(&bytes("Your response:ok[done]"));
    assert_eq!(segs, vec![bytes("ok[done]")]);
}

#[test]
fn capture_ignores_text_before_start_marker() {
    let mut m = CaptureState::new();
    assert!(m.feed(&bytes("chatter\nmore chatter\n")).is_empty());
    assert!(!m.capturing);
    let segs = m.feed(&bytes("Your response:yes\n[done]"));
    assert_eq!(segs, vec![bytes("yes\n[done]")]);
}

#[test]
fn capture_strips_colour_codes_inside_stream() {
    let mut m = CaptureState::new();
    let stream = bytes("\u{1b}[32mYour response:\u{1b}[0mfine\n[done]");
    let segs = m.feed(&stream);
    assert_eq!(segs, vec![bytes("fine\n[done]")]);
}
