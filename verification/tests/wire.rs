//! Framing of streams, and the search in them.

use sandcastle::wire::ndjson::NdjsonSplitter;
use sandcastle::wire::scan::{find_bytes, scan_for_byte, scan_for_pair};
use sandcastle::wire::sse::SseFramer;
use sandcastle::wire::tag::find_tag;

fn drain_lines(s: &mut NdjsonSplitter) -> Vec<Vec<u8>> {
    let mut out = Vec::new();
    while let Some(l) = s.pop_line() {
        out.push(l);
    }
    out
}

#[test]
fn empty_buffer() {
    let mut s = NdjsonSplitter::new();
    assert!(s.pop_line().is_none());
}

#[test]
fn one_line() {
    let mut s = NdjsonSplitter::new();
    s.push(b"{\"a\":1}\n");
    assert_eq!(drain_lines(&mut s), vec![b"{\"a\":1}".to_vec()]);
}

#[test]
fn three_lines_one_chunk() {
    let mut s = NdjsonSplitter::new();
    s.push(b"a\nbb\nccc\n");
    assert_eq!(
        drain_lines(&mut s),
        vec![b"a".to_vec(), b"bb".to_vec(), b"ccc".to_vec()]
    );
}

#[test]
fn line_split_across_chunks() {
    let mut s = NdjsonSplitter::new();
    s.push(b"abc");
    assert!(s.pop_line().is_none());
    s.push(b"def\nghi");
    assert_eq!(s.pop_line().unwrap(), b"abcdef");
    assert_eq!(s.remaining(), b"ghi");
}

#[test]
fn empty_lines() {
    let mut s = NdjsonSplitter::new();
    s.push(b"\n\n\n");
    assert_eq!(drain_lines(&mut s), vec![vec![], vec![], vec![]]);
}

#[test]
fn no_trailing_newline_leaves_remainder() {
    let mut s = NdjsonSplitter::new();
    s.push(b"complete\npartial");
    assert_eq!(s.pop_line().unwrap(), b"complete");
    assert!(s.pop_line().is_none());
    assert_eq!(s.remaining(), b"partial");
}

fn drain_frames(framer: &mut SseFramer) -> Vec<Vec<u8>> {
    let mut out = Vec::new();
    while let Some(f) = framer.pop_frame() {
        out.push(f);
    }
    out
}

#[test]
fn empty_buffer_yields_nothing() {
    let mut f = SseFramer::new();
    assert!(f.pop_frame().is_none());
}

#[test]
fn one_complete_frame() {
    let mut f = SseFramer::new();
    f.push(b"data: hello\n\n");
    assert_eq!(drain_frames(&mut f), vec![b"data: hello".to_vec()]);
    assert_eq!(f.remaining(), b"");
}

#[test]
fn two_frames_one_chunk() {
    let mut f = SseFramer::new();
    f.push(b"event: a\ndata: 1\n\ndata: 2\n\n");
    assert_eq!(
        drain_frames(&mut f),
        vec![b"event: a\ndata: 1".to_vec(), b"data: 2".to_vec()]
    );
}

#[test]
fn frame_split_across_chunks() {
    let mut f = SseFramer::new();
    f.push(b"data: hel");
    assert!(f.pop_frame().is_none());
    f.push(b"lo\n");
    assert!(f.pop_frame().is_none());
    f.push(b"\nleftover");
    assert_eq!(f.pop_frame().unwrap(), b"data: hello");
    assert_eq!(f.remaining(), b"leftover");
}

#[test]
fn empty_frame() {
    let mut f = SseFramer::new();
    f.push(b"\n\n");
    assert_eq!(f.pop_frame().unwrap(), b"");
}

#[test]
fn stress_many_frames() {
    let mut f = SseFramer::new();
    for i in 0..1000 {
        f.push(format!("data: {i}\n\n").as_bytes());
    }
    let frames = drain_frames(&mut f);
    assert_eq!(frames.len(), 1000);
    assert_eq!(frames[0], b"data: 0");
    assert_eq!(frames[999], b"data: 999");
}

#[test]
fn long_chunk_forces_simd_path() {
    let mut buf = vec![b' '; 200];
    buf.extend_from_slice(b"\n\ntail");
    let mut f = SseFramer::new();
    f.push(&buf);
    let frame = f.pop_frame().unwrap();
    assert_eq!(frame.len(), 200);
    assert_eq!(f.remaining(), b"tail");
}

#[test]
fn chunks_do_not_matter_to_lines() {
    let stream = b"one\ntwo\n\nthree";
    let mut whole = NdjsonSplitter::new();
    whole.push(stream);
    let expected = drain_lines(&mut whole);
    for cut in 0..stream.len() {
        let mut s = NdjsonSplitter::new();
        s.push(&stream[..cut]);
        let mut got = drain_lines(&mut s);
        s.push(&stream[cut..]);
        got.extend(drain_lines(&mut s));
        assert_eq!(got, expected);
        assert_eq!(s.remaining(), b"three");
    }
}

#[test]
fn chunks_do_not_matter_to_frames() {
    let stream = b"data: a\n\nevent: x\ndata: b\n\nrest";
    for cut in 0..stream.len() {
        let mut f = SseFramer::new();
        f.push(&stream[..cut]);
        let mut got = drain_frames(&mut f);
        f.push(&stream[cut..]);
        got.extend(drain_frames(&mut f));
        assert_eq!(got, vec![b"data: a".to_vec(), b"event: x\ndata: b".to_vec()]);
        assert_eq!(f.remaining(), b"rest");
    }
}

#[test]
fn searches_find_the_first_place() {
    assert_eq!(scan_for_byte(b"abcabc", b'c'), Some(2));
    assert_eq!(scan_for_byte(b"abcabc", b'x'), None);
    assert_eq!(scan_for_pair(b"a\nb\n\nc\n\n", b'\n', b'\n'), Some(3));
    assert_eq!(scan_for_pair(b"a\nb\n", b'\n', b'\n'), None);
    assert_eq!(find_bytes(b"xxabxab", 0, b"ab"), Some(2));
    assert_eq!(find_bytes(b"xxabxab", 3, b"ab"), Some(5));
    assert_eq!(find_bytes(b"xx", 0, b""), Some(0));
}

#[test]
fn a_tag_holds_what_stands_between_its_ends() {
    assert_eq!(find_tag(b"x <out>body</out> y", b"out"), Some(b"body".to_vec()));
    assert_eq!(find_tag(b"x <out>body", b"out"), None);
    assert_eq!(find_tag(b"no tag", b"out"), None);
}
