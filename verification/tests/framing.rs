use serial_monitor::framer::Framer;

fn feed_all(chunks: &[&[u8]]) -> (Vec<Vec<u8>>, Vec<u8>) {
    let mut framer = Framer::new();
    let mut lines = Vec::new();
    for chunk in chunks {
        lines.extend(framer.feed(chunk));
    }
    (lines, framer.pending().clone())
}

#[test]
fn whole_stream_in_one_read() {
    let (lines, rest) = feed_all(&[b"one\r\ntwo\r\nthree\r\n"]);
    assert_eq!(lines, vec![b"one".to_vec(), b"two".to_vec(), b"three".to_vec()]);
    assert!(rest.is_empty());
}

#[test]
fn framing_does_not_depend_on_chunks() {
    let stream: &[u8] = b"1.5,2.5\r\nA:3\r\n\r\nlast line\r\n";
    let expected = vec![b"1.5,2.5".to_vec(), b"A:3".to_vec(), b"".to_vec(), b"last line".to_vec()];
    for cut_a in 0..=stream.len() {
        for cut_b in cut_a..=stream.len() {
            let (lines, rest) =
                feed_all(&[&stream[..cut_a], &stream[cut_a..cut_b], &stream[cut_b..]]);
            assert_eq!(lines, expected, "cuts at {} and {}", cut_a, cut_b);
            assert!(rest.is_empty());
        }
    }
}

#[test]
fn byte_by_byte() {
    let stream: &[u8] = b"abc\r\ndef\r\n";
    let mut framer = Framer::new();
    let mut lines = Vec::new();
    for byte in stream {
        lines.extend(framer.feed(&[*byte]));
    }
    assert_eq!(lines, vec![b"abc".to_vec(), b"def".to_vec()]);
    assert!(framer.pending().is_empty());
}

#[test]
fn delimiter_split_over_two_reads() {
    let mut framer = Framer::new();
    assert!(framer.feed(b"abc\r").is_empty());
    assert_eq!(framer.pending(), &b"abc\r".to_vec());
    assert_eq!(framer.feed(b"\ndef"), vec![b"abc".to_vec()]);
    assert_eq!(framer.pending(), &b"def".to_vec());
}

#[test]
fn carriage_return_at_the_end_of_a_line_stays_in_it() {
    let (lines, rest) = feed_all(&[b"a\r\r\nb\r\n"]);
    assert_eq!(lines, vec![b"a\r".to_vec(), b"b".to_vec()]);
    assert!(rest.is_empty());
}

#[test]
fn double_zero_is_the_fallback() {
    let mut framer = Framer::new();
    assert!(framer.feed(b"abc\0\0def\0\0gh").is_empty());
    assert_eq!(
        framer.feed(b"\n"),
        vec![b"abc".to_vec(), b"def".to_vec(), b"gh\n".to_vec()]
    );
    assert!(framer.pending().is_empty());
    assert_eq!(framer.feed(b"x\0\0\n"), vec![b"x".to_vec(), b"\n".to_vec()]);
}

#[test]
fn line_feed_pair_is_preferred_to_zeros() {
    let (lines, rest) = feed_all(&[b"a\0\0b\r\nc"]);
    assert_eq!(lines, vec![b"a\0\0b".to_vec()]);
    assert_eq!(rest, b"c".to_vec());
}

#[test]
fn line_feed_alone_ends_a_unit_and_stays_in_the_line() {
    let (lines, rest) = feed_all(&[b"no end", b" yet"]);
    assert!(lines.is_empty());
    assert_eq!(rest, b"no end yet".to_vec());
    let (lines, rest) = feed_all(&[b"1,2\n3,", b"4\n5"]);
    assert_eq!(lines, vec![b"1,2\n".to_vec(), b"3,4\n".to_vec()]);
    assert_eq!(rest, b"5".to_vec());
}

#[test]
fn lines_with_zeros_survive_any_chunking() {
    let stream: &[u8] = b"a\0\0b\r\n\0\0\r\n";
    for cut in 0..=stream.len() {
        let (lines, rest) = feed_all(&[&stream[..cut], &stream[cut..]]);
        assert_eq!(lines, vec![b"a\0\0b".to_vec(), b"\0\0".to_vec()], "cut at {}", cut);
        assert!(rest.is_empty());
    }
}

#[test]
fn empty_read_changes_nothing() {
    let mut framer = Framer::new();
    framer.feed(b"part");
    assert!(framer.feed(b"").is_empty());
    assert_eq!(framer.pending(), &b"part".to_vec());
}
