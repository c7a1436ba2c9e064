use stabilizer_server::framer::{
    overflow_reply, parse_error_reply, Frame, Server, CAPACITY, DELIMITER,
};

fn lines(frames: &[Frame]) -> Vec<Option<Vec<u8>>> {
    frames
        .iter()
        .map(|f| match f {
            Frame::Overflow => None,
            Frame::Line(v) => Some(v.clone()),
        })
        .collect()
}

fn take(server: &mut Server) -> Option<Vec<u8>> {
    match server.take_frame() {
        Frame::Overflow => None,
        Frame::Line(v) => Some(v),
    }
}

#[test]
fn feed_stops_after_first_delimiter() {
    let mut s = Server::new();
    assert_eq!(s.feed(b"ab\ncd\n"), (3, true));
    assert_eq!(take(&mut s), Some(b"ab".to_vec()));
    assert_eq!(s.feed(b"cd\n"), (3, true));
    assert_eq!(take(&mut s), Some(b"cd".to_vec()));
}

#[test]
fn feed_without_delimiter_consumes_all() {
    let mut s = Server::new();
    assert_eq!(s.feed(b"abc"), (3, false));
    assert_eq!(s.feed(b"de\n"), (3, true));
    assert_eq!(take(&mut s), Some(b"abcde".to_vec()));
}

#[test]
fn empty_line_is_empty_frame() {
    let mut s = Server::new();
    assert_eq!(s.feed(b"\n"), (1, true));
    assert_eq!(take(&mut s), Some(Vec::new()));
}

#[test]
fn feed_empty_chunk() {
    let mut s = Server::new();
    assert_eq!(s.feed(b""), (0, false));
    assert_eq!(s.feed(b"x\n"), (2, true));
    assert_eq!(take(&mut s), Some(b"x".to_vec()));
}

#[test]
fn chunking_does_not_change_lines() {
    let stream: &[u8] = b"{\"a\":1}\n\nsecond line\nthird\npartial";
    let mut whole = Server::new();
    let expected = lines(&whole.feed_all(stream));
    assert_eq!(
        expected,
        vec![
            Some(b"{\"a\":1}".to_vec()),
            Some(Vec::new()),
            Some(b"second line".to_vec()),
            Some(b"third".to_vec()),
        ]
    );
    for split in 0..stream.len() {
        let mut s = Server::new();
        let mut got = lines(&s.feed_all(&stream[..split]));
        got.extend(lines(&s.feed_all(&stream[split..])));
        assert_eq!(got, expected);
    }
    let mut s = Server::new();
    let mut got = Vec::new();
    for b in stream.chunks(1) {
        got.extend(lines(&s.feed_all(b)));
    }
    assert_eq!(got, expected);
    // the unfinished line is kept either way
    assert_eq!(lines(&s.feed_all(b"\n")), vec![Some(b"partial".to_vec())]);
}

#[test]
fn overflowing_line_gives_one_overflow() {
    let mut s = Server::new();
    let big = vec![b'a'; 300];
    assert!(lines(&s.feed_all(&big)).is_empty());
    assert_eq!(lines(&s.feed_all(&[DELIMITER])), vec![None]);
    let reply = overflow_reply().encode().unwrap();
    assert_eq!(
        String::from_utf8(reply).unwrap(),
        "{\"code\":520,\"attribute\":\"\",\"value\":\"'command buffer overflow'\"}\n"
    );
    // framing works again afterwards
    assert_eq!(lines(&s.feed_all(b"ok\n")), vec![Some(b"ok".to_vec())]);
}

#[test]
fn overflow_threshold_is_capacity() {
    // a line of CAPACITY - 1 bytes with its delimiter reaches the capacity
    let mut line = vec![b'x'; CAPACITY - 1];
    line.push(DELIMITER);
    let mut s = Server::new();
    assert_eq!(lines(&s.feed_all(&line)), vec![None]);
    // one byte shorter fits
    let mut line = vec![b'x'; CAPACITY - 2];
    line.push(DELIMITER);
    let mut s = Server::new();
    assert_eq!(lines(&s.feed_all(&line)), vec![Some(vec![b'x'; CAPACITY - 2])]);
}

#[test]
fn overflow_across_chunks() {
    let mut s = Server::new();
    let mut frames = Vec::new();
    for _ in 0..10 {
        frames.extend(lines(&s.feed_all(&[b'y'; 40])));
    }
    frames.extend(lines(&s.feed_all(b"\nnext\n")));
    assert_eq!(frames, vec![None, Some(b"next".to_vec())]);
}

#[test]
fn parse_error_reply_bytes() {
    let reply = parse_error_reply().encode().unwrap();
    assert_eq!(
        String::from_utf8(reply).unwrap(),
        "{\"code\":550,\"attribute\":\"\",\"value\":\"'parse error'\"}\n"
    );
}
