use flatgeobuf::fetch::{check_status, range_header, ranges_body, RangeError};
use flatgeobuf::multipart::{demux, parse_boundary};
use flatgeobuf::window::RangeBuffer;

fn multipart(boundary: &str, parts: &[(&str, &[u8])]) -> Vec<u8> {
    let mut body = vec![];
    for (headers, data) in parts {
        body.extend_from_slice(format!("\r\n--{}\r\n{}\r\n\r\n", boundary, headers).as_bytes());
        body.extend_from_slice(data);
    }
    body.extend_from_slice(format!("\r\n--{}--\r\n", boundary).as_bytes());
    body
}

#[test]
fn single_range_header() {
    assert_eq!(b"bytes=0-9".to_vec(), range_header(&[(0, 10)]));
    assert_eq!(b"bytes=12345-12345".to_vec(), range_header(&[(12345, 1)]));
}

#[test]
fn multi_range_header() {
    assert_eq!(b"bytes=0-7,100-149,4096-8191".to_vec(), range_header(&[(0, 8), (100, 50), (4096, 4096)]));
    assert_eq!(b"bytes=".to_vec(), range_header(&[]));
}

#[test]
fn status_codes() {
    assert_eq!(Ok(()), check_status(200));
    assert_eq!(Ok(()), check_status(206));
    assert_eq!(Err(RangeError::HttpStatus(404)), check_status(404));
    assert_eq!(Err(RangeError::HttpStatus(416)), check_status(416));
    assert_eq!(Err(RangeError::HttpStatus(199)), check_status(199));
}

#[test]
fn boundary_from_content_type() {
    let ct = b"multipart/byteranges; boundary=CloudFront:AAD77D12D1FEC64732F00EA78AA347CB";
    assert_eq!(Some(b"CloudFront:AAD77D12D1FEC64732F00EA78AA347CB".to_vec()), parse_boundary(ct));
    assert_eq!(Some(b"abc".to_vec()), parse_boundary(b"multipart/byteranges; boundary=abc; boundary=def"));
    assert_eq!(None, parse_boundary(b"application/octet-stream"));
    assert_eq!(None, parse_boundary(b"multipart/byteranges; boundary="));
    assert_eq!(None, parse_boundary(b"multipart/mixed; boundary=abc"));
}

#[test]
fn demux_returns_part_bodies_in_order() {
    let parts: [(&str, &[u8]); 3] = [
        ("Content-Type: application/octet-stream\r\nContent-Range: bytes 0-3/100", b"\x01\x02\x03\x04"),
        ("Content-Range: bytes 10-12/100", b"abc"),
        ("Content-Range: bytes 50-52/100", b"\r\nq"),
    ];
    let body = multipart("B0UND", &parts);
    let out = demux(&body, b"B0UND").unwrap();
    assert_eq!(3, out.len());
    assert_eq!(b"\x01\x02\x03\x04".to_vec(), out[0]);
    assert_eq!(b"abc".to_vec(), out[1]);
    assert_eq!(b"\r\nq".to_vec(), out[2]);
    for part in &out {
        assert!(!part.windows(7).any(|w| w == b"--B0UND"));
    }
}

#[test]
fn demux_of_no_parts_is_empty() {
    let body = multipart("x", &[]);
    assert_eq!(Some(vec![]), demux(&body, b"x"));
}

#[test]
fn demux_refuses_part_without_blank_line() {
    let body = b"--b\r\nContent-Range: bytes 0-1/2\r\nxy\r\n--b--\r\n".to_vec();
    assert_eq!(None, demux(&body, b"b"));
}

#[test]
fn demux_refuses_second_closing_mark() {
    let body = b"--b\r\nh: 1\r\n\r\nxy\r\n--b--\r\n--b--".to_vec();
    assert_eq!(None, demux(&body, b"b"));
}

#[test]
fn multi_range_answer_is_concatenated() {
    let parts: [(&str, &[u8]); 2] = [("Content-Range: bytes 0-1/9", b"ab"), ("Content-Range: bytes 5-7/9", b"xyz")];
    let body = multipart("sep", &parts);
    let ct: &[u8] = b"multipart/byteranges; boundary=sep";
    assert_eq!(Ok(b"abxyz".to_vec()), ranges_body(Some(ct), &body));
}

#[test]
fn plain_answer_is_kept_as_is() {
    let body = b"whole resource".to_vec();
    assert_eq!(Ok(body.clone()), ranges_body(Some(b"application/octet-stream"), &body));
    assert_eq!(Ok(body.clone()), ranges_body(None, &body));
}

#[test]
fn malformed_multipart_answer_is_an_error() {
    let ct: &[u8] = b"multipart/byteranges; boundary=sep";
    assert_eq!(Err(RangeError::MalformedMultipart), ranges_body(Some(ct), b"--sep\r\nno blank line\r\n--sep--"));
}

/// The resource the window reads from in these tests: byte i is i mod 251.
fn resource(from: usize, len: usize) -> Vec<u8> {
    (from..from + len).map(|i| (i % 251) as u8).collect()
}

fn read(w: &mut RangeBuffer, begin: usize, length: usize) -> (Option<(usize, usize)>, Vec<u8>) {
    let plan = w.prepare(begin, length);
    if let Some((from, n)) = plan {
        w.append(&resource(from, n));
    }
    (plan, w.slice(begin, length).to_vec())
}

#[test]
fn window_fetches_only_missing_bytes() {
    let mut w = RangeBuffer::new();
    assert_eq!((Some((100, 50)), resource(100, 50)), read(&mut w, 100, 50));
    assert_eq!(50, w.bytes_ever_requested());
    // inside the window: nothing fetched
    assert_eq!((None, resource(110, 20)), read(&mut w, 110, 20));
    assert_eq!((None, resource(100, 50)), read(&mut w, 100, 50));
    assert_eq!(50, w.bytes_ever_requested());
    // overlapping forward: the prefix is dropped, only the suffix fetched
    assert_eq!((Some((150, 30)), resource(140, 40)), read(&mut w, 140, 40));
    assert_eq!(140, w.head());
    assert_eq!(40, w.len());
    assert_eq!(80, w.bytes_ever_requested());
    // adjacent: the window restarts at the new offset
    assert_eq!((Some((180, 10)), resource(180, 10)), read(&mut w, 180, 10));
    assert_eq!(180, w.head());
    assert_eq!(90, w.bytes_ever_requested());
    // disjoint forward
    assert_eq!((Some((1000, 5)), resource(1000, 5)), read(&mut w, 1000, 5));
    assert_eq!(95, w.bytes_ever_requested());
}

#[test]
fn window_backward_seek_refetches() {
    let mut w = RangeBuffer::new();
    read(&mut w, 100, 10);
    assert_eq!((Some((50, 10)), resource(50, 10)), read(&mut w, 50, 10));
    assert_eq!(50, w.head());
    assert_eq!(10, w.len());
    assert_eq!(20, w.bytes_ever_requested());
}

#[test]
fn window_empty_read_fetches_nothing() {
    let mut w = RangeBuffer::new();
    assert_eq!((None, vec![]), read(&mut w, 0, 0));
    assert_eq!((None, vec![]), read(&mut w, 30, 0));
    assert_eq!(30, w.head());
    assert_eq!(0, w.bytes_ever_requested());
}

#[test]
fn batch_resets_window() {
    let mut w = RangeBuffer::new();
    read(&mut w, 10, 10);
    w.start_batch(&[(0, 8), (100, 4)]);
    assert_eq!(0, w.head());
    assert_eq!(0, w.len());
    assert_eq!(22, w.bytes_ever_requested());
    w.append(b"0123456789AB");
    assert_eq!(b"0123456789AB", w.contents());
    assert!(w.covers(8, 4));
    assert!(!w.covers(8, 5));
}

#[test]
fn demux_of_body_starting_with_delimiter() {
    let body = b"--XY\r\nContent-Range: bytes 0-2/10\r\n\r\nabc\r\n--XY\r\nContent-Range: bytes 7-8/10\r\n\r\nhi\r\n--XY--".to_vec();
    let out = demux(&body, b"XY").unwrap();
    assert_eq!(vec![b"abc".to_vec(), b"hi".to_vec()], out);
}
