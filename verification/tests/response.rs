use gfcgi::error::Error;
use gfcgi::response::{AsBytes, Response};
use std::io::Read;

/// Splits outbound bytes into (type, id, content) records.
fn records(mut wire: &[u8]) -> Vec<(u8, u16, Vec<u8>)> {
    let mut out = Vec::new();
    while !wire.is_empty() {
        assert!(wire.len() >= 8);
        assert_eq!(wire[0], 1);
        let id = u16::from_be_bytes([wire[2], wire[3]]);
        let len = u16::from_be_bytes([wire[4], wire[5]]) as usize;
        assert_eq!(wire[6], 0);
        assert_eq!(wire[7], 0);
        assert!(wire.len() >= 8 + len);
        out.push((wire[1], id, wire[8..8 + len].to_vec()));
        wire = &wire[8 + len..];
    }
    out
}

/// Checks the order that every ended request shows on the wire.
fn assert_closed_stream(recs: &[(u8, u16, Vec<u8>)], id: u16, app_status: u32) {
    assert!(recs.len() >= 2);
    let n = recs.len();
    for r in &recs[..n - 2] {
        assert_eq!(r.0, 6);
        assert_eq!(r.1, id);
        assert!(!r.2.is_empty());
        assert!(r.2.len() <= 65535);
    }
    assert_eq!(recs[n - 2], (6, id, Vec::new()));
    assert_eq!(recs[n - 1].0, 3);
    assert_eq!(recs[n - 1].1, id);
    let mut body = app_status.to_be_bytes().to_vec();
    body.extend_from_slice(&[0, 0, 0, 0]);
    assert_eq!(recs[n - 1].2, body);
}

#[test]
fn new_response_has_status_200() {
    let r = Response::new(4);
    assert_eq!(r.get_id(), 4);
    assert!(!r.headers_sent());
    assert!(!r.is_closed());
    assert_eq!(r.http_headers(), b"Status: 200\r\n\r\n".to_vec());
}

#[test]
fn minimal_get_response() {
    let mut r = Response::new(1);
    r.status(200);
    assert_eq!(r.write(b"hi"), Ok(2));
    assert_eq!(r.take_output(), Vec::<u8>::new());
    assert_eq!(r.flush(), Ok(()));
    let wire = r.take_output();
    let mut expected = vec![1, 6, 0, 1, 0, 17, 0, 0];
    expected.extend_from_slice(b"Status: 200\r\n\r\nhi");
    expected.extend_from_slice(&[1, 6, 0, 1, 0, 0, 0, 0]);
    expected.extend_from_slice(&[1, 3, 0, 1, 0, 8, 0, 0, 0, 0, 0, 0, 0, 0, 0, 0]);
    assert_eq!(wire, expected);
    assert!(r.is_closed());
    assert!(r.headers_sent());
}

#[test]
fn status_replaces_default() {
    let mut r = Response::new(1);
    r.status(404);
    assert_eq!(r.http_headers(), b"Status: 404\r\n\r\n".to_vec());
    r.header(b"Status", b"302 Found");
    assert_eq!(r.http_headers(), b"Status: 302 Found\r\n\r\n".to_vec());
}

#[test]
fn headers_are_serialized_in_order() {
    let mut r = Response::new(1);
    r.header(b"Content-type", b"text/plain");
    r.header_utf8("X-Name", "välue");
    r.header(b"Content-type", b"text/html");
    assert_eq!(
        r.http_headers(),
        "Status: 200\r\nContent-type: text/html\r\nX-Name: välue\r\n\r\n".as_bytes().to_vec()
    );
}

#[test]
fn flush_without_writes_sends_headers() {
    let mut r = Response::new(9);
    r.flush().unwrap();
    let recs = records(&r.take_output());
    assert_eq!(recs.len(), 3);
    assert_eq!(recs[0], (6, 9, b"Status: 200\r\n\r\n".to_vec()));
    assert_closed_stream(&recs, 9, 0);
}

#[test]
fn large_body_chunking() {
    let mut r = Response::new(2);
    let body: Vec<u8> = (0..200000u32).map(|i| (i % 253) as u8).collect();
    assert_eq!(r.write(&body), Ok(200000));
    let early = records(&r.take_output());
    assert_eq!(early.len(), 3);
    r.flush().unwrap();
    let late = records(&r.take_output());
    let mut recs = early;
    recs.extend(late);
    assert_closed_stream(&recs, 2, 0);
    let lengths: Vec<usize> = recs.iter().map(|r| r.2.len()).collect();
    assert_eq!(lengths, vec![65535, 65535, 65535, 3410, 0, 8]);
    let mut payload = Vec::new();
    for rec in &recs[..4] {
        payload.extend_from_slice(&rec.2);
    }
    let headers = b"Status: 200\r\n\r\n";
    assert_eq!(payload.len(), headers.len() + 200000);
    assert_eq!(&payload[..headers.len()], headers);
    assert_eq!(&payload[headers.len()..], &body[..]);
}

#[test]
fn small_writes_are_coalesced() {
    let mut r = Response::new(1);
    for _ in 0..100 {
        assert_eq!(r.write(b"0123456789"), Ok(10));
    }
    assert!(!r.headers_sent());
    assert_eq!(r.take_output(), Vec::<u8>::new());
    r.flush().unwrap();
    let recs = records(&r.take_output());
    assert_eq!(recs.len(), 3);
    assert_eq!(recs[0].2.len(), 15 + 1000);
    assert_closed_stream(&recs, 1, 0);
}

#[test]
fn record_goes_out_when_buffer_reaches_the_cap() {
    let mut r = Response::new(1);
    let headers = b"Status: 200\r\n\r\n".len();
    assert_eq!(r.write(&vec![b'a'; 65535 - headers - 1]), Ok(65535 - headers - 1));
    assert_eq!(r.take_output(), Vec::<u8>::new());
    assert!(!r.headers_sent());
    assert_eq!(r.write(b"b"), Ok(1));
    assert!(r.headers_sent());
    let recs = records(&r.take_output());
    assert_eq!(recs.len(), 1);
    assert_eq!(recs[0].2.len(), 65535);
    assert_eq!(*recs[0].2.last().unwrap(), b'b');
    // nothing is left: the flush sends only the two closing records
    r.flush().unwrap();
    let recs = records(&r.take_output());
    assert_eq!(recs, vec![(6, 1, Vec::new()), (3, 1, vec![0; 8])]);
}

#[test]
fn headers_cannot_change_after_they_went_out() {
    let mut r = Response::new(1);
    r.write(&vec![0u8; 70000]).unwrap();
    assert!(r.headers_sent());
    let before = r.http_headers();
    r.status(500);
    r.header(b"X", b"y");
    r.header_utf8("Z", "w");
    r.body(&b"other".to_vec());
    assert_eq!(r.http_headers(), before);
    r.flush().unwrap();
    let recs = records(&r.take_output());
    let total: usize = recs.iter().filter(|r| r.0 == 6).map(|r| r.2.len()).sum();
    assert_eq!(total, 15 + 70000);
}

#[test]
fn write_after_close_fails() {
    let mut r = Response::new(1);
    r.write(b"x").unwrap();
    r.flush().unwrap();
    let sent = r.take_output();
    assert_eq!(r.write(b"more"), Err(Error::ResponseClosed));
    assert_eq!(r.write(b""), Err(Error::ResponseClosed));
    assert_eq!(r.take_output(), Vec::<u8>::new());
    assert!(!sent.is_empty());
}

#[test]
fn second_flush_sends_nothing() {
    let mut r = Response::new(1);
    r.write(b"x").unwrap();
    r.flush().unwrap();
    let first = r.take_output();
    assert_eq!(r.flush(), Ok(()));
    r.end(3);
    r.fail();
    assert_eq!(r.take_output(), Vec::<u8>::new());
    let recs = records(&first);
    assert_eq!(recs.iter().filter(|r| r.0 == 3).count(), 1);
}

#[test]
fn end_reports_app_status() {
    let mut r = Response::new(0x0102);
    r.write(b"partial").unwrap();
    r.end(0x01020304);
    let recs = records(&r.take_output());
    assert_closed_stream(&recs, 0x0102, 0x01020304);
    assert_eq!(recs[0].2, b"Status: 200\r\n\r\npartial".to_vec());
}

#[test]
fn fail_before_headers_sends_status_500_and_no_body() {
    let mut r = Response::new(5);
    r.header(b"Content-type", b"text/plain");
    r.write(b"half an answer").unwrap();
    r.fail();
    let recs = records(&r.take_output());
    assert_eq!(recs.len(), 3);
    assert_eq!(recs[0].2, b"Status: 500\r\nContent-type: text/plain\r\n\r\n".to_vec());
    assert_closed_stream(&recs, 5, 1);
    assert!(r.is_closed());
}

#[test]
fn fail_after_headers_flushes_what_is_pending() {
    let mut r = Response::new(5);
    r.write(&vec![b'x'; 65535]).unwrap();
    let first = records(&r.take_output());
    assert_eq!(first.len(), 1);
    r.fail();
    let recs = records(&r.take_output());
    assert_eq!(recs.len(), 3);
    assert_eq!(recs[0].2, vec![b'x'; 15]);
    assert_closed_stream(&recs, 5, 1);
}

#[test]
fn get_data_is_what_flush_sends() {
    let mut r = Response::new(3);
    r.status(201);
    r.body("Hello!");
    let data = r.get_data();
    let recs = records(&data);
    assert_eq!(recs.len(), 3);
    assert_eq!(recs[0].2, b"Status: 201\r\n\r\nHello!".to_vec());
    assert_closed_stream(&recs, 3, 0);
    assert!(!r.is_closed());
    r.flush().unwrap();
    assert_eq!(r.take_output(), data);
    assert_eq!(r.get_data(), Vec::<u8>::new());
}

#[test]
fn get_data_chunks_large_bodies() {
    let mut r = Response::new(3);
    let body = vec![b'z'; 65535 * 2 - 15];
    r.body(&body);
    let recs = records(&r.get_data());
    let lengths: Vec<usize> = recs.iter().map(|r| r.2.len()).collect();
    assert_eq!(lengths, vec![65535, 65535, 0, 8]);
    assert_closed_stream(&recs, 3, 0);
    r.body(&vec![b'z'; 65535 * 2 - 14]);
    let recs = records(&r.get_data());
    let lengths: Vec<usize> = recs.iter().map(|r| r.2.len()).collect();
    assert_eq!(lengths, vec![65535, 65535, 1, 0, 8]);
}

#[test]
fn body_replaces_what_was_written() {
    let mut r = Response::new(1);
    r.write(b"first").unwrap();
    r.body(&"second".to_string());
    r.flush().unwrap();
    let recs = records(&r.take_output());
    assert_eq!(recs[0].2, b"Status: 200\r\n\r\nsecond".to_vec());
}

#[test]
fn as_bytes_of_the_three_kinds() {
    let s = "héllo".to_string();
    assert_eq!(AsBytes::as_bytes(&&s), "héllo".as_bytes());
    let v = vec![1u8, 2, 3];
    assert_eq!(AsBytes::as_bytes(&&v), &[1u8, 2, 3][..]);
    assert_eq!(AsBytes::as_bytes(&"abc"), b"abc");
}

#[test]
fn take_output_empties_the_outbox() {
    let mut r = Response::new(1);
    r.write(&vec![1u8; 65535]).unwrap();
    let first = r.take_output();
    assert_eq!(first.len(), 8 + 65535);
    assert_eq!(r.take_output(), Vec::<u8>::new());
}

#[test]
fn output_can_be_read_back_as_a_stream() {
    // every id keeps its own order whatever the sizes of the writes
    for sizes in [vec![0usize], vec![1, 65534, 1], vec![65520, 100000, 7], vec![131070, 0, 15]] {
        let mut r = Response::new(77);
        let mut wire = Vec::new();
        let mut total = 0usize;
        for n in &sizes {
            r.write(&vec![b'q'; *n]).unwrap();
            wire.extend(r.take_output());
            total += n;
        }
        r.flush().unwrap();
        wire.extend(r.take_output());
        let recs = records(&wire);
        assert_closed_stream(&recs, 77, 0);
        let sent: usize = recs.iter().filter(|r| r.0 == 6).map(|r| r.2.len()).sum();
        assert_eq!(sent, 15 + total);
        let mut payload = Vec::new();
        for rec in recs.iter().filter(|r| r.0 == 6) {
            (&rec.2[..]).read_to_end(&mut payload).unwrap();
        }
        assert_eq!(&payload[..15], b"Status: 200\r\n\r\n");
        assert!(payload[15..].iter().all(|b| *b == b'q'));
    }
}

#[test]
fn send_chunk_frames_one_record() {
    let mut r = Response::new(7);
    r.write(b"hello world").unwrap();
    // the header block is staged in front: fifteen bytes of it and five of the body
    r.send_chunk(20);
    assert!(r.headers_sent());
    let wire = r.take_output();
    let mut expected = vec![1, 6, 0, 7, 0, 20, 0, 0];
    expected.extend_from_slice(b"Status: 200\r\n\r\nhello");
    assert_eq!(wire, expected);
    // the rest stays staged and leaves with the flush
    r.flush().unwrap();
    let recs = records(&r.take_output());
    assert_eq!(recs[0], (6, 7, b" world".to_vec()));
    assert_closed_stream(&recs, 7, 0);
}

#[test]
fn send_chunk_writes_the_length_without_truncation() {
    let mut r = Response::new(1);
    r.body(&vec![b'x'; 65535 - 15 + 10]);
    assert_eq!(r.take_output(), Vec::<u8>::new());
    r.send_chunk(65535);
    let wire = r.take_output();
    assert_eq!(&wire[..8], &[1, 6, 0, 1, 0xff, 0xff, 0, 0]);
    assert_eq!(wire.len(), 8 + 65535);
    assert_eq!(&wire[8..23], b"Status: 200\r\n\r\n");
    assert!(wire[23..].iter().all(|b| *b == b'x'));

    let mut r = Response::new(1);
    r.write(&vec![b'y'; 300]).unwrap();
    r.send_chunk(256);
    let wire = r.take_output();
    assert_eq!(&wire[..8], &[1, 6, 0, 1, 1, 0, 0, 0]);
    assert_eq!(wire.len(), 8 + 256);
}

#[test]
fn send_chunk_refuses_what_would_break_the_stream() {
    let mut r = Response::new(1);
    r.write(b"abc").unwrap();
    // an empty record would end the stream; a longer one than is staged cannot be made
    r.send_chunk(0);
    r.send_chunk(15 + 4);
    r.send_chunk(65536);
    assert_eq!(r.take_output(), Vec::<u8>::new());
    assert!(!r.headers_sent());
    r.status(404);
    r.send_chunk(15 + 3);
    let recs = records(&r.take_output());
    assert_eq!(recs, vec![(6, 1, b"Status: 404\r\n\r\nabc".to_vec())]);
    // nothing is staged any more
    r.send_chunk(1);
    assert_eq!(r.take_output(), Vec::<u8>::new());
    r.flush().unwrap();
    let recs = records(&r.take_output());
    assert_eq!(recs, vec![(6, 1, Vec::new()), (3, 1, vec![0; 8])]);
    // a closed response sends nothing
    r.send_chunk(1);
    assert_eq!(r.take_output(), Vec::<u8>::new());
}

#[test]
fn send_chunk_keeps_order_with_later_writes() {
    let mut r = Response::new(3);
    let mut wire = Vec::new();
    r.write(b"one").unwrap();
    r.send_chunk(16);
    wire.extend(r.take_output());
    r.write(b"two").unwrap();
    r.send_chunk(4);
    wire.extend(r.take_output());
    r.write(&vec![b'z'; 70000]).unwrap();
    wire.extend(r.take_output());
    r.flush().unwrap();
    wire.extend(r.take_output());
    let recs = records(&wire);
    assert_closed_stream(&recs, 3, 0);
    let lengths: Vec<usize> = recs.iter().map(|r| r.2.len()).collect();
    assert_eq!(lengths, vec![16, 4, 65535, 70000 + 1 - 65535, 0, 8]);
    let mut payload = Vec::new();
    for rec in recs.iter().filter(|r| r.0 == 6) {
        payload.extend_from_slice(&rec.2);
    }
    let mut expected = b"Status: 200\r\n\r\nonetwo".to_vec();
    expected.extend(vec![b'z'; 70000]);
    assert_eq!(payload, expected);
}
