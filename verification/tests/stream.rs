use gfcgi::error::Error;
use gfcgi::fastcgi::Header;
use gfcgi::request::Request;
use gfcgi::response::Response;
use gfcgi::stream::{Handler, StreamSyntax};

fn record(type_: u8, id: u16, content: &[u8]) -> Vec<u8> {
    let mut out = vec![1, type_, (id >> 8) as u8, id as u8];
    out.extend_from_slice(&(content.len() as u16).to_be_bytes());
    out.extend_from_slice(&[0, 0]);
    out.extend_from_slice(content);
    out
}

fn begin(id: u16, flags: u8) -> Vec<u8> {
    record(1, id, &[0, 1, flags, 0, 0, 0, 0, 0])
}

fn nv(name: &[u8], value: &[u8]) -> Vec<u8> {
    let mut out = vec![name.len() as u8, value.len() as u8];
    out.extend_from_slice(name);
    out.extend_from_slice(value);
    out
}

/// Splits outbound bytes into (type, id, content) records.
fn records(mut wire: &[u8]) -> Vec<(u8, u16, Vec<u8>)> {
    let mut out = Vec::new();
    while !wire.is_empty() {
        let h = Header::decode(&wire[..8]).unwrap();
        let len = h.content_length as usize;
        out.push((h.type_, h.request_id, wire[8..8 + len].to_vec()));
        wire = &wire[8 + len + h.padding_length as usize..];
    }
    out
}

struct Echo;

impl Handler for Echo {
    fn process(&self, request: &mut Request, response: &mut Response) {
        let host = request.header_utf8(b"HTTP_HOST").unwrap_or("not provided".to_string());
        response.status(200);
        response.write(format!("hi {}", host).as_bytes()).unwrap();
    }
}

/// Drives a connection over the inbound bytes as a transport loop would, and
/// returns the outbound bytes and the ids in the order of their handling.
fn serve(handler: &dyn Handler, mut inbound: &[u8]) -> Result<(Vec<u8>, Vec<u16>, bool), Error> {
    let mut stream = StreamSyntax::new();
    let mut outbound = Vec::new();
    let mut handled = Vec::new();
    loop {
        while let Some((mut request, mut response)) = stream.next() {
            handler.process(&mut request, &mut response);
            outbound.extend(stream.finish(&request, &mut response));
            handled.push(request.get_id());
        }
        if !stream.is_open() || inbound.is_empty() {
            break;
        }
        let h = Request::fcgi_header(&inbound[..inbound.len().min(8)])?;
        inbound = &inbound[8..];
        let body = Request::fcgi_body(inbound, &h)?;
        inbound = &inbound[h.body_len()..];
        outbound.extend(stream.accept(h, body)?);
    }
    Ok((outbound, handled, stream.is_open()))
}

#[test]
fn minimal_get() {
    let mut inbound = begin(1, 0);
    inbound.extend(record(4, 1, &nv(b"HTTP_HOST", b"x")));
    inbound.extend(record(4, 1, b""));
    inbound.extend(record(5, 1, b""));
    let (out, handled, open) = serve(&Echo, &inbound).unwrap();
    assert_eq!(handled, vec![1]);
    assert!(!open);
    let recs = records(&out);
    assert_eq!(
        recs,
        vec![
            (6, 1, b"Status: 200\r\n\r\nhi x".to_vec()),
            (6, 1, Vec::new()),
            (3, 1, vec![0, 0, 0, 0, 0, 0, 0, 0]),
        ]
    );
}

#[test]
fn new_stream_waits_for_a_request() {
    let mut stream = StreamSyntax::new();
    assert!(stream.is_open());
    assert_eq!(stream.pending_len(), 0);
    assert!(stream.next().is_none());
}

#[test]
fn request_is_ready_when_params_end() {
    let mut stream = StreamSyntax::new();
    let h = Header::decode(&begin(1, 0)[..8]).unwrap();
    assert_eq!(stream.accept(h, vec![0, 1, 0, 0, 0, 0, 0, 0]), Ok(Vec::new()));
    assert_eq!(stream.pending_len(), 1);
    assert!(stream.next().is_none());
    let p = Header { type_: 4, ..h };
    assert_eq!(stream.accept(p, nv(b"A", b"b")), Ok(Vec::new()));
    assert!(stream.next().is_none());
    assert_eq!(stream.accept(p, Vec::new()), Ok(Vec::new()));
    let (request, response) = stream.next().unwrap();
    assert_eq!(request.get_id(), 1);
    assert_eq!(request.role(), 1);
    assert_eq!(request.header(b"A"), Some(&b"b".to_vec()));
    assert!(request.is_ready());
    assert_eq!(response.get_id(), 1);
    assert!(!response.is_closed());
    assert_eq!(stream.pending_len(), 0);
    assert!(stream.next().is_none());
    assert!(!stream.is_open());
}

#[test]
fn multiplexed_ids() {
    let mut inbound = begin(1, 1);
    inbound.extend(begin(2, 1));
    inbound.extend(record(4, 1, &nv(b"HTTP_HOST", b"one")));
    inbound.extend(record(4, 2, &nv(b"HTTP_HOST", b"two")));
    inbound.extend(record(4, 2, b""));
    inbound.extend(record(4, 1, b""));
    inbound.extend(record(5, 2, b""));
    inbound.extend(record(5, 1, b""));

    let mut stream = StreamSyntax::new();
    let mut rest = &inbound[..];
    while !rest.is_empty() {
        let h = Request::fcgi_header(&rest[..8]).unwrap();
        let body = Request::fcgi_body(&rest[8..], &h).unwrap();
        rest = &rest[8 + h.body_len()..];
        assert_eq!(stream.accept(h, body), Ok(Vec::new()));
    }
    let mut out = Vec::new();
    let mut order = Vec::new();
    while let Some((mut request, mut response)) = stream.next() {
        assert!(request.has_readed());
        Echo.process(&mut request, &mut response);
        out.push(records(&stream.finish(&request, &mut response)));
        order.push(request.get_id());
    }
    assert_eq!(order, vec![2, 1]);
    assert_eq!(out[0][0], (6, 2, b"Status: 200\r\n\r\nhi two".to_vec()));
    assert_eq!(out[0][1], (6, 2, Vec::new()));
    assert_eq!(out[0][2], (3, 2, vec![0; 8]));
    assert_eq!(out[1][0], (6, 1, b"Status: 200\r\n\r\nhi one".to_vec()));
    assert_eq!(out[1][1], (6, 1, Vec::new()));
    assert_eq!(out[1][2], (3, 1, vec![0; 8]));
    assert!(stream.is_open());
}

#[test]
fn multiplexed_ids_through_the_loop() {
    let mut inbound = begin(1, 0);
    inbound.extend(begin(2, 0));
    inbound.extend(record(4, 2, &nv(b"HTTP_HOST", b"two")));
    inbound.extend(record(4, 1, &nv(b"HTTP_HOST", b"one")));
    inbound.extend(record(4, 2, b""));
    inbound.extend(record(4, 1, b""));
    let (out, handled, open) = serve(&Echo, &inbound).unwrap();
    assert_eq!(handled, vec![2, 1]);
    assert!(!open);
    let recs = records(&out);
    assert_eq!(recs.len(), 6);
    assert_eq!(recs.iter().filter(|r| r.0 == 3 && r.1 == 1).count(), 1);
    assert_eq!(recs.iter().filter(|r| r.0 == 3 && r.1 == 2).count(), 1);
    assert!(recs[..3].iter().all(|r| r.1 == 2));
    assert!(recs[3..].iter().all(|r| r.1 == 1));
}

#[test]
fn abort_mid_request() {
    let mut stream = StreamSyntax::new();
    let h = Header::decode(&begin(3, 0)[..8]).unwrap();
    stream.accept(h, vec![0, 1, 0, 0, 0, 0, 0, 0]).unwrap();
    stream.accept(Header { type_: 4, ..h }, nv(b"A", b"b")).unwrap();
    stream.accept(Header { type_: 4, ..h }, Vec::new()).unwrap();
    let out = stream.accept(Header { type_: 2, ..h }, Vec::new()).unwrap();
    let recs = records(&out);
    assert_eq!(recs.len(), 3);
    assert_eq!(recs[0], (6, 3, b"Status: 200\r\n\r\n".to_vec()));
    assert_eq!(recs[1], (6, 3, Vec::new()));
    assert_eq!(recs[2], (3, 3, vec![0, 0, 0, 0, 0, 0, 0, 0]));
    assert!(stream.next().is_none());
    assert_eq!(stream.pending_len(), 0);
}

#[test]
fn abort_of_unknown_id_sends_nothing() {
    let mut stream = StreamSyntax::new();
    let h = Header { version: 1, type_: 2, request_id: 8, content_length: 0, padding_length: 0, reserved: [0] };
    assert_eq!(stream.accept(h, Vec::new()), Ok(Vec::new()));
    assert_eq!(stream.pending_len(), 0);
    assert!(stream.is_open());
}

#[test]
fn abort_before_params_end() {
    let mut stream = StreamSyntax::new();
    let h = Header::decode(&begin(3, 0)[..8]).unwrap();
    stream.accept(h, vec![0, 1, 0, 0, 0, 0, 0, 0]).unwrap();
    let out = stream.accept(Header { type_: 2, ..h }, Vec::new()).unwrap();
    assert_eq!(records(&out).last().unwrap(), &(3, 3, vec![0; 8]));
    assert_eq!(stream.pending_len(), 0);
    // the id can be used again
    stream.accept(h, vec![0, 1, 0, 0, 0, 0, 0, 0]).unwrap();
    stream.accept(Header { type_: 4, ..h }, Vec::new()).unwrap();
    assert_eq!(stream.next().unwrap().0.get_id(), 3);
}

#[test]
fn keep_alive_and_close() {
    for (flags, keeps) in [(0u8, false), (1, true), (2, false), (3, true)] {
        let mut inbound = begin(1, flags);
        inbound.extend(record(4, 1, b""));
        let (_, handled, open) = serve(&Echo, &inbound).unwrap();
        assert_eq!(handled, vec![1]);
        assert_eq!(open, keeps);
    }
}

#[test]
fn keep_alive_serves_a_second_request() {
    let mut inbound = begin(1, 1);
    inbound.extend(record(4, 1, b""));
    inbound.extend(record(5, 1, b""));
    inbound.extend(begin(1, 0));
    inbound.extend(record(4, 1, &nv(b"HTTP_HOST", b"again")));
    inbound.extend(record(4, 1, b""));
    let (out, handled, open) = serve(&Echo, &inbound).unwrap();
    assert_eq!(handled, vec![1, 1]);
    assert!(!open);
    let recs = records(&out);
    assert_eq!(recs.iter().filter(|r| r.0 == 3).count(), 2);
    assert_eq!(recs[3].2, b"Status: 200\r\n\r\nhi again".to_vec());
}

#[test]
fn without_keep_alive_the_loop_stops() {
    let mut inbound = begin(1, 0);
    inbound.extend(record(4, 1, b""));
    inbound.extend(begin(2, 0));
    inbound.extend(record(4, 2, b""));
    let (_, handled, open) = serve(&Echo, &inbound).unwrap();
    assert_eq!(handled, vec![1]);
    assert!(!open);
}

#[test]
fn second_begin_overwrites() {
    let mut stream = StreamSyntax::new();
    let h = Header::decode(&begin(1, 0)[..8]).unwrap();
    stream.accept(h, vec![0, 1, 0, 0, 0, 0, 0, 0]).unwrap();
    stream.accept(Header { type_: 4, ..h }, nv(b"OLD", b"1")).unwrap();
    stream.accept(Header { type_: 4, ..h }, Vec::new()).unwrap();
    stream.accept(Header { type_: 5, ..h }, b"stale".to_vec()).unwrap();
    stream.accept(h, vec![0, 2, 1, 0, 0, 0, 0, 0]).unwrap();
    assert_eq!(stream.pending_len(), 1);
    assert!(stream.next().is_none());
    stream.accept(Header { type_: 4, ..h }, Vec::new()).unwrap();
    let (mut request, _) = stream.next().unwrap();
    assert_eq!(request.role(), 2);
    assert_eq!(request.header(b"OLD"), None);
    // nothing of the first request's body is left
    assert!(request.needs_input(1));
    request.mark_readed();
    let mut buf = [0u8; 8];
    assert_eq!(request.read(&mut buf), 0);
    assert!(stream.next().is_none());
}

#[test]
fn records_create_their_request() {
    let mut stream = StreamSyntax::new();
    let h = Header { version: 1, type_: 5, request_id: 6, content_length: 3, padding_length: 0, reserved: [0] };
    stream.accept(h, b"abc".to_vec()).unwrap();
    assert_eq!(stream.pending_len(), 1);
    stream.accept(Header { type_: 4, ..h }, Vec::new()).unwrap();
    let (mut request, _) = stream.next().unwrap();
    assert_eq!(request.get_id(), 6);
    assert_eq!(request.role(), 0);
    assert!(request.needs_input(4));
    let mut buf = [0u8; 3];
    assert_eq!(request.read(&mut buf), 3);
    assert_eq!(&buf, b"abc");
}

#[test]
fn other_record_types_are_ignored() {
    let mut stream = StreamSyntax::new();
    for type_ in [0u8, 3, 6, 7, 9, 10, 11, 99] {
        let h = Header { version: 1, type_, request_id: 0, content_length: 2, padding_length: 0, reserved: [0] };
        assert_eq!(stream.accept(h, vec![1, 2]), Ok(Vec::new()));
    }
    assert_eq!(stream.pending_len(), 0);
    assert!(stream.is_open());
}

#[test]
fn errors_leave_the_stream_as_it_was() {
    let mut stream = StreamSyntax::new();
    let h = Header::decode(&begin(1, 0)[..8]).unwrap();
    assert_eq!(stream.accept(h, vec![0, 1]), Err(Error::ProtocolTruncation));
    assert_eq!(stream.pending_len(), 0);
    stream.accept(Header { type_: 4, ..h }, vec![5, 5, b'x']).unwrap();
    assert_eq!(stream.accept(Header { type_: 4, ..h }, Vec::new()), Err(Error::ParamTruncation));
    assert_eq!(stream.pending_len(), 1);
    assert!(stream.next().is_none());
    stream.close();
    assert_eq!(stream.pending_len(), 0);
    assert!(!stream.is_open());
}

#[test]
fn errors_in_the_loop() {
    assert_eq!(serve(&Echo, &[1, 1, 0]).unwrap_err(), Error::ProtocolTruncation);
    assert_eq!(serve(&Echo, &[9, 1, 0, 1, 0, 0, 0, 0]).unwrap_err(), Error::ProtocolVersion);
    assert_eq!(serve(&Echo, &[1, 5, 0, 1, 0, 4, 0, 0, b'a']).unwrap_err(), Error::ProtocolTruncation);
    let mut inbound = record(4, 1, &[3, 3, b'a']);
    inbound.extend(record(4, 1, b""));
    assert_eq!(serve(&Echo, &inbound).unwrap_err(), Error::ParamTruncation);
}

#[test]
fn padding_is_skipped() {
    let mut inbound = vec![1, 1, 0, 1, 0, 8, 3, 0, 0, 1, 0, 0, 0, 0, 0, 0, 0xee, 0xee, 0xee];
    inbound.extend(vec![1, 4, 0, 1, 0, 0, 2, 0, 0xee, 0xee]);
    let (out, handled, _) = serve(&Echo, &inbound).unwrap();
    assert_eq!(handled, vec![1]);
    assert_eq!(records(&out)[0].2, b"Status: 200\r\n\r\nhi not provided".to_vec());
}

#[test]
fn body_records_reach_the_active_request() {
    let mut stream = StreamSyntax::new();
    let h = Header::decode(&begin(1, 0)[..8]).unwrap();
    stream.accept(h, vec![0, 1, 0, 0, 0, 0, 0, 0]).unwrap();
    stream.accept(Header { type_: 4, ..h }, Vec::new()).unwrap();
    let (mut active, mut response) = stream.next().unwrap();
    assert!(active.needs_input(4));

    // a record for another request is assembled meanwhile
    let other = Header { request_id: 2, ..h };
    assert_eq!(
        stream.route(&mut active, &mut response, other, vec![0, 1, 0, 0, 0, 0, 0, 0]),
        Ok(Vec::new())
    );
    stream.route(&mut active, &mut response, Header { type_: 4, ..other }, Vec::new()).unwrap();
    assert_eq!(stream.pending_len(), 1);

    // body bytes for the active one go to it
    stream.route(&mut active, &mut response, Header { type_: 5, ..h }, b"body".to_vec()).unwrap();
    assert!(!active.needs_input(4));
    stream.route(&mut active, &mut response, Header { type_: 5, ..h }, Vec::new()).unwrap();
    assert!(active.has_readed());
    assert_eq!(stream.pending_len(), 1);
    let mut buf = [0u8; 4];
    assert_eq!(active.read(&mut buf), 4);
    assert_eq!(&buf, b"body");

    let out = stream.finish(&active, &mut response);
    assert_eq!(records(&out).len(), 3);
    assert_eq!(stream.next().unwrap().0.get_id(), 2);
}

#[test]
fn abort_of_the_active_request() {
    let mut stream = StreamSyntax::new();
    let h = Header::decode(&begin(3, 1)[..8]).unwrap();
    stream.accept(h, vec![0, 1, 1, 0, 0, 0, 0, 0]).unwrap();
    stream.accept(Header { type_: 4, ..h }, Vec::new()).unwrap();
    let (mut request, mut response) = stream.next().unwrap();
    assert!(!request.has_readed());
    let out = stream
        .route(&mut request, &mut response, Header { type_: 2, ..h }, Vec::new())
        .unwrap();
    let recs = records(&out);
    assert_eq!(recs.len(), 3);
    assert_eq!(recs[1], (6, 3, Vec::new()));
    assert_eq!(recs[2], (3, 3, vec![0, 0, 0, 0, 0, 0, 0, 0]));
    assert!(request.has_readed());
    assert!(response.is_closed());
    assert_eq!(stream.pending_len(), 0);

    // whatever the handler still does, the request is not ended twice
    assert_eq!(response.write(b"late"), Err(Error::ResponseClosed));
    assert_eq!(stream.finish(&request, &mut response), Vec::<u8>::new());
    assert!(stream.is_open());
}

#[test]
fn finish_flushes_what_the_handler_left() {
    let mut stream = StreamSyntax::new();
    let h = Header::decode(&begin(1, 0)[..8]).unwrap();
    stream.accept(h, vec![0, 1, 0, 0, 0, 0, 0, 0]).unwrap();
    stream.accept(Header { type_: 4, ..h }, Vec::new()).unwrap();

    let (request, mut response) = stream.next().unwrap();
    response.write(b"abc").unwrap();
    let recs = records(&stream.finish(&request, &mut response));
    assert_eq!(recs[0].2, b"Status: 200\r\n\r\nabc".to_vec());
    assert_eq!(recs.iter().filter(|r| r.0 == 3).count(), 1);
    assert!(response.is_closed());
    assert!(!stream.is_open());
}

#[test]
fn finish_after_the_handler_flushed() {
    let mut stream = StreamSyntax::new();
    let h = Header::decode(&begin(1, 1)[..8]).unwrap();
    stream.accept(h, vec![0, 1, 1, 0, 0, 0, 0, 0]).unwrap();
    stream.accept(Header { type_: 4, ..h }, Vec::new()).unwrap();

    let (request, mut response) = stream.next().unwrap();
    response.write(b"abc").unwrap();
    response.flush().unwrap();
    let recs = records(&stream.finish(&request, &mut response));
    assert_eq!(recs.len(), 3);
    assert_eq!(recs.iter().filter(|r| r.0 == 3).count(), 1);
    assert!(stream.is_open());
}

#[test]
fn failing_handler_is_reported() {
    let mut stream = StreamSyntax::new();
    let h = Header::decode(&begin(4, 0)[..8]).unwrap();
    stream.accept(h, vec![0, 1, 0, 0, 0, 0, 0, 0]).unwrap();
    stream.accept(Header { type_: 4, ..h }, Vec::new()).unwrap();
    let (request, mut response) = stream.next().unwrap();
    response.write(b"about to fail").unwrap();
    let recs = records(&stream.fail(&request, &mut response));
    assert_eq!(recs[0].2, b"Status: 500\r\n\r\n".to_vec());
    assert_eq!(recs.last().unwrap(), &(3, 4, vec![0, 0, 0, 1, 0, 0, 0, 0]));
    assert!(response.is_closed());
    assert!(!stream.is_open());
}
