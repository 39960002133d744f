//! The response side of a FastCGI exchange: a writer that takes the
//! application's output and frames it into records.
//!
//! The writer never touches a transport. What it frames goes into an outbox
//! that the caller takes and sends. Bytes are held back until a full record
//! can be made of them or the response is flushed; the HTTP header block goes
//! out in front of the first of them.

use crate::error::Error;
use crate::fastcgi::{
    EndRequestBody, EndRequestRecord, Header, Writable, END_REQUEST, MAX_LENGTH, REQUEST_COMPLETE,
    STDOUT,
};
use crate::headers::{bytes_to_vec, pairs_insert, HeaderMap, Pair};
use crate::request::record_content;
use crate::text::{decimal, decimal_digits};
use vstd::prelude::*;
use vstd::utf8::encode_utf8;

verus! {

/// The name of the header that carries the HTTP status: `Status`.
pub open spec fn status_name() -> Seq<u8> {
    seq![0x53u8, 0x74u8, 0x61u8, 0x74u8, 0x75u8, 0x73u8]
}

/// What stands between a header's name and its value: a colon and a space.
pub open spec fn header_separator() -> Seq<u8> {
    seq![0x3au8, 0x20u8]
}

/// The HTTP line delimiter: carriage return, line feed.
pub open spec fn line_end() -> Seq<u8> {
    seq![0x0du8, 0x0au8]
}

/// One line for each header: name, colon, space, value, line delimiter.
pub open spec fn header_lines(headers: Seq<Pair>) -> Seq<u8>
    decreases headers.len(),
{
    if headers.len() == 0 {
        Seq::empty()
    } else {
        header_lines(headers.drop_last()) + headers.last().0 + header_separator()
            + headers.last().1 + line_end()
    }
}

/// The HTTP header block: the header lines, then an empty line.
pub open spec fn header_block(headers: Seq<Pair>) -> Seq<u8> {
    header_lines(headers) + line_end()
}

/// An outbound record: its type, the request it belongs to, its content.
pub struct Frame {
    pub type_: u8,
    pub request_id: u16,
    pub content: Seq<u8>,
}

/// The header that goes out in front of the content of a frame.
pub open spec fn frame_header(frame: Frame) -> Header
    recommends
        frame.content.len() <= MAX_LENGTH,
{
    Header::spec_outbound(frame.type_, frame.request_id, frame.content.len() as u16)
}

/// The bytes of a frame on the wire: header, then content, no padding.
pub open spec fn frame_wire(frame: Frame) -> Seq<u8>
    recommends
        frame.content.len() <= MAX_LENGTH,
{
    frame_header(frame).wire() + frame.content
}

/// The bytes of some frames on the wire, one after the other.
pub open spec fn frames_wire(frames: Seq<Frame>) -> Seq<u8>
    decreases frames.len(),
{
    if frames.len() == 0 {
        Seq::empty()
    } else {
        frame_wire(frames.first()) + frames_wire(frames.skip(1))
    }
}

/// A STDOUT frame.
pub open spec fn stdout_frame(id: u16, content: Seq<u8>) -> Frame {
    Frame { type_: STDOUT, request_id: id, content }
}

/// The END_REQUEST frame that reports `app_status` and a complete request.
pub open spec fn end_frame(id: u16, app_status: u32) -> Frame {
    Frame {
        type_: END_REQUEST,
        request_id: id,
        content: (EndRequestBody {
            app_status,
            protocol_status: REQUEST_COMPLETE,
            reserved: [0u8, 0u8, 0u8],
        }).wire(),
    }
}

/// The STDOUT frames for the leading part of `payload` that fills whole
/// records: each carries `MAX_LENGTH` bytes.
pub open spec fn full_frames(id: u16, payload: Seq<u8>) -> Seq<Frame>
    decreases payload.len(),
{
    if payload.len() < MAX_LENGTH {
        Seq::empty()
    } else {
        seq![stdout_frame(id, payload.take(MAX_LENGTH as int))] + full_frames(
            id,
            payload.skip(MAX_LENGTH as int),
        )
    }
}

/// What is left of `payload` behind its whole records: fewer than
/// `MAX_LENGTH` bytes.
pub open spec fn remainder(payload: Seq<u8>) -> Seq<u8>
    decreases payload.len(),
{
    if payload.len() < MAX_LENGTH {
        payload
    } else {
        remainder(payload.skip(MAX_LENGTH as int))
    }
}

/// The STDOUT frames for all of `payload`: its whole records, then one for
/// what is left, unless nothing is left. No frame is empty.
pub open spec fn stdout_frames(id: u16, payload: Seq<u8>) -> Seq<Frame> {
    if remainder(payload).len() == 0 {
        full_frames(id, payload)
    } else {
        full_frames(id, payload).push(stdout_frame(id, remainder(payload)))
    }
}

/// The frames that end a request after `payload`: the STDOUT frames for the
/// payload, the empty STDOUT frame that ends the stream, the END_REQUEST.
pub open spec fn closing_frames(id: u16, payload: Seq<u8>, app_status: u32) -> Seq<Frame> {
    stdout_frames(id, payload).push(stdout_frame(id, Seq::empty())).push(
        end_frame(id, app_status),
    )
}

/// What a response holds.
#[verifier::ext_equal]
pub struct ResponseView {
    /// FastCGI request id
    pub id: u16,
    /// The HTTP headers, in the order in which their names first came
    pub headers: Seq<Pair>,
    /// The bytes that were written and are not framed yet
    pub buffer: Seq<u8>,
    /// True once the header block has been put in front of the output
    pub headers_sent: bool,
    /// True once the request has been ended
    pub closed: bool,
    /// The framed bytes that wait for the transport
    pub outbox: Seq<u8>,
}

/// The response as `Response::new` makes it: status 200, nothing written.
pub open spec fn new_response(id: u16) -> ResponseView {
    ResponseView {
        id,
        headers: seq![(status_name(), decimal(200))],
        buffer: Seq::empty(),
        headers_sent: false,
        closed: false,
        outbox: Seq::empty(),
    }
}

/// The bytes that a response has yet to frame: the header block unless it
/// went out already, then the buffer.
pub open spec fn staged(r: ResponseView) -> Seq<u8> {
    if r.headers_sent {
        r.buffer
    } else {
        header_block(r.headers) + r.buffer
    }
}

/// The response after a header was set. Once the header block went out,
/// nothing changes.
pub open spec fn with_header(r: ResponseView, name: Seq<u8>, value: Seq<u8>) -> ResponseView {
    if r.headers_sent || r.closed {
        r
    } else {
        ResponseView { headers: pairs_insert(r.headers, name, value), ..r }
    }
}

/// The response after its body was replaced. Once the header block went
/// out, nothing changes.
pub open spec fn with_body(r: ResponseView, data: Seq<u8>) -> ResponseView {
    if r.headers_sent || r.closed {
        r
    } else {
        ResponseView { buffer: data, ..r }
    }
}

/// The frames that a write of `data` sends out: none while the staged bytes
/// and `data` together stay below `MAX_LENGTH`, else their whole records.
pub open spec fn write_frames(r: ResponseView, data: Seq<u8>) -> Seq<Frame> {
    if r.closed {
        Seq::empty()
    } else {
        full_frames(r.id, staged(r) + data)
    }
}

/// The response after a write of `data`. A closed response does not change.
/// While the staged bytes and `data` together stay below `MAX_LENGTH`, the
/// data joins the buffer. Else the whole records go to the outbox, header
/// block first, and the buffer keeps what is left.
pub open spec fn with_write(r: ResponseView, data: Seq<u8>) -> ResponseView {
    if r.closed {
        r
    } else if (staged(r) + data).len() < MAX_LENGTH {
        ResponseView { buffer: r.buffer + data, ..r }
    } else {
        ResponseView {
            buffer: remainder(staged(r) + data),
            headers_sent: true,
            outbox: r.outbox + frames_wire(write_frames(r, data)),
            ..r
        }
    }
}

/// True if `send_chunk` has a record to send: the response is open, and
/// `end` is a length that a record can have and that is staged.
pub open spec fn can_chunk(r: ResponseView, end: nat) -> bool {
    !r.closed && 0 < end <= MAX_LENGTH && end <= staged(r).len()
}

/// The frame that `send_chunk` sends out: the first `end` staged bytes as
/// one STDOUT record, or nothing.
pub open spec fn chunk_frames(r: ResponseView, end: nat) -> Seq<Frame> {
    if can_chunk(r, end) {
        seq![stdout_frame(r.id, staged(r).take(end as int))]
    } else {
        Seq::empty()
    }
}

/// The response after `send_chunk`: the first `end` staged bytes went to the
/// outbox as one record, header block first, or nothing changed.
pub open spec fn with_chunk(r: ResponseView, end: nat) -> ResponseView {
    if can_chunk(r, end) {
        ResponseView {
            buffer: staged(r).skip(end as int),
            headers_sent: true,
            outbox: r.outbox + frame_wire(stdout_frame(r.id, staged(r).take(end as int))),
            ..r
        }
    } else {
        r
    }
}

/// The frames that ending the request with `app_status` sends out: all that
/// is staged, the end of the stream, the end of the request. A closed
/// response sends nothing.
pub open spec fn end_frames(r: ResponseView, app_status: u32) -> Seq<Frame> {
    if r.closed {
        Seq::empty()
    } else {
        closing_frames(r.id, staged(r), app_status)
    }
}

/// The response after the request was ended with `app_status`. A closed
/// response does not change.
pub open spec fn with_end(r: ResponseView, app_status: u32) -> ResponseView {
    if r.closed {
        r
    } else {
        ResponseView {
            buffer: Seq::empty(),
            headers_sent: true,
            closed: true,
            outbox: r.outbox + frames_wire(end_frames(r, app_status)),
            ..r
        }
    }
}

/// The response as a failed handler leaves it to be ended: if the header
/// block did not go out yet, the status becomes 500 and the body is dropped.
pub open spec fn failed(r: ResponseView) -> ResponseView {
    with_header(with_body(r, Seq::empty()), status_name(), decimal(500))
}

/// The wire bytes of the frames that end a request: the whole records of
/// the payload, the record for what is left of it, if anything is, the
/// empty STDOUT record, and the END_REQUEST record.
pub proof fn lemma_closing_wire(id: u16, payload: Seq<u8>, app_status: u32)
    ensures
        frames_wire(closing_frames(id, payload, app_status)) == frames_wire(
            full_frames(id, payload),
        ) + (if remainder(payload).len() > 0 {
            frame_wire(stdout_frame(id, remainder(payload)))
        } else {
            Seq::empty()
        }) + frame_wire(stdout_frame(id, Seq::empty())) + frame_wire(end_frame(id, app_status)),
{
    let whole = full_frames(id, payload);
    let chunks = stdout_frames(id, payload);
    let empty = stdout_frame(id, Seq::empty());
    if remainder(payload).len() > 0 {
        lemma_frames_wire_push(whole, stdout_frame(id, remainder(payload)));
    } else {
        assert(frames_wire(whole) + Seq::<u8>::empty() =~= frames_wire(whole));
    }
    lemma_frames_wire_push(chunks, empty);
    lemma_frames_wire_push(chunks.push(empty), end_frame(id, app_status));
}

/// The wire bytes of frames followed by one more frame.
pub proof fn lemma_frames_wire_push(frames: Seq<Frame>, frame: Frame)
    ensures
        frames_wire(frames.push(frame)) == frames_wire(frames) + frame_wire(frame),
    decreases frames.len(),
{
    let all = frames.push(frame);
    if frames.len() == 0 {
        assert(all.skip(1) =~= Seq::<Frame>::empty());
        assert(frames_wire(Seq::<Frame>::empty()) =~= Seq::<u8>::empty());
    } else {
        assert(all.skip(1) =~= frames.skip(1).push(frame));
        lemma_frames_wire_push(frames.skip(1), frame);
    }
}

/// The whole records of a payload of at least `MAX_LENGTH` bytes: the first
/// `MAX_LENGTH` bytes, then the whole records of the rest.
pub proof fn lemma_full_frames_step(id: u16, payload: Seq<u8>)
    requires
        payload.len() >= MAX_LENGTH,
    ensures
        frames_wire(full_frames(id, payload)) == frame_wire(
            stdout_frame(id, payload.take(MAX_LENGTH as int)),
        ) + frames_wire(full_frames(id, payload.skip(MAX_LENGTH as int))),
        remainder(payload) == remainder(payload.skip(MAX_LENGTH as int)),
{
    let frames = full_frames(id, payload);
    assert(frames.skip(1) =~= full_frames(id, payload.skip(MAX_LENGTH as int)));
}

/// What is left behind the whole records is shorter than a record.
pub proof fn lemma_remainder_short(payload: Seq<u8>)
    ensures
        remainder(payload).len() < MAX_LENGTH,
        remainder(payload).len() <= payload.len(),
    decreases payload.len(),
{
    if payload.len() >= MAX_LENGTH {
        lemma_remainder_short(payload.skip(MAX_LENGTH as int));
    }
}

/// HTTP implementation of response
#[derive(Debug)]
pub struct Response {
    id: u16,
    header: HeaderMap,
    buf: Vec<u8>,
    pending: bool,
    closed: bool,
    out: Vec<u8>,
}

impl View for Response {
    type V = ResponseView;

    closed spec fn view(&self) -> ResponseView {
        ResponseView {
            id: self.id,
            headers: self.header.pairs(),
            buffer: self.buf@,
            headers_sent: self.pending,
            closed: self.closed,
            outbox: self.out@,
        }
    }
}

/// Provide accepting reference to some data types
pub trait AsBytes {
    /// The bytes that the value stands for.
    spec fn bytes(&self) -> Seq<u8>;

    /// Must return byte slice
    fn as_bytes(&self) -> (data: &[u8])
        ensures
            data@ == self.bytes(),
    ;
}

impl<'a> AsBytes for &'a String {
    /// The UTF-8 encoding of the text.
    open spec fn bytes(&self) -> Seq<u8> {
        encode_utf8((**self)@)
    }

    fn as_bytes(&self) -> (data: &[u8]) {
        self.as_str().as_bytes()
    }
}

impl<'a> AsBytes for &'a Vec<u8> {
    /// The bytes of the vector.
    open spec fn bytes(&self) -> Seq<u8> {
        (**self)@
    }

    fn as_bytes(&self) -> (data: &[u8]) {
        self.as_slice()
    }
}

impl<'a> AsBytes for &'a str {
    /// The UTF-8 encoding of the text.
    open spec fn bytes(&self) -> Seq<u8> {
        encode_utf8((**self)@)
    }

    fn as_bytes(&self) -> (data: &[u8]) {
        str::as_bytes(self)
    }
}

/// The bytes of `Status`.
fn status_key() -> (name: Vec<u8>)
    ensures
        name@ == status_name(),
{
    let mut name: Vec<u8> = Vec::with_capacity(6);
    name.push(0x53);
    name.push(0x74);
    name.push(0x61);
    name.push(0x74);
    name.push(0x75);
    name.push(0x73);
    name
}

impl Response {
    /// Constructor
    pub fn new(id: u16) -> (response: Response)
        ensures
            response@ == new_response(id),
    {
        let mut header = HeaderMap::new();
        header.insert(status_key(), decimal_digits(200));
        proof {
            crate::headers::lemma_pairs_insert(Seq::empty(), status_name(), decimal(200));
        }

        Response { id: id, header: header, buf: Vec::new(), pending: false, closed: false, out: Vec::new() }
    }

    /// FastCGI requestId
    pub fn get_id(&self) -> (id: u16)
        ensures
            id == self@.id,
    {
        self.id
    }

    /// True once the header block has been put in front of the output; the
    /// headers can no longer be changed then.
    pub fn headers_sent(&self) -> (sent: bool)
        ensures
            sent == self@.headers_sent,
    {
        self.pending
    }

    /// True once the request has been ended.
    pub fn is_closed(&self) -> (closed: bool)
        ensures
            closed == self@.closed,
    {
        self.closed
    }

    /// Get as raw bytes: the HTTP header block, one line for each header and
    /// an empty line at the end.
    pub fn http_headers(&self) -> (data: Vec<u8>)
        ensures
            data@ == header_block(self@.headers),
    {
        let mut data: Vec<u8> = Vec::new();

        let mut i: usize = 0;
        while i < self.header.len()
            invariant
                i <= self.header.pairs().len(),
                data@ == header_lines(self.header.pairs().take(i as int)),
            decreases self.header.pairs().len() - i,
        {
            let name = self.header.name_at(i);
            let value = self.header.value_at(i);
            data.extend_from_slice(name.as_slice());
            data.push(0x3a);
            data.push(0x20);
            data.extend_from_slice(value.as_slice());
            data.push(0x0d);
            data.push(0x0a);
            assert(self.header.pairs().take(i + 1).drop_last() =~= self.header.pairs().take(
                i as int,
            ));
            i += 1;
        }
        assert(self.header.pairs().take(i as int) =~= self.header.pairs());

        // http headers delimiter
        data.push(0x0d);
        data.push(0x0a);

        data
    }

    /// Add some HTTP header. Nothing happens once the header block went out.
    pub fn header(&mut self, key: &[u8], value: &[u8])
        ensures
            final(self)@ == with_header(old(self)@, key@, value@),
    {
        if !self.pending && !self.closed {
            self.header.insert(bytes_to_vec(key), bytes_to_vec(value));
        }
    }

    /// Add some HTTP header from utf8. Nothing happens once the header block
    /// went out.
    pub fn header_utf8(&mut self, key: &str, value: &str)
        ensures
            final(self)@ == with_header(old(self)@, encode_utf8(key@), encode_utf8(value@)),
    {
        self.header(key.as_bytes(), value.as_bytes());
    }

    /// Set custom HTTP status: the `Status` header gets the code in decimal.
    /// Nothing happens once the header block went out.
    pub fn status(&mut self, code: u16)
        ensures
            final(self)@ == with_header(old(self)@, status_name(), decimal(code as nat)),
    {
        if !self.pending && !self.closed {
            self.header.insert(status_key(), decimal_digits(code));
        }
    }

    /// Set some data into response: it replaces what was written and is not
    /// framed yet. Nothing happens once the header block went out.
    pub fn body<T: AsBytes>(&mut self, data: T)
        ensures
            final(self)@ == with_body(old(self)@, data.bytes()),
    {
        if !self.pending && !self.closed {
            self.buf.clear();
            self.buf.extend_from_slice(data.as_bytes());
        }
    }

    /// Get raw header bytes: the header of an outbound record of this
    /// request.
    fn record_header(&self, type_: u8, length: u16) -> (data: Vec<u8>)
        ensures
            data@ == Header::spec_outbound(type_, self.id, length).wire(),
    {
        let header = Header::outbound(type_, self.id, length);

        header.write()
    }

    /// End request record
    fn end_request(&self, app_status: u32) -> (data: Vec<u8>)
        ensures
            data@ == frame_wire(end_frame(self.id, app_status)),
    {
        let body = EndRequestBody {
            app_status: app_status,
            protocol_status: REQUEST_COMPLETE,
            reserved: [0u8, 0u8, 0u8],
        };
        let record = EndRequestRecord { header: Header::outbound(END_REQUEST, self.id, 8), body: body };

        let data = record.write();
        data
    }

    /// Puts the header block in front of the buffer, unless that was done
    /// before. From then on the headers are fixed.
    fn send_header(&mut self)
        ensures
            final(self)@ == (ResponseView {
                buffer: staged(old(self)@),
                headers_sent: true,
                ..old(self)@
            }),
    {
        if !self.pending {
            let mut data = self.http_headers();
            data.extend_from_slice(self.buf.as_slice());
            self.buf = data;
            self.pending = true;
        }
    }

    /// Frames the first `end` staged bytes as one STDOUT record, with the
    /// record's length in its header, and keeps the rest staged. The header
    /// block is staged in front of what was written, unless it went out
    /// before. Nothing happens if `end` is 0 or more than `MAX_LENGTH`, if
    /// fewer bytes are staged, or if the response is closed.
    pub fn send_chunk(&mut self, end: usize)
        ensures
            final(self)@ == with_chunk(old(self)@, end as nat),
    {
        if self.closed || end == 0 || end > MAX_LENGTH {
            return ;
        }
        if !self.pending {
            let block = self.http_headers();
            if end > block.len() && end - block.len() > self.buf.len() {
                return ;
            }
            self.send_header();
        } else if end > self.buf.len() {
            return ;
        }
        let h = self.record_header(STDOUT, end as u16);
        let rest = self.buf.split_off(end);
        self.out.extend_from_slice(h.as_slice());
        self.out.extend_from_slice(self.buf.as_slice());
        self.buf = rest;
    }

    /// Frames the whole records that the buffer holds.
    fn send_full_chunks(&mut self)
        requires
            old(self)@.headers_sent,
            !old(self)@.closed,
        ensures
            final(self)@ == (ResponseView {
                buffer: remainder(old(self)@.buffer),
                outbox: old(self)@.outbox + frames_wire(
                    full_frames(old(self)@.id, old(self)@.buffer),
                ),
                ..old(self)@
            }),
    {
        let ghost start = self@;
        while self.buf.len() >= MAX_LENGTH
            invariant
                self@.id == start.id,
                self@.headers == start.headers,
                self@.headers_sent,
                !self@.closed,
                start.headers_sent,
                !start.closed,
                remainder(self@.buffer) == remainder(start.buffer),
                self@.outbox + frames_wire(full_frames(start.id, self@.buffer)) == start.outbox
                    + frames_wire(full_frames(start.id, start.buffer)),
            decreases self@.buffer.len(),
        {
            proof {
                lemma_full_frames_step(start.id, self@.buffer);
            }
            self.send_chunk(MAX_LENGTH);
        }
    }

    /// Takes `buf` into the response and returns its length. Bytes are held
    /// back until a whole record can be made of them; the header block goes
    /// out in front of the first record. A closed response takes nothing.
    pub fn write(&mut self, buf: &[u8]) -> (result: Result<usize, Error>)
        ensures
            old(self)@.closed ==> result == Err::<usize, Error>(Error::ResponseClosed),
            !old(self)@.closed ==> result == Ok::<usize, Error>(buf@.len() as usize),
            final(self)@ == with_write(old(self)@, buf@),
    {
        if self.closed {
            return Err(Error::ResponseClosed);
        }
        if !self.pending {
            let block = self.http_headers();
            let held: usize = self.buf.len();
            if block.len() < MAX_LENGTH && held < MAX_LENGTH - block.len() && buf.len() < MAX_LENGTH
                - block.len() - held {
                self.buf.extend_from_slice(buf);
                return Ok(buf.len());
            }
            self.send_header();
        }
        self.buf.extend_from_slice(buf);
        proof {
            lemma_remainder_short(self@.buffer);
            assert(self@.buffer =~= staged(old(self)@) + buf@);
        }
        self.send_full_chunks();

        Ok(buf.len())
    }

    /// Ends the request: everything that is staged goes out, then the empty
    /// STDOUT record that ends the stream, then the END_REQUEST record with
    /// `app_status`. A closed response stays as it is.
    pub fn end(&mut self, app_status: u32)
        ensures
            final(self)@ == with_end(old(self)@, app_status),
    {
        if self.closed {
            return ;
        }
        let data = self.closing_data(app_status);
        self.out.extend_from_slice(data.as_slice());
        self.buf.clear();
        self.pending = true;
        self.closed = true;
    }

    /// Force emission of all buffered bytes and the terminal records, with
    /// application status 0. A closed response stays as it is.
    pub fn flush(&mut self) -> (result: Result<(), Error>)
        ensures
            result is Ok,
            final(self)@ == with_end(old(self)@, 0),
    {
        self.end(0);

        Ok(())
    }

    /// Ends the request of a handler that failed, with application status 1.
    /// If the header block did not go out yet, the status becomes 500 and
    /// the body is dropped. A closed response stays as it is.
    pub fn fail(&mut self)
        ensures
            final(self)@ == with_end(failed(old(self)@), 1),
    {
        if !self.pending && !self.closed {
            self.buf.clear();
            self.header.insert(status_key(), decimal_digits(500));
        }
        self.end(1);
    }

    /// Takes the framed bytes that wait for the transport.
    pub fn take_output(&mut self) -> (data: Vec<u8>)
        ensures
            data@ == old(self)@.outbox,
            final(self)@ == (ResponseView { outbox: Seq::empty(), ..old(self)@ }),
    {
        let mut data: Vec<u8> = Vec::new();
        core::mem::swap(&mut self.out, &mut data);
        data
    }

    /// Get as raw bytes: the records that would end the request now, that
    /// is all that is staged, cut into STDOUT records, the empty STDOUT
    /// record, and the END_REQUEST record. Nothing for a closed response.
    pub fn get_data(&self) -> (result: Vec<u8>)
        ensures
            result@ == frames_wire(end_frames(self@, 0)),
    {
        if self.closed {
            return Vec::new();
        }
        self.closing_data(0)
    }

    /// The records that end the request with `app_status`.
    fn closing_data(&self, app_status: u32) -> (result: Vec<u8>)
        ensures
            result@ == frames_wire(closing_frames(self@.id, staged(self@), app_status)),
    {
        let mut result: Vec<u8> = Vec::new();

        // http headers, http body
        let mut data: Vec<u8> = Vec::new();
        if !self.pending {
            data = self.http_headers();
        }
        data.extend_from_slice(self.buf.as_slice());
        assert(data@ =~= staged(self@));

        let length: usize = data.len();
        let mut from: usize = 0;
        assert(data@.skip(0) =~= data@);
        while length - from >= MAX_LENGTH
            invariant
                from <= length,
                length == data@.len(),
                result@ + frames_wire(full_frames(self@.id, data@.skip(from as int)))
                    == frames_wire(full_frames(self@.id, data@)),
                remainder(data@.skip(from as int)) == remainder(data@),
            decreases length - from,
        {
            let ghost before = result@;
            let ghost rest = data@.skip(from as int);
            self.push_frame(&mut result, STDOUT, data.as_slice(), from, from + MAX_LENGTH);
            proof {
                lemma_full_frames_step(self@.id, rest);
                assert(data@.subrange(from as int, from + MAX_LENGTH) =~= rest.take(
                    MAX_LENGTH as int,
                ));
                assert(rest.skip(MAX_LENGTH as int) =~= data@.skip(from + MAX_LENGTH));
                assert(before + frame_wire(stdout_frame(self@.id, rest.take(MAX_LENGTH as int)))
                    + frames_wire(full_frames(self@.id, rest.skip(MAX_LENGTH as int))) =~= before
                    + frames_wire(full_frames(self@.id, rest)));
            }
            from = from + MAX_LENGTH;
        }
        let ghost whole = result@;
        assert(whole =~= frames_wire(full_frames(self@.id, data@))) by {
            assert(frames_wire(full_frames(self@.id, data@.skip(from as int))) =~= Seq::<u8>::empty());
        }
        if length > from {
            self.push_frame(&mut result, STDOUT, data.as_slice(), from, length);
            assert(data@.subrange(from as int, length as int) =~= remainder(data@));
        }

        // terminate record
        self.push_frame(&mut result, STDOUT, data.as_slice(), length, length);
        assert(data@.subrange(length as int, length as int) =~= Seq::<u8>::empty());
        let last = self.end_request(app_status);
        result.extend_from_slice(last.as_slice());
        proof {
            lemma_closing_wire(self@.id, data@, app_status);
        }

        result
    }

    /// Appends to `out` the record of type `type_` whose content are the
    /// bytes of `data` from place `from` up to place `to`.
    fn push_frame(&self, out: &mut Vec<u8>, type_: u8, data: &[u8], from: usize, to: usize)
        requires
            from <= to <= data@.len(),
            to - from <= MAX_LENGTH,
        ensures
            final(out)@ == old(out)@ + frame_wire(
                Frame {
                    type_,
                    request_id: self@.id,
                    content: data@.subrange(from as int, to as int),
                },
            ),
    {
        let h = self.record_header(type_, (to - from) as u16);
        out.extend_from_slice(h.as_slice());
        out.extend_from_slice(vstd::slice::slice_subrange(data, from, to));
    }
}

/// One operation on a response.
pub enum Op {
    /// `status` with a code
    Status(u16),
    /// `header` with a name and a value
    Header(Seq<u8>, Seq<u8>),
    /// `body` with the new body
    Body(Seq<u8>),
    /// `write` with the bytes
    Write(Seq<u8>),
    /// `send_chunk` with a length
    Chunk(nat),
    /// `end` with an application status; `flush` is `End(0)`
    End(u32),
    /// `fail`
    Fail,
    /// `take_output`
    Take,
}

/// The response after an operation.
pub open spec fn apply(r: ResponseView, op: Op) -> ResponseView {
    match op {
        Op::Status(code) => with_header(r, status_name(), decimal(code as nat)),
        Op::Header(name, value) => with_header(r, name, value),
        Op::Body(data) => with_body(r, data),
        Op::Write(data) => with_write(r, data),
        Op::Chunk(end) => with_chunk(r, end),
        Op::End(app_status) => with_end(r, app_status),
        Op::Fail => with_end(failed(r), 1),
        Op::Take => ResponseView { outbox: Seq::empty(), ..r },
    }
}

/// The frames that an operation sends out.
pub open spec fn emitted(r: ResponseView, op: Op) -> Seq<Frame> {
    match op {
        Op::Write(data) => write_frames(r, data),
        Op::Chunk(end) => chunk_frames(r, end),
        Op::End(app_status) => end_frames(r, app_status),
        Op::Fail => end_frames(failed(r), 1),
        _ => Seq::empty(),
    }
}

/// The response for request `id` after a series of operations on a new one.
pub open spec fn state_after(id: u16, ops: Seq<Op>) -> ResponseView
    decreases ops.len(),
{
    if ops.len() == 0 {
        new_response(id)
    } else {
        apply(state_after(id, ops.drop_last()), ops.last())
    }
}

/// All the frames that a series of operations on a new response sent out,
/// in their order.
pub open spec fn frames_after(id: u16, ops: Seq<Op>) -> Seq<Frame>
    decreases ops.len(),
{
    if ops.len() == 0 {
        Seq::empty()
    } else {
        frames_after(id, ops.drop_last()) + emitted(
            state_after(id, ops.drop_last()),
            ops.last(),
        )
    }
}

/// All the bytes that `take_output` handed out in a series of operations on
/// a new response.
pub open spec fn taken_after(id: u16, ops: Seq<Op>) -> Seq<u8>
    decreases ops.len(),
{
    if ops.len() == 0 {
        Seq::empty()
    } else if ops.last() is Take {
        taken_after(id, ops.drop_last()) + state_after(id, ops.drop_last()).outbox
    } else {
        taken_after(id, ops.drop_last())
    }
}

/// True if the frame is a STDOUT record of request `id` that is not empty
/// and not longer than `MAX_LENGTH`.
pub open spec fn is_chunk(frame: Frame, id: u16) -> bool {
    frame.type_ == STDOUT && frame.request_id == id && 0 < frame.content.len() <= MAX_LENGTH
}

/// The stream of a request that has not ended: STDOUT records that are not
/// empty, none longer than `MAX_LENGTH`.
pub open spec fn open_stream(frames: Seq<Frame>, id: u16) -> bool {
    forall|i: int| 0 <= i < frames.len() ==> is_chunk(#[trigger] frames[i], id)
}

/// The stream of a request that has ended: STDOUT records that are not
/// empty, then one empty STDOUT record, then one END_REQUEST record.
pub open spec fn closed_stream(frames: Seq<Frame>, id: u16) -> bool {
    &&& frames.len() >= 2
    &&& open_stream(frames.take(frames.len() - 2), id)
    &&& frames[frames.len() - 2] == stdout_frame(id, Seq::empty())
    &&& frames[frames.len() - 1].type_ == END_REQUEST
    &&& frames[frames.len() - 1].request_id == id
    &&& frames[frames.len() - 1].content.len() == 8
}

/// How many of the frames are END_REQUEST records.
pub open spec fn end_request_count(frames: Seq<Frame>) -> nat
    decreases frames.len(),
{
    if frames.len() == 0 {
        0
    } else {
        end_request_count(frames.drop_last()) + if frames.last().type_ == END_REQUEST {
            1nat
        } else {
            0nat
        }
    }
}

/// The whole records of a payload are STDOUT records of `MAX_LENGTH` bytes.
pub proof fn lemma_full_frames_are_chunks(id: u16, payload: Seq<u8>)
    ensures
        open_stream(full_frames(id, payload), id),
    decreases payload.len(),
{
    if payload.len() >= MAX_LENGTH {
        let rest = full_frames(id, payload.skip(MAX_LENGTH as int));
        lemma_full_frames_are_chunks(id, payload.skip(MAX_LENGTH as int));
        let frames = full_frames(id, payload);
        assert forall|i: int| 0 <= i < frames.len() implies is_chunk(#[trigger] frames[i], id) by {}
    }
}

/// The STDOUT records of a payload are not empty, and none is longer than
/// `MAX_LENGTH`.
pub proof fn lemma_stdout_frames_are_chunks(id: u16, payload: Seq<u8>)
    ensures
        open_stream(stdout_frames(id, payload), id),
{
    lemma_full_frames_are_chunks(id, payload);
    lemma_remainder_short(payload);
}

/// A stream that has not ended holds no END_REQUEST record; one that has
/// ended holds exactly one.
pub proof fn lemma_end_request_count(frames: Seq<Frame>, id: u16)
    ensures
        open_stream(frames, id) ==> end_request_count(frames) == 0,
        closed_stream(frames, id) ==> end_request_count(frames) == 1,
    decreases frames.len(),
{
    if frames.len() > 0 {
        let front = frames.drop_last();
        if open_stream(frames, id) {
            assert forall|i: int| 0 <= i < front.len() implies is_chunk(#[trigger] front[i], id) by {}
            lemma_end_request_count(front, id);
        }
        if closed_stream(frames, id) {
            let middle = front.drop_last();
            lemma_end_request_count(middle, id);
            assert(end_request_count(front) == end_request_count(middle));
        }
    }
}

/// One operation keeps the stream of a response in order: a stream that
/// has not ended stays one or becomes one that has ended, and nothing is
/// sent after the end.
proof fn lemma_stream_step(id: u16, before: ResponseView, sent: Seq<Frame>, op: Op)
    requires
        before.id == id,
        before.closed ==> before.headers_sent,
        !before.closed ==> open_stream(sent, id),
        before.closed ==> closed_stream(sent, id),
    ensures
        apply(before, op).id == id,
        apply(before, op).closed ==> apply(before, op).headers_sent,
        !apply(before, op).closed ==> open_stream(sent + emitted(before, op), id),
        apply(before, op).closed ==> closed_stream(sent + emitted(before, op), id),
{
    let new = emitted(before, op);
    if before.closed {
        assert(new =~= Seq::<Frame>::empty());
        assert(sent + new =~= sent);
    } else {
        match op {
            Op::Write(data) => {
                lemma_full_frames_are_chunks(id, staged(before) + data);
                lemma_open_stream_concat(sent, new, id);
            },
            Op::Chunk(end) => {
                lemma_open_stream_concat(sent, new, id);
            },
            Op::End(app_status) => {
                lemma_stdout_frames_are_chunks(id, staged(before));
                lemma_closing(sent, id, staged(before), app_status);
            },
            Op::Fail => {
                lemma_stdout_frames_are_chunks(id, staged(failed(before)));
                lemma_closing(sent, id, staged(failed(before)), 1);
            },
            _ => {
                assert(sent + new =~= sent);
            },
        }
    }
}

/// One operation adds to the outbox the wire bytes of the frames that it
/// sends out; `take_output` moves the outbox to what was taken.
proof fn lemma_outbox_step(before: ResponseView, op: Op)
    ensures
        op !is Take ==> apply(before, op).outbox == before.outbox + frames_wire(
            emitted(before, op),
        ),
        op is Take ==> apply(before, op).outbox == Seq::<u8>::empty() && emitted(before, op)
            == Seq::<Frame>::empty(),
{
    assert(frames_wire(Seq::<Frame>::empty()) =~= Seq::<u8>::empty());
    assert(before.outbox + Seq::<u8>::empty() =~= before.outbox);
    match op {
        Op::Write(data) => {
            if !before.closed && (staged(before) + data).len() < MAX_LENGTH {
                assert(write_frames(before, data) =~= Seq::<Frame>::empty());
            }
        },
        Op::Chunk(end) => {
            if can_chunk(before, end) {
                lemma_frames_wire_push(
                    Seq::empty(),
                    stdout_frame(before.id, staged(before).take(end as int)),
                );
                assert(Seq::<Frame>::empty().push(
                    stdout_frame(before.id, staged(before).take(end as int)),
                ) =~= chunk_frames(before, end));
            }
        },
        _ => {},
    }
}

/// Two streams that have not ended, one after the other, are one.
proof fn lemma_open_stream_concat(first: Seq<Frame>, second: Seq<Frame>, id: u16)
    requires
        open_stream(first, id),
        open_stream(second, id),
    ensures
        open_stream(first + second, id),
{
    let all = first + second;
    assert forall|i: int| 0 <= i < all.len() implies is_chunk(#[trigger] all[i], id) by {
        if i >= first.len() {
            assert(all[i] == second[i - first.len()]);
        } else {
            assert(all[i] == first[i]);
        }
    }
}

/// Whatever is done with a response, in whatever order: the records that it
/// sends out for its request are STDOUT records that are not empty and not
/// longer than `MAX_LENGTH`, and, once the request has ended, one empty
/// STDOUT record and one END_REQUEST record behind them, and nothing after
/// that. So a request is ended at most once. The bytes that went to the
/// outbox are the wire form of exactly these records.
pub proof fn lemma_response_stream(id: u16, ops: Seq<Op>)
    ensures
        state_after(id, ops).id == id,
        state_after(id, ops).closed ==> state_after(id, ops).headers_sent,
        !state_after(id, ops).closed ==> open_stream(frames_after(id, ops), id)
            && end_request_count(frames_after(id, ops)) == 0,
        state_after(id, ops).closed ==> closed_stream(frames_after(id, ops), id)
            && end_request_count(frames_after(id, ops)) == 1,
        taken_after(id, ops) + state_after(id, ops).outbox == frames_wire(frames_after(id, ops)),
    decreases ops.len(),
{
    let frames = frames_after(id, ops);
    if ops.len() == 0 {
        assert(frames_wire(frames) =~= Seq::<u8>::empty());
        assert(taken_after(id, ops) + state_after(id, ops).outbox =~= Seq::<u8>::empty());
    } else {
        let before = state_after(id, ops.drop_last());
        let sent = frames_after(id, ops.drop_last());
        let taken = taken_after(id, ops.drop_last());
        let new = emitted(before, ops.last());
        lemma_response_stream(id, ops.drop_last());
        lemma_stream_step(id, before, sent, ops.last());
        lemma_outbox_step(before, ops.last());
        lemma_frames_wire_concat(sent, new);
        if ops.last() is Take {
            assert(sent + new =~= sent);
            assert(taken + before.outbox + Seq::<u8>::empty() =~= taken + before.outbox);
        } else {
            assert(taken + (before.outbox + frames_wire(new)) =~= (taken + before.outbox)
                + frames_wire(new));
        }
    }
    lemma_end_request_count(frames, id);
}


/// The bytes that some frames carry in their STDOUT records, in the order of
/// the frames.
pub open spec fn payload(frames: Seq<Frame>) -> Seq<u8>
    decreases frames.len(),
{
    if frames.len() == 0 {
        Seq::empty()
    } else if frames.first().type_ == STDOUT {
        frames.first().content + payload(frames.skip(1))
    } else {
        payload(frames.skip(1))
    }
}

/// The payload of frames followed by one more frame.
pub proof fn lemma_payload_push(frames: Seq<Frame>, frame: Frame)
    ensures
        payload(frames.push(frame)) == payload(frames) + (if frame.type_ == STDOUT {
            frame.content
        } else {
            Seq::empty()
        }),
    decreases frames.len(),
{
    let all = frames.push(frame);
    let tail = if frame.type_ == STDOUT {
        frame.content
    } else {
        Seq::empty()
    };
    if frames.len() == 0 {
        assert(all.skip(1) =~= Seq::<Frame>::empty());
        assert(payload(Seq::<Frame>::empty()) =~= Seq::<u8>::empty());
    } else {
        assert(all.skip(1) =~= frames.skip(1).push(frame));
        lemma_payload_push(frames.skip(1), frame);
    }
}

/// Cutting a payload into records loses nothing and changes no order: the
/// whole records carry the payload up to what is left behind them.
pub proof fn lemma_full_frames_payload(id: u16, bytes: Seq<u8>)
    ensures
        payload(full_frames(id, bytes)) + remainder(bytes) == bytes,
    decreases bytes.len(),
{
    if bytes.len() >= MAX_LENGTH {
        let rest = bytes.skip(MAX_LENGTH as int);
        lemma_full_frames_payload(id, rest);
        let frames = full_frames(id, bytes);
        assert(frames.skip(1) =~= full_frames(id, rest));
        assert(payload(frames) + remainder(bytes) =~= bytes.take(MAX_LENGTH as int) + (payload(
            full_frames(id, rest),
        ) + remainder(rest)));
    }
}

/// A write loses nothing and changes no order: what it sends out, with what
/// stays staged, is what was staged with the written bytes behind it.
pub proof fn lemma_write_keeps_bytes(r: ResponseView, data: Seq<u8>)
    requires
        !r.closed,
    ensures
        payload(write_frames(r, data)) + staged(with_write(r, data)) == staged(r) + data,
{
    lemma_full_frames_payload(r.id, staged(r) + data);
}

/// `send_chunk` loses nothing and changes no order: what it sends out, with
/// what stays staged, is what was staged.
pub proof fn lemma_chunk_keeps_bytes(r: ResponseView, end: nat)
    ensures
        payload(chunk_frames(r, end)) + staged(with_chunk(r, end)) == staged(r),
        chunk_frames(r, end).len() <= 1,
        can_chunk(r, end) ==> chunk_frames(r, end)[0].content.len() == end,
{
    if can_chunk(r, end) {
        let frame = stdout_frame(r.id, staged(r).take(end as int));
        lemma_payload_push(Seq::empty(), frame);
        assert(Seq::<Frame>::empty().push(frame) =~= chunk_frames(r, end));
        assert(payload(Seq::<Frame>::empty()) =~= Seq::<u8>::empty());
        assert(staged(r).take(end as int) + staged(r).skip(end as int) =~= staged(r));
    } else {
        assert(payload(chunk_frames(r, end)) =~= Seq::<u8>::empty());
        assert(Seq::<u8>::empty() + staged(r) =~= staged(r));
    }
}

/// No record that a response sends out is longer than `MAX_LENGTH`, whatever
/// is done with the response: so the length in the header of each record is
/// the length of its content, and the record can be read back.
pub proof fn lemma_no_record_exceeds_cap(id: u16, ops: Seq<Op>, i: int)
    requires
        0 <= i < frames_after(id, ops).len(),
    ensures
        frames_after(id, ops)[i].request_id == id,
        frames_after(id, ops)[i].content.len() <= MAX_LENGTH,
        frame_header(frames_after(id, ops)[i]).content_length == frames_after(
            id,
            ops,
        )[i].content.len(),
        frames_after(id, ops)[i].type_ == STDOUT || frames_after(id, ops)[i].type_ == END_REQUEST,
{
    let frames = frames_after(id, ops);
    lemma_response_stream(id, ops);
    if state_after(id, ops).closed {
        if i < frames.len() - 2 {
            assert(frames.take(frames.len() - 2)[i] == frames[i]);
        }
    }
}

/// Ending a request sends out, in its STDOUT records, exactly what was
/// staged: the header block unless it went out before, then every byte that
/// was written and not sent yet.
pub proof fn lemma_end_sends_all(r: ResponseView, app_status: u32)
    requires
        !r.closed,
    ensures
        payload(end_frames(r, app_status)) == staged(r),
        staged(with_end(r, app_status)) == Seq::<u8>::empty(),
{
    let bytes = staged(r);
    let chunks = stdout_frames(r.id, bytes);
    lemma_full_frames_payload(r.id, bytes);
    if remainder(bytes).len() > 0 {
        lemma_payload_push(full_frames(r.id, bytes), stdout_frame(r.id, remainder(bytes)));
    }
    lemma_payload_push(chunks, stdout_frame(r.id, Seq::empty()));
    lemma_payload_push(chunks.push(stdout_frame(r.id, Seq::empty())), end_frame(r.id, app_status));
}

/// Whatever a handler did with the response of a request, once the request
/// is ended, by `end`, `flush` or `fail`, exactly one END_REQUEST record has
/// gone out for it, at the end of a stream that has ended.
pub proof fn lemma_ended_exactly_once(id: u16, ops: Seq<Op>, last: Op)
    requires
        last is End || last is Fail,
    ensures
        state_after(id, ops.push(last)).closed,
        closed_stream(frames_after(id, ops.push(last)), id),
        end_request_count(frames_after(id, ops.push(last))) == 1,
{
    let all = ops.push(last);
    lemma_response_stream(id, all);
}

/// A stream that has not ended, with the closing records of a payload behind
/// it, is a stream that has ended.
proof fn lemma_closing(sent: Seq<Frame>, id: u16, payload: Seq<u8>, app_status: u32)
    requires
        open_stream(sent, id),
        open_stream(stdout_frames(id, payload), id),
    ensures
        closed_stream(sent + closing_frames(id, payload, app_status), id),
{
    let chunks = sent + stdout_frames(id, payload);
    assert forall|i: int| 0 <= i < chunks.len() implies is_chunk(#[trigger] chunks[i], id) by {}
}

/// The wire bytes of two runs of frames, one after the other.
pub proof fn lemma_frames_wire_concat(first: Seq<Frame>, second: Seq<Frame>)
    ensures
        frames_wire(first + second) == frames_wire(first) + frames_wire(second),
    decreases second.len(),
{
    if second.len() == 0 {
    } else {
        let front = second.drop_last();
        lemma_frames_wire_concat(first, front);
        lemma_frames_wire_push(first + front, second.last());
        lemma_frames_wire_push(front, second.last());
        assert(front.push(second.last()) =~= second);
    }
}

/// What goes out can be read back: the reader of inbound records finds in
/// the wire bytes of a frame the frame's header and, behind it, the frame's
/// content, whatever follows.
pub proof fn lemma_frame_wire_decodes(frame: Frame, rest: Seq<u8>)
    requires
        frame.content.len() <= MAX_LENGTH,
    ensures
        Header::decoded((frame_wire(frame) + rest).take(8)) == Ok::<Header, Error>(
            frame_header(frame),
        ),
        record_content((frame_wire(frame) + rest).skip(8), frame_header(frame)) == Ok::<
            Seq<u8>,
            Error,
        >(frame.content),
        (frame_wire(frame) + rest).skip(8 + frame.content.len() as int) == rest,
{
    let header = frame_header(frame);
    let wire = frame_wire(frame) + rest;
    assert(header.reserved@ =~= seq![0u8]);
    assert(wire.skip(8).take(frame.content.len() as int) =~= frame.content);
}

/// Ending a new response sends out a stream that has ended, with exactly one
/// END_REQUEST record: this is what the abort of a pending request is
/// answered with.
pub proof fn lemma_new_response_ended(id: u16, app_status: u32)
    ensures
        closed_stream(end_frames(new_response(id), app_status), id),
        end_request_count(end_frames(new_response(id), app_status)) == 1,
{
    let ops = seq![Op::End(app_status)];
    lemma_response_stream(id, ops);
    assert(frames_after(id, ops.drop_last()) =~= Seq::<Frame>::empty());
}

} // verus!
