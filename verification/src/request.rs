//! The request side of a FastCGI exchange: what the Web server sent for one
//! request id, assembled record by record.

use crate::error::Error;
use crate::fastcgi::{BeginRequestBody, Header, BEGIN_REQUEST, DATA, KEEP_CONN, PARAMS, STDIN};
use crate::headers::{bytes_to_vec, pairs_extend, pairs_to_map, HeaderMap, Pair};
use crate::param::{decode_pairs, ParamFetcher};
use crate::text::{from_utf8_lossy, list_items, split_list, utf8_lossy};
use vstd::prelude::*;

verus! {

/// What a request holds.
#[verifier::ext_equal]
pub struct RequestView {
    /// FastCGI request id
    pub id: u16,
    /// The role that the Web server asked for
    pub role: u16,
    /// The flags of the begin record
    pub flags: u8,
    /// The headers, in the order in which their names first came
    pub headers: Seq<Pair>,
    /// The bytes of the PARAMS stream that came and are not parsed yet
    pub params: Seq<u8>,
    /// True once the PARAMS stream has ended
    pub params_complete: bool,
    /// The bytes of the body that came and were not read yet
    pub body: Seq<u8>,
    /// True once the STDIN stream has ended
    pub stdin_complete: bool,
}

/// The request as `Request::new` makes it.
pub open spec fn new_request(id: u16) -> RequestView {
    RequestView {
        id,
        role: 0,
        flags: 0,
        headers: Seq::empty(),
        params: Seq::empty(),
        params_complete: false,
        body: Seq::empty(),
        stdin_complete: false,
    }
}

/// The request after the body of a begin record came: role and flags are
/// taken from it. A body shorter than eight bytes is refused.
pub open spec fn with_options(r: RequestView, data: Seq<u8>) -> Result<RequestView, Error> {
    if data.len() < 8 {
        Err(Error::ProtocolTruncation)
    } else {
        let begin = BeginRequestBody::from_wire(data);
        Ok(RequestView { role: begin.role, flags: begin.flags, ..r })
    }
}

/// The request after the content of a PARAMS record came. Content that is
/// not empty joins the stream; empty content ends the stream, which is then
/// parsed into the headers.
pub open spec fn with_param(r: RequestView, data: Seq<u8>) -> Result<RequestView, Error> {
    if data.len() > 0 {
        Ok(RequestView { params: r.params + data, ..r })
    } else {
        match decode_pairs(r.params) {
            Some(pairs) => Ok(
                RequestView {
                    headers: pairs_extend(r.headers, pairs),
                    params: Seq::empty(),
                    params_complete: true,
                    ..r
                },
            ),
            None => Err(Error::ParamTruncation),
        }
    }
}

/// The request after the content of a STDIN record came. Content that is
/// not empty joins the body; empty content ends the stream.
pub open spec fn with_body(r: RequestView, data: Seq<u8>) -> RequestView {
    if data.len() > 0 {
        RequestView { body: r.body + data, ..r }
    } else {
        RequestView { stdin_complete: true, ..r }
    }
}

/// The request after a record of type `type_` with content `data` came. The
/// type alone decides; a type that carries nothing for a request changes
/// nothing.
pub open spec fn with_record(r: RequestView, type_: u8, data: Seq<u8>) -> Result<
    RequestView,
    Error,
> {
    if type_ == BEGIN_REQUEST {
        with_options(r, data)
    } else if type_ == PARAMS {
        with_param(r, data)
    } else if type_ == STDIN {
        Ok(with_body(r, data))
    } else if type_ == DATA && data.len() > 0 {
        Ok(with_body(r, data))
    } else {
        Ok(r)
    }
}

/// What `fcgi_body` makes of the bytes that follow a header on the wire: the
/// content is the first `content_length` of them, the padding is dropped.
pub open spec fn record_content(data: Seq<u8>, h: Header) -> Result<Seq<u8>, Error> {
    if data.len() < h.content_length + h.padding_length {
        Err(Error::ProtocolTruncation)
    } else {
        Ok(data.take(h.content_length as int))
    }
}

/// HTTP implementation of request
#[derive(Debug)]
pub struct Request {
    id: u16,
    role: u16,
    flags: u8,
    headers: HeaderMap,
    params: Vec<u8>,
    ready: bool,
    buf: Vec<u8>,
    pending: bool,
}

impl View for Request {
    type V = RequestView;

    closed spec fn view(&self) -> RequestView {
        RequestView {
            id: self.id,
            role: self.role,
            flags: self.flags,
            headers: self.headers.pairs(),
            params: self.params@,
            params_complete: self.ready,
            body: self.buf@,
            stdin_complete: !self.pending,
        }
    }
}

impl Request {
    /// Constructor
    pub fn new(id: u16) -> (request: Request)
        ensures
            request@ == new_request(id),
    {
        Request {
            id: id,
            role: 0,
            flags: 0,
            headers: HeaderMap::new(),
            params: Vec::new(),
            ready: false,
            buf: Vec::new(),
            pending: true,
        }
    }

    /// Add request options: role and flags, from the content of a begin
    /// record.
    pub fn add_options(&mut self, data: Vec<u8>) -> (result: Result<(), Error>)
        ensures
            match with_options(old(self)@, data@) {
                Ok(after) => result is Ok && final(self)@ == after,
                Err(e) => result == Err::<(), Error>(e) && final(self)@ == old(self)@,
            },
    {
        if data.len() < 8 {
            return Err(Error::ProtocolTruncation);
        }
        let begin_request = BeginRequestBody::read(data.as_slice());
        self.role = begin_request.role;
        self.flags = begin_request.flags;
        Ok(())
    }

    /// Add param pairs, from the content of a PARAMS record. The pairs are
    /// parsed when the record with empty content ends the stream, so a pair
    /// may be split over two records.
    pub fn add_param(&mut self, data: Vec<u8>) -> (result: Result<(), Error>)
        ensures
            match with_param(old(self)@, data@) {
                Ok(after) => result is Ok && final(self)@ == after,
                Err(e) => result == Err::<(), Error>(e) && final(self)@ == old(self)@,
            },
    {
        if data.len() > 0 {
            self.params.extend_from_slice(data.as_slice());
            return Ok(());
        }
        let mut stream: Vec<u8> = Vec::new();
        core::mem::swap(&mut self.params, &mut stream);
        let mut fetcher = ParamFetcher::new(stream);
        match fetcher.parse_list() {
            Ok(list) => {
                self.headers.insert_all(&list);
                self.ready = true;
                Ok(())
            },
            Err(e) => {
                self.params = fetcher.into_data();
                Err(e)
            },
        }
    }

    /// Add body bytes, from the content of a STDIN record. Empty content
    /// ends the body.
    pub fn add_body(&mut self, data: Vec<u8>)
        ensures
            final(self)@ == with_body(old(self)@, data@),
    {
        if data.len() > 0 {
            self.buf.extend_from_slice(data.as_slice());
        } else {
            self.pending = false;
        }
    }

    /// FastCGI requestId
    pub fn get_id(&self) -> (id: u16)
        ensures
            id == self@.id,
    {
        self.id
    }

    /// The role that the Web server asked for
    pub fn role(&self) -> (role: u16)
        ensures
            role == self@.role,
    {
        self.role
    }

    /// The flags of the begin record
    pub fn flags(&self) -> (flags: u8)
        ensures
            flags == self@.flags,
    {
        self.flags
    }

    /// Whether the Web server asked to keep the connection open after this
    /// request: the low bit of the flags.
    pub fn keep_conn(&self) -> (keep: bool)
        ensures
            keep == (self@.flags % 2 == 1),
    {
        let flags: u8 = self.flags;
        assert(flags & 1 == flags % 2) by (bit_vector);
        self.flags & KEEP_CONN != 0
    }

    /// True once the PARAMS stream has ended and the headers are complete.
    pub fn is_ready(&self) -> (ready: bool)
        ensures
            ready == self@.params_complete,
    {
        self.ready
    }

    /// Marks the body as received in full.
    pub fn mark_readed(&mut self)
        ensures
            final(self)@ == (RequestView { stdin_complete: true, ..old(self)@ }),
    {
        self.pending = false;
    }

    /// True once the body has been received in full.
    pub fn has_readed(&self) -> (complete: bool)
        ensures
            complete == self@.stdin_complete,
    {
        !self.pending
    }

    /// List all headers in bytes
    pub fn headers(&self) -> (headers: &HeaderMap)
        ensures
            headers.pairs() == self@.headers,
    {
        &self.headers
    }

    /// Header by key in bytes
    /// Key are case-sensitive
    pub fn header(&self, key: &[u8]) -> (value: Option<&Vec<u8>>)
        ensures
            match value {
                Some(v) => self.spec_header(key@) == Some(v@),
                None => self.spec_header(key@) is None,
            },
    {
        self.headers.get(key)
    }

    /// Header by key in utf8
    /// Key are case-sensitive
    pub fn header_utf8(&self, key: &[u8]) -> (value: Option<String>)
        ensures
            match value {
                Some(text) => self.spec_header(key@) is Some && text@ == utf8_lossy(
                    self.spec_header(key@)->Some_0,
                ),
                None => self.spec_header(key@) is None,
            },
    {
        match self.headers.get(key) {
            Some(v) => Some(from_utf8_lossy(v.as_slice())),
            None => None,
        }
    }

    /// A vector with multiple header in utf8: the items of the header's
    /// comma-separated value, each without the white space around it.
    /// Key are case-sensitive
    pub fn header_multiple_utf8(&self, key: &[u8]) -> (values: Option<Vec<String>>)
        ensures
            match values {
                Some(items) => {
                    &&& self.spec_header(key@) is Some
                    &&& items@.len() == list_items(utf8_lossy(self.spec_header(key@)->Some_0)).len()
                    &&& forall|i: int|
                        0 <= i < items@.len() ==> (#[trigger] items@[i])@ == list_items(
                            utf8_lossy(self.spec_header(key@)->Some_0),
                        )[i]
                },
                None => self.spec_header(key@) is None,
            },
    {
        match self.header_utf8(key) {
            Some(text) => Some(split_list(text.as_str())),
            None => None,
        }
    }

    /// List all headers in utf8, in the order of `headers()`.
    pub fn headers_utf8(&self) -> (list: Vec<(String, String)>)
        ensures
            list@.len() == self@.headers.len(),
            forall|i: int|
                0 <= i < list@.len() ==> (#[trigger] list@[i]).0@ == utf8_lossy(self@.headers[i].0)
                    && list@[i].1@ == utf8_lossy(self@.headers[i].1),
    {
        let mut list: Vec<(String, String)> = Vec::new();
        let mut i: usize = 0;
        while i < self.headers.len()
            invariant
                i <= self.headers.pairs().len(),
                list@.len() == i,
                forall|j: int|
                    0 <= j < i ==> (#[trigger] list@[j]).0@ == utf8_lossy(self.headers.pairs()[j].0)
                        && list@[j].1@ == utf8_lossy(self.headers.pairs()[j].1),
            decreases self.headers.pairs().len() - i,
        {
            let name = from_utf8_lossy(self.headers.name_at(i).as_slice());
            let value = from_utf8_lossy(self.headers.value_at(i).as_slice());
            list.push((name, value));
            i += 1;
        }
        list
    }

    /// The value that the headers give to `key`, if they have it.
    pub open spec fn spec_header(&self, key: Seq<u8>) -> Option<Seq<u8>> {
        let map = pairs_to_map(self@.headers);
        if map.contains_key(key) {
            Some(map[key])
        } else {
            None
        }
    }

    /// Read FastCGI header: decodes what the transport delivered for a
    /// header. Fewer than eight bytes are a truncated record; a version
    /// other than 1 is refused.
    pub fn fcgi_header(data: &[u8]) -> (result: Result<Header, Error>)
        ensures
            result == Header::decoded(data@),
    {
        Header::decode(data)
    }

    /// The content of the record with header `h`, from the bytes that follow
    /// the header on the wire: the padding is consumed and dropped. Fewer
    /// bytes than the header announces are a truncated record.
    pub fn fcgi_body(data: &[u8], h: &Header) -> (result: Result<Vec<u8>, Error>)
        ensures
            match record_content(data@, *h) {
                Ok(content) => result is Ok && result->Ok_0@ == content,
                Err(e) => result == Err::<Vec<u8>, Error>(e),
            },
    {
        let content_length: usize = h.content_length as usize;
        let padding_length: usize = h.padding_length as usize;
        if data.len() < content_length + padding_length {
            return Err(Error::ProtocolTruncation);
        }
        let body = match h.content_length {
            0 => Vec::new(),
            _ => Self::stream_read(data, content_length)?,
        };

        if h.padding_length > 0 {
            let rest = vstd::slice::slice_subrange(data, content_length, data.len());
            let _ = Self::stream_read(rest, padding_length)?;
        }

        Ok(body)
    }

    /// The first `length` bytes of what the transport delivered. Fewer
    /// bytes are a truncated record.
    pub fn stream_read(data: &[u8], length: usize) -> (result: Result<Vec<u8>, Error>)
        ensures
            data@.len() >= length ==> result is Ok && result->Ok_0@ == data@.take(length as int),
            data@.len() < length ==> result == Err::<Vec<u8>, Error>(Error::ProtocolTruncation),
    {
        if data.len() < length {
            return Err(Error::ProtocolTruncation);
        }
        let body = bytes_to_vec(vstd::slice::slice_subrange(data, 0, length));
        Ok(body)
    }

    /// Takes in one record for this request; the type of the record decides
    /// what its content is: options, params, or body bytes.
    pub fn fcgi_record(&mut self, h: Header, body: Vec<u8>) -> (result: Result<(), Error>)
        ensures
            match with_record(old(self)@, h.type_, body@) {
                Ok(after) => result is Ok && final(self)@ == after,
                Err(e) => result == Err::<(), Error>(e) && final(self)@ == old(self)@,
            },
    {
        if h.type_ == BEGIN_REQUEST {
            self.add_options(body)
        } else if h.type_ == PARAMS {
            self.add_param(body)
        } else if h.type_ == STDIN {
            self.add_body(body);
            Ok(())
        } else if h.type_ == DATA && body.len() > 0 {
            self.add_body(body);
            Ok(())
        } else {
            Ok(())
        }
    }

    /// True if a read of `wanted` bytes has to wait for more records: fewer
    /// bytes are buffered and the body has not ended. While this holds,
    /// `read` must not be called with a buffer of that length; the records
    /// that come meanwhile go through `StreamSyntax::route`.
    pub fn needs_input(&self, wanted: usize) -> (waiting: bool)
        ensures
            waiting == (self@.body.len() < wanted && !self@.stdin_complete),
    {
        self.buf.len() < wanted && self.pending
    }

    /// Reads body bytes into `buf`, oldest first, and returns how many were
    /// placed; they leave the request. The buffer is filled unless the body
    /// ends before, so 0 for a buffer that is not empty means the end of the
    /// body. The call has to wait while `needs_input` holds: until the
    /// buffer can be filled or the body has ended.
    pub fn read(&mut self, buf: &mut [u8]) -> (count: usize)
        requires
            old(self)@.stdin_complete || old(self)@.body.len() >= old(buf)@.len(),
        ensures
            count == (if old(buf)@.len() <= old(self)@.body.len() {
                old(buf)@.len()
            } else {
                old(self)@.body.len()
            }),
            final(buf)@ == old(self)@.body.take(count as int) + old(buf)@.skip(count as int),
            final(self)@ == (RequestView {
                body: old(self)@.body.skip(count as int),
                ..old(self)@
            }),
            count < old(buf)@.len() ==> old(self)@.stdin_complete && final(self)@.body.len() == 0,
            old(buf)@.len() > 0 ==> (count == 0 <==> old(self)@.stdin_complete
                && old(self)@.body.len() == 0),
    {
        let end: usize = if buf.len() > self.buf.len() {
            self.buf.len()
        } else {
            buf.len()
        };

        let rest = self.buf.split_off(end);
        let mut k: usize = 0;
        while k < end
            invariant
                k <= end,
                end == self.buf@.len(),
                end <= buf@.len(),
                buf@.len() == old(buf)@.len(),
                forall|i: int| 0 <= i < k ==> buf@[i] == self.buf@[i],
                forall|i: int| k <= i < buf@.len() ==> buf@[i] == old(buf)@[i],
            decreases end - k,
        {
            buf[k] = self.buf[k];
            k += 1;
        }
        self.buf = rest;
        end
    }
}

} // verus!
