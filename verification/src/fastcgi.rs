//! Constants and record layouts of the FastCGI protocol, version 1.
//!
//! Every layout is eight bytes on the wire, integers big-endian. Each type
//! has a `write` that produces those bytes and a `read` that takes them
//! back; the spec functions `wire` and `from_wire` say what the two compute.

use crate::endian::{read_u16, read_u32, u16_from_be, u16_to_be, u32_from_be, u32_to_be, write_u16, write_u32};
use crate::error::Error;
use vstd::prelude::*;

verus! {

/// Listening socket file number
pub const LISTENSOCK_FILENO: u8 = 0;

/// Maximum length per record
pub const MAX_LENGTH: usize = 0xffff;

/// Number of bytes in a Header.
///
/// Future versions of the protocol will not reduce this number.
pub const HEADER_LEN: usize = 8;

/// version component of Header
pub const VERSION_1: u8 = 1;

/// type component of Header: the Web server starts a request
pub const BEGIN_REQUEST: u8 = 1;

/// type component of Header: the Web server aborts a running request
pub const ABORT_REQUEST: u8 = 2;

/// type component of Header: the application terminates a request
pub const END_REQUEST: u8 = 3;

/// type component of Header: name-value pairs from the Web server
pub const PARAMS: u8 = 4;

/// type component of Header: request byte stream
pub const STDIN: u8 = 5;

/// type component of Header: response byte stream
pub const STDOUT: u8 = 6;

/// type component of Header: response error stream
pub const STDERR: u8 = 7;

/// type component of Header: second request byte stream
pub const DATA: u8 = 8;

/// type component of Header: the Web server queries variables
pub const GET_VALUES: u8 = 9;

/// type component of Header: the application answers a query
pub const GET_VALUES_RESULT: u8 = 10;

/// type component of Header: unrecognized management record
pub const UNKNOWN_TYPE: u8 = 11;

/// The largest type component that the protocol defines
pub const MAXTYPE: u8 = UNKNOWN_TYPE;

/// Default request id component of Header
pub const NULL_REQUEST_ID: u16 = 0;

/// Mask for flags component of BeginRequestBody
pub const KEEP_CONN: u8 = 1;

/// FastCGI role: emulated CGI/1.1 program
pub const RESPONDER: u8 = 1;

/// FastCGI role: authorized/unauthorized decision
pub const AUTHORIZER: u8 = 2;

/// FastCGI role: extra stream of data from a file
pub const FILTER: u8 = 3;

/// protocol_status component of EndRequestBody: normal end of request
pub const REQUEST_COMPLETE: u8 = 0;

/// protocol_status component of EndRequestBody: the application handles one
/// request at a time per connection
pub const CANT_MPX_CONN: u8 = 1;

/// protocol_status component of EndRequestBody: the application ran out of
/// some resource
pub const OVERLOADED: u8 = 2;

/// protocol_status component of EndRequestBody: the role is unknown to the
/// application
pub const UNKNOWN_ROLE: u8 = 3;

/// Name for GET_VALUES / GET_VALUES_RESULT records: the maximum number of
/// concurrent transport connections this application will accept.
pub const MAX_CONNS: &'static str = "MAX_CONNS";

/// Name for GET_VALUES / GET_VALUES_RESULT records: the maximum number of
/// concurrent requests this application will accept.
pub const MAX_REQS: &'static str = "MAX_REQS";

/// Name for GET_VALUES / GET_VALUES_RESULT records: "0" if this application
/// does not multiplex connections, "1" otherwise.
pub const MPXS_CONNS: &'static str = "MPXS_CONNS";

/// Must decode bytes to object
pub trait Readable: Sized {
    /// How many bytes `read` needs.
    spec fn wire_len() -> nat;

    /// The value that the first `wire_len()` bytes of `data` spell.
    spec fn from_wire(data: Seq<u8>) -> Self;

    /// Decodes the first `wire_len()` bytes of `data`.
    fn read(data: &[u8]) -> (value: Self)
        requires
            data@.len() >= Self::wire_len(),
        ensures
            value == Self::from_wire(data@),
    ;
}

/// Must encode object to bytes
pub trait Writable {
    /// The bytes that stand for the value on the wire.
    spec fn wire(&self) -> Seq<u8>;

    /// Encodes the value.
    fn write(&self) -> (data: Vec<u8>)
        ensures
            data@ == self.wire(),
    ;
}

/// FCGI record header
#[derive(Debug, Clone, Copy, PartialEq, Eq)]
pub struct Header {
    pub version: u8,
    pub type_: u8,
    pub request_id: u16,
    pub content_length: u16,
    pub padding_length: u8,
    pub reserved: [u8; 1],
}

/// Begin record
#[derive(Debug, Clone, Copy, PartialEq, Eq)]
pub struct BeginRequestBody {
    pub role: u16,
    pub flags: u8,
    pub reserved: [u8; 5],
}

/// A begin record with its header
#[derive(Debug, Clone, Copy, PartialEq, Eq)]
pub struct BeginRequestRecord {
    pub header: Header,
    pub body: BeginRequestBody,
}

/// End record
#[derive(Debug, Clone, Copy, PartialEq, Eq)]
pub struct EndRequestBody {
    pub app_status: u32,
    pub protocol_status: u8,
    pub reserved: [u8; 3],
}

/// An end record with its header
#[derive(Debug, Clone, Copy, PartialEq, Eq)]
pub struct EndRequestRecord {
    pub header: Header,
    pub body: EndRequestBody,
}

/// Answer to a management record of a type that is not understood
#[derive(Debug, Clone, Copy, PartialEq, Eq)]
pub struct UnknownTypeBody {
    pub type_: u8,
    pub reserved: [u8; 7],
}

/// An unknown-type record with its header
#[derive(Debug, Clone, Copy, PartialEq, Eq)]
pub struct UnknownTypeRecord {
    pub header: Header,
    pub body: UnknownTypeBody,
}

impl Header {
    /// The eight bytes of the header: version, type, request id, content
    /// length, padding length, reserved.
    pub open spec fn wire(self) -> Seq<u8> {
        seq![self.version, self.type_] + u16_to_be(self.request_id) + u16_to_be(
            self.content_length,
        ) + seq![self.padding_length] + self.reserved@
    }

    /// The header that the first seven bytes of `data` spell. The reserved
    /// byte is not read: it comes out as zero.
    pub open spec fn from_wire(data: Seq<u8>) -> Header {
        Header {
            version: data[0],
            type_: data[1],
            request_id: u16_from_be(data[2], data[3]),
            content_length: u16_from_be(data[4], data[5]),
            padding_length: data[6],
            reserved: [0u8],
        }
    }

    /// What `decode` makes of the bytes that a transport delivered for a
    /// header.
    pub open spec fn decoded(data: Seq<u8>) -> Result<Header, Error> {
        if data.len() < HEADER_LEN {
            Err(Error::ProtocolTruncation)
        } else if data[0] != VERSION_1 {
            Err(Error::ProtocolVersion)
        } else {
            Ok(Header::from_wire(data))
        }
    }

    /// How many bytes follow the header on the wire: the content, then the
    /// padding.
    pub open spec fn spec_body_len(self) -> nat {
        (self.content_length + self.padding_length) as nat
    }

    /// A header with every field zero.
    pub fn new() -> (header: Header)
        ensures
            header == (Header {
                version: 0,
                type_: 0,
                request_id: 0,
                content_length: 0,
                padding_length: 0,
                reserved: [0u8],
            }),
    {
        Header {
            version: 0,
            type_: 0,
            request_id: 0,
            content_length: 0,
            padding_length: 0,
            reserved: [0u8],
        }
    }

    /// The version 1 header without padding that `outbound` makes.
    pub open spec fn spec_outbound(type_: u8, request_id: u16, content_length: u16) -> Header {
        Header {
            version: VERSION_1,
            type_,
            request_id,
            content_length,
            padding_length: 0,
            reserved: [0u8],
        }
    }

    /// A version 1 header without padding, as every outbound record carries.
    pub fn outbound(type_: u8, request_id: u16, content_length: u16) -> (header: Header)
        ensures
            header == Header::spec_outbound(type_, request_id, content_length),
    {
        Header {
            version: VERSION_1,
            type_,
            request_id,
            content_length,
            padding_length: 0,
            reserved: [0u8],
        }
    }

    /// Decodes a header from its wire bytes. Neither the version nor the
    /// reserved byte is looked at; see `decode` for the checked form.
    pub fn read(data: &[u8]) -> (header: Header)
        requires
            data@.len() >= HEADER_LEN,
        ensures
            header == Header::from_wire(data@),
    {
        Header {
            version: data[0],
            type_: data[1],
            request_id: read_u16(&data[2..4]),
            content_length: read_u16(&data[4..6]),
            padding_length: data[6],
            reserved: [0u8],
        }
    }

    /// Encodes the header into its eight wire bytes.
    pub fn write(&self) -> (data: Vec<u8>)
        ensures
            data@ == self.wire(),
            data@.len() == HEADER_LEN,
    {
        let mut data: Vec<u8> = Vec::with_capacity(HEADER_LEN);

        data.push(self.version);
        data.push(self.type_);

        let mut buf: [u8; 2] = [0; 2];
        write_u16(&mut buf, self.request_id);
        data.extend_from_slice(&buf);

        let mut buf: [u8; 2] = [0; 2];
        write_u16(&mut buf, self.content_length);
        data.extend_from_slice(&buf);

        data.push(self.padding_length);
        data.extend_from_slice(&self.reserved);

        data
    }

    /// Decodes what a transport delivered for a header. Fewer than eight
    /// bytes are a truncated record; a version other than 1 is refused.
    pub fn decode(data: &[u8]) -> (result: Result<Header, Error>)
        ensures
            result == Header::decoded(data@),
    {
        if data.len() < HEADER_LEN {
            Err(Error::ProtocolTruncation)
        } else if data[0] != VERSION_1 {
            Err(Error::ProtocolVersion)
        } else {
            Ok(Header::read(data))
        }
    }

    /// How many bytes follow the header on the wire: the content, then the
    /// padding that the reader has to consume and discard.
    pub fn body_len(&self) -> (len: usize)
        ensures
            len == self.spec_body_len(),
    {
        self.content_length as usize + self.padding_length as usize
    }
}

impl Readable for Header {
    open spec fn wire_len() -> nat {
        HEADER_LEN as nat
    }

    open spec fn from_wire(data: Seq<u8>) -> Header {
        Header::from_wire(data)
    }

    fn read(data: &[u8]) -> (header: Header) {
        Header::read(data)
    }
}

impl Writable for Header {
    open spec fn wire(&self) -> Seq<u8> {
        Header::wire(*self)
    }

    fn write(&self) -> (data: Vec<u8>) {
        Header::write(self)
    }
}

impl BeginRequestBody {
    /// The eight bytes of the body: role, flags, reserved.
    pub open spec fn wire(self) -> Seq<u8> {
        u16_to_be(self.role) + seq![self.flags] + self.reserved@
    }

    /// The body that the first three bytes of `data` spell. The reserved
    /// bytes are not read: they come out as zero.
    pub open spec fn from_wire(data: Seq<u8>) -> BeginRequestBody {
        BeginRequestBody {
            role: u16_from_be(data[0], data[1]),
            flags: data[2],
            reserved: [0u8, 0u8, 0u8, 0u8, 0u8],
        }
    }

    /// True if the low bit of the flags asks to keep the connection open
    /// after the request.
    pub open spec fn spec_keep_conn(self) -> bool {
        self.flags % 2 == 1
    }

    /// Decodes the body of a begin record.
    pub fn read(data: &[u8]) -> (body: BeginRequestBody)
        requires
            data@.len() >= 8,
        ensures
            body == BeginRequestBody::from_wire(data@),
    {
        BeginRequestBody {
            role: read_u16(&data[0..2]),
            flags: data[2],
            reserved: [0u8, 0u8, 0u8, 0u8, 0u8],
        }
    }

    /// Encodes the body into its eight wire bytes.
    pub fn write(&self) -> (data: Vec<u8>)
        ensures
            data@ == self.wire(),
            data@.len() == 8,
    {
        let mut data: Vec<u8> = Vec::with_capacity(8);

        let mut buf: [u8; 2] = [0; 2];
        write_u16(&mut buf, self.role);
        data.extend_from_slice(&buf);

        data.push(self.flags);
        data.extend_from_slice(&self.reserved);

        data
    }

    /// Whether the Web server asks to keep the connection open after the
    /// request: the low bit of the flags.
    pub fn keep_conn(&self) -> (keep: bool)
        ensures
            keep == self.spec_keep_conn(),
    {
        let flags: u8 = self.flags;
        assert(flags & 1 == flags % 2) by (bit_vector);
        self.flags & KEEP_CONN != 0
    }
}

impl Readable for BeginRequestBody {
    open spec fn wire_len() -> nat {
        8
    }

    open spec fn from_wire(data: Seq<u8>) -> BeginRequestBody {
        BeginRequestBody::from_wire(data)
    }

    fn read(data: &[u8]) -> (body: BeginRequestBody) {
        BeginRequestBody::read(data)
    }
}

impl Writable for BeginRequestBody {
    open spec fn wire(&self) -> Seq<u8> {
        BeginRequestBody::wire(*self)
    }

    fn write(&self) -> (data: Vec<u8>) {
        BeginRequestBody::write(self)
    }
}

impl EndRequestBody {
    /// The eight bytes of the body: application status, protocol status,
    /// reserved.
    pub open spec fn wire(self) -> Seq<u8> {
        u32_to_be(self.app_status) + seq![self.protocol_status] + self.reserved@
    }

    /// The body that the first five bytes of `data` spell. The reserved
    /// bytes are not read: they come out as zero.
    pub open spec fn from_wire(data: Seq<u8>) -> EndRequestBody {
        EndRequestBody {
            app_status: u32_from_be(data[0], data[1], data[2], data[3]),
            protocol_status: data[4],
            reserved: [0u8, 0u8, 0u8],
        }
    }

    /// Decodes the body of an end record.
    pub fn read(data: &[u8]) -> (body: EndRequestBody)
        requires
            data@.len() >= 8,
        ensures
            body == EndRequestBody::from_wire(data@),
    {
        EndRequestBody {
            app_status: read_u32(&data[0..4]),
            protocol_status: data[4],
            reserved: [0u8, 0u8, 0u8],
        }
    }

    /// Encodes the body into its eight wire bytes.
    pub fn write(&self) -> (data: Vec<u8>)
        ensures
            data@ == self.wire(),
            data@.len() == 8,
    {
        let mut data: Vec<u8> = Vec::with_capacity(8);

        let mut buf: [u8; 4] = [0; 4];
        write_u32(&mut buf, self.app_status);
        data.extend_from_slice(&buf);

        data.push(self.protocol_status);
        data.extend_from_slice(&self.reserved);

        data
    }
}

impl Readable for EndRequestBody {
    open spec fn wire_len() -> nat {
        8
    }

    open spec fn from_wire(data: Seq<u8>) -> EndRequestBody {
        EndRequestBody::from_wire(data)
    }

    fn read(data: &[u8]) -> (body: EndRequestBody) {
        EndRequestBody::read(data)
    }
}

impl Writable for EndRequestBody {
    open spec fn wire(&self) -> Seq<u8> {
        EndRequestBody::wire(*self)
    }

    fn write(&self) -> (data: Vec<u8>) {
        EndRequestBody::write(self)
    }
}

impl UnknownTypeBody {
    /// The eight bytes of the body: the type that was not understood, then
    /// reserved.
    pub open spec fn wire(self) -> Seq<u8> {
        seq![self.type_] + self.reserved@
    }

    /// The body that the first byte of `data` spells. The reserved bytes
    /// are not read: they come out as zero.
    pub open spec fn from_wire(data: Seq<u8>) -> UnknownTypeBody {
        UnknownTypeBody { type_: data[0], reserved: [0u8, 0u8, 0u8, 0u8, 0u8, 0u8, 0u8] }
    }

    /// Decodes the body of an unknown-type record.
    pub fn read(data: &[u8]) -> (body: UnknownTypeBody)
        requires
            data@.len() >= 8,
        ensures
            body == UnknownTypeBody::from_wire(data@),
    {
        UnknownTypeBody { type_: data[0], reserved: [0u8, 0u8, 0u8, 0u8, 0u8, 0u8, 0u8] }
    }

    /// Encodes the body into its eight wire bytes.
    pub fn write(&self) -> (data: Vec<u8>)
        ensures
            data@ == self.wire(),
            data@.len() == 8,
    {
        let mut data: Vec<u8> = Vec::with_capacity(8);

        data.push(self.type_);
        data.extend_from_slice(&self.reserved);

        data
    }
}

impl Readable for UnknownTypeBody {
    open spec fn wire_len() -> nat {
        8
    }

    open spec fn from_wire(data: Seq<u8>) -> UnknownTypeBody {
        UnknownTypeBody::from_wire(data)
    }

    fn read(data: &[u8]) -> (body: UnknownTypeBody) {
        UnknownTypeBody::read(data)
    }
}

impl Writable for UnknownTypeBody {
    open spec fn wire(&self) -> Seq<u8> {
        UnknownTypeBody::wire(*self)
    }

    fn write(&self) -> (data: Vec<u8>) {
        UnknownTypeBody::write(self)
    }
}

impl Writable for BeginRequestRecord {
    open spec fn wire(&self) -> Seq<u8> {
        self.header.wire() + self.body.wire()
    }

    fn write(&self) -> (data: Vec<u8>) {
        let mut data = self.header.write();
        let body = self.body.write();
        data.extend_from_slice(body.as_slice());
        data
    }
}

impl Writable for EndRequestRecord {
    open spec fn wire(&self) -> Seq<u8> {
        self.header.wire() + self.body.wire()
    }

    fn write(&self) -> (data: Vec<u8>) {
        let mut data = self.header.write();
        let body = self.body.write();
        data.extend_from_slice(body.as_slice());
        data
    }
}

impl Writable for UnknownTypeRecord {
    open spec fn wire(&self) -> Seq<u8> {
        self.header.wire() + self.body.wire()
    }

    fn write(&self) -> (data: Vec<u8>) {
        let mut data = self.header.write();
        let body = self.body.write();
        data.extend_from_slice(body.as_slice());
        data
    }
}

/// Decoding the bytes of a header gives the header back, whatever its
/// version, provided its reserved byte is zero: `read` does not look at that
/// byte.
pub proof fn lemma_header_roundtrip(h: Header)
    requires
        h.reserved@ == seq![0u8],
    ensures
        h.wire().len() == HEADER_LEN,
        Header::from_wire(h.wire()) == h,
{
    assert(h.reserved =~= [0u8]);
}

/// The checked decoder accepts the bytes of exactly the headers of version 1,
/// and gives such a header back if its reserved byte is zero.
pub proof fn lemma_header_decode_roundtrip(h: Header)
    requires
        h.reserved@ == seq![0u8],
    ensures
        h.version == VERSION_1 ==> Header::decoded(h.wire()) == Ok::<Header, Error>(h),
        h.version != VERSION_1 ==> Header::decoded(h.wire()) == Err::<Header, Error>(
            Error::ProtocolVersion,
        ),
{
    lemma_header_roundtrip(h);
}

/// Encoding what eight bytes decode to gives the first seven of them back,
/// and a zero in place of the eighth.
pub proof fn lemma_header_bytes_roundtrip(data: Seq<u8>)
    requires
        data.len() == HEADER_LEN,
    ensures
        Header::from_wire(data).wire() == data.take(7).push(0u8),
{
}

/// Decoding the bytes of a begin body gives the body back, provided its
/// reserved bytes are zero.
pub proof fn lemma_begin_request_roundtrip(b: BeginRequestBody)
    requires
        b.reserved@ == seq![0u8, 0u8, 0u8, 0u8, 0u8],
    ensures
        b.wire().len() == 8,
        BeginRequestBody::from_wire(b.wire()) == b,
{
    assert(b.reserved =~= [0u8, 0u8, 0u8, 0u8, 0u8]);
}

/// Decoding the bytes of an end body gives the body back, provided its
/// reserved bytes are zero.
pub proof fn lemma_end_request_roundtrip(b: EndRequestBody)
    requires
        b.reserved@ == seq![0u8, 0u8, 0u8],
    ensures
        b.wire().len() == 8,
        EndRequestBody::from_wire(b.wire()) == b,
{
    assert(b.reserved =~= [0u8, 0u8, 0u8]);
}

/// Decoding the bytes of an unknown-type body gives the body back, provided
/// its reserved bytes are zero.
pub proof fn lemma_unknown_type_roundtrip(b: UnknownTypeBody)
    requires
        b.reserved@ == seq![0u8, 0u8, 0u8, 0u8, 0u8, 0u8, 0u8],
    ensures
        b.wire().len() == 8,
        UnknownTypeBody::from_wire(b.wire()) == b,
{
    assert(b.reserved =~= [0u8, 0u8, 0u8, 0u8, 0u8, 0u8, 0u8]);
}

} // verus!
