//! The multiplexer of one connection: it takes the inbound records one by
//! one, assembles the requests that they belong to, and hands out each
//! request with its response once its PARAMS stream has ended.
//!
//! It never touches a transport. The caller reads a record, hands it to
//! `accept`, sends what `accept` returns, and asks `next` for requests that
//! are ready for the handler.

use crate::error::Error;
use crate::fastcgi::{Header, ABORT_REQUEST, BEGIN_REQUEST, DATA, PARAMS, STDIN};
use crate::request::{new_request, with_options, with_record, Request, RequestView};
use crate::response::{
    closed_stream, end_frames, end_request_count, failed, frames_wire, lemma_new_response_ended,
    new_response, with_end, Response, ResponseView,
};
use std::collections::HashMap;
use vstd::prelude::*;
use vstd::std_specs::hash::group_hash_axioms;

verus! {

/// HTTP request / response pairs
pub type HttpPair = (Request, Response);

/// Callback trait
pub trait Handler {
    /// Run HTTP-request handling
    fn process(&self, request: &mut Request, response: &mut Response);
}

/// What the multiplexer of a connection holds.
#[verifier::ext_equal]
pub struct StreamView {
    /// True while the connection waits for a request although none is
    /// pending: from the start until the first request is ready, and after
    /// a request that asked to keep the connection.
    pub born: bool,
    /// The requests that were not handed out yet, by request id. Each is
    /// paired with a new response.
    pub pending: Map<u16, RequestView>,
    /// The ids of the pending requests that are ready for the handler,
    /// oldest first.
    pub ready: Seq<u16>,
}

/// The multiplexer of a new connection.
pub open spec fn new_stream() -> StreamView {
    StreamView { born: true, pending: Map::empty(), ready: Seq::empty() }
}

/// What holds of every multiplexer: each pending request sits under its own
/// id, and the ready ids are, each once, the ids of the pending requests
/// whose PARAMS stream has ended.
pub open spec fn well_formed(s: StreamView) -> bool {
    &&& s.pending.dom().finite()
    &&& s.ready.no_duplicates()
    &&& forall|id: u16| s.pending.contains_key(id) ==> (#[trigger] s.pending[id]).id == id
    &&& forall|i: int|
        0 <= i < s.ready.len() ==> s.pending.contains_key(#[trigger] s.ready[i])
            && s.pending[s.ready[i]].params_complete
    &&& forall|id: u16|
        s.pending.contains_key(id) && (#[trigger] s.pending[id]).params_complete
            ==> s.ready.contains(id)
}

/// The request that a record for `id` meets: the pending one, or a new one.
pub open spec fn request_for(s: StreamView, id: u16) -> RequestView {
    if s.pending.contains_key(id) {
        s.pending[id]
    } else {
        new_request(id)
    }
}

/// The multiplexer after the record with header `h` and content `data`.
///
/// An abort drops the request. A begin record starts the request anew. A
/// PARAMS, STDIN or DATA record goes to the request of its id, which is made
/// if there is none; the request is ready once its PARAMS stream has ended.
/// Records of other types change nothing. After an error nothing has
/// changed.
pub open spec fn accepted(s: StreamView, h: Header, data: Seq<u8>) -> Result<StreamView, Error> {
    let id = h.request_id;
    if h.type_ == ABORT_REQUEST {
        Ok(StreamView { pending: s.pending.remove(id), ready: s.ready.remove_value(id), ..s })
    } else if h.type_ == BEGIN_REQUEST {
        match with_options(new_request(id), data) {
            Ok(request) => Ok(
                StreamView {
                    pending: s.pending.insert(id, request),
                    ready: s.ready.remove_value(id),
                    ..s
                },
            ),
            Err(e) => Err(e),
        }
    } else if h.type_ == PARAMS || h.type_ == STDIN || h.type_ == DATA {
        match with_record(request_for(s, id), h.type_, data) {
            Ok(request) => if request.params_complete && !request_for(s, id).params_complete {
                Ok(
                    StreamView {
                        born: false,
                        pending: s.pending.insert(id, request),
                        ready: s.ready.push(id),
                    },
                )
            } else {
                Ok(StreamView { pending: s.pending.insert(id, request), ..s })
            },
            Err(e) => Err(e),
        }
    } else {
        Ok(s)
    }
}

/// The bytes to send after the record with header `h`: for the abort of a
/// pending request, the records that end it with a new response; else
/// nothing.
pub open spec fn reply(s: StreamView, h: Header) -> Seq<u8> {
    if h.type_ == ABORT_REQUEST && s.pending.contains_key(h.request_id) {
        frames_wire(end_frames(new_response(h.request_id), 0))
    } else {
        Seq::empty()
    }
}

/// True if a record with header `h` carries body bytes for the request.
pub open spec fn is_body_of(request: RequestView, h: Header) -> bool {
    h.request_id == request.id && (h.type_ == STDIN || h.type_ == DATA)
}

/// True if a record with header `h` aborts the request.
pub open spec fn is_abort_of(request: RequestView, h: Header) -> bool {
    h.request_id == request.id && h.type_ == ABORT_REQUEST
}

/// The multiplexer after its oldest ready request was handed out.
pub open spec fn handed_out(s: StreamView) -> StreamView
    recommends
        s.ready.len() > 0,
{
    StreamView { pending: s.pending.remove(s.ready[0]), ready: s.ready.skip(1), ..s }
}

/// Removing an id from a list in which nothing occurs twice leaves a list
/// without the id, in which nothing occurs twice, and which holds every
/// other id that the list held.
pub proof fn lemma_remove_value(ready: Seq<u16>, id: u16)
    requires
        ready.no_duplicates(),
    ensures
        ready.remove_value(id).no_duplicates(),
        !ready.remove_value(id).contains(id),
        forall|other: u16|
            other != id ==> (ready.remove_value(id).contains(other) <==> ready.contains(other)),
        !ready.contains(id) ==> ready.remove_value(id) == ready,
{
    ready.index_of_first_ensures(id);
    let after = ready.remove_value(id);
    match ready.index_of_first(id) {
        Some(k) => {
            assert forall|i: int, j: int|
                0 <= i < after.len() && 0 <= j < after.len() && i != j implies after[i]
                != after[j] by {}
            assert forall|other: u16| other != id implies (after.contains(other)
                <==> ready.contains(other)) by {
                if ready.contains(other) {
                    let i = choose|i: int| 0 <= i < ready.len() && ready[i] == other;
                    let at = if i < k { i } else { i - 1 };
                    assert(after[at] == ready[i]);
                }
            }
        },
        None => {},
    }
}

/// Accepting a record leaves the multiplexer well formed.
pub proof fn lemma_accepted_well_formed(s: StreamView, h: Header, data: Seq<u8>)
    requires
        well_formed(s),
    ensures
        accepted(s, h, data) is Ok ==> well_formed(accepted(s, h, data)->Ok_0),
{
    let id = h.request_id;
    lemma_remove_value(s.ready, id);
    if accepted(s, h, data) is Ok {
        let after = accepted(s, h, data)->Ok_0;
        if h.type_ == ABORT_REQUEST || h.type_ == BEGIN_REQUEST {
            assert forall|i: int| 0 <= i < after.ready.len() implies after.pending.contains_key(
                #[trigger] after.ready[i],
            ) && after.pending[after.ready[i]].params_complete by {
                assert(s.ready.contains(after.ready[i]));
            }
        } else if h.type_ == PARAMS || h.type_ == STDIN || h.type_ == DATA {
            let before = request_for(s, id);
            let request = with_record(before, h.type_, data)->Ok_0;
            if request.params_complete && !before.params_complete {
                assert(after.ready.last() == id);
                assert forall|other: u16|
                    after.pending.contains_key(other) && (
                    #[trigger] after.pending[other]).params_complete implies after.ready.contains(
                    other,
                ) by {
                    if other != id {
                        let i = choose|i: int| 0 <= i < s.ready.len() && s.ready[i] == other;
                        assert(after.ready[i] == other);
                    }
                }
            } else {
                assert forall|other: u16|
                    after.pending.contains_key(other) && (
                    #[trigger] after.pending[other]).params_complete implies after.ready.contains(
                    other,
                ) by {}
            }
        }
    }
}

/// A record touches the request of its own id only: every other pending
/// request stays as it is, and stays ready if it was.
pub proof fn lemma_other_requests_untouched(s: StreamView, h: Header, data: Seq<u8>, other: u16)
    requires
        well_formed(s),
        other != h.request_id,
        accepted(s, h, data) is Ok,
    ensures
        accepted(s, h, data)->Ok_0.pending.contains_key(other) == s.pending.contains_key(other),
        s.pending.contains_key(other) ==> accepted(s, h, data)->Ok_0.pending[other]
            == s.pending[other],
        accepted(s, h, data)->Ok_0.ready.contains(other) == s.ready.contains(other),
{
    let after = accepted(s, h, data)->Ok_0;
    lemma_remove_value(s.ready, h.request_id);
    if after.ready == s.ready.push(h.request_id) {
        if s.ready.contains(other) {
            let i = choose|i: int| 0 <= i < s.ready.len() && s.ready[i] == other;
            assert(after.ready[i] == other);
        }
        if after.ready.contains(other) {
            let i = choose|i: int| 0 <= i < after.ready.len() && after.ready[i] == other;
            assert(s.ready[i] == other);
        }
    }
}

/// The abort of a pending request is answered with a stream that has ended,
/// with exactly one END_REQUEST record for the request, and the request is
/// pending no more: nothing else will end it again.
pub proof fn lemma_abort_ends_once(s: StreamView, h: Header, data: Seq<u8>)
    requires
        well_formed(s),
        h.type_ == ABORT_REQUEST,
        s.pending.contains_key(h.request_id),
    ensures
        accepted(s, h, data) is Ok,
        !accepted(s, h, data)->Ok_0.pending.contains_key(h.request_id),
        !accepted(s, h, data)->Ok_0.ready.contains(h.request_id),
        reply(s, h) == frames_wire(end_frames(new_response(h.request_id), 0)),
        closed_stream(end_frames(new_response(h.request_id), 0), h.request_id),
        end_request_count(end_frames(new_response(h.request_id), 0)) == 1,
{
    lemma_remove_value(s.ready, h.request_id);
    lemma_new_response_ended(h.request_id, 0);
}

/// Handing out the oldest ready request leaves the multiplexer well formed.
pub proof fn lemma_handed_out_well_formed(s: StreamView)
    requires
        well_formed(s),
        s.ready.len() > 0,
    ensures
        well_formed(handed_out(s)),
{
    let after = handed_out(s);
    assert forall|i: int| 0 <= i < after.ready.len() implies after.pending.contains_key(
        #[trigger] after.ready[i],
    ) && after.pending[after.ready[i]].params_complete by {}
    assert forall|other: u16|
        after.pending.contains_key(other) && (
        #[trigger] after.pending[other]).params_complete implies after.ready.contains(other) by {
        let i = choose|i: int| 0 <= i < s.ready.len() && s.ready[i] == other;
        assert(after.ready[i - 1] == other);
    }
    assert forall|i: int, j: int|
        0 <= i < after.ready.len() && 0 <= j < after.ready.len() && i != j implies after.ready[i]
        != after.ready[j] by {}
}

/// Takes the first occurrence of `id` out of the list.
fn remove_id(ready: &mut Vec<u16>, id: u16)
    ensures
        final(ready)@ == old(ready)@.remove_value(id),
{
    let mut i: usize = 0;
    while i < ready.len()
        invariant
            i <= ready@.len(),
            ready@ == old(ready)@,
            forall|j: int| 0 <= j < i ==> ready@[j] != id,
        decreases ready@.len() - i,
    {
        if ready[i] == id {
            proof {
                ready@.index_of_first_ensures(id);
            }
            ready.remove(i);
            return ;
        }
        i += 1;
    }
    proof {
        ready@.index_of_first_ensures(id);
    }
}

/// The pending requests of a map of pairs.
pub open spec fn pending_of(pair: Map<u16, HttpPair>) -> Map<u16, RequestView> {
    Map::new(|id: u16| pair.contains_key(id), |id: u16| pair[id].0@)
}

/// True if every pair of the map holds a new response for its id.
pub open spec fn responses_new(pair: Map<u16, HttpPair>) -> bool {
    forall|id: u16| pair.contains_key(id) ==> (#[trigger] pair[id]).1@ == new_response(id)
}

/// FastCGI request parser: the multiplexer of one connection.
pub struct StreamSyntax {
    born: bool,
    pair: HashMap<u16, HttpPair>,
    ready: Vec<u16>,
}

impl View for StreamSyntax {
    type V = StreamView;

    closed spec fn view(&self) -> StreamView {
        StreamView {
            born: self.born,
            pending: pending_of(self.pair@),
            ready: self.ready@,
        }
    }
}

impl StreamSyntax {
    /// The multiplexer is well formed, and every pending request is paired
    /// with a new response.
    #[verifier::type_invariant]
    spec fn inv(&self) -> bool {
        &&& well_formed(self@)
        &&& responses_new(self.pair@)
    }

    /// The multiplexer of a new connection.
    pub fn new() -> (stream: StreamSyntax)
        ensures
            stream@ == new_stream(),
            well_formed(stream@),
    {
        broadcast use group_hash_axioms;

        let pair: HashMap<u16, HttpPair> = HashMap::new();
        assert(pending_of(pair@) =~= Map::<u16, RequestView>::empty());
        StreamSyntax { born: true, pair: pair, ready: Vec::new() }
    }

    /// Whether the connection goes on: a request is pending, or the
    /// connection waits for a new one.
    pub fn is_open(&self) -> (open: bool)
        ensures
            open == (self@.born || self@.pending.dom().len() > 0),
            well_formed(self@),
    {
        broadcast use group_hash_axioms;

        proof {
            use_type_invariant(self);
            assert(self@.pending.dom() =~= self.pair@.dom());
        }
        !self.pair.is_empty() || self.born
    }

    /// How many requests are pending.
    pub fn pending_len(&self) -> (len: usize)
        ensures
            len == self@.pending.dom().len(),
    {
        broadcast use group_hash_axioms;

        proof {
            assert(self@.pending.dom() =~= self.pair@.dom());
        }
        self.pair.len()
    }

    /// Takes in one inbound record, and returns the bytes to send in answer.
    /// The type of the record decides what happens with it; see `accepted`.
    /// After an error the connection has to be dropped.
    pub fn accept(&mut self, h: Header, body: Vec<u8>) -> (result: Result<Vec<u8>, Error>)
        ensures
            match accepted(old(self)@, h, body@) {
                Ok(after) => result is Ok && result->Ok_0@ == reply(old(self)@, h) && final(self)@
                    == after,
                Err(e) => result == Err::<Vec<u8>, Error>(e) && final(self)@ == old(self)@,
            },
            well_formed(final(self)@),
    {
        broadcast use group_hash_axioms;

        proof {
            use_type_invariant(&*self);
            lemma_accepted_well_formed(self@, h, body@);
            lemma_remove_value(self@.ready, h.request_id);
        }
        let ghost start = self@;
        let id: u16 = h.request_id;
        let mut taken = StreamSyntax::new();
        core::mem::swap(self, &mut taken);
        let StreamSyntax { mut born, mut pair, mut ready } = taken;
        let mut answer: Vec<u8> = Vec::new();
        let mut outcome: Result<(), Error> = Ok(());

        if h.type_ == ABORT_REQUEST {
            match pair.remove(&id) {
                Some(found) => {
                    let (_, mut response) = found;
                    let _ = response.flush();
                    answer = response.take_output();
                    remove_id(&mut ready, id);
                },
                None => {},
            }
            assert(pending_of(pair@) =~= start.pending.remove(id));
        } else if h.type_ == BEGIN_REQUEST {
            let mut request = Request::new(id);
            match request.add_options(body) {
                Ok(()) => {
                    pair.insert(id, (request, Response::new(id)));
                    remove_id(&mut ready, id);
                    assert(pending_of(pair@) =~= start.pending.insert(id, request@));
                },
                Err(e) => {
                    outcome = Err(e);
                },
            }
        } else if h.type_ == PARAMS || h.type_ == STDIN || h.type_ == DATA {
            let existing = pair.remove(&id);
            let known: bool = existing.is_some();
            let mut found = match existing {
                Some(found) => found,
                None => (Request::new(id), Response::new(id)),
            };
            let was_ready: bool = found.0.is_ready();
            match found.0.fcgi_record(h, body) {
                Ok(()) => {
                    if found.0.is_ready() && !was_ready {
                        ready.push(id);
                        born = false;
                    }
                    pair.insert(id, found);
                    assert(pending_of(pair@) =~= start.pending.insert(id, found.0@));
                },
                Err(e) => {
                    if known {
                        pair.insert(id, found);
                    }
                    assert(pending_of(pair@) =~= start.pending);
                    outcome = Err(e);
                },
            }
        }
        *self = StreamSyntax { born: born, pair: pair, ready: ready };
        match outcome {
            Ok(()) => Ok(answer),
            Err(e) => Err(e),
        }
    }

    /// Yield HTTP request / response: the oldest request that is ready for
    /// the handler, with its response. It is no longer pending then.
    pub fn next(&mut self) -> (result: Option<HttpPair>)
        ensures
            match result {
                Some(found) => old(self)@.ready.len() > 0 && found.0@ == old(self)@.pending[old(
                    self,
                )@.ready[0]] && found.1@ == new_response(old(self)@.ready[0]) && final(self)@
                    == handed_out(old(self)@),
                None => old(self)@.ready.len() == 0 && final(self)@ == old(self)@,
            },
            well_formed(final(self)@),
    {
        broadcast use group_hash_axioms;

        proof {
            use_type_invariant(&*self);
        }
        if self.ready.len() == 0 {
            return None;
        }
        proof {
            lemma_handed_out_well_formed(self@);
        }
        let ghost start = self@;
        let mut taken = StreamSyntax::new();
        core::mem::swap(self, &mut taken);
        let StreamSyntax { born, mut pair, mut ready } = taken;
        let id: u16 = ready.remove(0);
        let result = pair.remove(&id);
        assert(pending_of(pair@) =~= start.pending.remove(id));
        *self = StreamSyntax { born: born, pair: pair, ready: ready };
        result
    }

    /// Takes in one inbound record while the request `request` is with its
    /// handler. Body bytes for that request go to it. Its abort ends its
    /// response at once, and the bytes that end it are returned; the body
    /// then counts as complete. Every other record goes the way of
    /// `accept`, so that requests of other ids are assembled meanwhile.
    pub fn route(
        &mut self,
        request: &mut Request,
        response: &mut Response,
        h: Header,
        body: Vec<u8>,
    ) -> (result: Result<Vec<u8>, Error>)
        ensures
            is_body_of(old(request)@, h) ==> {
                &&& result is Ok
                &&& result->Ok_0@ == Seq::<u8>::empty()
                &&& Ok::<RequestView, Error>(final(request)@) == with_record(
                    old(request)@,
                    h.type_,
                    body@,
                )
                &&& final(response)@ == old(response)@
                &&& final(self)@ == old(self)@
            },
            is_abort_of(old(request)@, h) ==> {
                &&& result is Ok
                &&& result->Ok_0@ == with_end(old(response)@, 0).outbox
                &&& final(request)@ == (RequestView { stdin_complete: true, ..old(request)@ })
                &&& final(response)@ == (ResponseView {
                    outbox: Seq::empty(),
                    ..with_end(old(response)@, 0)
                })
                &&& final(self)@ == old(self)@
            },
            !is_body_of(old(request)@, h) && !is_abort_of(old(request)@, h) ==> {
                &&& final(request)@ == old(request)@
                &&& final(response)@ == old(response)@
                &&& match accepted(old(self)@, h, body@) {
                    Ok(after) => {
                        &&& result is Ok
                        &&& result->Ok_0@ == reply(old(self)@, h)
                        &&& final(self)@ == after
                    },
                    Err(e) => result == Err::<Vec<u8>, Error>(e) && final(self)@ == old(self)@,
                }
            },
            well_formed(final(self)@),
    {
        proof {
            use_type_invariant(&*self);
        }
        if h.request_id == request.get_id() && (h.type_ == STDIN || h.type_ == DATA) {
            let _ = request.fcgi_record(h, body);
            Ok(Vec::new())
        } else if h.request_id == request.get_id() && h.type_ == ABORT_REQUEST {
            response.end(0);
            request.mark_readed();
            Ok(response.take_output())
        } else {
            self.accept(h, body)
        }
    }

    /// Ends the request whose handler has returned: the response is flushed
    /// unless the handler did that, and the bytes that wait in its outbox
    /// are returned. The connection waits for another request exactly if
    /// this one asked to keep the connection.
    pub fn finish(&mut self, request: &Request, response: &mut Response) -> (answer: Vec<u8>)
        ensures
            answer@ == with_end(old(response)@, 0).outbox,
            final(response)@ == (ResponseView {
                outbox: Seq::empty(),
                ..with_end(old(response)@, 0)
            }),
            final(response)@.closed,
            final(self)@ == (StreamView { born: request@.flags % 2 == 1, ..old(self)@ }),
            well_formed(final(self)@),
    {
        proof {
            use_type_invariant(&*self);
        }
        response.end(0);
        self.born = request.keep_conn();
        response.take_output()
    }

    /// Ends the request whose handler has failed, with application status 1:
    /// if the header block did not go out yet, the status becomes 500 and
    /// the body is dropped. The bytes that wait in the outbox are returned.
    /// The connection waits for another request exactly if this one asked
    /// to keep the connection.
    pub fn fail(&mut self, request: &Request, response: &mut Response) -> (answer: Vec<u8>)
        ensures
            answer@ == with_end(failed(old(response)@), 1).outbox,
            final(response)@ == (ResponseView {
                outbox: Seq::empty(),
                ..with_end(failed(old(response)@), 1)
            }),
            final(response)@.closed,
            final(self)@ == (StreamView { born: request@.flags % 2 == 1, ..old(self)@ }),
            well_formed(final(self)@),
    {
        proof {
            use_type_invariant(&*self);
        }
        response.fail();
        self.born = request.keep_conn();
        response.take_output()
    }

    /// Drops every pending request and lets the connection end, as after an
    /// error.
    pub fn close(&mut self)
        ensures
            final(self)@ == (StreamView { born: false, ..new_stream() }),
            well_formed(final(self)@),
    {
        broadcast use group_hash_axioms;

        let pair: HashMap<u16, HttpPair> = HashMap::new();
        assert(pending_of(pair@) =~= Map::<u16, RequestView>::empty());
        *self = StreamSyntax { born: false, pair: pair, ready: Vec::new() };
    }
}

} // verus!
