//! The name-value pair stream that PARAMS records carry.
//!
//! A pair is the length of its name, the length of its value, the name, the
//! value. A length below 128 takes one byte; a longer one takes four bytes,
//! big-endian, with the top bit of the first byte set to tell the two apart.

use crate::endian::{read_u32, u32_from_be, u32_to_be, write_u32};
use crate::error::Error;
use crate::headers::{pairs_extend, pairs_of, pairs_to_map, HeaderMap, Pair};
use vstd::prelude::*;

verus! {

/// The longest name or value that the length encoding can announce.
pub const MAX_PARAM_LENGTH: usize = 0x7fff_ffff;

/// How many bytes a length field occupies whose first byte is `first`: the
/// top bit of that byte decides.
pub open spec fn length_field_size(first: u8) -> nat {
    if first < 0x80 {
        1
    } else {
        4
    }
}

/// The length that stands at the start of `data`, and the number of bytes
/// that it occupies; `None` if `data` ends before the field does.
pub open spec fn decode_length(data: Seq<u8>) -> Option<(nat, nat)> {
    if data.len() == 0 {
        None
    } else if data[0] < 0x80 {
        Some((data[0] as nat, 1))
    } else if data.len() < 4 {
        None
    } else {
        Some(((u32_from_be(data[0], data[1], data[2], data[3]) - 0x8000_0000) as nat, 4))
    }
}

/// The bytes that announce the length `n`.
pub open spec fn encode_length(n: nat) -> Seq<u8>
    recommends
        n <= MAX_PARAM_LENGTH,
{
    if n < 0x80 {
        seq![n as u8]
    } else {
        u32_to_be((n + 0x8000_0000) as u32)
    }
}

/// The pair that stands at the start of `data`, and the number of bytes that
/// it occupies; `None` if `data` ends before the pair does.
pub open spec fn decode_pair(data: Seq<u8>) -> Option<(Pair, nat)> {
    match decode_length(data) {
        None => None,
        Some((name_len, n1)) => match decode_length(data.skip(n1 as int)) {
            None => None,
            Some((value_len, n2)) => {
                let start: int = (n1 + n2) as int;
                let middle: int = start + name_len;
                let end: int = middle + value_len;
                if data.len() < end {
                    None
                } else {
                    Some(((data.subrange(start, middle), data.subrange(middle, end)), end as nat))
                }
            },
        },
    }
}

/// The pairs that `data` holds, first to last; `None` if a declared length
/// runs past the end of `data`.
pub open spec fn decode_pairs(data: Seq<u8>) -> Option<Seq<Pair>>
    decreases data.len(),
{
    if data.len() == 0 {
        Some(Seq::empty())
    } else {
        match decode_pair(data) {
            None => None,
            Some((pair, n)) => match decode_pairs(data.skip(n as int)) {
                None => None,
                Some(rest) => Some(seq![pair] + rest),
            },
        }
    }
}

/// The mapping that a name-value stream stands for: of two values for one
/// name the later counts. `None` if a declared length runs past the end.
pub open spec fn parse_nv(data: Seq<u8>) -> Option<Map<Seq<u8>, Seq<u8>>> {
    match decode_pairs(data) {
        None => None,
        Some(pairs) => Some(pairs_to_map(pairs)),
    }
}

/// The bytes of one pair.
pub open spec fn encode_pair(pair: Pair) -> Seq<u8> {
    encode_length(pair.0.len()) + encode_length(pair.1.len()) + pair.0 + pair.1
}

/// The name-value stream of a list of pairs.
pub open spec fn encode_nv(pairs: Seq<Pair>) -> Seq<u8>
    decreases pairs.len(),
{
    if pairs.len() == 0 {
        Seq::empty()
    } else {
        encode_pair(pairs.first()) + encode_nv(pairs.skip(1))
    }
}

/// True if the name and the value of every pair are short enough for the
/// length encoding.
pub open spec fn encodable(pairs: Seq<Pair>) -> bool {
    forall|i: int|
        0 <= i < pairs.len() ==> (#[trigger] pairs[i]).0.len() <= MAX_PARAM_LENGTH
            && pairs[i].1.len() <= MAX_PARAM_LENGTH
}

/// A length up to 127 is encoded in one byte, a length from 128 to 2^31 - 1
/// in four bytes of which the first has its top bit set; and the top bit of
/// the first byte makes the decoder read the length back, whatever follows.
pub proof fn lemma_length_roundtrip(n: nat, rest: Seq<u8>)
    requires
        n <= MAX_PARAM_LENGTH,
    ensures
        n < 0x80 ==> encode_length(n).len() == 1 && encode_length(n)[0] == n,
        n >= 0x80 ==> encode_length(n).len() == 4 && encode_length(n)[0] >= 0x80,
        length_field_size(encode_length(n)[0]) == encode_length(n).len(),
        decode_length(encode_length(n) + rest) == Some((n, encode_length(n).len())),
        (encode_length(n) + rest).skip(encode_length(n).len() as int) == rest,
{
}

/// Decoding the bytes of a pair gives the pair back, whatever follows.
pub proof fn lemma_pair_roundtrip(pair: Pair, rest: Seq<u8>)
    requires
        pair.0.len() <= MAX_PARAM_LENGTH,
        pair.1.len() <= MAX_PARAM_LENGTH,
    ensures
        encode_pair(pair).len() >= 2,
        decode_pair(encode_pair(pair) + rest) == Some((pair, encode_pair(pair).len())),
        (encode_pair(pair) + rest).skip(encode_pair(pair).len() as int) == rest,
{
    let f1 = encode_length(pair.0.len());
    let f2 = encode_length(pair.1.len());
    let after2 = pair.0 + pair.1 + rest;
    lemma_length_roundtrip(pair.0.len(), f2 + after2);
    lemma_length_roundtrip(pair.1.len(), after2);
    lemma_pair_behind_lengths(f1, f2, pair, rest);
}

/// A pair behind two length fields that announce its name and its value is
/// decoded as that pair, whatever follows.
proof fn lemma_pair_behind_lengths(f1: Seq<u8>, f2: Seq<u8>, pair: Pair, rest: Seq<u8>)
    requires
        decode_length(f1 + (f2 + (pair.0 + pair.1 + rest))) == Some((pair.0.len(), f1.len())),
        decode_length(f2 + (pair.0 + pair.1 + rest)) == Some((pair.1.len(), f2.len())),
    ensures
        decode_pair(f1 + f2 + pair.0 + pair.1 + rest) == Some(
            (pair, (f1 + f2 + pair.0 + pair.1).len()),
        ),
        (f1 + f2 + pair.0 + pair.1 + rest).skip((f1 + f2 + pair.0 + pair.1).len() as int) == rest,
{
    let data = f1 + f2 + pair.0 + pair.1 + rest;
    let after1 = f2 + (pair.0 + pair.1 + rest);
    let start: int = (f1.len() + f2.len()) as int;
    let middle: int = start + pair.0.len();
    let end: int = middle + pair.1.len();
    assert(data =~= f1 + after1);
    assert(data.skip(f1.len() as int) =~= after1);
    assert(data.subrange(start, middle) =~= pair.0);
    assert(data.subrange(middle, end) =~= pair.1);
    assert(data.skip(end) =~= rest);
    lemma_decode_pair(data, pair.0.len(), f1.len(), pair.1.len(), f2.len());
}

/// How a pair is decoded, given its two length fields.
proof fn lemma_decode_pair(data: Seq<u8>, name_len: nat, n1: nat, value_len: nat, n2: nat)
    requires
        decode_length(data) == Some((name_len, n1)),
        decode_length(data.skip(n1 as int)) == Some((value_len, n2)),
    ensures
        data.len() < n1 + n2 + name_len + value_len ==> decode_pair(data) is None,
        data.len() >= n1 + n2 + name_len + value_len ==> decode_pair(data) == Some(
            (
                (
                    data.subrange((n1 + n2) as int, (n1 + n2 + name_len) as int),
                    data.subrange(
                        (n1 + n2 + name_len) as int,
                        (n1 + n2 + name_len + value_len) as int,
                    ),
                ),
                n1 + n2 + name_len + value_len,
            ),
        ),
{
}

/// How the pair is decoded that stands at place `at` of `input`, given its
/// two length fields.
proof fn lemma_pair_at(input: Seq<u8>, at: int, n1: nat, n2: nat, name_len: nat, value_len: nat)
    requires
        0 <= at,
        at + n1 + n2 <= input.len(),
        decode_length(input.skip(at)) == Some((name_len, n1)),
        decode_length(input.skip(at + n1)) == Some((value_len, n2)),
    ensures
        input.len() < at + n1 + n2 + name_len + value_len ==> decode_pair(input.skip(at)) is None,
        input.len() >= at + n1 + n2 + name_len + value_len ==> decode_pair(input.skip(at)) == Some(
            (
                (
                    input.subrange(at + n1 + n2, at + n1 + n2 + name_len),
                    input.subrange(at + n1 + n2 + name_len, at + n1 + n2 + name_len + value_len),
                ),
                n1 + n2 + name_len + value_len,
            ),
        ) && input.skip(at).skip((n1 + n2 + name_len + value_len) as int) == input.skip(
            at + n1 + n2 + name_len + value_len,
        ),
{
    let data = input.skip(at);
    let from: int = (n1 + n2) as int;
    assert(data.skip(n1 as int) =~= input.skip(at + n1));
    lemma_decode_pair(data, name_len, n1, value_len, n2);
    if input.len() >= at + n1 + n2 + name_len + value_len {
        assert(data.subrange(from, from + name_len) =~= input.subrange(
            at + from,
            at + from + name_len,
        ));
        assert(data.subrange(from + name_len, from + name_len + value_len) =~= input.subrange(
            at + from + name_len,
            at + from + name_len + value_len,
        ));
        assert(data.skip(from + name_len + value_len) =~= input.skip(
            at + from + name_len + value_len,
        ));
    }
}

/// Decoding the name-value stream of a list of pairs gives the list back,
/// provided every name and value is short enough for the length encoding.
pub proof fn lemma_pairs_roundtrip(pairs: Seq<Pair>)
    requires
        encodable(pairs),
    ensures
        decode_pairs(encode_nv(pairs)) == Some(pairs),
    decreases pairs.len(),
{
    if pairs.len() > 0 {
        let first = pairs.first();
        let rest = pairs.skip(1);
        assert forall|i: int| 0 <= i < rest.len() implies (#[trigger] rest[i]).0.len()
            <= MAX_PARAM_LENGTH && rest[i].1.len() <= MAX_PARAM_LENGTH by {}
        lemma_pairs_roundtrip(rest);
        lemma_pair_roundtrip(first, encode_nv(rest));
    }
}

/// Parsing the name-value stream of a mapping gives the mapping back,
/// provided every name and value is short enough for the length encoding.
/// The mapping is given by its pairs; where a name occurs twice among them,
/// the later value counts on both sides.
pub proof fn lemma_nv_roundtrip(pairs: Seq<Pair>)
    requires
        encodable(pairs),
    ensures
        parse_nv(encode_nv(pairs)) == Some(pairs_to_map(pairs)),
{
    lemma_pairs_roundtrip(pairs);
}

/// Helper for split key-value param pairs
#[derive(Debug)]
pub struct ParamFetcher {
    data: Vec<u8>,
    pos: usize,
}

impl ParamFetcher {
    /// The cursor stands inside the data or at its end.
    #[verifier::type_invariant]
    spec fn cursor_in_range(&self) -> bool {
        self.pos <= self.data@.len()
    }

    /// The bytes that the fetcher was made with.
    pub closed spec fn input(&self) -> Seq<u8> {
        self.data@
    }

    /// The place of the cursor: how many bytes of the input lie behind it.
    pub closed spec fn position(&self) -> nat {
        self.pos as nat
    }

    /// The bytes from the cursor to the end of the input.
    pub open spec fn remaining(&self) -> Seq<u8> {
        self.input().skip(self.position() as int)
    }

    /// Constructor
    pub fn new(data: Vec<u8>) -> (fetcher: ParamFetcher)
        ensures
            fetcher.input() == data@,
            fetcher.position() == 0,
            fetcher.remaining() == data@,
    {
        ParamFetcher { data: data, pos: 0 }
    }

    /// Parse pairs: every pair from the cursor to the end of the data goes
    /// into the mapping, a later value for a name replacing an earlier one,
    /// and the cursor moves to the end. If a declared length runs past the
    /// end of the data, nothing is returned and the cursor stays.
    pub fn parse_param(&mut self) -> (result: Result<HeaderMap, Error>)
        ensures
            final(self).input() == old(self).input(),
            match decode_pairs(old(self).remaining()) {
                Some(pairs) => result is Ok && result->Ok_0@ == pairs_to_map(pairs)
                    && result->Ok_0.pairs() == pairs_extend(Seq::empty(), pairs)
                    && final(self).position() == old(self).input().len(),
                None => result == Err::<HeaderMap, Error>(Error::ParamTruncation)
                    && final(self).position() == old(self).position(),
            },
            result is Ok <==> parse_nv(old(self).remaining()) is Some,
            result is Ok ==> Some(result->Ok_0@) == parse_nv(old(self).remaining()),
    {
        let list = self.parse_list()?;
        let mut param = HeaderMap::new();
        param.insert_all(&list);
        Ok(param)
    }

    /// Reads every pair from the cursor to the end of the data, first to
    /// last, and moves the cursor to the end. If a declared length runs past
    /// the end of the data, nothing is returned and the cursor stays.
    pub fn parse_list(&mut self) -> (result: Result<Vec<(Vec<u8>, Vec<u8>)>, Error>)
        ensures
            final(self).input() == old(self).input(),
            match decode_pairs(old(self).remaining()) {
                Some(pairs) => result is Ok && pairs_of(result->Ok_0@) == pairs
                    && final(self).position() == old(self).input().len(),
                None => result == Err::<Vec<(Vec<u8>, Vec<u8>)>, Error>(Error::ParamTruncation)
                    && final(self).position() == old(self).position(),
            },
    {
        proof {
            use_type_invariant(&*self);
        }
        let mut list: Vec<(Vec<u8>, Vec<u8>)> = Vec::new();
        let start: usize = self.pos;
        let data_length: usize = self.data.len();

        while data_length > self.pos
            invariant
                data_length == self.input().len(),
                self.input() == old(self).input(),
                start == old(self).position(),
                start <= self.position() <= data_length,
                self.pos == self.position(),
                decode_pairs(old(self).remaining()) == (match decode_pairs(self.remaining()) {
                    Some(rest) => Some(pairs_of(list@) + rest),
                    None => None,
                }),
            decreases data_length - self.pos,
        {
            match self.next_pair() {
                Ok(pair) => {
                    list.push(pair);
                },
                Err(e) => {
                    self.pos = start;
                    return Err(e);
                },
            }
        }

        Ok(list)
    }

    /// Reads the pair under the cursor and moves the cursor behind it. If
    /// the data ends before the pair does, the cursor stays.
    pub fn next_pair(&mut self) -> (result: Result<(Vec<u8>, Vec<u8>), Error>)
        ensures
            final(self).input() == old(self).input(),
            final(self).position() <= final(self).input().len(),
            match decode_pair(old(self).remaining()) {
                Some((pair, size)) => result is Ok && result->Ok_0.0@ == pair.0
                    && result->Ok_0.1@ == pair.1 && final(self).position() == old(self).position()
                    + size && final(self).remaining() == old(self).remaining().skip(size as int),
                None => result == Err::<(Vec<u8>, Vec<u8>), Error>(Error::ParamTruncation)
                    && final(self).position() == old(self).position(),
            },
    {
        proof {
            use_type_invariant(&*self);
        }
        let start: usize = self.pos;
        let key_length: usize = match self.param_length() {
            Ok(length) => length,
            Err(e) => {
                return Err(e);
            },
        };
        let key_at: usize = self.pos;
        let value_length: usize = match self.param_length() {
            Ok(length) => length,
            Err(e) => {
                self.pos = start;
                return Err(e);
            },
        };
        proof {
            lemma_pair_at(
                self.input(),
                start as int,
                (key_at - start) as nat,
                (self.pos - key_at) as nat,
                key_length as nat,
                value_length as nat,
            );
        }
        let left: usize = self.data.len() - self.pos;
        if key_length > left || value_length > left - key_length {
            self.pos = start;
            return Err(Error::ParamTruncation);
        }
        let key_end: usize = self.pos + key_length;
        let value_end: usize = key_end + value_length;

        let key = slice_to_vec(&self.data, self.pos, key_end);
        let value = slice_to_vec(&self.data, key_end, value_end);
        self.pos = value_end;
        Ok((key, value))
    }

    /// Gives back the data that the fetcher was made with.
    pub fn into_data(self) -> (data: Vec<u8>)
        ensures
            data@ == self.input(),
    {
        self.data
    }

    /// Read param length and move internal cursor: one byte if the top bit
    /// of the byte under the cursor is clear, else four bytes, big-endian,
    /// with that bit masked off. If the data ends before the field does,
    /// the cursor stays.
    pub fn param_length(&mut self) -> (result: Result<usize, Error>)
        ensures
            final(self).input() == old(self).input(),
            final(self).position() <= final(self).input().len(),
            match decode_length(old(self).remaining()) {
                Some((length, size)) => result == Ok::<usize, Error>(length as usize)
                    && length <= MAX_PARAM_LENGTH
                    && size == length_field_size(old(self).remaining()[0])
                    && final(self).position() == old(self).position() + size,
                None => result == Err::<usize, Error>(Error::ParamTruncation)
                    && final(self).position() == old(self).position(),
            },
    {
        proof {
            use_type_invariant(&*self);
        }
        if self.pos >= self.data.len() {
            return Err(Error::ParamTruncation);
        }
        let first: u8 = self.data[self.pos];

        if (first >> 7) == 1 {
            assert((first >> 7) == 1 <==> first >= 0x80) by (bit_vector);
            if self.data.len() - self.pos < 4 {
                return Err(Error::ParamTruncation);
            }
            let field = vstd::slice::slice_subrange(self.data.as_slice(), self.pos, self.pos + 4);
            let raw: u32 = read_u32(field);
            assert(raw >= 0x8000_0000 ==> raw & 0x7fff_ffff == raw - 0x8000_0000) by (bit_vector);
            let length: u32 = raw & 0x7fff_ffff;

            self.pos = self.pos + 4;
            Ok(length as usize)
        } else {
            assert((first >> 7) == 1 <==> first >= 0x80) by (bit_vector);
            self.pos = self.pos + 1;
            Ok(first as usize)
        }
    }
}

/// A copy of the bytes of `data` from place `from` up to place `to`.
fn slice_to_vec(data: &Vec<u8>, from: usize, to: usize) -> (copy: Vec<u8>)
    requires
        from <= to <= data@.len(),
    ensures
        copy@ == data@.subrange(from as int, to as int),
{
    let part = vstd::slice::slice_subrange(data.as_slice(), from, to);
    let mut copy: Vec<u8> = Vec::with_capacity(to - from);
    copy.extend_from_slice(part);
    copy
}

/// Appends to `out` the bytes that announce the length `n`: one byte up to
/// 127, else four bytes of which the first has its top bit set.
pub fn write_length(out: &mut Vec<u8>, n: usize)
    requires
        n <= MAX_PARAM_LENGTH,
    ensures
        final(out)@ == old(out)@ + encode_length(n as nat),
{
    if n < 0x80 {
        out.push(n as u8);
    } else {
        let mut buf: [u8; 4] = [0; 4];
        let n32: u32 = n as u32;
        assert(n32 <= 0x7fff_ffff ==> n32 | 0x8000_0000 == n32 + 0x8000_0000) by (bit_vector);
        write_u32(&mut buf, n32 | 0x8000_0000);
        out.extend_from_slice(&buf);
    }
}

/// The name-value stream of the mapping, pair after pair in the order of
/// `pairs()`; `None` if a name or a value is too long for the length
/// encoding. Parsing the stream gives the mapping back.
pub fn encode_params(map: &HeaderMap) -> (result: Option<Vec<u8>>)
    ensures
        result is Some <==> encodable(map.pairs()),
        result is Some ==> result->Some_0@ == encode_nv(map.pairs()) && parse_nv(
            result->Some_0@,
        ) == Some(map@),
{
    let mut out: Vec<u8> = Vec::new();
    let mut i: usize = 0;
    assert(map.pairs().skip(0) =~= map.pairs());
    while i < map.len()
        invariant
            i <= map.pairs().len(),
            encodable(map.pairs().take(i as int)),
            out@ + encode_nv(map.pairs().skip(i as int)) == encode_nv(map.pairs()),
        decreases map.pairs().len() - i,
    {
        let name = map.name_at(i);
        let value = map.value_at(i);
        if name.len() > MAX_PARAM_LENGTH || value.len() > MAX_PARAM_LENGTH {
            return None;
        }
        write_length(&mut out, name.len());
        write_length(&mut out, value.len());
        out.extend_from_slice(name.as_slice());
        out.extend_from_slice(value.as_slice());
        proof {
            assert(map.pairs().skip(i as int).skip(1) =~= map.pairs().skip(i + 1));
            assert forall|j: int| 0 <= j < i + 1 implies (#[trigger] map.pairs().take(i + 1)[j]).0.len()
                <= MAX_PARAM_LENGTH && map.pairs().take(i + 1)[j].1.len() <= MAX_PARAM_LENGTH by {}
        }
        i += 1;
    }
    proof {
        lemma_nv_roundtrip(map.pairs());
    }
    Some(out)
}

} // verus!
