//! Wire codec for the stream protocol.
//!
//! Two framing modes are provided. Variable-size values (requests, payloads)
//! travel length-prefixed: a little-endian `u32` byte count followed by
//! exactly that many bytes. Small protocol-control values (acknowledgement
//! codes) travel fixed-size as a single byte with no prefix; an unrecognized
//! byte pattern is rejected with a decode error rather than defaulted.
use vstd::prelude::*;
use vstd::bytes::{spec_u32_to_le_bytes, spec_u32_from_le_bytes, u32_to_le_bytes, u32_from_le_bytes};
use vstd::bytes::{spec_u64_to_le_bytes, spec_u64_from_le_bytes, u64_to_le_bytes, u64_from_le_bytes};
use vstd::slice::{slice_subrange, slice_to_vec, slice_index_get};
use vstd::utf8::{encode_utf8, decode_utf8, valid_utf8, encode_utf8_valid_utf8, encode_utf8_decode_utf8};
use crate::{Id, IdV, Value, ValueV, Location, LocationV, Requests, RequestsV, Responses, ResponsesV};

verus! {

/// A stream-level codec failure, fatal to the current stream only.
///
/// `IoError` is produced by the callers that move bytes on and off a network
/// stream; the pure codec itself produces the other three.
#[derive(Clone, Copy, PartialEq, Eq, Debug)]
pub enum FramingError {
    /// The stream failed or closed before a full frame was transferred.
    IoError,
    /// The bytes do not spell a recognized value.
    DecodeError,
    /// A length prefix exceeds the configured maximum frame size.
    SizeLimitError,
    /// The value cannot be represented on the wire (a field too long for its
    /// length prefix).
    EncodeError,
}

/// Acknowledgement resolution a consumer sends after receiving a message.
#[derive(Clone, Copy, PartialEq, Eq, Debug)]
pub enum MessageAck {
    Ack,
    Nack,
    Reject,
}

/// Confirmation the broker sends after a durable publish.
#[derive(Clone, Copy, PartialEq, Eq, Debug)]
pub enum PublishConfirm {
    Ack,
}

/// The single byte standing for an acknowledgement resolution.
pub open spec fn spec_encode_ack(a: MessageAck) -> u8 {
    match a {
        MessageAck::Ack => 0,
        MessageAck::Nack => 1,
        MessageAck::Reject => 2,
    }
}

/// The resolution a byte stands for, if it stands for one.
pub open spec fn spec_decode_ack(b: u8) -> Option<MessageAck> {
    if b == 0 {
        Some(MessageAck::Ack)
    } else if b == 1 {
        Some(MessageAck::Nack)
    } else if b == 2 {
        Some(MessageAck::Reject)
    } else {
        None
    }
}

/// Fixed framing of an acknowledgement resolution: exactly one byte, no prefix.
pub fn encode_message_fixed(a: &MessageAck) -> (b: u8)
    ensures
        b == spec_encode_ack(*a),
{
    match a {
        MessageAck::Ack => 0,
        MessageAck::Nack => 1,
        MessageAck::Reject => 2,
    }
}

/// Fixed unframing of an acknowledgement resolution. Every byte other than the
/// three defined code points is rejected with a decode error.
pub fn decode_message_fixed(b: u8) -> (r: Result<MessageAck, FramingError>)
    ensures
        match r {
            Ok(a) => spec_decode_ack(b) == Some(a),
            Err(e) => spec_decode_ack(b) is None && e == FramingError::DecodeError,
        },
{
    if b == 0 {
        Ok(MessageAck::Ack)
    } else if b == 1 {
        Ok(MessageAck::Nack)
    } else if b == 2 {
        Ok(MessageAck::Reject)
    } else {
        Err(FramingError::DecodeError)
    }
}

/// The single byte standing for a publish confirmation.
pub open spec fn spec_encode_confirm(c: PublishConfirm) -> u8 {
    0
}

/// Fixed framing of a publish confirmation.
pub fn encode_confirm_fixed(c: &PublishConfirm) -> (b: u8)
    ensures
        b == spec_encode_confirm(*c),
{
    0
}

/// Fixed unframing of a publish confirmation: only the zero byte is accepted.
pub fn decode_confirm_fixed(b: u8) -> (r: Result<PublishConfirm, FramingError>)
    ensures
        match r {
            Ok(c) => b == spec_encode_confirm(c),
            Err(e) => b != 0 && e == FramingError::DecodeError,
        },
{
    if b == 0 {
        Ok(PublishConfirm::Ack)
    } else {
        Err(FramingError::DecodeError)
    }
}

/// Whether a field of `n` bytes fits behind a `u32` length prefix.
pub open spec fn fits_len_prefix(n: nat) -> bool {
    n <= u32::MAX
}

/// A length-prefixed block: the little-endian `u32` byte count, then the bytes.
pub open spec fn spec_len_prefixed(b: Seq<u8>) -> Seq<u8> {
    spec_u32_to_le_bytes(b.len() as u32) + b
}

/// Reads one length-prefixed block off the front of `b`: the block's bytes
/// and the remainder, or nothing when `b` is too short for its own prefix.
pub open spec fn spec_take_block(b: Seq<u8>) -> Option<(Seq<u8>, Seq<u8>)> {
    if b.len() < 4 {
        None
    } else {
        let n = spec_u32_from_le_bytes(b.subrange(0, 4)) as int;
        if b.len() < 4 + n {
            None
        } else {
            Some((b.subrange(4, 4 + n), b.subrange(4 + n, b.len() as int)))
        }
    }
}

/// Prefixing a block and taking it back are inverse: whatever follows the
/// block is left untouched.
pub proof fn lemma_take_block_of_prefixed(b: Seq<u8>, tail: Seq<u8>)
    requires
        fits_len_prefix(b.len()),
    ensures
        spec_take_block(spec_len_prefixed(b) + tail) == Some((b, tail)),
{
    vstd::bytes::lemma_auto_spec_u32_to_from_le_bytes();
    let whole = spec_len_prefixed(b) + tail;
    assert(whole.subrange(0, 4) =~= spec_u32_to_le_bytes(b.len() as u32));
    let n = spec_u32_from_le_bytes(whole.subrange(0, 4)) as int;
    assert(n == b.len() as int);
    assert(whole.subrange(4, 4 + n) =~= b);
    assert(whole.subrange(4 + n, whole.len() as int) =~= tail);
}

/// Appends a length-prefixed block to `out`. Refused (and `out` left alone)
/// exactly when the field is too long for a `u32` prefix.
pub fn push_block(out: &mut Vec<u8>, field: &[u8]) -> (ok: bool)
    ensures
        ok == fits_len_prefix(field@.len()),
        ok ==> final(out)@ == old(out)@ + spec_len_prefixed(field@),
        !ok ==> final(out)@ == old(out)@,
{
    if field.len() > u32::MAX as usize {
        return false;
    }
    let mut prefix = u32_to_le_bytes(field.len() as u32);
    out.append(&mut prefix);
    let mut bytes = slice_to_vec(field);
    out.append(&mut bytes);
    assert(final(out)@ =~= old(out)@ + spec_len_prefixed(field@));
    true
}

/// Reads one length-prefixed block of `b` starting at `pos`; returns the
/// block and the position just past it. Mirrors [`spec_take_block`] on the
/// suffix of `b` at `pos`.
pub fn read_block(b: &[u8], pos: usize) -> (r: Option<(Vec<u8>, usize)>)
    requires
        pos <= b@.len(),
    ensures
        match r {
            Some((field, end)) => {
                &&& pos + 4 <= end <= b@.len()
                &&& spec_take_block(b@.subrange(pos as int, b@.len() as int)) == Some(
                    (field@, b@.subrange(end as int, b@.len() as int)),
                )
            },
            None => spec_take_block(b@.subrange(pos as int, b@.len() as int)) is None,
        },
{
    let suffix_len = b.len() - pos;
    if suffix_len < 4 {
        return None;
    }
    let prefix = slice_subrange(b, pos, pos + 4);
    assert(prefix@ =~= b@.subrange(pos as int, b@.len() as int).subrange(0, 4));
    let n = u32_from_le_bytes(prefix);
    if (n as usize) > suffix_len - 4 {
        return None;
    }
    let start = pos + 4;
    let end = start + n as usize;
    let field = slice_to_vec(slice_subrange(b, start, end));
    proof {
        let suffix = b@.subrange(pos as int, b@.len() as int);
        let m = spec_u32_from_le_bytes(suffix.subrange(0, 4)) as int;
        assert(m == n as int);
        assert(field@ =~= suffix.subrange(4, 4 + m));
        assert(b@.subrange(end as int, b@.len() as int) =~= suffix.subrange(
            4 + m,
            suffix.len() as int,
        ));
    }
    Some((field, end))
}

/// The suffix of `b` from `pos` on.
pub open spec fn suffix(b: Seq<u8>, pos: int) -> Seq<u8> {
    b.subrange(pos, b.len() as int)
}

/// A string on the wire: the length-prefixed UTF-8 bytes of its characters.
pub open spec fn spec_encode_string(s: Seq<char>) -> Seq<u8> {
    spec_len_prefixed(encode_utf8(s))
}

/// Whether a string fits behind a `u32` length prefix.
pub open spec fn string_encodable(s: Seq<char>) -> bool {
    fits_len_prefix(encode_utf8(s).len())
}

/// Reads one length-prefixed string off the front of `b`: rejected when the
/// block's bytes are not valid UTF-8.
pub open spec fn spec_take_string(b: Seq<u8>) -> Option<(Seq<char>, Seq<u8>)> {
    match spec_take_block(b) {
        Some((field, rest)) => if valid_utf8(field) {
            Some((decode_utf8(field), rest))
        } else {
            None
        },
        None => None,
    }
}

/// Encoding a string and taking it back are inverse.
pub proof fn lemma_take_string_of_encoded(s: Seq<char>, tail: Seq<u8>)
    requires
        string_encodable(s),
    ensures
        spec_take_string(spec_encode_string(s) + tail) == Some((s, tail)),
{
    lemma_take_block_of_prefixed(encode_utf8(s), tail);
    encode_utf8_valid_utf8(s);
    encode_utf8_decode_utf8(s);
}

/// Reads a little-endian `u64` off the front of `b`.
pub open spec fn spec_take_u64(b: Seq<u8>) -> Option<(u64, Seq<u8>)> {
    if b.len() < 8 {
        None
    } else {
        Some((spec_u64_from_le_bytes(b.subrange(0, 8)), b.subrange(8, b.len() as int)))
    }
}

/// Writing a `u64` and taking it back are inverse.
pub proof fn lemma_take_u64_of_encoded(x: u64, tail: Seq<u8>)
    ensures
        spec_take_u64(spec_u64_to_le_bytes(x) + tail) == Some((x, tail)),
{
    vstd::bytes::lemma_auto_spec_u64_to_from_le_bytes();
    let whole = spec_u64_to_le_bytes(x) + tail;
    assert(whole.subrange(0, 8) =~= spec_u64_to_le_bytes(x));
    assert(whole.subrange(8, whole.len() as int) =~= tail);
}

/// An identifier on the wire: its hash algorithm name, then its hash bytes.
pub open spec fn spec_encode_id(id: IdV) -> Seq<u8> {
    spec_encode_string(id.hash_type) + spec_len_prefixed(id.hash)
}

/// Whether both fields of an identifier fit behind their length prefixes.
pub open spec fn id_encodable(id: IdV) -> bool {
    string_encodable(id.hash_type) && fits_len_prefix(id.hash.len())
}

/// Reads an identifier off the front of `b`.
pub open spec fn spec_take_id(b: Seq<u8>) -> Option<(IdV, Seq<u8>)> {
    match spec_take_string(b) {
        Some((hash_type, r1)) => match spec_take_block(r1) {
            Some((hash, r2)) => Some((IdV { hash_type, hash }, r2)),
            None => None,
        },
        None => None,
    }
}

/// Encoding an identifier and taking it back are inverse.
pub proof fn lemma_take_id_of_encoded(id: IdV, tail: Seq<u8>)
    requires
        id_encodable(id),
    ensures
        spec_take_id(spec_encode_id(id) + tail) == Some((id, tail)),
{
    assert(spec_encode_id(id) + tail =~= spec_encode_string(id.hash_type) + (spec_len_prefixed(
        id.hash,
    ) + tail));
    lemma_take_string_of_encoded(id.hash_type, spec_len_prefixed(id.hash) + tail);
    lemma_take_block_of_prefixed(id.hash, tail);
}

/// A value record on the wire: its identifier, then its byte length.
pub open spec fn spec_encode_value(v: ValueV) -> Seq<u8> {
    spec_encode_id(v.id) + spec_u64_to_le_bytes(v.value_len as u64)
}

/// Whether a value record can be represented on the wire.
pub open spec fn value_encodable(v: ValueV) -> bool {
    id_encodable(v.id)
}

/// Reads a value record off the front of `b`. A length that does not fit the
/// machine's address space is rejected.
pub open spec fn spec_take_value(b: Seq<u8>) -> Option<(ValueV, Seq<u8>)> {
    match spec_take_id(b) {
        Some((id, r1)) => match spec_take_u64(r1) {
            Some((n, r2)) => if n <= usize::MAX {
                Some((ValueV { id, value_len: n as usize }, r2))
            } else {
                None
            },
            None => None,
        },
        None => None,
    }
}

/// Encoding a value record and taking it back are inverse.
pub proof fn lemma_take_value_of_encoded(v: ValueV, tail: Seq<u8>)
    requires
        value_encodable(v),
    ensures
        spec_take_value(spec_encode_value(v) + tail) == Some((v, tail)),
{
    assert(spec_encode_value(v) + tail =~= spec_encode_id(v.id) + (spec_u64_to_le_bytes(
        v.value_len as u64,
    ) + tail));
    lemma_take_id_of_encoded(v.id, spec_u64_to_le_bytes(v.value_len as u64) + tail);
    lemma_take_u64_of_encoded(v.value_len as u64, tail);
}

/// A location on the wire: the peer address, then the identifier found there.
pub open spec fn spec_encode_location(l: LocationV) -> Seq<u8> {
    spec_encode_string(l.address) + spec_encode_id(l.id)
}

/// Whether a location can be represented on the wire.
pub open spec fn location_encodable(l: LocationV) -> bool {
    string_encodable(l.address) && id_encodable(l.id)
}

/// Reads a location off the front of `b`.
pub open spec fn spec_take_location(b: Seq<u8>) -> Option<(LocationV, Seq<u8>)> {
    match spec_take_string(b) {
        Some((address, r1)) => match spec_take_id(r1) {
            Some((id, r2)) => Some((LocationV { address, id }, r2)),
            None => None,
        },
        None => None,
    }
}

/// Encoding a location and taking it back are inverse.
pub proof fn lemma_take_location_of_encoded(l: LocationV, tail: Seq<u8>)
    requires
        location_encodable(l),
    ensures
        spec_take_location(spec_encode_location(l) + tail) == Some((l, tail)),
{
    assert(spec_encode_location(l) + tail =~= spec_encode_string(l.address) + (spec_encode_id(l.id)
        + tail));
    lemma_take_string_of_encoded(l.address, spec_encode_id(l.id) + tail);
    lemma_take_id_of_encoded(l.id, tail);
}

/// A request on the wire: a one-byte variant tag, then the variant's fields.
pub open spec fn spec_encode_request(r: RequestsV) -> Seq<u8> {
    match r {
        RequestsV::Publish { exchange, routing_key, payload } => seq![0u8] + spec_encode_string(
            exchange,
        ) + spec_encode_string(routing_key) + spec_len_prefixed(payload),
        RequestsV::Consume { queue } => seq![1u8] + spec_encode_string(queue),
        RequestsV::FindNode(id) => seq![2u8] + spec_encode_id(id),
        RequestsV::FindValue(id) => seq![3u8] + spec_encode_id(id),
        RequestsV::PutValue(v) => seq![4u8] + spec_encode_value(v),
    }
}

/// Whether a request can be represented on the wire: every variable-size
/// field fits behind its `u32` length prefix.
pub open spec fn request_encodable(r: RequestsV) -> bool {
    match r {
        RequestsV::Publish { exchange, routing_key, payload } => string_encodable(exchange)
            && string_encodable(routing_key) && fits_len_prefix(payload.len()),
        RequestsV::Consume { queue } => string_encodable(queue),
        RequestsV::FindNode(id) => id_encodable(id),
        RequestsV::FindValue(id) => id_encodable(id),
        RequestsV::PutValue(v) => value_encodable(v),
    }
}

/// The request a byte sequence spells, if it spells one exactly (no bytes may
/// be left over, and no field may be malformed).
pub open spec fn spec_decode_request(b: Seq<u8>) -> Option<RequestsV> {
    if b.len() < 1 {
        None
    } else {
        let rest = suffix(b, 1);
        if b[0] == 0 {
            match spec_take_string(rest) {
                Some((exchange, r1)) => match spec_take_string(r1) {
                    Some((routing_key, r2)) => match spec_take_block(r2) {
                        Some((payload, r3)) => if r3.len() == 0 {
                            Some(RequestsV::Publish { exchange, routing_key, payload })
                        } else {
                            None
                        },
                        None => None,
                    },
                    None => None,
                },
                None => None,
            }
        } else if b[0] == 1 {
            match spec_take_string(rest) {
                Some((queue, r1)) => if r1.len() == 0 {
                    Some(RequestsV::Consume { queue })
                } else {
                    None
                },
                None => None,
            }
        } else if b[0] == 2 {
            match spec_take_id(rest) {
                Some((id, r1)) => if r1.len() == 0 {
                    Some(RequestsV::FindNode(id))
                } else {
                    None
                },
                None => None,
            }
        } else if b[0] == 3 {
            match spec_take_id(rest) {
                Some((id, r1)) => if r1.len() == 0 {
                    Some(RequestsV::FindValue(id))
                } else {
                    None
                },
                None => None,
            }
        } else if b[0] == 4 {
            match spec_take_value(rest) {
                Some((v, r1)) => if r1.len() == 0 {
                    Some(RequestsV::PutValue(v))
                } else {
                    None
                },
                None => None,
            }
        } else {
            None
        }
    }
}

/// A response on the wire: a one-byte variant tag, then the variant's fields.
pub open spec fn spec_encode_response(r: ResponsesV) -> Seq<u8> {
    match r {
        ResponsesV::Location(l) => seq![0u8] + spec_encode_location(l),
        ResponsesV::Value(v) => seq![1u8] + spec_encode_value(v),
    }
}

/// Whether a response can be represented on the wire.
pub open spec fn response_encodable(r: ResponsesV) -> bool {
    match r {
        ResponsesV::Location(l) => location_encodable(l),
        ResponsesV::Value(v) => value_encodable(v),
    }
}

/// The response a byte sequence spells, if it spells one exactly.
pub open spec fn spec_decode_response(b: Seq<u8>) -> Option<ResponsesV> {
    if b.len() < 1 {
        None
    } else {
        let rest = suffix(b, 1);
        if b[0] == 0 {
            match spec_take_location(rest) {
                Some((l, r1)) => if r1.len() == 0 {
                    Some(ResponsesV::Location(l))
                } else {
                    None
                },
                None => None,
            }
        } else if b[0] == 1 {
            match spec_take_value(rest) {
                Some((v, r1)) => if r1.len() == 0 {
                    Some(ResponsesV::Value(v))
                } else {
                    None
                },
                None => None,
            }
        } else {
            None
        }
    }
}

/// Round trip: decoding an encoded request gives back the value it encodes.
pub proof fn lemma_request_round_trip(r: RequestsV)
    requires
        request_encodable(r),
    ensures
        spec_decode_request(spec_encode_request(r)) == Some(r),
{
    let b = spec_encode_request(r);
    let empty = Seq::<u8>::empty();
    match r {
        RequestsV::Publish { exchange, routing_key, payload } => {
            assert(suffix(b, 1) =~= spec_encode_string(exchange) + (spec_encode_string(routing_key)
                + (spec_len_prefixed(payload) + empty)));
            lemma_take_string_of_encoded(
                exchange,
                spec_encode_string(routing_key) + (spec_len_prefixed(payload) + empty),
            );
            lemma_take_string_of_encoded(routing_key, spec_len_prefixed(payload) + empty);
            lemma_take_block_of_prefixed(payload, empty);
        },
        RequestsV::Consume { queue } => {
            assert(suffix(b, 1) =~= spec_encode_string(queue) + empty);
            lemma_take_string_of_encoded(queue, empty);
        },
        RequestsV::FindNode(id) => {
            assert(suffix(b, 1) =~= spec_encode_id(id) + empty);
            lemma_take_id_of_encoded(id, empty);
        },
        RequestsV::FindValue(id) => {
            assert(suffix(b, 1) =~= spec_encode_id(id) + empty);
            lemma_take_id_of_encoded(id, empty);
        },
        RequestsV::PutValue(v) => {
            assert(suffix(b, 1) =~= spec_encode_value(v) + empty);
            lemma_take_value_of_encoded(v, empty);
        },
    }
}

/// Serializes a request and frames it: the `u32` little-endian byte count of
/// the serialized form, then its bytes — ready to be written to a stream in
/// one piece.
pub fn encode_message(r: &Requests) -> (res: Result<Vec<u8>, FramingError>)
    ensures
        match res {
            Ok(v) => request_encodable(r@) && fits_len_prefix(spec_encode_request(r@).len()) && v@
                == spec_len_prefixed(spec_encode_request(r@)),
            Err(e) => (!request_encodable(r@) || !fits_len_prefix(spec_encode_request(r@).len()))
                && e == FramingError::EncodeError,
        },
{
    let body = match encode_request(r) {
        Ok(b) => b,
        Err(e) => {
            return Err(e);
        },
    };
    let mut out: Vec<u8> = Vec::new();
    if !push_block(&mut out, body.as_slice()) {
        return Err(FramingError::EncodeError);
    }
    assert(out@ =~= spec_len_prefixed(spec_encode_request(r@)));
    Ok(out)
}

/// Reads the `u32` length out of a four-byte frame header and holds it to
/// the configured maximum frame size; a larger announcement is refused with
/// a size-limit error before any allocation, to bound memory against a
/// hostile peer.
pub fn decode_frame_header(header: &[u8], limit: usize) -> (r: Result<usize, FramingError>)
    requires
        header@.len() == 4,
    ensures
        match r {
            Ok(n) => n == spec_u32_from_le_bytes(header@) && n <= limit,
            Err(e) => e == FramingError::SizeLimitError && spec_u32_from_le_bytes(header@)
                > limit,
        },
{
    let n = u32_from_le_bytes(header);
    if (n as usize) > limit {
        return Err(FramingError::SizeLimitError);
    }
    Ok(n as usize)
}

/// Decodes one framed request from the front of `b`: takes the length
/// prefix and exactly that many bytes, refuses a frame larger than `limit`
/// with a size-limit error, and returns the request together with the
/// position just past the frame.
pub fn decode_message(b: &[u8], limit: usize) -> (res: Result<(Requests, usize), FramingError>)
    ensures
        match res {
            Ok((r, end)) => spec_take_block(b@) matches Some((body, rest)) && body.len() <= limit
                && spec_decode_request(body) == Some(r@) && rest == suffix(b@, end as int) && end
                <= b@.len(),
            Err(e) => match spec_take_block(b@) {
                Some((body, rest)) => (e == FramingError::SizeLimitError && body.len() > limit) || (
                e == FramingError::DecodeError && body.len() <= limit && spec_decode_request(body)
                    is None),
                None => e == FramingError::DecodeError,
            },
        },
{
    proof {
        assert(b@.subrange(0, b@.len() as int) =~= b@);
    }
    match read_block(b, 0) {
        Some((body, end)) => {
            if body.len() > limit {
                return Err(FramingError::SizeLimitError);
            }
            match decode_request(body.as_slice()) {
                Ok(r) => Ok((r, end)),
                Err(e) => Err(e),
            }
        },
        None => Err(FramingError::DecodeError),
    }
}

/// Relies on `String::from_utf8` of std: it returns the decoded string
/// exactly when the bytes are valid UTF-8, and rejects every other input.
#[verifier::external_body]
fn bytes_to_string(v: Vec<u8>) -> (r: Option<String>)
    ensures
        r is Some <==> valid_utf8(v@),
        r matches Some(s) ==> s@ == decode_utf8(v@),
{
    match String::from_utf8(v) {
        Ok(s) => Some(s),
        Err(_) => None,
    }
}

/// Appends a length-prefixed string to `out`. Refused (and `out` left alone)
/// exactly when the string is too long for a `u32` prefix.
fn push_string(out: &mut Vec<u8>, s: &String) -> (ok: bool)
    ensures
        ok == string_encodable(s@),
        ok ==> final(out)@ == old(out)@ + spec_encode_string(s@),
        !ok ==> final(out)@ == old(out)@,
{
    push_block(out, s.as_str().as_bytes())
}

/// Serializes a request to its compact binary form, or reports an encode
/// error exactly when some field is too long for its length prefix.
pub fn encode_request(r: &Requests) -> (res: Result<Vec<u8>, FramingError>)
    ensures
        match res {
            Ok(v) => request_encodable(r@) && v@ == spec_encode_request(r@),
            Err(e) => !request_encodable(r@) && e == FramingError::EncodeError,
        },
{
    let mut out: Vec<u8> = Vec::new();
    match r {
        Requests::Publish { exchange, routing_key, payload } => {
            out.push(0);
            if !push_string(&mut out, exchange) {
                return Err(FramingError::EncodeError);
            }
            if !push_string(&mut out, routing_key) {
                return Err(FramingError::EncodeError);
            }
            if !push_block(&mut out, payload.as_slice()) {
                return Err(FramingError::EncodeError);
            }
            assert(out@ =~= spec_encode_request(r@));
        },
        Requests::Consume { queue } => {
            out.push(1);
            if !push_string(&mut out, queue) {
                return Err(FramingError::EncodeError);
            }
            assert(out@ =~= spec_encode_request(r@));
        },
        Requests::FindNode(id) => {
            out.push(2);
            if !push_string(&mut out, &id.hash_type) {
                return Err(FramingError::EncodeError);
            }
            if !push_block(&mut out, id.hash.as_slice()) {
                return Err(FramingError::EncodeError);
            }
            assert(out@ =~= spec_encode_request(r@));
        },
        Requests::FindValue(id) => {
            out.push(3);
            if !push_string(&mut out, &id.hash_type) {
                return Err(FramingError::EncodeError);
            }
            if !push_block(&mut out, id.hash.as_slice()) {
                return Err(FramingError::EncodeError);
            }
            assert(out@ =~= spec_encode_request(r@));
        },
        Requests::PutValue(v) => {
            out.push(4);
            if !push_string(&mut out, &v.id.hash_type) {
                return Err(FramingError::EncodeError);
            }
            if !push_block(&mut out, v.id.hash.as_slice()) {
                return Err(FramingError::EncodeError);
            }
            let mut len_bytes = u64_to_le_bytes(v.value_len as u64);
            out.append(&mut len_bytes);
            assert(out@ =~= spec_encode_request(r@));
        },
    }
    Ok(out)
}

/// Serializes a response to its compact binary form, or reports an encode
/// error exactly when some field is too long for its length prefix.
pub fn encode_response(r: &Responses) -> (res: Result<Vec<u8>, FramingError>)
    ensures
        match res {
            Ok(v) => response_encodable(r@) && v@ == spec_encode_response(r@),
            Err(e) => !response_encodable(r@) && e == FramingError::EncodeError,
        },
{
    let mut out: Vec<u8> = Vec::new();
    match r {
        Responses::Location(l) => {
            out.push(0);
            if !push_string(&mut out, &l.address) {
                return Err(FramingError::EncodeError);
            }
            if !push_string(&mut out, &l.id.hash_type) {
                return Err(FramingError::EncodeError);
            }
            if !push_block(&mut out, l.id.hash.as_slice()) {
                return Err(FramingError::EncodeError);
            }
            assert(out@ =~= spec_encode_response(r@));
        },
        Responses::Value(v) => {
            out.push(1);
            if !push_string(&mut out, &v.id.hash_type) {
                return Err(FramingError::EncodeError);
            }
            if !push_block(&mut out, v.id.hash.as_slice()) {
                return Err(FramingError::EncodeError);
            }
            let mut len_bytes = u64_to_le_bytes(v.value_len as u64);
            out.append(&mut len_bytes);
            assert(out@ =~= spec_encode_response(r@));
        },
    }
    Ok(out)
}

/// Reads one length-prefixed string of `b` starting at `pos`.
fn read_string(b: &[u8], pos: usize) -> (r: Option<(String, usize)>)
    requires
        pos <= b@.len(),
    ensures
        match r {
            Some((s, end)) => pos <= end <= b@.len() && spec_take_string(suffix(b@, pos as int))
                == Some((s@, suffix(b@, end as int))),
            None => spec_take_string(suffix(b@, pos as int)) is None,
        },
{
    match read_block(b, pos) {
        Some((field, end)) => match bytes_to_string(field) {
            Some(s) => Some((s, end)),
            None => None,
        },
        None => None,
    }
}

/// Reads a little-endian `u64` of `b` starting at `pos`.
fn read_u64(b: &[u8], pos: usize) -> (r: Option<(u64, usize)>)
    requires
        pos <= b@.len(),
    ensures
        match r {
            Some((x, end)) => pos <= end <= b@.len() && spec_take_u64(suffix(b@, pos as int))
                == Some((x, suffix(b@, end as int))),
            None => spec_take_u64(suffix(b@, pos as int)) is None,
        },
{
    if b.len() - pos < 8 {
        return None;
    }
    let word = slice_subrange(b, pos, pos + 8);
    assert(word@ =~= suffix(b@, pos as int).subrange(0, 8));
    let x = u64_from_le_bytes(word);
    let end = pos + 8;
    assert(suffix(b@, end as int) =~= suffix(b@, pos as int).subrange(
        8,
        suffix(b@, pos as int).len() as int,
    ));
    Some((x, end))
}

/// Reads an identifier of `b` starting at `pos`.
fn read_id(b: &[u8], pos: usize) -> (r: Option<(Id, usize)>)
    requires
        pos <= b@.len(),
    ensures
        match r {
            Some((id, end)) => pos <= end <= b@.len() && spec_take_id(suffix(b@, pos as int))
                == Some((id@, suffix(b@, end as int))),
            None => spec_take_id(suffix(b@, pos as int)) is None,
        },
{
    match read_string(b, pos) {
        Some((hash_type, p1)) => match read_block(b, p1) {
            Some((hash, end)) => Some((Id { hash_type, hash }, end)),
            None => None,
        },
        None => None,
    }
}

/// Reads a value record of `b` starting at `pos`.
fn read_value(b: &[u8], pos: usize) -> (r: Option<(Value, usize)>)
    requires
        pos <= b@.len(),
    ensures
        match r {
            Some((v, end)) => pos <= end <= b@.len() && spec_take_value(suffix(b@, pos as int))
                == Some((v@, suffix(b@, end as int))),
            None => spec_take_value(suffix(b@, pos as int)) is None,
        },
{
    match read_id(b, pos) {
        Some((id, p1)) => match read_u64(b, p1) {
            Some((n, end)) => {
                if n <= usize::MAX as u64 {
                    Some((Value { id, value_len: n as usize }, end))
                } else {
                    None
                }
            },
            None => None,
        },
        None => None,
    }
}

/// Reads a location of `b` starting at `pos`.
fn read_location(b: &[u8], pos: usize) -> (r: Option<(Location, usize)>)
    requires
        pos <= b@.len(),
    ensures
        match r {
            Some((l, end)) => pos <= end <= b@.len() && spec_take_location(suffix(b@, pos as int))
                == Some((l@, suffix(b@, end as int))),
            None => spec_take_location(suffix(b@, pos as int)) is None,
        },
{
    match read_string(b, pos) {
        Some((address, p1)) => match read_id(b, p1) {
            Some((id, end)) => Some((Location { address, id }, end)),
            None => None,
        },
        None => None,
    }
}

/// Decodes a request from exactly the whole of `b`: malformed bytes, an
/// unknown variant tag, or bytes left over are rejected with a decode error.
pub fn decode_request(b: &[u8]) -> (res: Result<Requests, FramingError>)
    ensures
        match res {
            Ok(r) => spec_decode_request(b@) == Some(r@),
            Err(e) => spec_decode_request(b@) is None && e == FramingError::DecodeError,
        },
{
    if b.len() < 1 {
        return Err(FramingError::DecodeError);
    }
    let tag = *slice_index_get(b, 0);
    if tag == 0 {
        match read_string(b, 1) {
            Some((exchange, p1)) => match read_string(b, p1) {
                Some((routing_key, p2)) => match read_block(b, p2) {
                    Some((payload, p3)) => {
                        if p3 == b.len() {
                            Ok(Requests::Publish { exchange, routing_key, payload })
                        } else {
                            Err(FramingError::DecodeError)
                        }
                    },
                    None => Err(FramingError::DecodeError),
                },
                None => Err(FramingError::DecodeError),
            },
            None => Err(FramingError::DecodeError),
        }
    } else if tag == 1 {
        match read_string(b, 1) {
            Some((queue, p1)) => {
                if p1 == b.len() {
                    Ok(Requests::Consume { queue })
                } else {
                    Err(FramingError::DecodeError)
                }
            },
            None => Err(FramingError::DecodeError),
        }
    } else if tag == 2 {
        match read_id(b, 1) {
            Some((id, p1)) => {
                if p1 == b.len() {
                    Ok(Requests::FindNode(id))
                } else {
                    Err(FramingError::DecodeError)
                }
            },
            None => Err(FramingError::DecodeError),
        }
    } else if tag == 3 {
        match read_id(b, 1) {
            Some((id, p1)) => {
                if p1 == b.len() {
                    Ok(Requests::FindValue(id))
                } else {
                    Err(FramingError::DecodeError)
                }
            },
            None => Err(FramingError::DecodeError),
        }
    } else if tag == 4 {
        match read_value(b, 1) {
            Some((v, p1)) => {
                if p1 == b.len() {
                    Ok(Requests::PutValue(v))
                } else {
                    Err(FramingError::DecodeError)
                }
            },
            None => Err(FramingError::DecodeError),
        }
    } else {
        Err(FramingError::DecodeError)
    }
}

/// Decodes a response from exactly the whole of `b`.
pub fn decode_response(b: &[u8]) -> (res: Result<Responses, FramingError>)
    ensures
        match res {
            Ok(r) => spec_decode_response(b@) == Some(r@),
            Err(e) => spec_decode_response(b@) is None && e == FramingError::DecodeError,
        },
{
    if b.len() < 1 {
        return Err(FramingError::DecodeError);
    }
    let tag = *slice_index_get(b, 0);
    if tag == 0 {
        match read_location(b, 1) {
            Some((l, p1)) => {
                if p1 == b.len() {
                    Ok(Responses::Location(l))
                } else {
                    Err(FramingError::DecodeError)
                }
            },
            None => Err(FramingError::DecodeError),
        }
    } else if tag == 1 {
        match read_value(b, 1) {
            Some((v, p1)) => {
                if p1 == b.len() {
                    Ok(Responses::Value(v))
                } else {
                    Err(FramingError::DecodeError)
                }
            },
            None => Err(FramingError::DecodeError),
        }
    } else {
        Err(FramingError::DecodeError)
    }
}

/// Round trip: decoding an encoded response gives back the value it encodes.
pub proof fn lemma_response_round_trip(r: ResponsesV)
    requires
        response_encodable(r),
    ensures
        spec_decode_response(spec_encode_response(r)) == Some(r),
{
    let b = spec_encode_response(r);
    let empty = Seq::<u8>::empty();
    match r {
        ResponsesV::Location(l) => {
            assert(suffix(b, 1) =~= spec_encode_location(l) + empty);
            lemma_take_location_of_encoded(l, empty);
        },
        ResponsesV::Value(v) => {
            assert(suffix(b, 1) =~= spec_encode_value(v) + empty);
            lemma_take_value_of_encoded(v, empty);
        },
    }
}

} // verus!
