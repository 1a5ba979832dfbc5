//! The wire codec: signed application messages to and from binary frames.
//!
//! A frame is a fixed run of tagged fields, every field present, in tag
//! order.  Each message value has exactly one frame and each frame at most one
//! message: decoding inverts encoding, any input that is not the frame of a
//! message is rejected as `Malformed`, and a frame larger than
//! `MAX_FRAME_BYTES` is rejected as `TooLarge` before it is looked at, so a
//! malicious peer cannot make the node hold more than that.

use vstd::prelude::*;
use crate::fields::{bytes_field, uint_field, parse_bytes_field, parse_uint_field,
    lemma_parse_bytes_field_complete, lemma_parse_bytes_field_sound,
    lemma_parse_uint_field_complete, lemma_parse_uint_field_sound,
    lemma_parse_bytes_field_local, lemma_parse_uint_field_local, lemma_subrange_again,
    write_bytes_field, write_uint_field, read_bytes_field, read_uint_field};
use crate::messages::{SignedReaction, ReactionView, SignedAck, AckView, SignedPost, PostView};

verus! {

/// Largest frame the codec will decode.  Bounds what an untrusted peer can
/// make the node buffer.
pub const MAX_FRAME_BYTES: usize = 1048576;

/// Why a frame was rejected.
#[derive(Debug, Clone, Copy, PartialEq, Eq, Structural)]
pub enum DecodeError {
    /// The input is not the encoding of any message.
    Malformed,
    /// The input is longer than `MAX_FRAME_BYTES`.
    TooLarge,
}

/// Field keys of the reaction frame: three bytes fields around one integer
/// field, in tag order.
pub open spec fn reaction_bytes(v: ReactionView) -> Seq<u8> {
    bytes_field(0x0A, v.content_ref) + uint_field(0x10, v.kind as u64) + bytes_field(
        0x1A,
        v.signer_id,
    ) + bytes_field(0x22, v.signature)
}

/// The common three-bytes-field frame, used by acknowledgements and posts.
pub open spec fn frame3(a: Seq<u8>, b: Seq<u8>, c: Seq<u8>) -> Seq<u8> {
    bytes_field(0x0A, a) + bytes_field(0x12, b) + bytes_field(0x1A, c)
}

/// Frame of an acknowledgement.
pub open spec fn ack_bytes(v: AckView) -> Seq<u8> {
    frame3(v.content_ref, v.signer_id, v.signature)
}

/// Frame of a post.
pub open spec fn post_bytes(v: PostView) -> Seq<u8> {
    frame3(v.content, v.author_id, v.signature)
}

/// Parse the fields of a reaction frame from the start of `s`: the message
/// and the offset just past the last field.
pub open spec fn parse_reaction_at(s: Seq<u8>) -> Option<(ReactionView, int)> {
    match parse_bytes_field(s, 0, 0x0A) {
        None => None,
        Some((content_ref, i1)) => match parse_uint_field(s, i1, 0x10) {
            None => None,
            Some((kind, i2)) => if kind > u32::MAX as u64 {
                None
            } else {
                match parse_bytes_field(s, i2, 0x1A) {
                    None => None,
                    Some((signer_id, i3)) => match parse_bytes_field(s, i3, 0x22) {
                        None => None,
                        Some((signature, i4)) => Some(
                            (
                                ReactionView {
                                    content_ref,
                                    kind: kind as u32,
                                    signer_id,
                                    signature,
                                },
                                i4,
                            ),
                        ),
                    },
                }
            },
        },
    }
}

/// The reaction message encoded by `s`, if `s` is exactly one reaction frame.
pub open spec fn parse_reaction(s: Seq<u8>) -> Option<ReactionView> {
    match parse_reaction_at(s) {
        None => None,
        Some((v, i)) => if i == s.len() {
            Some(v)
        } else {
            None
        },
    }
}

/// Parse the fields of a three-bytes-field frame from the start of `s`.
pub open spec fn parse_frame3_at(s: Seq<u8>) -> Option<((Seq<u8>, Seq<u8>, Seq<u8>), int)> {
    match parse_bytes_field(s, 0, 0x0A) {
        None => None,
        Some((a, i1)) => match parse_bytes_field(s, i1, 0x12) {
            None => None,
            Some((b, i2)) => match parse_bytes_field(s, i2, 0x1A) {
                None => None,
                Some((c, i3)) => Some(((a, b, c), i3)),
            },
        },
    }
}

/// The three fields encoded by `s`, if `s` is exactly one such frame.
pub open spec fn parse_frame3(s: Seq<u8>) -> Option<(Seq<u8>, Seq<u8>, Seq<u8>)> {
    match parse_frame3_at(s) {
        None => None,
        Some((t, i)) => if i == s.len() {
            Some(t)
        } else {
            None
        },
    }
}

/// The acknowledgement encoded by `s`, if any.
pub open spec fn parse_ack(s: Seq<u8>) -> Option<AckView> {
    match parse_frame3(s) {
        None => None,
        Some((content_ref, signer_id, signature)) => Some(
            AckView { content_ref, signer_id, signature },
        ),
    }
}

/// The post encoded by `s`, if any.
pub open spec fn parse_post(s: Seq<u8>) -> Option<PostView> {
    match parse_frame3(s) {
        None => None,
        Some((content, author_id, signature)) => Some(PostView { content, author_id, signature }),
    }
}

/// A message view whose byte fields could come from in-memory vectors.
pub open spec fn reaction_fits(v: ReactionView) -> bool {
    v.content_ref.len() <= u64::MAX && v.signer_id.len() <= u64::MAX && v.signature.len()
        <= u64::MAX
}

/// As `reaction_fits`, for the three-bytes-field frames.
pub open spec fn fields3_fit(a: Seq<u8>, b: Seq<u8>, c: Seq<u8>) -> bool {
    a.len() <= u64::MAX && b.len() <= u64::MAX && c.len() <= u64::MAX
}

/// Decoding inverts encoding: the frame of a reaction parses back to that
/// reaction, with nothing left over.
pub proof fn lemma_reaction_round_trip(v: ReactionView)
    requires
        reaction_fits(v),
    ensures
        parse_reaction_at(reaction_bytes(v)) == Some((v, reaction_bytes(v).len() as int)),
        parse_reaction(reaction_bytes(v)) == Some(v),
{
    let s = reaction_bytes(v);
    let f1 = bytes_field(0x0A, v.content_ref);
    let f2 = uint_field(0x10, v.kind as u64);
    let f3 = bytes_field(0x1A, v.signer_id);
    let f4 = bytes_field(0x22, v.signature);
    let i1 = f1.len() as int;
    let i2 = i1 + f2.len() as int;
    let i3 = i2 + f3.len() as int;
    let i4 = i3 + f4.len() as int;
    assert(s.subrange(0, i1) =~= f1);
    assert(s.subrange(i1, i2) =~= f2);
    assert(s.subrange(i2, i3) =~= f3);
    assert(s.subrange(i3, i4) =~= f4);
    lemma_parse_bytes_field_complete(0x0A, v.content_ref, s, 0);
    lemma_parse_uint_field_complete(0x10, v.kind as u64, s, i1);
    lemma_parse_bytes_field_complete(0x1A, v.signer_id, s, i2);
    lemma_parse_bytes_field_complete(0x22, v.signature, s, i3);
}

/// A frame that parses as a reaction is the frame of that reaction: the codec
/// accepts nothing an encoder could not have produced.
pub proof fn lemma_parse_reaction_sound(s: Seq<u8>)
    requires
        parse_reaction(s) is Some,
    ensures
        ({
            let v = parse_reaction(s)->Some_0;
            &&& reaction_fits(v)
            &&& s == reaction_bytes(v)
        }),
{
    let v = parse_reaction(s)->Some_0;
    let (content_ref, i1) = parse_bytes_field(s, 0, 0x0A)->Some_0;
    let (kind, i2) = parse_uint_field(s, i1, 0x10)->Some_0;
    let (signer_id, i3) = parse_bytes_field(s, i2, 0x1A)->Some_0;
    let (signature, i4) = parse_bytes_field(s, i3, 0x22)->Some_0;
    lemma_parse_bytes_field_sound(s, 0, 0x0A);
    lemma_parse_uint_field_sound(s, i1, 0x10);
    lemma_parse_bytes_field_sound(s, i2, 0x1A);
    lemma_parse_bytes_field_sound(s, i3, 0x22);
    assert(s =~= s.subrange(0, i1) + s.subrange(i1, i2) + s.subrange(i2, i3) + s.subrange(i3, i4));
}

/// No proper prefix of a reaction frame parses: truncation is always caught.
pub proof fn lemma_reaction_truncated(v: ReactionView, k: int)
    requires
        reaction_fits(v),
        0 <= k < reaction_bytes(v).len(),
    ensures
        parse_reaction(reaction_bytes(v).subrange(0, k)) is None,
{
    let s = reaction_bytes(v);
    let t = s.subrange(0, k);
    if parse_reaction(t) is Some {
        let (content_ref, i1) = parse_bytes_field(t, 0, 0x0A)->Some_0;
        let (kind, i2) = parse_uint_field(t, i1, 0x10)->Some_0;
        let (signer_id, i3) = parse_bytes_field(t, i2, 0x1A)->Some_0;
        lemma_parse_bytes_field_sound(t, 0, 0x0A);
        lemma_parse_uint_field_sound(t, i1, 0x10);
        lemma_parse_bytes_field_sound(t, i2, 0x1A);
        lemma_parse_bytes_field_sound(t, i3, 0x22);
        lemma_parse_bytes_field_local(s, t, 0, 0x0A);
        lemma_parse_uint_field_local(s, t, i1, 0x10);
        lemma_parse_bytes_field_local(s, t, i2, 0x1A);
        lemma_parse_bytes_field_local(s, t, i3, 0x22);
        lemma_reaction_round_trip(v);
        assert(parse_reaction_at(s)->Some_0.1 == k);
        assert(false);
    }
}

/// Decoding inverts encoding for the three-bytes-field frames.
pub proof fn lemma_frame3_round_trip(a: Seq<u8>, b: Seq<u8>, c: Seq<u8>)
    requires
        fields3_fit(a, b, c),
    ensures
        parse_frame3_at(frame3(a, b, c)) == Some(((a, b, c), frame3(a, b, c).len() as int)),
        parse_frame3(frame3(a, b, c)) == Some((a, b, c)),
{
    let s = frame3(a, b, c);
    let f1 = bytes_field(0x0A, a);
    let f2 = bytes_field(0x12, b);
    let f3 = bytes_field(0x1A, c);
    let i1 = f1.len() as int;
    let i2 = i1 + f2.len() as int;
    let i3 = i2 + f3.len() as int;
    assert(s.subrange(0, i1) =~= f1);
    assert(s.subrange(i1, i2) =~= f2);
    assert(s.subrange(i2, i3) =~= f3);
    lemma_parse_bytes_field_complete(0x0A, a, s, 0);
    lemma_parse_bytes_field_complete(0x12, b, s, i1);
    lemma_parse_bytes_field_complete(0x1A, c, s, i2);
}

/// A frame that parses as three fields is the frame of those fields.
pub proof fn lemma_parse_frame3_sound(s: Seq<u8>)
    requires
        parse_frame3(s) is Some,
    ensures
        ({
            let (a, b, c) = parse_frame3(s)->Some_0;
            &&& fields3_fit(a, b, c)
            &&& s == frame3(a, b, c)
        }),
{
    let (a, i1) = parse_bytes_field(s, 0, 0x0A)->Some_0;
    let (b, i2) = parse_bytes_field(s, i1, 0x12)->Some_0;
    let (c, i3) = parse_bytes_field(s, i2, 0x1A)->Some_0;
    lemma_parse_bytes_field_sound(s, 0, 0x0A);
    lemma_parse_bytes_field_sound(s, i1, 0x12);
    lemma_parse_bytes_field_sound(s, i2, 0x1A);
    assert(s =~= s.subrange(0, i1) + s.subrange(i1, i2) + s.subrange(i2, i3));
}

/// No proper prefix of a three-bytes-field frame parses.
pub proof fn lemma_frame3_truncated(a: Seq<u8>, b: Seq<u8>, c: Seq<u8>, k: int)
    requires
        fields3_fit(a, b, c),
        0 <= k < frame3(a, b, c).len(),
    ensures
        parse_frame3(frame3(a, b, c).subrange(0, k)) is None,
{
    let s = frame3(a, b, c);
    let t = s.subrange(0, k);
    if parse_frame3(t) is Some {
        let (x, i1) = parse_bytes_field(t, 0, 0x0A)->Some_0;
        let (y, i2) = parse_bytes_field(t, i1, 0x12)->Some_0;
        lemma_parse_bytes_field_sound(t, 0, 0x0A);
        lemma_parse_bytes_field_sound(t, i1, 0x12);
        lemma_parse_bytes_field_sound(t, i2, 0x1A);
        lemma_parse_bytes_field_local(s, t, 0, 0x0A);
        lemma_parse_bytes_field_local(s, t, i1, 0x12);
        lemma_parse_bytes_field_local(s, t, i2, 0x1A);
        lemma_frame3_round_trip(a, b, c);
        assert(parse_frame3_at(s)->Some_0.1 == k);
        assert(false);
    }
}

/// Decoding inverts encoding for acknowledgements.
pub proof fn lemma_ack_round_trip(v: AckView)
    requires
        fields3_fit(v.content_ref, v.signer_id, v.signature),
    ensures
        parse_ack(ack_bytes(v)) == Some(v),
{
    lemma_frame3_round_trip(v.content_ref, v.signer_id, v.signature);
}

/// No proper prefix of an acknowledgement frame parses.
pub proof fn lemma_ack_truncated(v: AckView, k: int)
    requires
        fields3_fit(v.content_ref, v.signer_id, v.signature),
        0 <= k < ack_bytes(v).len(),
    ensures
        parse_ack(ack_bytes(v).subrange(0, k)) is None,
{
    lemma_frame3_truncated(v.content_ref, v.signer_id, v.signature, k);
}

/// Decoding inverts encoding for posts.
pub proof fn lemma_post_round_trip(v: PostView)
    requires
        fields3_fit(v.content, v.author_id, v.signature),
    ensures
        parse_post(post_bytes(v)) == Some(v),
{
    lemma_frame3_round_trip(v.content, v.author_id, v.signature);
}

/// No proper prefix of a post frame parses.
pub proof fn lemma_post_truncated(v: PostView, k: int)
    requires
        fields3_fit(v.content, v.author_id, v.signature),
        0 <= k < post_bytes(v).len(),
    ensures
        parse_post(post_bytes(v).subrange(0, k)) is None,
{
    lemma_frame3_truncated(v.content, v.author_id, v.signature, k);
}

/// Encode a reaction; never fails for an in-memory message.
pub fn encode_reaction(m: &SignedReaction) -> (out: Vec<u8>)
    ensures
        out@ == reaction_bytes(m@),
{
    let mut out: Vec<u8> = Vec::new();
    write_bytes_field(&mut out, 0x0A, &m.content_ref);
    write_uint_field(&mut out, 0x10, m.kind as u64);
    write_bytes_field(&mut out, 0x1A, &m.signer_id);
    write_bytes_field(&mut out, 0x22, &m.signature);
    assert(out@ =~= reaction_bytes(m@));
    out
}

/// Encode a three-bytes-field frame.
fn encode_frame3(a: &Vec<u8>, b: &Vec<u8>, c: &Vec<u8>) -> (out: Vec<u8>)
    ensures
        out@ == frame3(a@, b@, c@),
{
    let mut out: Vec<u8> = Vec::new();
    write_bytes_field(&mut out, 0x0A, a);
    write_bytes_field(&mut out, 0x12, b);
    write_bytes_field(&mut out, 0x1A, c);
    assert(out@ =~= frame3(a@, b@, c@));
    out
}

/// Encode an acknowledgement; never fails for an in-memory message.
pub fn encode_ack(m: &SignedAck) -> (out: Vec<u8>)
    ensures
        out@ == ack_bytes(m@),
{
    encode_frame3(&m.content_ref, &m.signer_id, &m.signature)
}

/// Encode a post; never fails for an in-memory message.
pub fn encode_post(m: &SignedPost) -> (out: Vec<u8>)
    ensures
        out@ == post_bytes(m@),
{
    encode_frame3(&m.content, &m.author_id, &m.signature)
}

/// Decode a reaction frame.  Returns the one message `s` encodes, `TooLarge`
/// past the frame bound, `Malformed` on everything else; never faults.
pub fn decode_reaction(s: &Vec<u8>) -> (r: Result<SignedReaction, DecodeError>)
    ensures
        match r {
            Ok(m) => s@.len() <= MAX_FRAME_BYTES && parse_reaction(s@) == Some(m@),
            Err(DecodeError::TooLarge) => s@.len() > MAX_FRAME_BYTES,
            Err(DecodeError::Malformed) => s@.len() <= MAX_FRAME_BYTES && parse_reaction(s@)
                is None,
        },
{
    if s.len() > MAX_FRAME_BYTES {
        return Err(DecodeError::TooLarge);
    }
    let r1 = read_bytes_field(s, 0, 0x0A);
    match r1 {
        None => Err(DecodeError::Malformed),
        Some((content_ref, i1)) => {
            let r2 = read_uint_field(s, i1, 0x10);
            match r2 {
                None => Err(DecodeError::Malformed),
                Some((kind, i2)) => {
                    if kind > u32::MAX as u64 {
                        return Err(DecodeError::Malformed);
                    }
                    let r3 = read_bytes_field(s, i2, 0x1A);
                    match r3 {
                        None => Err(DecodeError::Malformed),
                        Some((signer_id, i3)) => {
                            let r4 = read_bytes_field(s, i3, 0x22);
                            match r4 {
                                None => Err(DecodeError::Malformed),
                                Some((signature, i4)) => {
                                    if i4 == s.len() {
                                        Ok(
                                            SignedReaction {
                                                content_ref,
                                                kind: kind as u32,
                                                signer_id,
                                                signature,
                                            },
                                        )
                                    } else {
                                        Err(DecodeError::Malformed)
                                    }
                                },
                            }
                        },
                    }
                },
            }
        },
    }
}

/// Decode a three-bytes-field frame, mirroring `parse_frame3`.
fn decode_frame3(s: &Vec<u8>) -> (r: Result<(Vec<u8>, Vec<u8>, Vec<u8>), DecodeError>)
    ensures
        match r {
            Ok((a, b, c)) => s@.len() <= MAX_FRAME_BYTES && parse_frame3(s@) == Some(
                (a@, b@, c@),
            ),
            Err(DecodeError::TooLarge) => s@.len() > MAX_FRAME_BYTES,
            Err(DecodeError::Malformed) => s@.len() <= MAX_FRAME_BYTES && parse_frame3(s@) is None,
        },
{
    if s.len() > MAX_FRAME_BYTES {
        return Err(DecodeError::TooLarge);
    }
    let r1 = read_bytes_field(s, 0, 0x0A);
    match r1 {
        None => Err(DecodeError::Malformed),
        Some((a, i1)) => {
            let r2 = read_bytes_field(s, i1, 0x12);
            match r2 {
                None => Err(DecodeError::Malformed),
                Some((b, i2)) => {
                    let r3 = read_bytes_field(s, i2, 0x1A);
                    match r3 {
                        None => Err(DecodeError::Malformed),
                        Some((c, i3)) => {
                            if i3 == s.len() {
                                Ok((a, b, c))
                            } else {
                                Err(DecodeError::Malformed)
                            }
                        },
                    }
                },
            }
        },
    }
}

/// Decode an acknowledgement frame; the same guarantees as `decode_reaction`.
pub fn decode_ack(s: &Vec<u8>) -> (r: Result<SignedAck, DecodeError>)
    ensures
        match r {
            Ok(m) => s@.len() <= MAX_FRAME_BYTES && parse_ack(s@) == Some(m@),
            Err(DecodeError::TooLarge) => s@.len() > MAX_FRAME_BYTES,
            Err(DecodeError::Malformed) => s@.len() <= MAX_FRAME_BYTES && parse_ack(s@) is None,
        },
{
    match decode_frame3(s) {
        Ok((content_ref, signer_id, signature)) => Ok(
            SignedAck { content_ref, signer_id, signature },
        ),
        Err(e) => Err(e),
    }
}

/// Decode a post frame; the same guarantees as `decode_reaction`.
pub fn decode_post(s: &Vec<u8>) -> (r: Result<SignedPost, DecodeError>)
    ensures
        match r {
            Ok(m) => s@.len() <= MAX_FRAME_BYTES && parse_post(s@) == Some(m@),
            Err(DecodeError::TooLarge) => s@.len() > MAX_FRAME_BYTES,
            Err(DecodeError::Malformed) => s@.len() <= MAX_FRAME_BYTES && parse_post(s@) is None,
        },
{
    match decode_frame3(s) {
        Ok((content, author_id, signature)) => Ok(SignedPost { content, author_id, signature }),
        Err(e) => Err(e),
    }
}

/// The point-to-point reaction protocol: its name on the wire.
#[derive(Clone)]
pub struct ReactionProtocol;

impl ReactionProtocol {
    /// The protocol identifier announced to peers.
    pub fn protocol_name(&self) -> (r: &'static str)
        ensures
            r@ == "/mycelium/reaction/1.0.0"@,
    {
        "/mycelium/reaction/1.0.0"
    }
}

/// The codec of the reaction protocol: requests are reaction frames,
/// responses are acknowledgement frames.
#[derive(Clone)]
pub struct ReactionCodec;

impl ReactionCodec {
    /// Encode an outbound request.
    pub fn write_request(&self, m: &SignedReaction) -> (out: Vec<u8>)
        ensures
            out@ == reaction_bytes(m@),
    {
        encode_reaction(m)
    }

    /// Decode an inbound request from an untrusted peer.
    pub fn read_request(&self, s: &Vec<u8>) -> (r: Result<SignedReaction, DecodeError>)
        ensures
            match r {
                Ok(m) => s@.len() <= MAX_FRAME_BYTES && parse_reaction(s@) == Some(m@),
                Err(DecodeError::TooLarge) => s@.len() > MAX_FRAME_BYTES,
                Err(DecodeError::Malformed) => s@.len() <= MAX_FRAME_BYTES && parse_reaction(s@)
                    is None,
            },
    {
        decode_reaction(s)
    }

    /// Encode an outbound response.
    pub fn write_response(&self, m: &SignedAck) -> (out: Vec<u8>)
        ensures
            out@ == ack_bytes(m@),
    {
        encode_ack(m)
    }

    /// Decode an inbound response from an untrusted peer.
    pub fn read_response(&self, s: &Vec<u8>) -> (r: Result<SignedAck, DecodeError>)
        ensures
            match r {
                Ok(m) => s@.len() <= MAX_FRAME_BYTES && parse_ack(s@) == Some(m@),
                Err(DecodeError::TooLarge) => s@.len() > MAX_FRAME_BYTES,
                Err(DecodeError::Malformed) => s@.len() <= MAX_FRAME_BYTES && parse_ack(s@)
                    is None,
            },
    {
        decode_ack(s)
    }
}

} // verus!
