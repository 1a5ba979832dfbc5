//! The wire codec, exercised on concrete frames: exact encodings, round
//! trips, and rejection of everything that is not a frame.

use mycelium::codec::{
    decode_ack, decode_post, decode_reaction, encode_ack, encode_post, encode_reaction,
    DecodeError, ReactionCodec, ReactionProtocol, MAX_FRAME_BYTES,
};
use mycelium::messages::{make_ack, SignedAck, SignedPost, SignedReaction};

fn sample_reaction() -> SignedReaction {
    SignedReaction {
        content_ref: vec![1, 2, 3],
        kind: 7,
        signer_id: vec![9, 9],
        signature: vec![4, 5, 6, 7],
    }
}

#[test]
fn reaction_exact_bytes() {
    let m = SignedReaction {
        content_ref: vec![7],
        kind: 1,
        signer_id: vec![8],
        signature: vec![9],
    };
    let bytes = encode_reaction(&m);
    assert_eq!(bytes, vec![0x0A, 1, 7, 0x10, 1, 0x1A, 1, 8, 0x22, 1, 9]);
}

#[test]
fn reaction_exact_bytes_empty_fields() {
    let m = SignedReaction {
        content_ref: vec![],
        kind: 0,
        signer_id: vec![],
        signature: vec![],
    };
    let bytes = encode_reaction(&m);
    assert_eq!(bytes, vec![0x0A, 0, 0x10, 0, 0x1A, 0, 0x22, 0]);
    assert_eq!(decode_reaction(&bytes), Ok(m));
}

#[test]
fn varint_boundary_127_is_one_byte() {
    let m = SignedReaction {
        content_ref: vec![],
        kind: 127,
        signer_id: vec![],
        signature: vec![],
    };
    let bytes = encode_reaction(&m);
    assert_eq!(bytes, vec![0x0A, 0, 0x10, 127, 0x1A, 0, 0x22, 0]);
}

#[test]
fn varint_boundary_128_is_two_bytes() {
    let m = SignedReaction {
        content_ref: vec![],
        kind: 128,
        signer_id: vec![],
        signature: vec![],
    };
    let bytes = encode_reaction(&m);
    assert_eq!(bytes, vec![0x0A, 0, 0x10, 0x80, 0x01, 0x1A, 0, 0x22, 0]);
    assert_eq!(decode_reaction(&bytes), Ok(m));
}

#[test]
fn reaction_round_trip() {
    let m = sample_reaction();
    let bytes = encode_reaction(&m);
    assert_eq!(decode_reaction(&bytes), Ok(m));
}

#[test]
fn ack_round_trip() {
    let m = SignedAck {
        content_ref: vec![1, 2, 3],
        signer_id: vec![4],
        signature: vec![5, 6],
    };
    let bytes = encode_ack(&m);
    assert_eq!(decode_ack(&bytes), Ok(m));
}

#[test]
fn post_round_trip() {
    let m = SignedPost {
        content: b"hello".to_vec(),
        author_id: vec![11, 12],
        signature: vec![13],
    };
    let bytes = encode_post(&m);
    assert_eq!(decode_post(&bytes), Ok(m));
}

#[test]
fn codec_methods_round_trip() {
    let codec = ReactionCodec;
    let m = sample_reaction();
    let bytes = codec.write_request(&m);
    assert_eq!(codec.read_request(&bytes), Ok(m));
    let a = SignedAck {
        content_ref: vec![1],
        signer_id: vec![2],
        signature: vec![3],
    };
    let bytes = codec.write_response(&a);
    assert_eq!(codec.read_response(&bytes), Ok(a));
}

#[test]
fn protocol_name_is_fixed() {
    assert_eq!(ReactionProtocol.protocol_name(), "/mycelium/reaction/1.0.0");
}

#[test]
fn empty_input_is_malformed_not_empty_message() {
    assert_eq!(decode_reaction(&vec![]), Err(DecodeError::Malformed));
    assert_eq!(decode_ack(&vec![]), Err(DecodeError::Malformed));
    assert_eq!(decode_post(&vec![]), Err(DecodeError::Malformed));
}

#[test]
fn every_truncation_is_malformed() {
    let m = sample_reaction();
    let bytes = encode_reaction(&m);
    for k in 0..bytes.len() {
        let prefix = bytes[..k].to_vec();
        assert_eq!(decode_reaction(&prefix), Err(DecodeError::Malformed));
    }
    let a = SignedAck {
        content_ref: vec![1, 2],
        signer_id: vec![3],
        signature: vec![4, 5],
    };
    let bytes = encode_ack(&a);
    for k in 0..bytes.len() {
        let prefix = bytes[..k].to_vec();
        assert_eq!(decode_ack(&prefix), Err(DecodeError::Malformed));
    }
}

#[test]
fn trailing_garbage_is_malformed() {
    let mut bytes = encode_reaction(&sample_reaction());
    bytes.push(0);
    assert_eq!(decode_reaction(&bytes), Err(DecodeError::Malformed));
}

#[test]
fn non_minimal_varint_is_malformed() {
    // kind 1 written in two varint bytes instead of one
    let bytes = vec![0x0A, 0, 0x10, 0x81, 0x00, 0x1A, 0, 0x22, 0];
    assert_eq!(decode_reaction(&bytes), Err(DecodeError::Malformed));
}

#[test]
fn kind_above_u32_is_malformed() {
    // kind 2^32 == 0x1_0000_0000 as a varint: five bytes
    let bytes = vec![0x0A, 0, 0x10, 0x80, 0x80, 0x80, 0x80, 0x10, 0x1A, 0, 0x22, 0];
    assert_eq!(decode_reaction(&bytes), Err(DecodeError::Malformed));
}

#[test]
fn fields_out_of_order_are_malformed() {
    // signer field before content field
    let bytes = vec![0x1A, 0, 0x0A, 0, 0x10, 0, 0x22, 0];
    assert_eq!(decode_reaction(&bytes), Err(DecodeError::Malformed));
}

#[test]
fn length_past_end_is_malformed() {
    let bytes = vec![0x0A, 5, 1, 2];
    assert_eq!(decode_reaction(&bytes), Err(DecodeError::Malformed));
}

#[test]
fn oversized_frame_is_too_large() {
    let bytes = vec![0u8; MAX_FRAME_BYTES + 1];
    assert_eq!(decode_reaction(&bytes), Err(DecodeError::TooLarge));
    assert_eq!(decode_ack(&bytes), Err(DecodeError::TooLarge));
    assert_eq!(decode_post(&bytes), Err(DecodeError::TooLarge));
}

#[test]
fn fuzzed_inputs_never_decode_and_never_fault() {
    // A fixed linear congruential generator: the run is deterministic.
    let mut state: u64 = 0x2545F4914F6CDD1D;
    let mut next = move || {
        state = state.wrapping_mul(6364136223846793005).wrapping_add(1442695040888963407);
        (state >> 33) as u8
    };
    let mut rejected = 0;
    for round in 0..150 {
        let len = (round % 37) + 1;
        let mut bytes = Vec::new();
        for _ in 0..len {
            bytes.push(next());
        }
        let r = decode_reaction(&bytes);
        assert!(r.is_err(), "random bytes decoded: {:?}", bytes);
        rejected += 1;
    }
    assert_eq!(rejected, 150);
}

#[test]
fn mutated_structure_is_malformed() {
    let bytes = encode_reaction(&sample_reaction());
    // Corrupt each structural byte (the field keys) in turn.
    for k in 0..bytes.len() {
        if bytes[k] == 0x0A || bytes[k] == 0x10 || bytes[k] == 0x1A || bytes[k] == 0x22 {
            let mut mutated = bytes.clone();
            mutated[k] = 0x7F;
            assert_eq!(decode_reaction(&mutated), Err(DecodeError::Malformed));
        }
    }
}

#[test]
fn fuzzed_inputs_never_decode_as_ack_or_post() {
    let mut state: u64 = 0x9E3779B97F4A7C15;
    let mut next = move || {
        state = state.wrapping_mul(6364136223846793005).wrapping_add(1442695040888963407);
        (state >> 33) as u8
    };
    for round in 0..120 {
        let len = (round % 29) + 1;
        let mut bytes = Vec::new();
        for _ in 0..len {
            bytes.push(next());
        }
        assert!(decode_ack(&bytes).is_err(), "random bytes decoded: {:?}", bytes);
        assert!(decode_post(&bytes).is_err(), "random bytes decoded: {:?}", bytes);
    }
}

#[test]
fn post_truncations_are_malformed() {
    let m = SignedPost {
        content: b"hello".to_vec(),
        author_id: vec![1, 2],
        signature: vec![3],
    };
    let bytes = encode_post(&m);
    for k in 0..bytes.len() {
        let prefix = bytes[..k].to_vec();
        assert_eq!(decode_post(&prefix), Err(DecodeError::Malformed));
    }
}

#[test]
fn make_ack_correlates_with_reaction() {
    let m = sample_reaction();
    let ack = make_ack(&m, vec![42], vec![43, 44]);
    assert_eq!(ack.content_ref, m.content_ref);
    assert_eq!(ack.signer_id, vec![42]);
    assert_eq!(ack.signature, vec![43, 44]);
}
