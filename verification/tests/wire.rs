use cosignerd::ledger::OutpointLedger;
use cosignerd::message::decode_request;
use cosignerd::message::encode_request;
use cosignerd::message::encode_response;
use cosignerd::message::handle_message;
use cosignerd::message::DecodeError;
use cosignerd::outpoint::Outpoint;
use cosignerd::processing::SignRequest;
use cosignerd::processing::SignResponse;
use cosignerd::sign::Signature;
use cosignerd::sign::SigningKey;

#[test]
fn request_round_trip() {
    let ops = vec![
        Outpoint {
            txid: [0xab; 32],
            vout: 0,
        },
        Outpoint {
            txid: [0x01; 32],
            vout: 0xdead_beef,
        },
    ];
    let req = SignRequest {
        outpoints: ops.clone(),
    };
    let bytes = encode_request(&req);
    assert_eq!(bytes.len(), 72);
    let back = decode_request(&bytes).expect("an encoded request decodes");
    assert_eq!(back.outpoints, ops);
}

#[test]
fn request_wire_layout_is_txid_then_le_index() {
    let req = SignRequest {
        outpoints: vec![Outpoint {
            txid: [0x11; 32],
            vout: 0x0102_0304,
        }],
    };
    let bytes = encode_request(&req);
    let mut expected = vec![0x11u8; 32];
    expected.extend_from_slice(&[0x04, 0x03, 0x02, 0x01]);
    assert_eq!(bytes, expected);
}

#[test]
fn empty_request_encodes_to_nothing_and_decodes() {
    let req = SignRequest { outpoints: vec![] };
    let bytes = encode_request(&req);
    assert!(bytes.is_empty());
    let back = decode_request(&bytes).expect("the empty payload is a request");
    assert!(back.outpoints.is_empty());
}

#[test]
fn truncated_payload_is_invalid_length() {
    for len in [1usize, 35, 37, 71] {
        let bytes = vec![0x55u8; len];
        assert!(matches!(
            decode_request(&bytes),
            Err(DecodeError::InvalidLength)
        ));
    }
    assert!(decode_request(&vec![0x55u8; 36]).is_ok());
}

#[test]
fn refusal_encodes_to_a_single_zero_byte() {
    let out = encode_response(&SignResponse::Refusal);
    assert_eq!(out, vec![0u8]);
}

#[test]
fn signed_response_wire_layout() {
    let sig = Signature::from_bytes(vec![0xaa, 0xbb]);
    let resp = SignResponse::Signed(vec![None, Some(sig)]);
    let out = encode_response(&resp);
    // tag 1; entry "unsigned"; entry "signed", length 2 little-endian, payload.
    assert_eq!(out, vec![1u8, 0, 1, 2, 0, 0, 0, 0xaa, 0xbb]);
}

#[test]
fn handle_message_answers_an_encoded_request() {
    let mut ledger = OutpointLedger::new();
    let key = SigningKey::from_bytes([3; 32]);
    let req = SignRequest {
        outpoints: vec![Outpoint {
            txid: [6; 32],
            vout: 2,
        }],
    };
    let bytes = encode_request(&req);
    let out = handle_message(&mut ledger, &key, &bytes);
    // tag 1, one signed entry of 36 payload bytes.
    assert_eq!(out[0], 1);
    assert_eq!(out[1], 1);
    assert_eq!(&out[2..6], &[36, 0, 0, 0]);
    assert_eq!(out.len(), 6 + 36);
    assert!(ledger.is_signed(&req.outpoints[0]));
}
