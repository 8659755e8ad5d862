use cosignerd::ledger::OutpointLedger;
use cosignerd::message::decode_request;
use cosignerd::message::handle_message;
use cosignerd::message::DecodeError;
use cosignerd::outpoint::Outpoint;
use cosignerd::processing::process_sign_message;
use cosignerd::processing::SignRequest;
use cosignerd::processing::SignResponse;
use cosignerd::sign::SigningKey;

fn outpoint(fill: u8, vout: u32) -> Outpoint {
    Outpoint {
        txid: [fill; 32],
        vout,
    }
}

fn test_key() -> SigningKey {
    SigningKey::from_bytes([7; 32])
}

#[test]
fn three_distinct_inputs_all_signed() {
    let mut ledger = OutpointLedger::new();
    let key = test_key();
    let ops = vec![outpoint(1, 0), outpoint(2, 1), outpoint(3, 2)];
    let req = SignRequest {
        outpoints: ops.clone(),
    };
    let resp = process_sign_message(&mut ledger, &req, &key);
    match resp {
        SignResponse::Signed(sigs) => {
            assert_eq!(sigs.len(), 3);
            assert!(sigs.iter().all(|s| s.is_some()));
        }
        SignResponse::Refusal => panic!("engine never refuses a decoded request"),
    }
    for op in &ops {
        assert!(ledger.is_signed(op));
        assert!(ledger.lookup(op).is_some());
    }
    assert!(!ledger.is_signed(&outpoint(4, 0)));
}

#[test]
fn duplicate_outpoint_signed_once() {
    let mut ledger = OutpointLedger::new();
    let key = test_key();
    let req = SignRequest {
        outpoints: vec![outpoint(9, 5), outpoint(9, 5)],
    };
    let resp = process_sign_message(&mut ledger, &req, &key);
    match resp {
        SignResponse::Signed(sigs) => {
            assert_eq!(sigs.len(), 2);
            assert!(sigs[0].is_some());
            assert!(sigs[1].is_none());
        }
        SignResponse::Refusal => panic!("engine never refuses a decoded request"),
    }
    assert!(ledger.is_signed(&outpoint(9, 5)));
}

#[test]
fn sequential_retry_is_a_no_op() {
    let mut ledger = OutpointLedger::new();
    let key = test_key();
    let op = outpoint(5, 3);
    let req = SignRequest {
        outpoints: vec![op],
    };
    let resp1 = process_sign_message(&mut ledger, &req, &key);
    let first_sig = match resp1 {
        SignResponse::Signed(sigs) => sigs[0].as_ref().unwrap().as_bytes().clone(),
        SignResponse::Refusal => panic!("engine never refuses a decoded request"),
    };
    let recorded = ledger.lookup(&op).unwrap().signature.as_bytes().clone();
    assert_eq!(recorded, first_sig);

    let req_again = SignRequest {
        outpoints: vec![op],
    };
    let resp2 = process_sign_message(&mut ledger, &req_again, &key);
    match resp2 {
        SignResponse::Signed(sigs) => {
            assert_eq!(sigs.len(), 1);
            assert!(sigs[0].is_none());
        }
        SignResponse::Refusal => panic!("engine never refuses a decoded request"),
    }
    let recorded_after = ledger.lookup(&op).unwrap().signature.as_bytes().clone();
    assert_eq!(recorded_after, first_sig);
}

#[test]
fn malformed_payload_refused_without_ledger_change() {
    let mut ledger = OutpointLedger::new();
    let key = test_key();
    let garbage = vec![0xde, 0xad, 0xbe, 0xef, 0x01];
    assert!(matches!(
        decode_request(&garbage),
        Err(DecodeError::InvalidLength)
    ));
    let out = handle_message(&mut ledger, &key, &garbage);
    assert_eq!(out, vec![0u8]);
    assert!(!ledger.is_signed(&outpoint(0xde, 0)));
    assert!(ledger.lookup(&outpoint(1, 0)).is_none());
}

#[test]
fn null_outpoint_left_unsigned() {
    let mut ledger = OutpointLedger::new();
    let key = test_key();
    let null_op = Outpoint {
        txid: [0; 32],
        vout: 7,
    };
    let good_op = outpoint(2, 7);
    let req = SignRequest {
        outpoints: vec![null_op, good_op],
    };
    let resp = process_sign_message(&mut ledger, &req, &key);
    match resp {
        SignResponse::Signed(sigs) => {
            assert!(sigs[0].is_none());
            assert!(sigs[1].is_some());
        }
        SignResponse::Refusal => panic!("engine never refuses a decoded request"),
    }
    assert!(!ledger.is_signed(&null_op));
    assert!(ledger.is_signed(&good_op));
}

#[test]
fn empty_request_is_answered_not_refused() {
    let mut ledger = OutpointLedger::new();
    let key = test_key();
    let req = SignRequest { outpoints: vec![] };
    let resp = process_sign_message(&mut ledger, &req, &key);
    match resp {
        SignResponse::Signed(sigs) => assert!(sigs.is_empty()),
        SignResponse::Refusal => panic!("an empty input list is not an error"),
    }
}

#[test]
fn concurrent_contenders_one_winner() {
    // The serialized shape of racing requests for one outpoint: however the
    // scheduler orders them, the ledger admits exactly the first insert.
    let mut ledger = OutpointLedger::new();
    let key = test_key();
    let op = outpoint(8, 1);
    let mut wins: u32 = 0;
    for _ in 0..5 {
        let req = SignRequest {
            outpoints: vec![op],
        };
        let resp = process_sign_message(&mut ledger, &req, &key);
        if let SignResponse::Signed(sigs) = resp {
            if sigs[0].is_some() {
                wins += 1;
            }
        }
    }
    assert_eq!(wins, 1);
    assert!(ledger.is_signed(&op));
}
