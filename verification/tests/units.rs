use cosignerd::cosignerd::Config;
use cosignerd::cosignerd::CosignerD;
use cosignerd::cosignerd::CosignerDError;
use cosignerd::cosignerd::ListenAddr;
use cosignerd::cosignerd::ManagerConfig;
use cosignerd::cosignerd::NoiseKey;
use cosignerd::ledger::OutpointLedger;
use cosignerd::outpoint::Outpoint;
use cosignerd::sign::sign_outpoint;
use cosignerd::sign::Signature;
use cosignerd::sign::SigningKey;

#[test]
fn outpoint_identity() {
    let a = Outpoint {
        txid: [1; 32],
        vout: 4,
    };
    let mut b = a;
    assert!(a.same_outpoint(&b));
    b.vout = 5;
    assert!(!a.same_outpoint(&b));
    let mut c = a;
    c.txid[31] = 2;
    assert!(!a.same_outpoint(&c));
}

#[test]
fn outpoint_structural_validity() {
    let null_op = Outpoint {
        txid: [0; 32],
        vout: 0,
    };
    assert!(!null_op.check_well_formed());
    let mut real = null_op;
    real.txid[0] = 1;
    assert!(real.check_well_formed());
}

#[test]
fn ledger_write_once_observable() {
    let mut ledger = OutpointLedger::new();
    let op = Outpoint {
        txid: [2; 32],
        vout: 0,
    };
    let first = Signature::from_bytes(vec![1, 2, 3]);
    let second = Signature::from_bytes(vec![9, 9, 9]);
    assert!(ledger.insert_if_absent(op, first));
    assert!(!ledger.insert_if_absent(op, second));
    let rec = ledger.lookup(&op).expect("the record stays");
    assert_eq!(rec.signature.as_bytes(), &vec![1, 2, 3]);
    assert!(rec.outpoint.same_outpoint(&op));
}

#[test]
fn ledger_lookup_absent() {
    let ledger = OutpointLedger::new();
    let op = Outpoint {
        txid: [2; 32],
        vout: 0,
    };
    assert!(ledger.lookup(&op).is_none());
    assert!(!ledger.is_signed(&op));
}

#[test]
fn signature_payload_formula() {
    let key = SigningKey::from_bytes([1; 32]);
    let op = Outpoint {
        txid: [2; 32],
        vout: 0x0102_0304,
    };
    let sig = sign_outpoint(&key, &op);
    let mut expected = vec![3u8; 32]; // 1 xor 2, byte for byte
    expected.extend_from_slice(&[0x04, 0x03, 0x02, 0x01]);
    assert_eq!(sig.as_bytes(), &expected);
    // Deterministic: the same key and outpoint give the same payload.
    let again = sign_outpoint(&key, &op);
    assert_eq!(again.as_bytes(), sig.as_bytes());
}

#[test]
fn noise_key_validity() {
    let zero = NoiseKey { bytes: [0; 32] };
    assert!(!zero.check_well_formed());
    let mut real = zero;
    real.bytes[17] = 0x42;
    assert!(real.check_well_formed());
}

#[test]
fn daemon_state_from_config() {
    let config = Config {
        managers: vec![ManagerConfig {
            noise_pubkey: [5; 32],
        }],
        listen: ListenAddr {
            octets: [127, 0, 0, 1],
            port: 8383,
        },
        data_dir: String::from("/var/lib/cosignerd"),
    };
    let key = NoiseKey { bytes: [6; 32] };
    assert!(key.check_well_formed());
    let d = CosignerD::from_config(config, key);
    assert_eq!(d.managers.len(), 1);
    assert_eq!(d.managers[0].noise_pubkey, [5; 32]);
    assert_eq!(d.noise_privkey, key);
    assert_eq!(d.listen.port, 8383);
    assert_eq!(d.data_dir, "/var/lib/cosignerd");
    assert_eq!(d.log_file(), "/var/lib/cosignerd/log");
    assert_eq!(d.pid_file(), "/var/lib/cosignerd/cosignerd.pid");
    assert_eq!(d.db_file(), "/var/lib/cosignerd/cosignerd.sqlite3");
}

#[test]
fn error_messages() {
    let e = CosignerDError::NoiseKeyError(String::from("permission denied"));
    assert_eq!(
        e.message(),
        "Noise key initialization error: 'permission denied'"
    );
    let e = CosignerDError::ConfigError(String::from("no datadir"));
    assert_eq!(e.message(), "Configuration error: 'no datadir'");
    let e = CosignerDError::DatadirCreation(String::from("disk full"));
    assert_eq!(e.message(), "Creating data directory: 'disk full'");
}
