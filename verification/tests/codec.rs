//! Message framing: round trips through the codec and signature
//! verification under the signer's key.

use exonum_core::blockchain::{Block, Precommit, StoredConfiguration};
use exonum_core::crypto::{PublicKey, SecretKey};
type ContentHash = exonum_core::crypto::Hash;
use exonum_core::node::ConsensusConfig;
use exonum_core::services::timestamping::TimestampTx;
use sha2::Digest;

fn keypair(seed_byte: u8) -> (PublicKey, SecretKey) {
    let sk = SecretKey::from_bytes(vec![seed_byte; 32]);
    let pk = sk.public_key();
    (pk, sk)
}

#[test]
fn timestamp_tx_round_trip_and_signature() {
    let (pk, sk) = keypair(7);
    let tx = TimestampTx::new(&pk, &b"hello".to_vec(), &sk);
    // decode(encode(m)) gives back every field
    let raw = exonum_core::blockchain::Transaction::raw(&tx).clone();
    let decoded = TimestampTx::from_raw(raw).unwrap();
    assert_eq!(decoded.pub_key().as_bytes(), pk.as_bytes());
    assert_eq!(decoded.data(), b"hello".to_vec());
    // verify(encode(m)) holds under the signer's key
    assert!(exonum_core::blockchain::Transaction::verify(&decoded));
}

#[test]
fn timestamp_tx_signature_covers_the_buffer() {
    let (pk, sk) = keypair(9);
    let tx = TimestampTx::new(&pk, &b"data".to_vec(), &sk);
    let mut raw = exonum_core::blockchain::Transaction::raw(&tx).clone();
    // flip one payload byte: the signature no longer matches
    raw[40] ^= 1;
    let tampered = TimestampTx::from_raw(raw).unwrap();
    assert!(!exonum_core::blockchain::Transaction::verify(&tampered));
}

#[test]
fn timestamp_tx_signed_by_someone_else_is_refused() {
    let (pk, _) = keypair(1);
    let (_, other_sk) = keypair(2);
    // the author field names a key the signer does not hold
    let tx = TimestampTx::new(&pk, &b"x".to_vec(), &other_sk);
    assert!(!exonum_core::blockchain::Transaction::verify(&tx));
}

#[test]
fn short_or_foreign_buffers_are_rejected() {
    assert!(TimestampTx::from_raw(vec![0; 50]).is_err());
    let (pk, sk) = keypair(3);
    let tx = TimestampTx::new(&pk, &vec![], &sk);
    let raw = exonum_core::blockchain::Transaction::raw(&tx).clone();
    // a buffer of another message type is refused
    let vote = exonum_core::services::configuration::TxConfigVote::from_raw(raw);
    assert!(vote.is_err());
}

#[test]
fn precommit_round_trip() {
    let (_, sk) = keypair(5);
    let ph = ContentHash::from_bytes(vec![1; 32]);
    let bh = ContentHash::from_bytes(vec![2; 32]);
    let pc = Precommit::new(3, 17, 2, &ph, &bh, &sk);
    let decoded = Precommit::from_raw(pc.raw().clone()).unwrap();
    assert_eq!(decoded.validator(), 3);
    assert_eq!(decoded.height(), 17);
    assert_eq!(decoded.round(), 2);
    assert_eq!(decoded.propose_hash().as_bytes(), ph.as_bytes());
    assert_eq!(decoded.block_hash().as_bytes(), bh.as_bytes());
    let signer = sk.public_key();
    assert!(decoded.verify(&signer));
}

#[test]
fn block_header_fields_and_hash() {
    let prev = ContentHash::from_bytes(vec![3; 32]);
    let txr = ContentHash::from_bytes(vec![4; 32]);
    let state = ContentHash::from_bytes(vec![5; 32]);
    let block = Block::new(1, &prev, 9, 2, 7, &txr, &state);
    assert_eq!(block.height(), 9);
    assert_eq!(block.proposer(), 2);
    assert_eq!(block.tx_count(), 7);
    assert_eq!(block.prev_hash().as_bytes(), prev.as_bytes());
    assert_eq!(block.tx_hash().as_bytes(), txr.as_bytes());
    assert_eq!(block.state_hash().as_bytes(), state.as_bytes());
    // the block hash is the digest of the header bytes
    let expected = sha2::Sha256::digest(block.raw().as_slice()).to_vec();
    assert_eq!(block.hash().as_bytes(), &expected);
    // decoding the header bytes reproduces the header
    let again = Block::from_raw(block.raw().clone()).unwrap();
    assert_eq!(again.height(), 9);
    assert!(Block::from_raw(vec![0; 10]).is_none());
}

#[test]
fn stored_configuration_round_trip() {
    let (pk0, _) = keypair(10);
    let (pk1, _) = keypair(11);
    let cfg = StoredConfiguration {
        previous_cfg_hash: ContentHash::from_bytes(vec![9; 32]),
        actual_from: 8,
        consensus: ConsensusConfig {
            round_timeout: 1000,
            propose_timeout: 500,
            status_timeout: 3000,
            peers_timeout: 10000,
        },
        validators: vec![pk0.clone(), pk1.clone()],
    };
    let bytes = cfg.serialize();
    let back = StoredConfiguration::deserialize(&bytes).unwrap();
    assert_eq!(back.previous_cfg_hash.as_bytes(), &vec![9u8; 32]);
    assert_eq!(back.actual_from, 8);
    assert_eq!(back.consensus.round_timeout, 1000);
    assert_eq!(back.consensus.peers_timeout, 10000);
    assert_eq!(back.validators.len(), 2);
    assert_eq!(back.validators[0].as_bytes(), pk0.as_bytes());
    assert_eq!(back.validators[1].as_bytes(), pk1.as_bytes());
    // truncated bytes do not parse
    assert!(StoredConfiguration::deserialize(&bytes[..bytes.len() - 1].to_vec()).is_none());
}

#[test]
fn signatures_agree_with_the_signing_crate() {
    // the library's verification accepts exactly what the signing
    // crate produces
    let sk = SecretKey::from_bytes(vec![42; 32]);
    let pk = sk.public_key();
    let msg = b"the quick brown fox".to_vec();
    let sig = exonum_core::crypto::sign(&msg, &sk);
    assert!(exonum_core::crypto::verify_signature(&msg, &sig, &pk));
    assert!(!exonum_core::crypto::verify_signature(&b"another".to_vec(), &sig, &pk));
    let dalek = ed25519_dalek::SigningKey::from_bytes(&[42u8; 32]);
    let expected = ed25519_dalek::Signer::sign(&dalek, &msg).to_bytes().to_vec();
    assert_eq!(sig.as_bytes(), &expected);
}

#[test]
fn hashes_agree_with_the_digest_crate() {
    let h = exonum_core::crypto::hash(b"abc");
    assert_eq!(h.as_bytes(), &sha2::Sha256::digest(b"abc").to_vec());
}
