//! Block proofs, the commit path, the configuration-voting service,
//! and the node's decision rules.

use exonum_core::blockchain::{
    check_block_response, commit_block, current_height, get_block, get_block_response,
    get_block_txs, get_precommits, verify_block_proof, verify_prevote_quorum, Block, Precommit,
    Prevote, Propose, StoredConfiguration,
};
use exonum_core::crypto::{PublicKey, SecretKey};
type ContentHash = exonum_core::crypto::Hash;
use exonum_core::node::{
    proposer_for, request_accepted, request_is_timely, status_triggers_request, ConsensusConfig,
    QueueChannel, TxSender,
};
use exonum_core::services::configuration::{
    ConfigurationSchema, ConfigurationService, TxConfigPropose, TxConfigVote,
};
use exonum_core::services::timestamping::TimestampTx;
use exonum_core::storage::db::{Database, MemoryDb, Snapshot};

fn keys(n: u8) -> Vec<(PublicKey, SecretKey)> {
    (0..n)
        .map(|i| {
            let sk = SecretKey::from_bytes(vec![i + 1; 32]);
            (sk.public_key(), sk)
        })
        .collect()
}

fn some_block(height: u64) -> Block {
    let prev = ContentHash::from_bytes(vec![0; 32]);
    let txr = ContentHash::from_bytes(vec![1; 32]);
    let state = ContentHash::from_bytes(vec![2; 32]);
    Block::new(1, &prev, height, 0, 0, &txr, &state)
}

fn precommits_for(block: &Block, round: u32, signers: &[(PublicKey, SecretKey)]) -> Vec<Precommit> {
    let ph = ContentHash::from_bytes(vec![7; 32]);
    signers
        .iter()
        .enumerate()
        .map(|(i, (_, sk))| {
            Precommit::new(i as u32, block.height(), round, &ph, &block.hash(), sk)
        })
        .collect()
}

#[test]
fn quorum_of_three_out_of_four_proves_a_block() {
    let ks = keys(4);
    let validators: Vec<PublicKey> = ks.iter().map(|(pk, _)| pk.clone()).collect();
    let block = some_block(1);
    let pcs = precommits_for(&block, 1, &ks[..3]);
    assert!(verify_block_proof(&block, &pcs, &validators));
}

#[test]
fn two_precommits_are_not_a_quorum() {
    let ks = keys(4);
    let validators: Vec<PublicKey> = ks.iter().map(|(pk, _)| pk.clone()).collect();
    let block = some_block(1);
    let pcs = precommits_for(&block, 1, &ks[..2]);
    assert!(!verify_block_proof(&block, &pcs, &validators));
}

#[test]
fn duplicate_voters_do_not_count_twice() {
    let ks = keys(4);
    let validators: Vec<PublicKey> = ks.iter().map(|(pk, _)| pk.clone()).collect();
    let block = some_block(1);
    let mut pcs = precommits_for(&block, 1, &ks[..2]);
    // a third vote from validator 0 again
    let ph = ContentHash::from_bytes(vec![7; 32]);
    pcs.push(Precommit::new(0, block.height(), 1, &ph, &block.hash(), &ks[0].1));
    assert!(!verify_block_proof(&block, &pcs, &validators));
}

#[test]
fn precommit_for_another_block_is_refused() {
    let ks = keys(4);
    let validators: Vec<PublicKey> = ks.iter().map(|(pk, _)| pk.clone()).collect();
    let block = some_block(1);
    let other = some_block(2);
    let mut pcs = precommits_for(&block, 1, &ks[..2]);
    pcs.extend(precommits_for(&other, 1, &ks[2..3]));
    assert!(!verify_block_proof(&block, &pcs, &validators));
}

#[test]
fn forged_signature_is_refused() {
    let ks = keys(4);
    let validators: Vec<PublicKey> = ks.iter().map(|(pk, _)| pk.clone()).collect();
    let block = some_block(1);
    let mut pcs = precommits_for(&block, 1, &ks[..2]);
    // validator 2's vote signed with validator 0's key
    let ph = ContentHash::from_bytes(vec![7; 32]);
    pcs.push(Precommit::new(2, block.height(), 1, &ph, &block.hash(), &ks[0].1));
    assert!(!verify_block_proof(&block, &pcs, &validators));
}

#[test]
fn commit_persists_block_with_its_quorum() {
    let ks = keys(4);
    let validators: Vec<PublicKey> = ks.iter().map(|(pk, _)| pk.clone()).collect();
    let mut db = MemoryDb::new();
    let mut fork = db.fork();
    let block = some_block(0);
    let pcs = precommits_for(&block, 1, &ks[..3]);
    let tx_hashes = vec![ContentHash::from_bytes(vec![0xee; 32])];
    assert!(commit_block(&mut fork, &block, &pcs, &validators, &tx_hashes, 0).is_ok());
    db.merge(fork.into_patch()).unwrap();
    let view = db.snapshot();
    assert_eq!(current_height(&view), 1);
    let stored = get_block(&view, &block.hash()).unwrap();
    assert_eq!(stored.height(), 0);
    // the quorum and the transaction list are stored beside the block
    let stored_pcs = get_precommits(&view, &block.hash());
    assert_eq!(stored_pcs.len(), 3);
    for (i, slot) in stored_pcs.iter().enumerate() {
        let p = slot.as_ref().expect("vote stored");
        assert_eq!(p.validator(), i as u32);
        assert_eq!(p.block_hash().as_bytes(), block.hash().as_bytes());
    }
    let stored_txs = get_block_txs(&view, 0);
    assert_eq!(stored_txs.len(), 1);
    assert_eq!(stored_txs[0].as_ref().unwrap().as_bytes(), &vec![0xee; 32]);
}

#[test]
fn catch_up_response_assembles_and_checks() {
    let ks = keys(4);
    let validators: Vec<PublicKey> = ks.iter().map(|(pk, _)| pk.clone()).collect();
    let mut db = MemoryDb::new();
    let mut fork = db.fork();
    let block = some_block(0);
    let pcs = precommits_for(&block, 1, &ks[..3]);
    let txs: Vec<ContentHash> = Vec::new();
    commit_block(&mut fork, &block, &pcs, &validators, &txs, 0).unwrap();
    db.merge(fork.into_patch()).unwrap();
    let view = db.snapshot();
    // a peer asking for height 0 gets the block with its proof
    let (got_block, got_pcs, got_txs) = get_block_response(&view, 0).expect("height 0 stored");
    assert_eq!(got_block.hash().as_bytes(), block.hash().as_bytes());
    assert_eq!(got_txs.len(), 0);
    let votes: Vec<Precommit> = got_pcs.into_iter().flatten().collect();
    // the receiver checks the answer before merging it
    let prev = ContentHash::from_bytes(vec![0; 32]);
    assert!(check_block_response(&got_block, &votes, &validators, 0, &prev));
    let wrong_prev = ContentHash::from_bytes(vec![9; 32]);
    assert!(!check_block_response(&got_block, &votes, &validators, 0, &wrong_prev));
    assert!(!check_block_response(&got_block, &votes, &validators, 1, &prev));
    // no block is stored at height 7
    assert!(get_block_response(&view, 7).is_none());
}

#[test]
fn commit_without_quorum_is_refused_and_writes_nothing() {
    let ks = keys(4);
    let validators: Vec<PublicKey> = ks.iter().map(|(pk, _)| pk.clone()).collect();
    let mut db = MemoryDb::new();
    let mut fork = db.fork();
    let block = some_block(0);
    let pcs = precommits_for(&block, 1, &ks[..2]);
    let txs: Vec<ContentHash> = Vec::new();
    assert!(commit_block(&mut fork, &block, &pcs, &validators, &txs, 0).is_err());
    db.merge(fork.into_patch()).unwrap();
    let view = db.snapshot();
    assert_eq!(current_height(&view), 0);
    assert!(get_block(&view, &block.hash()).is_none());
}

fn genesis_config(ks: &[(PublicKey, SecretKey)]) -> StoredConfiguration {
    StoredConfiguration {
        previous_cfg_hash: ContentHash::from_bytes(vec![0; 32]),
        actual_from: 0,
        consensus: ConsensusConfig {
            round_timeout: 1000,
            propose_timeout: 500,
            status_timeout: 3000,
            peers_timeout: 10000,
        },
        validators: ks.iter().map(|(pk, _)| pk.clone()).collect(),
    }
}

#[test]
fn config_votes_reach_quorum_and_schedule_activation() {
    let ks = keys(4);
    let genesis = genesis_config(&ks);
    let mut db = MemoryDb::new();
    let mut fork = db.fork();
    exonum_core::blockchain::put_config(&mut fork, &genesis);
    exonum_core::blockchain::set_actual_config_hash(&mut fork, &genesis.hash());
    // a candidate configuration referencing the one in force,
    // activating at height 8
    let mut candidate = genesis_config(&ks);
    candidate.previous_cfg_hash = genesis.hash();
    candidate.actual_from = 8;
    let cfg_bytes = candidate.serialize();
    let propose = TxConfigPropose::new(&ks[0].0, &cfg_bytes, &ks[0].1);
    propose.execute(&mut fork).unwrap();
    let schema = ConfigurationSchema::new();
    let cfg_hash = candidate.hash();
    let stored = schema.get_propose(&fork, &cfg_hash).expect("proposal recorded");
    assert_eq!(stored.cfg(), cfg_bytes);
    // two votes: no quorum yet, nothing scheduled
    for i in 0..2 {
        let vote = TxConfigVote::new(&ks[i].0, &cfg_hash, &ks[i].1);
        vote.execute(&mut fork).unwrap();
    }
    let service = ConfigurationService::new();
    assert!(service.handle_commit(&fork, 8).is_none());
    // the third vote reaches 2f + 1 of 4 and schedules the candidate
    let vote = TxConfigVote::new(&ks[2].0, &cfg_hash, &ks[2].1);
    vote.execute(&mut fork).unwrap();
    let votes = schema.get_votes(&fork, &cfg_hash);
    assert_eq!(votes.len(), 4);
    assert_eq!(votes.iter().filter(|v| v.is_some()).count(), 3);
    // before the activation height the node keeps the old set
    assert!(service.handle_commit(&fork, 7).is_none());
    let switched = service.handle_commit(&fork, 8).expect("activation due");
    assert_eq!(switched.actual_from, 8);
    assert_eq!(switched.validators.len(), 4);
}

#[test]
fn propose_from_an_outsider_is_discarded() {
    let ks = keys(4);
    let outsider = SecretKey::from_bytes(vec![99; 32]);
    let genesis = genesis_config(&ks);
    let mut db = MemoryDb::new();
    let mut fork = db.fork();
    exonum_core::blockchain::put_config(&mut fork, &genesis);
    exonum_core::blockchain::set_actual_config_hash(&mut fork, &genesis.hash());
    let mut candidate = genesis_config(&ks);
    candidate.previous_cfg_hash = genesis.hash();
    candidate.actual_from = 8;
    let cfg_bytes = candidate.serialize();
    let propose = TxConfigPropose::new(&outsider.public_key(), &cfg_bytes, &outsider);
    propose.execute(&mut fork).unwrap();
    let schema = ConfigurationSchema::new();
    assert!(schema.get_propose(&fork, &candidate.hash()).is_none());
}

#[test]
fn propose_referencing_a_stale_config_is_discarded() {
    let ks = keys(4);
    let genesis = genesis_config(&ks);
    let mut db = MemoryDb::new();
    let mut fork = db.fork();
    exonum_core::blockchain::put_config(&mut fork, &genesis);
    exonum_core::blockchain::set_actual_config_hash(&mut fork, &genesis.hash());
    let mut candidate = genesis_config(&ks);
    candidate.previous_cfg_hash = ContentHash::from_bytes(vec![0xab; 32]);
    candidate.actual_from = 8;
    let cfg_bytes = candidate.serialize();
    let propose = TxConfigPropose::new(&ks[0].0, &cfg_bytes, &ks[0].1);
    propose.execute(&mut fork).unwrap();
    assert!(ConfigurationSchema::new().get_propose(&fork, &candidate.hash()).is_none());
}

#[test]
fn proposer_rotates_with_height_and_round() {
    // four validators: the proposer of (height, round) is (h + r) mod 4
    assert_eq!(proposer_for(1, 1, 4), 2);
    assert_eq!(proposer_for(1, 2, 4), 3);
    assert_eq!(proposer_for(2, 1, 4), 3);
    assert_eq!(proposer_for(6, 2, 4), 0);
}

#[test]
fn request_window_is_three_seconds() {
    let now = exonum_core::encoding::Timespec { sec: 100, nsec: 0 };
    let fresh = exonum_core::encoding::Timespec { sec: 98, nsec: 0 };
    let stale = exonum_core::encoding::Timespec { sec: 96, nsec: 999_999_999 };
    let future = exonum_core::encoding::Timespec { sec: 101, nsec: 0 };
    assert!(request_is_timely(&now, &fresh));
    assert!(!request_is_timely(&now, &stale));
    assert!(!request_is_timely(&now, &future));
    // a fresh request still goes unanswered when addressed elsewhere
    let ks = keys(2);
    assert!(request_accepted(&ks[0].0, &ks[0].0, &now, &fresh));
    assert!(!request_accepted(&ks[0].0, &ks[1].0, &now, &fresh));
    assert!(!request_accepted(&ks[0].0, &ks[0].0, &now, &stale));
}

#[test]
fn status_from_ahead_peer_triggers_catch_up() {
    // a late-joining node sees height 5 claimed while it sits at 0
    assert!(status_triggers_request(5, 0, 0));
    // already recorded that the peer is at 5: no new request
    assert!(!status_triggers_request(5, 0, 5));
    // not ahead of us: nothing to fetch
    assert!(!status_triggers_request(3, 3, 0));
}

#[test]
fn tx_sender_posts_only_verified_transactions() {
    let sk = SecretKey::from_bytes(vec![8; 32]);
    let pk = sk.public_key();
    let mut sender = TxSender::new(QueueChannel::new());
    let good = TimestampTx::new(&pk, &b"ok".to_vec(), &sk);
    assert!(sender.send(good));
    let other = SecretKey::from_bytes(vec![9; 32]);
    let forged = TimestampTx::new(&pk, &b"bad".to_vec(), &other);
    assert!(!sender.send(forged));
    let channel = sender.into_inner();
    assert_eq!(channel.posted().len(), 1);
}

#[test]
fn replay_reproduces_identical_state() {
    // executing the same committed blocks on an empty database twice
    // yields byte-identical contents
    let ks = keys(4);
    let validators: Vec<PublicKey> = ks.iter().map(|(pk, _)| pk.clone()).collect();
    let run = || {
        let mut db = MemoryDb::new();
        for h in 0..3u64 {
            let mut fork = db.fork();
            let block = some_block(h);
            let pcs = precommits_for(&block, 1, &ks[..3]);
            let txs: Vec<ContentHash> = Vec::new();
            commit_block(&mut fork, &block, &pcs, &validators, &txs, h).unwrap();
            db.merge(fork.into_patch()).unwrap();
        }
        db
    };
    let db1 = run();
    let db2 = run();
    assert_eq!(db1.snapshot().iter(&vec![]), db2.snapshot().iter(&vec![]));
}

#[test]
fn propose_round_trip_carries_tx_hashes() {
    let ks = keys(1);
    let prev = ContentHash::from_bytes(vec![0; 32]);
    let tx_hashes = vec![
        ContentHash::from_bytes(vec![0xaa; 32]),
        ContentHash::from_bytes(vec![0xbb; 32]),
    ];
    let propose = Propose::new(0, 4, 2, &prev, &tx_hashes, &ks[0].1);
    let decoded = Propose::from_raw(propose.raw().clone()).unwrap();
    assert_eq!(decoded.validator(), 0);
    assert_eq!(decoded.height(), 4);
    assert_eq!(decoded.round(), 2);
    assert_eq!(decoded.prev_hash().as_bytes(), prev.as_bytes());
    let got = decoded.transactions();
    assert_eq!(got.len(), 2);
    assert_eq!(got[0].as_bytes(), &vec![0xaa; 32]);
    assert_eq!(got[1].as_bytes(), &vec![0xbb; 32]);
    assert!(decoded.verify(&ks[0].0));
}

#[test]
fn prevote_round_trip() {
    let ks = keys(1);
    let ph = ContentHash::from_bytes(vec![0xcc; 32]);
    let pv = Prevote::new(0, 4, 2, &ph, 1, &ks[0].1);
    let decoded = Prevote::from_raw(pv.raw().clone()).unwrap();
    assert_eq!(decoded.validator(), 0);
    assert_eq!(decoded.height(), 4);
    assert_eq!(decoded.round(), 2);
    assert_eq!(decoded.locked_round(), 1);
    assert_eq!(decoded.propose_hash().as_bytes(), ph.as_bytes());
    assert!(decoded.verify(&ks[0].0));
}

#[test]
fn prevote_quorum_needs_two_thirds() {
    // four validators at (height 1, round 1): two prevotes are short
    // of the quorum, the third reaches it -- the round-one stall and
    // round-two recovery hinge on exactly this test
    let ks = keys(4);
    let validators: Vec<PublicKey> = ks.iter().map(|(pk, _)| pk.clone()).collect();
    let ph = ContentHash::from_bytes(vec![0xdd; 32]);
    let mut pvs: Vec<Prevote> = ks[..2]
        .iter()
        .enumerate()
        .map(|(i, (_, sk))| Prevote::new(i as u32, 1, 1, &ph, 0, sk))
        .collect();
    assert!(!verify_prevote_quorum(&ph, 1, 1, &pvs, &validators));
    pvs.push(Prevote::new(2, 1, 1, &ph, 0, &ks[2].1));
    assert!(verify_prevote_quorum(&ph, 1, 1, &pvs, &validators));
    // a vote for round 2 does not count at round 1
    let mixed: Vec<Prevote> = (0..3)
        .map(|i| Prevote::new(i as u32, 1, if i == 2 { 2 } else { 1 }, &ph, 0, &ks[i].1))
        .collect();
    assert!(!verify_prevote_quorum(&ph, 1, 1, &mixed, &validators));
}
