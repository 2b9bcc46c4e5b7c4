//! The configuration-voting service: validators propose a new
//! configuration referencing the one in force, vote for it by its
//! hash, and once `2f + 1` distinct validators concur the proposal is
//! scheduled for activation.

use vstd::prelude::*;

use crate::blockchain::{
    actual_config_ptr, config_key, current_height_key, following_config_ptr, Transaction,
};
use crate::crypto::{digest_of, sig_valid};
use crate::encoding::{le32_bytes, le32_value, le64_bytes, le64_value, Error, Field};
use crate::messages::{
    key_hash_unsigned, key_hash_valid, key_segment_data, key_segment_unsigned, key_segment_valid,
    msg_message_id, sealed,
};
use crate::storage::db::Fork;
use crate::storage::proof_list_index::{list_root, ProofListIndex};

verus! {

/// Service id of the configuration service.
pub const CONFIG_SERVICE: u16 = 1;

/// Message id of a configuration proposal.
pub const CONFIG_PROPOSE_MESSAGE_ID: u16 = 0;

/// Message id of a configuration vote.
pub const CONFIG_VOTE_MESSAGE_ID: u16 = 1;

/// The key of the voting record of a proposed configuration.
pub open spec fn config_data_key(h: Seq<u8>) -> Seq<u8> {
    seq![0x40u8] + h
}

/// The key of one validator's vote for a proposed configuration.
pub open spec fn vote_key(h: Seq<u8>, i: u32) -> Seq<u8> {
    seq![0x41u8] + h + le32_bytes(i)
}

/// Reads a value through a fork's overlay semantics.
fn fork_get(fork: &Fork, key: &Vec<u8>) -> (r: Option<Vec<u8>>)
    requires
        fork.wf(),
    ensures
        crate::storage::opt_bytes(r) == fork.lookup(key@),
{
    proof {
        fork.wf_facts();
        crate::storage::db::lemma_merged_lookup(fork.snap_model(), fork.chg_model(), key@);
    }
    crate::storage::db::Snapshot::get(fork, key)
}

/// A proposal to replace the configuration in force: the proposer's
/// key and the serialized candidate configuration.
pub struct TxConfigPropose {
    raw: Vec<u8>,
}

impl TxConfigPropose {
    /// The proposal's bytes.
    pub closed spec fn view(&self) -> Seq<u8> {
        self.raw@
    }

    /// The buffer parses as a proposal.
    pub open spec fn wf(&self) -> bool {
        key_segment_valid(self@, CONFIG_PROPOSE_MESSAGE_ID, CONFIG_SERVICE)
    }

    /// The proposer's key bytes.
    pub open spec fn from_model(&self) -> Seq<u8> {
        self@.subrange(10, 42)
    }

    /// The serialized candidate configuration.
    pub open spec fn cfg_model(&self) -> Seq<u8> {
        key_segment_data(self@)
    }

    /// Builds and signs a proposal.
    pub fn new(
        from: &crate::crypto::PublicKey,
        cfg: &Vec<u8>,
        sk: &crate::crypto::SecretKey,
    ) -> (r: TxConfigPropose)
        requires
            from.wf(),
            sk.wf(),
            cfg@.len() + 114 <= 0xffff_ffff,
        ensures
            r@ == sealed(
                key_segment_unsigned(CONFIG_PROPOSE_MESSAGE_ID, CONFIG_SERVICE, from@, cfg@),
                sk@,
            ),
            r.wf(),
            r.from_model() == from@,
            r.cfg_model() == cfg@,
            sig_valid(
                crate::crypto::pub_of(sk@),
                r@.take(r@.len() - 64),
                r@.skip(r@.len() - 64),
            ),
    {
        let raw = crate::messages::new_key_segment_message(
            CONFIG_PROPOSE_MESSAGE_ID,
            CONFIG_SERVICE,
            from,
            cfg,
            sk,
        );
        TxConfigPropose { raw }
    }

    /// Wraps a received buffer, accepting exactly the proposal shape.
    pub fn from_raw(raw: Vec<u8>) -> (r: Result<TxConfigPropose, Error>)
        requires
            raw@.len() <= 0xffff_ffff,
        ensures
            (r is Ok) == key_segment_valid(raw@, CONFIG_PROPOSE_MESSAGE_ID, CONFIG_SERVICE),
            r matches Ok(tx) ==> tx@ == raw@,
            r matches Err(e) ==> e == crate::messages::key_segment_err(
                raw@,
                CONFIG_PROPOSE_MESSAGE_ID,
                CONFIG_SERVICE,
            ),
    {
        match crate::messages::check_key_segment_message(
            &raw,
            CONFIG_PROPOSE_MESSAGE_ID,
            CONFIG_SERVICE,
        ) {
            Ok(()) => Ok(TxConfigPropose { raw }),
            Err(e) => Err(e),
        }
    }

    /// The proposer's public key.
    pub fn from(&self) -> (r: crate::crypto::PublicKey)
        requires
            self.wf(),
        ensures
            r@ == self.from_model(),
            r.wf(),
    {
        crate::messages::read_author_key(&self.raw)
    }

    /// The serialized candidate configuration.
    pub fn cfg(&self) -> (r: Vec<u8>)
        requires
            self.wf(),
        ensures
            r@ == self.cfg_model(),
    {
        crate::messages::read_segment_bytes(&self.raw, CONFIG_PROPOSE_MESSAGE_ID, CONFIG_SERVICE)
    }

    /// The proposal's raw bytes.
    pub fn raw(&self) -> (r: &Vec<u8>)
        ensures
            r@ == self@,
    {
        &self.raw
    }
}

/// A vote for a proposed configuration, by the hash of its bytes.
pub struct TxConfigVote {
    raw: Vec<u8>,
}

impl TxConfigVote {
    /// The vote's bytes.
    pub closed spec fn view(&self) -> Seq<u8> {
        self.raw@
    }

    /// The buffer parses as a vote.
    pub open spec fn wf(&self) -> bool {
        key_hash_valid(self@, CONFIG_VOTE_MESSAGE_ID, CONFIG_SERVICE)
    }

    /// The voter's key bytes.
    pub open spec fn from_model(&self) -> Seq<u8> {
        self@.subrange(10, 42)
    }

    /// The hash of the configuration voted for.
    pub open spec fn cfg_hash_model(&self) -> Seq<u8> {
        self@.subrange(42, 74)
    }

    /// Builds and signs a vote.
    pub fn new(
        from: &crate::crypto::PublicKey,
        cfg_hash: &crate::crypto::Hash,
        sk: &crate::crypto::SecretKey,
    ) -> (r: TxConfigVote)
        requires
            from.wf(),
            cfg_hash.wf(),
            sk.wf(),
        ensures
            r@ == sealed(
                key_hash_unsigned(CONFIG_VOTE_MESSAGE_ID, CONFIG_SERVICE, from@, cfg_hash@),
                sk@,
            ),
            r.wf(),
            r.from_model() == from@,
            r.cfg_hash_model() == cfg_hash@,
            sig_valid(
                crate::crypto::pub_of(sk@),
                r@.take(r@.len() - 64),
                r@.skip(r@.len() - 64),
            ),
    {
        let raw = crate::messages::new_key_hash(
            CONFIG_VOTE_MESSAGE_ID,
            CONFIG_SERVICE,
            from,
            cfg_hash,
            sk,
        );
        TxConfigVote { raw }
    }

    /// Wraps a received buffer, accepting exactly the vote shape.
    pub fn from_raw(raw: Vec<u8>) -> (r: Result<TxConfigVote, Error>)
        requires
            raw@.len() <= 0xffff_ffff,
        ensures
            (r is Ok) == key_hash_valid(raw@, CONFIG_VOTE_MESSAGE_ID, CONFIG_SERVICE),
            r matches Ok(tx) ==> tx@ == raw@,
            r matches Err(e) ==> e == crate::messages::key_hash_err(
                raw@,
                CONFIG_VOTE_MESSAGE_ID,
                CONFIG_SERVICE,
            ),
    {
        match crate::messages::check_key_hash(&raw, CONFIG_VOTE_MESSAGE_ID, CONFIG_SERVICE) {
            Ok(()) => Ok(TxConfigVote { raw }),
            Err(e) => Err(e),
        }
    }

    /// The voter's public key.
    pub fn from(&self) -> (r: crate::crypto::PublicKey)
        requires
            self.wf(),
        ensures
            r@ == self.from_model(),
            r.wf(),
    {
        crate::messages::read_author_key(&self.raw)
    }

    /// The hash of the configuration voted for.
    pub fn cfg_hash(&self) -> (r: crate::crypto::Hash)
        requires
            self.wf(),
        ensures
            r@ == self.cfg_hash_model(),
            r.wf(),
    {
        crate::messages::read_hash_at(&self.raw, 42)
    }

    /// The vote's raw bytes.
    pub fn raw(&self) -> (r: &Vec<u8>)
        ensures
            r@ == self@,
    {
        &self.raw
    }
}

/// A configuration transaction: a proposal or a vote.
pub enum ConfigTx {
    ConfigPropose(TxConfigPropose),
    ConfigVote(TxConfigVote),
}

impl ConfigTx {
    /// The transaction's bytes.
    pub open spec fn view(&self) -> Seq<u8> {
        match self {
            ConfigTx::ConfigPropose(tx) => tx@,
            ConfigTx::ConfigVote(tx) => tx@,
        }
    }

    /// The buffer parses as its variant.
    pub open spec fn wf(&self) -> bool {
        match self {
            ConfigTx::ConfigPropose(tx) => tx.wf(),
            ConfigTx::ConfigVote(tx) => tx.wf(),
        }
    }

    /// The author's public key.
    pub fn from(&self) -> (r: crate::crypto::PublicKey)
        requires
            self.wf(),
        ensures
            r@ == self@.subrange(10, 42),
            r.wf(),
    {
        match self {
            ConfigTx::ConfigPropose(tx) => tx.from(),
            ConfigTx::ConfigVote(tx) => tx.from(),
        }
    }

    /// Parses a raw configuration transaction by its message id.
    pub fn from_raw(raw: Vec<u8>) -> (r: Result<ConfigTx, Error>)
        requires
            raw@.len() <= 0xffff_ffff,
        ensures
            r matches Ok(tx) ==> tx@ == raw@ && tx.wf(),
            (r is Ok) == (key_segment_valid(raw@, CONFIG_PROPOSE_MESSAGE_ID, CONFIG_SERVICE)
                || key_hash_valid(raw@, CONFIG_VOTE_MESSAGE_ID, CONFIG_SERVICE)),
            r matches Ok(tx) ==> ((tx is ConfigPropose) == key_segment_valid(
                raw@,
                CONFIG_PROPOSE_MESSAGE_ID,
                CONFIG_SERVICE,
            )),
            raw@.len() < 10 ==> r == Err::<ConfigTx, Error>(
                Error::UnexpectedlyShortPayload {
                    actual_size: raw@.len() as u32,
                    minimum_size: 10,
                },
            ),
            raw@.len() >= 10 && msg_message_id(raw@) != CONFIG_PROPOSE_MESSAGE_ID
                && msg_message_id(raw@) != CONFIG_VOTE_MESSAGE_ID ==> r == Err::<ConfigTx, Error>(
                Error::IncorrectMessageType { message_type: msg_message_id(raw@) },
            ),
            raw@.len() >= 10 && msg_message_id(raw@) == CONFIG_PROPOSE_MESSAGE_ID
                && !key_segment_valid(raw@, CONFIG_PROPOSE_MESSAGE_ID, CONFIG_SERVICE) ==> r
                == Err::<ConfigTx, Error>(
                crate::messages::key_segment_err(raw@, CONFIG_PROPOSE_MESSAGE_ID, CONFIG_SERVICE),
            ),
            raw@.len() >= 10 && msg_message_id(raw@) == CONFIG_VOTE_MESSAGE_ID && !key_hash_valid(
                raw@,
                CONFIG_VOTE_MESSAGE_ID,
                CONFIG_SERVICE,
            ) ==> r == Err::<ConfigTx, Error>(
                crate::messages::key_hash_err(raw@, CONFIG_VOTE_MESSAGE_ID, CONFIG_SERVICE),
            ),
    {
        if raw.len() < 10 {
            return Err(Error::UnexpectedlyShortPayload {
                actual_size: raw.len() as u32,
                minimum_size: 10,
            });
        }
        let mid: u16 = Field::read(&raw, 2, 4);
        proof {
            crate::encoding::lemma_le16_round_trip(mid);
        }
        if mid == CONFIG_PROPOSE_MESSAGE_ID {
            match TxConfigPropose::from_raw(raw) {
                Ok(tx) => Ok(ConfigTx::ConfigPropose(tx)),
                Err(e) => Err(e),
            }
        } else if mid == CONFIG_VOTE_MESSAGE_ID {
            match TxConfigVote::from_raw(raw) {
                Ok(tx) => Ok(ConfigTx::ConfigVote(tx)),
                Err(e) => Err(e),
            }
        } else {
            Err(Error::IncorrectMessageType { message_type: mid })
        }
    }
}


/// The canonical bytes of a voting record: the proposal as a tail
/// segment, the root hash of the vote slots, and the number of slots.
pub open spec fn voting_data_encode(tx: Seq<u8>, hist: Seq<u8>, n: u64) -> Seq<u8> {
    le32_bytes(48) + le32_bytes(tx.len() as u32) + hist + le64_bytes(n) + tx
}

/// Whether bytes are a well-formed voting record.
pub open spec fn voting_data_valid(b: Seq<u8>) -> bool {
    48 <= b.len() <= 0xffff_ffff && le32_value(b.subrange(0, 4)) == 48 && 48 + le32_value(
        b.subrange(4, 8),
    ) == b.len()
}

/// The proposal bytes a voting record embeds.
pub open spec fn voting_data_tx(b: Seq<u8>) -> Seq<u8> {
    b.skip(48)
}

/// The vote-slot root hash a voting record carries.
pub open spec fn voting_data_hist(b: Seq<u8>) -> Seq<u8> {
    b.subrange(8, 40)
}

/// The slot count a voting record carries.
pub open spec fn voting_data_num(b: Seq<u8>) -> u64 {
    le64_value(b.subrange(40, 48))
}

/// The record tracking one proposed configuration: the proposal, the
/// root hash of the vote slots, and the slot count.
pub struct ConfigVotingData {
    raw: Vec<u8>,
}

impl ConfigVotingData {
    /// The record's bytes.
    pub closed spec fn view(&self) -> Seq<u8> {
        self.raw@
    }

    /// The bytes are a well-formed record.
    pub open spec fn wf(&self) -> bool {
        voting_data_valid(self@)
    }

    /// Builds a record.
    pub fn new(tx_propose: &Vec<u8>, votes_history_hash: &crate::crypto::Hash, num_votes: u64) -> (
    r: ConfigVotingData)
        requires
            votes_history_hash.wf(),
            tx_propose@.len() <= 0xffff_0000,
        ensures
            r@ == voting_data_encode(tx_propose@, votes_history_hash@, num_votes),
            r.wf(),
            r.tx_propose_model() == tx_propose@,
            r.hist_model() == votes_history_hash@,
            r.num_model() == num_votes,
    {
        let mut raw: Vec<u8> = Vec::new();
        let mut i: usize = 0;
        while i < 48
            invariant
                i <= 48,
                raw@.len() == i,
            decreases 48 - i,
        {
            raw.push(0);
            i = i + 1;
        }
        let pos: u32 = 48;
        let cnt: u32 = tx_propose.len() as u32;
        Field::write(&pos, &mut raw, 0, 4);
        Field::write(&cnt, &mut raw, 4, 8);
        Field::write(votes_history_hash, &mut raw, 8, 40);
        Field::write(&num_votes, &mut raw, 40, 48);
        let ghost head = raw@;
        let mut j: usize = 0;
        while j < tx_propose.len()
            invariant
                j <= tx_propose@.len(),
                raw@ =~= head + tx_propose@.subrange(0, j as int),
            decreases tx_propose@.len() - j,
        {
            raw.push(tx_propose[j]);
            j = j + 1;
        }
        let r = ConfigVotingData { raw };
        proof {
            assert(r@ =~= voting_data_encode(tx_propose@, votes_history_hash@, num_votes));
            crate::encoding::lemma_le32_round_trip(48);
            crate::encoding::lemma_le32_round_trip(cnt);
            crate::encoding::lemma_le64_round_trip(num_votes);
            assert(r@.subrange(0, 4) =~= le32_bytes(48));
            assert(r@.subrange(4, 8) =~= le32_bytes(cnt));
            assert(r@.subrange(8, 40) =~= votes_history_hash@);
            assert(r@.subrange(40, 48) =~= le64_bytes(num_votes));
            assert(r@.skip(48) =~= tx_propose@);
        }
        r
    }

    /// Wraps stored bytes, accepting exactly the record shape.
    pub fn from_raw(raw: Vec<u8>) -> (r: Option<ConfigVotingData>)
        requires
            raw@.len() <= 0xffff_ffff,
        ensures
            match r {
                Some(vd) => vd@ == raw@ && vd.wf(),
                None => !voting_data_valid(raw@),
            },
    {
        if raw.len() < 48 {
            return None;
        }
        let pos: u32 = Field::read(&raw, 0, 4);
        let cnt: u32 = Field::read(&raw, 4, 8);
        proof {
            crate::encoding::lemma_le32_round_trip(pos);
            crate::encoding::lemma_le32_round_trip(cnt);
        }
        if pos != 48 {
            return None;
        }
        if 48 + (cnt as u64) != raw.len() as u64 {
            return None;
        }
        Some(ConfigVotingData { raw })
    }

    /// The embedded proposal bytes.
    pub open spec fn tx_propose_model(&self) -> Seq<u8> {
        voting_data_tx(self@)
    }

    /// The vote-slot root hash.
    pub open spec fn hist_model(&self) -> Seq<u8> {
        voting_data_hist(self@)
    }

    /// The slot count.
    pub open spec fn num_model(&self) -> u64 {
        voting_data_num(self@)
    }

    /// The embedded proposal bytes.
    pub fn tx_propose(&self) -> (r: Vec<u8>)
        requires
            self.wf(),
        ensures
            r@ == self.tx_propose_model(),
    {
        let r = crate::encoding::read_bytes_at(&self.raw, 48, self.raw.len() - 48);
        proof {
            assert(r@ =~= self@.skip(48));
        }
        r
    }

    /// The vote-slot root hash.
    pub fn votes_history_hash(&self) -> (r: crate::crypto::Hash)
        requires
            self.wf(),
        ensures
            r@ == self.hist_model(),
            r.wf(),
    {
        crate::messages::read_hash_at(&self.raw, 8)
    }

    /// The slot count.
    pub fn num_votes(&self) -> (r: u64)
        requires
            self.wf(),
        ensures
            r == self.num_model(),
    {
        let r: u64 = Field::read(&self.raw, 40, 48);
        proof {
            crate::encoding::lemma_le64_round_trip(r);
        }
        r
    }

    /// Replaces the stored vote-slot root hash.
    pub fn set_history_hash(&mut self, hash: &crate::crypto::Hash)
        requires
            old(self).wf(),
            hash.wf(),
        ensures
            final(self).wf(),
            final(self)@ == voting_data_encode(
                old(self).tx_propose_model(),
                hash@,
                old(self).num_model(),
            ),
    {
        proof {
            crate::encoding::lemma_le32_round_trip(48);
        }
        Field::write(hash, &mut self.raw, 8, 40);
        proof {
            let b0 = old(self)@;
            assert(self@.subrange(0, 4) =~= b0.subrange(0, 4));
            assert(self@.subrange(4, 8) =~= b0.subrange(4, 8));
            assert(self@.subrange(40, 48) =~= b0.subrange(40, 48));
            assert(self@.skip(48) =~= b0.skip(48));
            crate::encoding::lemma_le32_canonical(b0.subrange(0, 4));
            crate::encoding::lemma_le32_canonical(b0.subrange(4, 8));
            crate::encoding::lemma_le64_canonical(b0.subrange(40, 48));
            assert(self@ =~= voting_data_encode(b0.skip(48), hash@, voting_data_num(b0)));
        }
    }

    /// The record's raw bytes.
    pub fn raw(&self) -> (r: &Vec<u8>)
        ensures
            r@ == self@,
    {
        &self.raw
    }
}

impl crate::storage::proof_list_index::StorageValue for ConfigVotingData {
    open spec fn value_model(&self) -> Seq<u8> {
        self@
    }

    fn serialize(self) -> (r: Vec<u8>) {
        self.raw
    }

    fn deserialize(bytes: Vec<u8>) -> (r: ConfigVotingData) {
        ConfigVotingData { raw: bytes }
    }

    fn clone_value(&self) -> (r: ConfigVotingData) {
        ConfigVotingData { raw: crate::storage::db::copy_bytes(&self.raw) }
    }

    fn hash(&self) -> (r: crate::crypto::Hash) {
        crate::crypto::hash(self.raw.as_slice())
    }
}


/// The vote slots of a proposed configuration: one slot per validator
/// of the configuration in force, holding the stored vote's bytes or
/// nothing.
pub open spec fn vote_slots(f: Fork, h: Seq<u8>, n: nat) -> Seq<Seq<u8>> {
    Seq::new(
        n,
        |i: int|
            match f.lookup(vote_key(h, i as u32)) {
                Some(b) => b,
                None => Seq::empty(),
            },
    )
}

/// How many slots hold a vote.
pub open spec fn votes_present(f: Fork, h: Seq<u8>, n: nat) -> nat
    decreases n,
{
    if n == 0 {
        0
    } else {
        votes_present(f, h, (n - 1) as nat) + (if f.lookup(vote_key(h, (n - 1) as u32)) is Some {
            1nat
        } else {
            0nat
        })
    }
}

/// The height a fork's current-height cell holds.
pub open spec fn fork_height(f: Fork) -> u64 {
    match f.lookup(current_height_key()) {
        Some(b) => if b.len() == 8 {
            le64_value(b)
        } else {
            0
        },
        None => 0,
    }
}

/// Whether serialized configuration bytes name a key as a validator.
pub open spec fn config_has_key(ab: Seq<u8>, pk: Seq<u8>) -> bool {
    exists|i: int|
        0 <= i < le32_value(ab.subrange(56, 60)) && #[trigger] ab.subrange(
            60 + 32 * i,
            60 + 32 * i + 32,
        ) == pk
}

/// The slot of a key among a configuration's validators: the first
/// index whose stored key equals it.
pub open spec fn sender_slot(ab: Seq<u8>, pk: Seq<u8>) -> int {
    choose|i: int|
        0 <= i < le32_value(ab.subrange(56, 60)) && #[trigger] ab.subrange(
            60 + 32 * i,
            60 + 32 * i + 32,
        ) == pk && forall|j: int|
            0 <= j < i ==> #[trigger] ab.subrange(60 + 32 * j, 60 + 32 * j + 32) != pk
}

/// A first-match index is the sender's slot: there is at most one.
proof fn lemma_sender_slot_unique(ab: Seq<u8>, pk: Seq<u8>, i: int)
    requires
        0 <= i < le32_value(ab.subrange(56, 60)),
        ab.subrange(60 + 32 * i, 60 + 32 * i + 32) == pk,
        forall|j: int| 0 <= j < i ==> #[trigger] ab.subrange(60 + 32 * j, 60 + 32 * j + 32)
            != pk,
    ensures
        sender_slot(ab, pk) == i,
{
    let s = sender_slot(ab, pk);
    assert(0 <= s < le32_value(ab.subrange(56, 60)) && ab.subrange(60 + 32 * s, 60 + 32 * s + 32)
        == pk && forall|j: int| 0 <= j < s ==> #[trigger] ab.subrange(
        60 + 32 * j,
        60 + 32 * j + 32,
    ) != pk) by {
        assert(exists|i2: int|
            0 <= i2 < le32_value(ab.subrange(56, 60)) && #[trigger] ab.subrange(
                60 + 32 * i2,
                60 + 32 * i2 + 32,
            ) == pk && forall|j: int| 0 <= j < i2 ==> #[trigger] ab.subrange(
                60 + 32 * j,
                60 + 32 * j + 32,
            ) != pk);
    }
    if s < i {
        assert(ab.subrange(60 + 32 * s, 60 + 32 * s + 32) != pk);
    } else if s > i {
        assert(ab.subrange(60 + 32 * i, 60 + 32 * i + 32) != pk);
    }
}

/// Equal vote-slot lookups give an equal vote count.
proof fn lemma_votes_present_congruent(f1: Fork, f2: Fork, h: Seq<u8>, n: nat)
    requires
        forall|i: int| 0 <= i < n ==> #[trigger] f1.lookup(vote_key(h, i as u32)) == f2.lookup(
            vote_key(h, i as u32),
        ),
    ensures
        votes_present(f1, h, n) == votes_present(f2, h, n),
    decreases n,
{
    if n > 0 {
        lemma_votes_present_congruent(f1, f2, h, (n - 1) as nat);
    }
}

/// One vote slot becoming occupied raises the count by one; the other
/// slots keep it.
proof fn lemma_votes_present_update(f1: Fork, f2: Fork, h: Seq<u8>, n: nat, at: int)
    requires
        0 <= at < n,
        forall|i: int|
            0 <= i < n && i != at ==> #[trigger] f2.lookup(vote_key(h, i as u32)) == f1.lookup(
                vote_key(h, i as u32),
            ),
        f1.lookup(vote_key(h, at as u32)) is None,
        f2.lookup(vote_key(h, at as u32)) is Some,
    ensures
        votes_present(f2, h, n) == votes_present(f1, h, n) + 1,
    decreases n,
{
    if n - 1 == at {
        lemma_votes_present_congruent(f1, f2, h, (n - 1) as nat);
    } else {
        lemma_votes_present_update(f1, f2, h, (n - 1) as nat, at);
    }
}

/// Whether a proposal passes every guard: no next configuration is
/// scheduled yet, the proposer is a validator of the configuration in
/// force, the candidate parses, references the configuration in force,
/// activates in the future, and was not proposed before.
pub open spec fn propose_accepted(f: Fork, tx: Seq<u8>) -> bool {
    &&& tx.len() <= 0xffff_0000
    &&& f.lookup(following_config_ptr()) is None
    &&& match f.lookup(actual_config_ptr()) {
        Some(ah) => match f.lookup(config_key(ah)) {
            Some(ab) => {
                &&& crate::blockchain::config_bytes_wf(ab)
                &&& config_has_key(ab, tx.subrange(10, 42))
                &&& {
                    let cfg = key_segment_data(tx);
                    &&& crate::blockchain::config_bytes_wf(cfg)
                    &&& cfg.subrange(0, 32) == digest_of(ab)
                    &&& le64_value(cfg.subrange(32, 40)) > fork_height(f)
                    &&& f.lookup(config_data_key(digest_of(cfg))) is None
                }
            },
            None => false,
        },
        None => false,
    }
}

/// The serialized bytes of the configuration in force, or the empty
/// string when no configuration is in force.
pub open spec fn actual_config_bytes(f: Fork) -> Seq<u8> {
    match f.lookup(actual_config_ptr()) {
        Some(ah) => match f.lookup(config_key(ah)) {
            Some(ab) => ab,
            None => Seq::empty(),
        },
        None => Seq::empty(),
    }
}

/// The validator count of the configuration in force, as its bytes
/// declare it.
pub open spec fn actual_validator_count(f: Fork) -> u64 {
    match f.lookup(actual_config_ptr()) {
        Some(ah) => match f.lookup(config_key(ah)) {
            Some(ab) => le32_value(ab.subrange(56, 60)) as u64,
            None => 0,
        },
        None => 0,
    }
}

/// The root hash over the vote slots of a proposed configuration.
fn votes_root(fork: &Fork, cfg_hash: &crate::crypto::Hash, n: u64) -> (r: crate::crypto::Hash)
    requires
        fork.wf(),
        n < 0x2000_0000,
    ensures
        r@ == list_root(vote_slots(*fork, cfg_hash@, n as nat)),
        r.wf(),
{
    let ghost slots = vote_slots(*fork, cfg_hash@, n as nat);
    let mut index: ProofListIndex<Vec<u8>> = ProofListIndex::new();
    let mut i: u64 = 0;
    while i < n
        invariant
            fork.wf(),
            slots == vote_slots(*fork, cfg_hash@, n as nat),
            cfg_hash@.len() == cfg_hash@.len(),
            i <= n < 0x2000_0000,
            index@ =~= slots.subrange(0, i as int),
        decreases n - i,
    {
        let mut key = crate::blockchain::make_tag_key(0x41, cfg_hash.as_bytes());
        let idx32 = i as u32;
        key.push((idx32 & 0xff) as u8);
        key.push(((idx32 >> 8) & 0xff) as u8);
        key.push(((idx32 >> 16) & 0xff) as u8);
        key.push(((idx32 >> 24) & 0xff) as u8);
        proof {
            assert(key@ =~= vote_key(cfg_hash@, idx32));
        }
        let slot: Vec<u8> = match fork_get(fork, &key) {
            Some(b) => b,
            None => Vec::new(),
        };
        proof {
            assert(slots[i as int] == slot@);
        }
        index.append(slot);
        proof {
            assert(index@ =~= slots.subrange(0, i as int + 1));
        }
        i = i + 1;
    }
    proof {
        assert(index@ =~= slots);
    }
    index.root_hash()
}

/// The storage schema of the configuration service: the voting record
/// of each proposed configuration and the votes cast for it.
pub struct ConfigurationSchema {}

impl ConfigurationSchema {
    /// The schema.
    pub fn new() -> (r: ConfigurationSchema)
        ensures
            true,
    {
        ConfigurationSchema {  }
    }

    /// The storage key of a proposal's voting record.
    pub fn config_data(&self, cfg_hash: &crate::crypto::Hash) -> (r: Vec<u8>)
        ensures
            r@ == config_data_key(cfg_hash@),
    {
        crate::blockchain::make_tag_key(0x40, cfg_hash.as_bytes())
    }

    /// The storage key of one validator's vote for a proposal.
    pub fn config_votes(&self, cfg_hash: &crate::crypto::Hash, validator_id: u32) -> (r: Vec<u8>)
        ensures
            r@ == vote_key(cfg_hash@, validator_id),
    {
        let mut key = crate::blockchain::make_tag_key(0x41, cfg_hash.as_bytes());
        key.push((validator_id & 0xff) as u8);
        key.push(((validator_id >> 8) & 0xff) as u8);
        key.push(((validator_id >> 16) & 0xff) as u8);
        key.push(((validator_id >> 24) & 0xff) as u8);
        proof {
            assert(key@ =~= vote_key(cfg_hash@, validator_id));
        }
        key
    }

    /// Records a proposal: stores its voting record over one vote slot
    /// per current validator. A slot with no vote yet is simply
    /// absent and contributes the empty byte string to the slot root;
    /// the record therefore needs no stored placeholder votes, and
    /// `get_votes` reports such a slot as `None`.
    pub fn put_propose(
        &self,
        fork: &mut Fork,
        cfg_hash: &crate::crypto::Hash,
        tx_propose: &TxConfigPropose,
        num_validators: u64,
    ) -> (r: Result<(), crate::storage::db::StorageError>)
        requires
            old(fork).wf(),
            tx_propose.wf(),
            1 <= num_validators < 0x2000_0000,
            tx_propose@.len() <= 0xffff_0000,
        ensures
            r is Ok,
            final(fork).wf(),
            final(fork).snap_model() == old(fork).snap_model(),
            final(fork).lookup(config_data_key(cfg_hash@)) == Some(
                voting_data_encode(
                    tx_propose@,
                    list_root(vote_slots(*old(fork), cfg_hash@, num_validators as nat)),
                    num_validators,
                ),
            ),
            forall|k: Seq<u8>| k != config_data_key(cfg_hash@) ==> #[trigger] final(fork).lookup(k)
                == old(fork).lookup(k),
    {
        let root = votes_root(fork, cfg_hash, num_validators);
        let vd = ConfigVotingData::new(
            &crate::storage::db::copy_bytes(tx_propose.raw()),
            &root,
            num_validators,
        );
        let key = self.config_data(cfg_hash);
        fork.put(key, crate::storage::db::copy_bytes(vd.raw()));
        Ok(())
    }

    /// The proposal a voting record embeds, if one is stored.
    pub fn get_propose(&self, fork: &Fork, cfg_hash: &crate::crypto::Hash) -> (r: Option<
        TxConfigPropose,
    >)
        requires
            fork.wf(),
        ensures
            match r {
                Some(tx) => match fork.lookup(config_data_key(cfg_hash@)) {
                    Some(b) => voting_data_valid(b) && tx@ == voting_data_tx(b) && tx.wf(),
                    None => false,
                },
                None => match fork.lookup(config_data_key(cfg_hash@)) {
                    Some(b) => !voting_data_valid(b) || !key_segment_valid(
                        voting_data_tx(b),
                        CONFIG_PROPOSE_MESSAGE_ID,
                        CONFIG_SERVICE,
                    ),
                    None => true,
                },
            },
    {
        let key = self.config_data(cfg_hash);
        match fork_get(fork, &key) {
            Some(bytes) => {
                if bytes.len() > 0xffff_ffff as usize {
                    return None;
                }
                match ConfigVotingData::from_raw(bytes) {
                    Some(vd) => {
                        let tx_bytes = vd.tx_propose();
                        match TxConfigPropose::from_raw(tx_bytes) {
                            Ok(tx) => Some(tx),
                            Err(_) => None,
                        }
                    },
                    None => None,
                }
            },
            None => None,
        }
    }

    /// Records one validator's vote and refreshes the voting record's
    /// slot root.
    pub fn put_vote(
        &self,
        fork: &mut Fork,
        tx_vote: &TxConfigVote,
        validator_id: u32,
    ) -> (r: Result<(), crate::storage::db::StorageError>)
        requires
            old(fork).wf(),
            tx_vote.wf(),
            validator_id < 0x2000_0000,
        ensures
            r is Ok,
            final(fork).wf(),
            final(fork).snap_model() == old(fork).snap_model(),
            match old(fork).lookup(config_data_key(tx_vote@.subrange(42, 74))) {
                Some(vdb) => if voting_data_valid(vdb) && (validator_id as u64) < voting_data_num(
                    vdb,
                ) && voting_data_num(vdb) < 0x2000_0000 {
                    ({
                        let h = tx_vote@.subrange(42, 74);
                        let n = voting_data_num(vdb);
                        let slots = vote_slots(*old(fork), h, n as nat).update(
                            validator_id as int,
                            tx_vote@,
                        );
                        &&& final(fork).lookup(vote_key(h, validator_id)) == Some(tx_vote@)
                        &&& final(fork).lookup(config_data_key(h)) == Some(
                            voting_data_encode(voting_data_tx(vdb), list_root(slots), n),
                        )
                        &&& forall|k: Seq<u8>|
                            k != vote_key(h, validator_id) && k != config_data_key(h)
                                ==> #[trigger] final(fork).lookup(k) == old(fork).lookup(k)
                    })
                } else {
                    *final(fork) == *old(fork)
                },
                None => *final(fork) == *old(fork),
            },
    {
        let cfg_hash = tx_vote.cfg_hash();
        let key = self.config_data(&cfg_hash);
        let vdb = match fork_get(fork, &key) {
            Some(b) => b,
            None => {
                return Ok(());
            },
        };
        if vdb.len() > 0xffff_ffff as usize {
            return Ok(());
        }
        let vd = match ConfigVotingData::from_raw(vdb) {
            Some(vd) => vd,
            None => {
                return Ok(());
            },
        };
        let n = vd.num_votes();
        if (validator_id as u64) >= n || n >= 0x2000_0000 {
            return Ok(());
        }
        let vkey = self.config_votes(&cfg_hash, validator_id);
        fork.put(vkey, crate::storage::db::copy_bytes(tx_vote.raw()));
        proof {
            assert forall|j: int| 0 <= j < n && j != validator_id implies #[trigger] fork.lookup(
                vote_key(cfg_hash@, j as u32),
            ) == old(fork).lookup(vote_key(cfg_hash@, j as u32)) by {
                lemma_vote_key_injective(cfg_hash@, j as u32, validator_id);
            }
            assert(vote_slots(*fork, cfg_hash@, n as nat) =~= vote_slots(
                *old(fork),
                cfg_hash@,
                n as nat,
            ).update(validator_id as int, tx_vote@));
        }
        let root = votes_root(fork, &cfg_hash, n);
        let mut vd = vd;
        vd.set_history_hash(&root);
        let key2 = self.config_data(&cfg_hash);
        fork.put(key2, crate::storage::db::copy_bytes(vd.raw()));
        proof {
            assert(config_data_key(cfg_hash@).len() == 33);
            assert(vote_key(cfg_hash@, validator_id).len() == 37);
            assert(config_data_key(cfg_hash@) != vote_key(cfg_hash@, validator_id));
        }
        Ok(())
    }

    /// Every vote slot of a proposal, one element per validator of the
    /// proposal's recorded slot count: the stored vote, or nothing for
    /// a validator that has not voted. Without a well-formed voting
    /// record there are no slots and the result is empty.
    pub fn get_votes(&self, fork: &Fork, cfg_hash: &crate::crypto::Hash) -> (r: Vec<Option<
        TxConfigVote,
    >>)
        requires
            fork.wf(),
        ensures
            match fork.lookup(config_data_key(cfg_hash@)) {
                Some(b) => if voting_data_valid(b) && voting_data_num(b) < 0x2000_0000 {
                    r@.len() == voting_data_num(b)
                } else {
                    r@.len() == 0
                },
                None => r@.len() == 0,
            },
            forall|i: int|
                0 <= i < r@.len() ==> match #[trigger] r@[i] {
                    Some(v) => fork.lookup(vote_key(cfg_hash@, i as u32)) == Some(v@) && v.wf(),
                    None => match fork.lookup(vote_key(cfg_hash@, i as u32)) {
                        Some(vb) => vb.len() > 0xffff_ffff || !key_hash_valid(
                            vb,
                            CONFIG_VOTE_MESSAGE_ID,
                            CONFIG_SERVICE,
                        ),
                        None => true,
                    },
                },
    {
        let key = self.config_data(cfg_hash);
        let vdb = match fork_get(fork, &key) {
            Some(b) => b,
            None => {
                return Vec::new();
            },
        };
        if vdb.len() > 0xffff_ffff as usize {
            return Vec::new();
        }
        let vd = match ConfigVotingData::from_raw(vdb) {
            Some(vd) => vd,
            None => {
                return Vec::new();
            },
        };
        let n = vd.num_votes();
        if n >= 0x2000_0000 {
            return Vec::new();
        }
        let mut out: Vec<Option<TxConfigVote>> = Vec::new();
        let mut i: u64 = 0;
        while i < n
            invariant
                fork.wf(),
                i <= n < 0x2000_0000,
                out@.len() == i,
                forall|j: int|
                    0 <= j < i ==> match #[trigger] out@[j] {
                        Some(v) => fork.lookup(vote_key(cfg_hash@, j as u32)) == Some(v@)
                            && v.wf(),
                        None => match fork.lookup(vote_key(cfg_hash@, j as u32)) {
                            Some(vb) => vb.len() > 0xffff_ffff || !key_hash_valid(
                                vb,
                                CONFIG_VOTE_MESSAGE_ID,
                                CONFIG_SERVICE,
                            ),
                            None => true,
                        },
                    },
            decreases n - i,
        {
            let vkey = self.config_votes(cfg_hash, i as u32);
            let slot = match fork_get(fork, &vkey) {
                Some(b) => {
                    if b.len() <= 0xffff_ffff as usize {
                        match TxConfigVote::from_raw(b) {
                            Ok(v) => Some(v),
                            Err(_) => None,
                        }
                    } else {
                        None
                    }
                },
                None => None,
            };
            out.push(slot);
            i = i + 1;
        }
        out
    }

    /// The service's state hash: the digest of the configuration
    /// table's entries.
    pub fn state_hash(&self, fork: &Fork) -> (r: Vec<crate::crypto::Hash>)
        requires
            fork.wf(),
        ensures
            r@.len() == 1,
            r@[0]@ == digest_of(
                config_table_bytes(
                    crate::storage::db::merged(fork.snap_model(), fork.chg_model()),
                ),
            ),
    {
        let entries = fork.collect_entries();
        let ghost s = crate::storage::db::merged(fork.snap_model(), fork.chg_model());
        let mut buf: Vec<u8> = Vec::new();
        let mut i: usize = 0;
        proof {
            assert(s.skip(0) =~= s);
            assert(buf@ + config_table_bytes(s.skip(0)) =~= config_table_bytes(s));
        }
        while i < entries.len()
            invariant
                i <= entries@.len(),
                crate::storage::entries_view(entries@) == s,
                buf@ + config_table_bytes(s.skip(i as int)) == config_table_bytes(s),
            decreases entries@.len() - i,
        {
            let ghost tail = s.skip(i as int);
            proof {
                assert(s.len() == entries@.len());
                assert(tail[0] == s[i as int]);
                assert(tail.skip(1) =~= s.skip(i as int + 1));
            }
            if entries[i].0.len() >= 1 && entries[i].0[0] == 0x40 {
                let ghost b0 = buf@;
                let mut p: usize = 0;
                let kref = &entries[i].0;
                while p < kref.len()
                    invariant
                        p <= kref@.len(),
                        buf@ =~= b0 + kref@.subrange(0, p as int),
                    decreases kref@.len() - p,
                {
                    buf.push(kref[p]);
                    p = p + 1;
                }
                let ghost b1 = buf@;
                let mut q: usize = 0;
                let vref = &entries[i].1;
                while q < vref.len()
                    invariant
                        q <= vref@.len(),
                        buf@ =~= b1 + vref@.subrange(0, q as int),
                    decreases vref@.len() - q,
                {
                    buf.push(vref[q]);
                    q = q + 1;
                }
                proof {
                    assert(buf@ =~= b0 + s[i as int].0 + s[i as int].1);
                    assert(config_table_bytes(tail) == s[i as int].0 + s[i as int].1
                        + config_table_bytes(tail.skip(1)));
                    assert(buf@ + config_table_bytes(s.skip(i as int + 1)) =~= config_table_bytes(
                        s,
                    ));
                }
            } else {
                proof {
                    assert(config_table_bytes(tail) == config_table_bytes(tail.skip(1)));
                }
            }
            i = i + 1;
        }
        proof {
            assert(s.skip(i as int).len() == 0);
            assert(config_table_bytes(s.skip(i as int)) =~= Seq::<u8>::empty());
            assert(buf@ =~= config_table_bytes(s));
        }
        let h = crate::crypto::hash(buf.as_slice());
        let mut r: Vec<crate::crypto::Hash> = Vec::new();
        r.push(h);
        r
    }
}

/// The concatenated entries of the configuration table, key then
/// value, in store order.
pub open spec fn config_table_bytes(s: Seq<(Seq<u8>, Seq<u8>)>) -> Seq<u8>
    decreases s.len(),
{
    if s.len() == 0 {
        Seq::empty()
    } else if s[0].0.len() >= 1 && s[0].0[0] == 0x40 {
        s[0].0 + s[0].1 + config_table_bytes(s.skip(1))
    } else {
        config_table_bytes(s.skip(1))
    }
}


/// Different vote slots store under different keys.
proof fn lemma_vote_key_injective(h: Seq<u8>, j: u32, l: u32)
    requires
        j != l,
        h.len() == 32,
    ensures
        vote_key(h, j) != vote_key(h, l),
{
    crate::encoding::lemma_le32_round_trip(j);
    crate::encoding::lemma_le32_round_trip(l);
    if vote_key(h, j) == vote_key(h, l) {
        assert(vote_key(h, j).subrange(33, 37) =~= le32_bytes(j));
        assert(vote_key(h, l).subrange(33, 37) =~= le32_bytes(l));
    }
}


/// Whether a vote passes every guard: the proposal is recorded, no
/// next configuration is scheduled, the voter is a validator of the
/// configuration in force, and the proposal still references that
/// configuration and activates in the future.
pub open spec fn vote_accepted(f: Fork, tx: Seq<u8>) -> bool {
    &&& match f.lookup(config_data_key(tx.subrange(42, 74))) {
        Some(vdb) => {
            &&& voting_data_valid(vdb)
            &&& 1 <= voting_data_num(vdb) < 0x2000_0000
            &&& {
                let pc = key_segment_data(voting_data_tx(vdb));
                &&& voting_data_tx(vdb).len() >= 114
                &&& key_segment_valid(voting_data_tx(vdb), CONFIG_PROPOSE_MESSAGE_ID,
                    CONFIG_SERVICE)
                &&& crate::blockchain::config_bytes_wf(pc)
                &&& le64_value(pc.subrange(32, 40)) > fork_height(f)
                &&& match f.lookup(actual_config_ptr()) {
                    Some(ah) => match f.lookup(config_key(ah)) {
                        Some(ab) => {
                            &&& crate::blockchain::config_bytes_wf(ab)
                            &&& config_has_key(ab, tx.subrange(10, 42))
                            &&& pc.subrange(0, 32) == digest_of(ab)
                            &&& voting_data_num(vdb) == le32_value(ab.subrange(56, 60))
                        },
                        None => false,
                    },
                    None => false,
                }
            }
        },
        None => false,
    }
    &&& f.lookup(following_config_ptr()) is None
}

/// Finds a key among a configuration's validators.
fn find_validator(cfg: &crate::blockchain::StoredConfiguration, pk: &crate::crypto::PublicKey) -> (
r: Option<usize>)
    requires
        cfg.wf(),
        pk.wf(),
    ensures
        match r {
            Some(i) => i < cfg.validators@.len() && cfg.validators@[i as int]@ == pk@ && forall|
                j: int,
            | 0 <= j < i ==> (#[trigger] cfg.validators@[j])@ != pk@,
            None => forall|i: int|
                0 <= i < cfg.validators@.len() ==> (#[trigger] cfg.validators@[i])@ != pk@,
        },
{
    let mut i: usize = 0;
    while i < cfg.validators.len()
        invariant
            cfg.wf(),
            pk.wf(),
            i <= cfg.validators@.len(),
            forall|j: int| 0 <= j < i ==> (#[trigger] cfg.validators@[j])@ != pk@,
        decreases cfg.validators@.len() - i,
    {
        if cfg.validators[i].equals(pk) {
            return Some(i);
        }
        i = i + 1;
    }
    None
}

/// The configuration in force, read through the fork.
fn read_actual_config(fork: &Fork) -> (r: Option<(
    crate::blockchain::StoredConfiguration,
    Vec<u8>,
)>)
    requires
        fork.wf(),
    ensures
        match r {
            Some((c, ab)) => match fork.lookup(actual_config_ptr()) {
                Some(ah) => fork.lookup(config_key(ah)) == Some(ab@) && c.wf() && c.model() == ab@
                    && crate::blockchain::config_bytes_wf(ab@),
                None => false,
            },
            None => match fork.lookup(actual_config_ptr()) {
                Some(ah) => match fork.lookup(config_key(ah)) {
                    Some(ab) => !crate::blockchain::config_bytes_wf(ab),
                    None => true,
                },
                None => true,
            },
        },
{
    let mut akey: Vec<u8> = Vec::new();
    akey.push(5);
    proof {
        assert(akey@ =~= actual_config_ptr());
    }
    let ah = match fork_get(fork, &akey) {
        Some(b) => b,
        None => {
            return None;
        },
    };
    let ckey = crate::blockchain::make_tag_key(5, &ah);
    proof {
        assert(ckey@ =~= config_key(ah@));
    }
    let ab = match fork_get(fork, &ckey) {
        Some(b) => b,
        None => {
            return None;
        },
    };
    match crate::blockchain::StoredConfiguration::deserialize(&ab) {
        Some(c) => Some((c, ab)),
        None => None,
    }
}

/// The height the fork's current-height cell holds.
fn read_fork_height(fork: &Fork) -> (r: u64)
    requires
        fork.wf(),
    ensures
        r == fork_height(*fork),
{
    let mut key: Vec<u8> = Vec::new();
    key.push(1);
    proof {
        assert(key@ =~= current_height_key());
    }
    match fork_get(fork, &key) {
        Some(bytes) => {
            if bytes.len() == 8 {
                let r: u64 = Field::read(&bytes, 0, 8);
                proof {
                    crate::encoding::lemma_le64_round_trip(r);
                    assert(bytes@.subrange(0, 8) =~= bytes@);
                }
                r
            } else {
                0
            }
        },
        None => 0,
    }
}

/// Whether a next configuration is already scheduled.
fn read_following_is_some(fork: &Fork) -> (r: bool)
    requires
        fork.wf(),
    ensures
        r == (fork.lookup(following_config_ptr()) is Some),
{
    let mut key: Vec<u8> = Vec::new();
    key.push(6);
    proof {
        assert(key@ =~= following_config_ptr());
    }
    fork_get(fork, &key).is_some()
}

impl TxConfigPropose {
    /// Applies the proposal: records it when every guard passes, and
    /// silently discards it otherwise. A discarded proposal is not an
    /// error.
    pub fn execute(&self, fork: &mut Fork) -> (r: Result<(), crate::storage::db::StorageError>)
        requires
            self.wf(),
            old(fork).wf(),
        ensures
            r is Ok,
            final(fork).wf(),
            final(fork).snap_model() == old(fork).snap_model(),
            !propose_accepted(*old(fork), self@) ==> *final(fork) == *old(fork),
            propose_accepted(*old(fork), self@) ==> ({
                let h = digest_of(key_segment_data(self@));
                let n = le32_value(actual_config_bytes(*old(fork)).subrange(56, 60)) as u64;
                &&& final(fork).lookup(config_data_key(h)) == Some(
                    voting_data_encode(
                        self@,
                        list_root(vote_slots(*old(fork), h, n as nat)),
                        n,
                    ),
                )
                &&& forall|k: Seq<u8>| k != config_data_key(h) ==> #[trigger] final(fork).lookup(
                    k,
                ) == old(fork).lookup(k)
            }),
    {
        if self.raw.len() > 0xffff_0000 {
            return Ok(());
        }
        if read_following_is_some(fork) {
            return Ok(());
        }
        let (actual, ab) = match read_actual_config(fork) {
            Some(p) => p,
            None => {
                return Ok(());
            },
        };
        let author = crate::messages::read_author_key(&self.raw);
        let found = find_validator(&actual, &author);
        proof {
            crate::blockchain::lemma_config_model_fields(actual);
        }
        if found.is_none() {
            proof {
                if config_has_key(ab@, self@.subrange(10, 42)) {
                    let i = choose|i: int|
                        0 <= i < le32_value(ab@.subrange(56, 60)) && #[trigger] ab@.subrange(
                            60 + 32 * i,
                            60 + 32 * i + 32,
                        ) == self@.subrange(10, 42);
                    assert(actual.validators@[i]@ == self@.subrange(10, 42));
                }
            }
            return Ok(());
        }
        let cfg_bytes = self.cfg();
        let candidate = match crate::blockchain::StoredConfiguration::deserialize(&cfg_bytes) {
            Some(c) => c,
            None => {
                return Ok(());
            },
        };
        proof {
            crate::blockchain::lemma_config_model_fields(candidate);
        }
        let actual_hash = crate::crypto::hash(ab.as_slice());
        if !candidate.previous_cfg_hash.equals(&actual_hash) {
            return Ok(());
        }
        let height = read_fork_height(fork);
        if candidate.actual_from <= height {
            return Ok(());
        }
        let cfg_hash = crate::crypto::hash(cfg_bytes.as_slice());
        let dkey = crate::blockchain::make_tag_key(0x40, cfg_hash.as_bytes());
        proof {
            assert(dkey@ =~= config_data_key(digest_of(cfg_bytes@)));
        }
        if fork_get(fork, &dkey).is_some() {
            return Ok(());
        }
        let n = actual.validators.len() as u64;
        let schema = ConfigurationSchema::new();
        proof {
            assert(config_has_key(ab@, self@.subrange(10, 42))) by {
                let i = found->Some_0 as int;
                assert(ab@.subrange(60 + 32 * i, 60 + 32 * i + 32) == actual.validators@[i]@);
            }
            assert(propose_accepted(*old(fork), self@));
            assert(actual_config_bytes(*old(fork)) == ab@);
            assert(n == le32_value(ab@.subrange(56, 60)) as u64);
        }
        let res = schema.put_propose(fork, &cfg_hash, self, n);
        res
    }
}

impl TxConfigVote {
    /// Applies the vote: records it in the sender's own validator slot
    /// when every guard passes, and schedules the proposed
    /// configuration exactly when the recorded votes reach the
    /// Byzantine quorum `2f + 1`. A discarded vote is not an error.
    #[verifier::rlimit(100)]
    pub fn execute(&self, fork: &mut Fork) -> (r: Result<(), crate::storage::db::StorageError>)
        requires
            self.wf(),
            old(fork).wf(),
        ensures
            r is Ok,
            final(fork).wf(),
            final(fork).snap_model() == old(fork).snap_model(),
            !vote_accepted(*old(fork), self@) ==> *final(fork) == *old(fork),
            vote_accepted(*old(fork), self@) ==> ({
                let h = self@.subrange(42, 74);
                let ab = actual_config_bytes(*old(fork));
                let n = le32_value(ab.subrange(56, 60)) as nat;
                let idx = sender_slot(ab, self@.subrange(10, 42));
                let vdb = old(fork).lookup(config_data_key(h))->Some_0;
                let pc = key_segment_data(voting_data_tx(vdb));
                &&& final(fork).lookup(vote_key(h, idx as u32)) == Some(self@)
                &&& final(fork).lookup(config_data_key(h)) == Some(
                    voting_data_encode(
                        voting_data_tx(vdb),
                        list_root(vote_slots(*old(fork), h, n).update(idx, self@)),
                        n as u64,
                    ),
                )
                &&& ((final(fork).lookup(following_config_ptr()) is Some) <==> votes_present(
                    *final(fork),
                    h,
                    n,
                ) >= crate::spec_byzantine_majority(n))
                &&& (final(fork).lookup(following_config_ptr()) is Some ==> final(fork).lookup(
                    following_config_ptr(),
                ) == Some(digest_of(pc)) && final(fork).lookup(config_key(digest_of(pc))) == Some(
                    pc,
                ))
                &&& forall|k: Seq<u8>|
                    k != vote_key(h, idx as u32) && k != config_data_key(h) && k
                        != following_config_ptr() && k != config_key(digest_of(pc))
                        ==> #[trigger] final(fork).lookup(k) == old(fork).lookup(k)
            }),
    {
        if read_following_is_some(fork) {
            return Ok(());
        }
        let cfg_hash = self.cfg_hash();
        let schema = ConfigurationSchema::new();
        let dkey = schema.config_data(&cfg_hash);
        let vdb = match fork_get(fork, &dkey) {
            Some(b) => b,
            None => {
                return Ok(());
            },
        };
        if vdb.len() > 0xffff_ffff as usize {
            return Ok(());
        }
        let vd = match ConfigVotingData::from_raw(vdb) {
            Some(vd) => vd,
            None => {
                return Ok(());
            },
        };
        let n = vd.num_votes();
        if n == 0 || n >= 0x2000_0000 {
            return Ok(());
        }
        let tx_bytes = vd.tx_propose();
        if tx_bytes.len() > 0xffff_ffff as usize || tx_bytes.len() < 114 {
            return Ok(());
        }
        let propose = match TxConfigPropose::from_raw(tx_bytes) {
            Ok(tx) => tx,
            Err(_) => {
                return Ok(());
            },
        };
        let pc_bytes = propose.cfg();
        let parsed = match crate::blockchain::StoredConfiguration::deserialize(&pc_bytes) {
            Some(c) => c,
            None => {
                return Ok(());
            },
        };
        proof {
            crate::blockchain::lemma_config_model_fields(parsed);
        }
        let height = read_fork_height(fork);
        if parsed.actual_from <= height {
            return Ok(());
        }
        let (actual, ab) = match read_actual_config(fork) {
            Some(p) => p,
            None => {
                return Ok(());
            },
        };
        proof {
            crate::blockchain::lemma_config_model_fields(actual);
        }
        let actual_hash = crate::crypto::hash(ab.as_slice());
        if !parsed.previous_cfg_hash.equals(&actual_hash) {
            return Ok(());
        }
        let author = crate::messages::read_author_key(&self.raw);
        let found = match find_validator(&actual, &author) {
            Some(i) => i,
            None => {
                proof {
                    if config_has_key(ab@, self@.subrange(10, 42)) {
                        let i = choose|i: int|
                            0 <= i < le32_value(ab@.subrange(56, 60)) && #[trigger] ab@.subrange(
                                60 + 32 * i,
                                60 + 32 * i + 32,
                            ) == self@.subrange(10, 42);
                        assert(actual.validators@[i]@ == self@.subrange(10, 42));
                    }
                }
                return Ok(());
            },
        };
        if (n as u64) != actual.validators.len() as u64 {
            return Ok(());
        }
        proof {
            assert(config_has_key(ab@, self@.subrange(10, 42))) by {
                let i = found as int;
                assert(ab@.subrange(60 + 32 * i, 60 + 32 * i + 32) == actual.validators@[i]@);
            }
            assert(vote_accepted(*old(fork), self@));
            assert(actual_config_bytes(*old(fork)) == ab@);
            // the found index is the first slot carrying the sender's
            // key, so it is the sender's own slot
            assert forall|j: int| 0 <= j < found implies #[trigger] ab@.subrange(
                60 + 32 * j,
                60 + 32 * j + 32,
            ) != self@.subrange(10, 42) by {
                assert(ab@.subrange(60 + 32 * j, 60 + 32 * j + 32) == actual.validators@[j]@);
            }
            lemma_sender_slot_unique(ab@, self@.subrange(10, 42), found as int);
        }
        let res = schema.put_vote(fork, self, found as u32);
        let ghost mid_fork = *fork;
        proof {
            assert(fork.lookup(vote_key(self@.subrange(42, 74), found as u32)) == Some(self@));
            assert(fork.lookup(following_config_ptr()) is None) by {
                assert(following_config_ptr().len() == 1);
                assert(vote_key(self@.subrange(42, 74), found as u32).len() == 37);
                assert(config_data_key(self@.subrange(42, 74)).len() == 33);
            }
        }
        let mut count: u64 = 0;
        let mut i: u64 = 0;
        proof {
            assert(votes_present(*fork, cfg_hash@, 0) == 0);
        }
        while i < n
            invariant
                fork.wf(),
                *fork == mid_fork,
                cfg_hash@ == self@.subrange(42, 74),
                i <= n < 0x2000_0000,
                count <= i,
                count == votes_present(*fork, cfg_hash@, i as nat),
            decreases n - i,
        {
            let vkey = schema.config_votes(&cfg_hash, i as u32);
            let present = fork_get(fork, &vkey).is_some();
            proof {
                assert(votes_present(*fork, cfg_hash@, (i + 1) as nat) == votes_present(
                    *fork,
                    cfg_hash@,
                    i as nat,
                ) + (if fork.lookup(vote_key(cfg_hash@, i as u32)) is Some {
                    1nat
                } else {
                    0nat
                }));
            }
            if present {
                count = count + 1;
            }
            i = i + 1;
        }
        let quorum = crate::byzantine_majority_count(actual.validators.len());
        if (count as usize) >= quorum {
            crate::blockchain::commit_actual_configuration(fork, &parsed);
            proof {
                assert(parsed.model() == key_segment_data(voting_data_tx(vd@)));
                assert forall|j: int| 0 <= j < n implies #[trigger] fork.lookup(
                    vote_key(cfg_hash@, j as u32),
                ) == mid_fork.lookup(vote_key(cfg_hash@, j as u32)) by {
                    assert(vote_key(cfg_hash@, j as u32)[0] == 0x41u8);
                    assert(config_key(digest_of(parsed.model()))[0] == 5u8);
                    assert(following_config_ptr()[0] == 6u8);
                    assert(vote_key(cfg_hash@, j as u32) != config_key(
                        digest_of(parsed.model()),
                    ));
                    assert(vote_key(cfg_hash@, j as u32) != following_config_ptr());
                }
                lemma_votes_present_congruent(*fork, mid_fork, cfg_hash@, n as nat);
            }
        }
        proof {
            let h = self@.subrange(42, 74);
            let vk = vote_key(h, found as u32);
            assert(vk.len() == 37);
            assert(vk[0] == 0x41u8);
            assert(config_data_key(h)[0] == 0x40u8);
            assert(config_key(digest_of(parsed.model()))[0] == 5u8);
            assert(following_config_ptr()[0] == 6u8);
            assert(vk != config_key(digest_of(parsed.model())));
            assert(vk != following_config_ptr());
            assert(config_data_key(h) != config_key(digest_of(parsed.model())));
            assert(config_data_key(h) != following_config_ptr());
            assert(fork.lookup(vk) == Some(self@));
        }
        res
    }
}

impl Transaction for ConfigTx {
    open spec fn tx_model(&self) -> Seq<u8> {
        self@
    }

    open spec fn tx_wf(&self) -> bool {
        self.wf()
    }

    open spec fn verified(&self) -> bool {
        sig_valid(self@.subrange(10, 42), self@.take(self@.len() - 64), self@.skip(self@.len() - 64))
    }

    fn verify(&self) -> (r: bool) {
        match self {
            ConfigTx::ConfigPropose(tx) => {
                let pk = crate::messages::read_author_key(tx.raw());
                crate::messages::buffer_verify(tx.raw(), &pk)
            },
            ConfigTx::ConfigVote(tx) => {
                let pk = crate::messages::read_author_key(tx.raw());
                crate::messages::buffer_verify(tx.raw(), &pk)
            },
        }
    }

    fn execute(&self, fork: &mut crate::storage::db::Fork) -> (r: Result<
        (),
        crate::storage::db::StorageError,
    >) {
        match self {
            ConfigTx::ConfigPropose(tx) => tx.execute(fork),
            ConfigTx::ConfigVote(tx) => tx.execute(fork),
        }
    }

    fn raw(&self) -> (r: &Vec<u8>) {
        match self {
            ConfigTx::ConfigPropose(tx) => tx.raw(),
            ConfigTx::ConfigVote(tx) => tx.raw(),
        }
    }

    fn hash(&self) -> (r: crate::crypto::Hash) {
        match self {
            ConfigTx::ConfigPropose(tx) => crate::crypto::hash(tx.raw().as_slice()),
            ConfigTx::ConfigVote(tx) => crate::crypto::hash(tx.raw().as_slice()),
        }
    }
}

/// The configuration service.
pub struct ConfigurationService {}

impl ConfigurationService {
    /// The service.
    pub fn new() -> (r: ConfigurationService)
        ensures
            true,
    {
        ConfigurationService {  }
    }

    /// The service's identifier.
    pub fn service_id(&self) -> (r: u16)
        ensures
            r == CONFIG_SERVICE,
    {
        CONFIG_SERVICE
    }

    /// Parses a raw transaction of this service.
    pub fn tx_from_raw(&self, raw: Vec<u8>) -> (r: Result<ConfigTx, Error>)
        requires
            raw@.len() <= 0xffff_ffff,
        ensures
            r matches Ok(tx) ==> tx@ == raw@ && tx.wf(),
            (r is Ok) == (key_segment_valid(raw@, CONFIG_PROPOSE_MESSAGE_ID, CONFIG_SERVICE)
                || key_hash_valid(raw@, CONFIG_VOTE_MESSAGE_ID, CONFIG_SERVICE)),
            r matches Ok(tx) ==> ((tx is ConfigPropose) == key_segment_valid(
                raw@,
                CONFIG_PROPOSE_MESSAGE_ID,
                CONFIG_SERVICE,
            )),
            raw@.len() >= 10 && msg_message_id(raw@) != CONFIG_PROPOSE_MESSAGE_ID
                && msg_message_id(raw@) != CONFIG_VOTE_MESSAGE_ID ==> r == Err::<ConfigTx, Error>(
                Error::IncorrectMessageType { message_type: msg_message_id(raw@) },
            ),
    {
        ConfigTx::from_raw(raw)
    }

    /// The service's state hash.
    pub fn state_hash(&self, fork: &Fork) -> (r: Vec<crate::crypto::Hash>)
        requires
            fork.wf(),
        ensures
            r@.len() == 1,
            r@[0]@ == digest_of(
                config_table_bytes(
                    crate::storage::db::merged(fork.snap_model(), fork.chg_model()),
                ),
            ),
    {
        let schema = ConfigurationSchema::new();
        schema.state_hash(fork)
    }

    /// After a commit: the scheduled configuration to switch to, when
    /// its activation height has been reached.
    pub fn handle_commit(&self, fork: &Fork, height: u64) -> (r: Option<
        crate::blockchain::StoredConfiguration,
    >)
        requires
            fork.wf(),
        ensures
            match r {
                Some(c) => c.wf() && c.actual_from <= height && (match fork.lookup(
                    following_config_ptr(),
                ) {
                    Some(fh) => fork.lookup(config_key(fh)) == Some(c.model()),
                    None => false,
                }),
                None => match fork.lookup(following_config_ptr()) {
                    Some(fh) => match fork.lookup(config_key(fh)) {
                        Some(cb) => !crate::blockchain::config_bytes_wf(cb) || le64_value(
                            cb.subrange(32, 40),
                        ) > height,
                        None => true,
                    },
                    None => true,
                },
            },
    {
        let mut key: Vec<u8> = Vec::new();
        key.push(6);
        proof {
            assert(key@ =~= following_config_ptr());
        }
        let fh = match fork_get(fork, &key) {
            Some(b) => b,
            None => {
                return None;
            },
        };
        let ckey = crate::blockchain::make_tag_key(5, &fh);
        proof {
            assert(ckey@ =~= config_key(fh@));
        }
        let cb = match fork_get(fork, &ckey) {
            Some(b) => b,
            None => {
                return None;
            },
        };
        match crate::blockchain::StoredConfiguration::deserialize(&cb) {
            Some(c) => {
                proof {
                    crate::blockchain::lemma_config_model_fields(c);
                }
                if c.actual_from <= height {
                    Some(c)
                } else {
                    None
                }
            },
            None => None,
        }
    }
}

} // verus!
