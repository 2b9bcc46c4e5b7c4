//! The chain's persistent shape: block headers, precommit messages,
//! the logical key-value layout, and the configuration records that
//! govern the validator set.

use vstd::prelude::*;

use crate::crypto::{digest_of, sig_valid};
use crate::encoding::{le32_bytes, le32_value, le64_bytes, le64_value, Error, Field};
use crate::messages::{
    msg_message_id, msg_service_id, read_hash_at, sealed, unsigned_header, with_len,
};
use crate::spec_byzantine_majority;

verus! {

/// Message id of a precommit vote.
pub const PRECOMMIT_MESSAGE_ID: u16 = 4;

/// Service id of the consensus message class.
pub const CONSENSUS_SERVICE_ID: u16 = 0;

/// A block header: one fixed 114-byte record. Its hash is the block
/// hash the votes and the height table refer to.
pub struct Block {
    raw: Vec<u8>,
}

/// The canonical bytes of a block header.
pub open spec fn block_encode(
    version: u16,
    prev_hash: Seq<u8>,
    height: u64,
    proposer: u32,
    tx_count: u32,
    tx_hash: Seq<u8>,
    state_hash: Seq<u8>,
) -> Seq<u8> {
    crate::encoding::le16_bytes(version) + prev_hash + le64_bytes(height) + le32_bytes(proposer)
        + le32_bytes(tx_count) + tx_hash + state_hash
}

impl Block {
    /// The header's bytes.
    pub closed spec fn view(&self) -> Seq<u8> {
        self.raw@
    }

    /// A header is well formed when it has exactly the record's size.
    pub open spec fn wf(&self) -> bool {
        self@.len() == 114
    }

    /// Builds a header from its fields.
    pub fn new(
        version: u16,
        prev_hash: &crate::crypto::Hash,
        height: u64,
        proposer: u32,
        tx_count: u32,
        tx_hash: &crate::crypto::Hash,
        state_hash: &crate::crypto::Hash,
    ) -> (r: Block)
        requires
            prev_hash.wf(),
            tx_hash.wf(),
            state_hash.wf(),
        ensures
            r@ == block_encode(
                version,
                prev_hash@,
                height,
                proposer,
                tx_count,
                tx_hash@,
                state_hash@,
            ),
            r.wf(),
    {
        let mut raw: Vec<u8> = Vec::new();
        let mut i: usize = 0;
        while i < 114
            invariant
                i <= 114,
                raw@.len() == i,
            decreases 114 - i,
        {
            raw.push(0);
            i = i + 1;
        }
        Field::write(&version, &mut raw, 0, 2);
        Field::write(prev_hash, &mut raw, 2, 34);
        Field::write(&height, &mut raw, 34, 42);
        Field::write(&proposer, &mut raw, 42, 46);
        Field::write(&tx_count, &mut raw, 46, 50);
        Field::write(tx_hash, &mut raw, 50, 82);
        Field::write(state_hash, &mut raw, 82, 114);
        proof {
            assert(raw@ =~= block_encode(
                version,
                prev_hash@,
                height,
                proposer,
                tx_count,
                tx_hash@,
                state_hash@,
            ));
        }
        Block { raw }
    }

    /// Wraps raw header bytes.
    pub fn from_raw(raw: Vec<u8>) -> (r: Option<Block>)
        ensures
            match r {
                Some(b) => raw@.len() == 114 && b@ == raw@,
                None => raw@.len() != 114,
            },
    {
        if raw.len() == 114 {
            Some(Block { raw })
        } else {
            None
        }
    }

    /// The header's raw bytes.
    pub fn raw(&self) -> (r: &Vec<u8>)
        ensures
            r@ == self@,
    {
        &self.raw
    }

    /// The block hash: the digest of the header bytes.
    pub fn hash(&self) -> (r: crate::crypto::Hash)
        ensures
            r@ == digest_of(self@),
            r.wf(),
    {
        crate::crypto::hash(self.raw.as_slice())
    }

    /// The previous block's hash.
    pub fn prev_hash(&self) -> (r: crate::crypto::Hash)
        requires
            self.wf(),
        ensures
            r@ == self@.subrange(2, 34),
            r.wf(),
    {
        read_hash_at(&self.raw, 2)
    }

    /// The block's height.
    pub fn height(&self) -> (r: u64)
        requires
            self.wf(),
        ensures
            r == le64_value(self@.subrange(34, 42)),
    {
        let r: u64 = Field::read(&self.raw, 34, 42);
        proof {
            crate::encoding::lemma_le64_round_trip(r);
        }
        r
    }

    /// The proposer's validator ordinal.
    pub fn proposer(&self) -> (r: u32)
        requires
            self.wf(),
        ensures
            r == le32_value(self@.subrange(42, 46)),
    {
        let r: u32 = Field::read(&self.raw, 42, 46);
        proof {
            crate::encoding::lemma_le32_round_trip(r);
        }
        r
    }

    /// The number of transactions the block commits.
    pub fn tx_count(&self) -> (r: u32)
        requires
            self.wf(),
        ensures
            r == le32_value(self@.subrange(46, 50)),
    {
        let r: u32 = Field::read(&self.raw, 46, 50);
        proof {
            crate::encoding::lemma_le32_round_trip(r);
        }
        r
    }

    /// The Merkle root of the block's transactions.
    pub fn tx_hash(&self) -> (r: crate::crypto::Hash)
        requires
            self.wf(),
        ensures
            r@ == self@.subrange(50, 82),
            r.wf(),
    {
        read_hash_at(&self.raw, 50)
    }

    /// The state root after the block's transactions.
    pub fn state_hash(&self) -> (r: crate::crypto::Hash)
        requires
            self.wf(),
        ensures
            r@ == self@.subrange(82, 114),
            r.wf(),
    {
        read_hash_at(&self.raw, 82)
    }
}

impl crate::storage::proof_list_index::StorageValue for Block {
    open spec fn value_model(&self) -> Seq<u8> {
        self@
    }

    fn serialize(self) -> (r: Vec<u8>) {
        self.raw
    }

    fn deserialize(bytes: Vec<u8>) -> (r: Block) {
        Block { raw: bytes }
    }

    fn clone_value(&self) -> (r: Block) {
        Block { raw: crate::storage::db::copy_bytes(&self.raw) }
    }

    fn hash(&self) -> (r: crate::crypto::Hash) {
        crate::crypto::hash(self.raw.as_slice())
    }
}

/// The unsigned bytes of a precommit vote.
pub open spec fn precommit_unsigned(
    validator: u32,
    height: u64,
    round: u32,
    propose_hash: Seq<u8>,
    block_hash: Seq<u8>,
) -> Seq<u8> {
    unsigned_header(PRECOMMIT_MESSAGE_ID, CONSENSUS_SERVICE_ID) + le32_bytes(validator)
        + le64_bytes(height) + le32_bytes(round) + propose_hash + block_hash
}

/// Whether a buffer is an acceptable precommit.
pub open spec fn precommit_valid(b: Seq<u8>) -> bool {
    b.len() >= 154 && msg_message_id(b) == PRECOMMIT_MESSAGE_ID && msg_service_id(b)
        == CONSENSUS_SERVICE_ID
}

/// A validator's vote to commit a specific block at a height and
/// round: the second voting stage of the consensus protocol.
pub struct Precommit {
    raw: Vec<u8>,
}

impl Precommit {
    /// The vote's bytes.
    pub closed spec fn view(&self) -> Seq<u8> {
        self.raw@
    }

    /// The vote parses as a precommit.
    pub open spec fn wf(&self) -> bool {
        precommit_valid(self@)
    }

    /// The voting validator's ordinal, as stored.
    pub open spec fn validator_model(&self) -> u32 {
        le32_value(self@.subrange(10, 14))
    }

    /// The vote's height, as stored.
    pub open spec fn height_model(&self) -> u64 {
        le64_value(self@.subrange(14, 22))
    }

    /// The vote's round, as stored.
    pub open spec fn round_model(&self) -> u32 {
        le32_value(self@.subrange(22, 26))
    }

    /// The hash of the propose voted on, as stored.
    pub open spec fn propose_hash_model(&self) -> Seq<u8> {
        self@.subrange(26, 58)
    }

    /// The hash of the block voted on, as stored.
    pub open spec fn block_hash_model(&self) -> Seq<u8> {
        self@.subrange(58, 90)
    }

    /// Builds and signs a precommit.
    pub fn new(
        validator: u32,
        height: u64,
        round: u32,
        propose_hash: &crate::crypto::Hash,
        block_hash: &crate::crypto::Hash,
        sk: &crate::crypto::SecretKey,
    ) -> (r: Precommit)
        requires
            propose_hash.wf(),
            block_hash.wf(),
            sk.wf(),
        ensures
            r@ == sealed(
                precommit_unsigned(validator, height, round, propose_hash@, block_hash@),
                sk@,
            ),
            r.wf(),
            r.validator_model() == validator,
            r.height_model() == height,
            r.round_model() == round,
            r.propose_hash_model() == propose_hash@,
            r.block_hash_model() == block_hash@,
            sig_valid(
                crate::crypto::pub_of(sk@),
                r@.take(r@.len() - 64),
                r@.skip(r@.len() - 64),
            ),
    {
        let mut buf = crate::messages::make_buffer(
            PRECOMMIT_MESSAGE_ID,
            CONSENSUS_SERVICE_ID,
            80,
        );
        Field::write(&validator, &mut buf, 10, 14);
        Field::write(&height, &mut buf, 14, 22);
        Field::write(&round, &mut buf, 22, 26);
        Field::write(propose_hash, &mut buf, 26, 58);
        Field::write(block_hash, &mut buf, 58, 90);
        proof {
            assert(buf@ =~= precommit_unsigned(
                validator,
                height,
                round,
                propose_hash@,
                block_hash@,
            ));
        }
        let raw = crate::messages::seal(buf, sk);
        let r = Precommit { raw };
        proof {
            let u = precommit_unsigned(validator, height, round, propose_hash@, block_hash@);
            let b = r@;
            assert(b.subrange(2, 4) =~= crate::encoding::le16_bytes(PRECOMMIT_MESSAGE_ID));
            assert(b.subrange(4, 6) =~= crate::encoding::le16_bytes(CONSENSUS_SERVICE_ID));
            crate::encoding::lemma_le16_round_trip(PRECOMMIT_MESSAGE_ID);
            crate::encoding::lemma_le16_round_trip(CONSENSUS_SERVICE_ID);
            assert(b.subrange(10, 14) =~= le32_bytes(validator));
            assert(b.subrange(14, 22) =~= le64_bytes(height));
            assert(b.subrange(22, 26) =~= le32_bytes(round));
            crate::encoding::lemma_le32_round_trip(validator);
            crate::encoding::lemma_le64_round_trip(height);
            crate::encoding::lemma_le32_round_trip(round);
            assert(b.subrange(26, 58) =~= propose_hash@);
            assert(b.subrange(58, 90) =~= block_hash@);
            assert(b.take(b.len() - 64) =~= with_len(u));
        }
        r
    }

    /// Wraps a received buffer, accepting exactly the precommit shape.
    pub fn from_raw(raw: Vec<u8>) -> (r: Result<Precommit, Error>)
        requires
            raw@.len() <= 0xffff_ffff,
        ensures
            (r is Ok) == precommit_valid(raw@),
            r matches Ok(p) ==> p@ == raw@,
    {
        if raw.len() < 154 {
            return Err(Error::UnexpectedlyShortPayload {
                actual_size: raw.len() as u32,
                minimum_size: 154,
            });
        }
        let got_mid: u16 = Field::read(&raw, 2, 4);
        let got_sid: u16 = Field::read(&raw, 4, 6);
        proof {
            crate::encoding::lemma_le16_round_trip(got_mid);
            crate::encoding::lemma_le16_round_trip(got_sid);
        }
        if got_mid != PRECOMMIT_MESSAGE_ID || got_sid != CONSENSUS_SERVICE_ID {
            return Err(Error::IncorrectMessageType { message_type: got_mid });
        }
        Ok(Precommit { raw })
    }

    /// The vote's raw bytes.
    pub fn raw(&self) -> (r: &Vec<u8>)
        ensures
            r@ == self@,
    {
        &self.raw
    }

    /// The voting validator's ordinal.
    pub fn validator(&self) -> (r: u32)
        requires
            self.wf(),
        ensures
            r == self.validator_model(),
    {
        let r: u32 = Field::read(&self.raw, 10, 14);
        proof {
            crate::encoding::lemma_le32_round_trip(r);
        }
        r
    }

    /// The vote's height.
    pub fn height(&self) -> (r: u64)
        requires
            self.wf(),
        ensures
            r == self.height_model(),
    {
        let r: u64 = Field::read(&self.raw, 14, 22);
        proof {
            crate::encoding::lemma_le64_round_trip(r);
        }
        r
    }

    /// The vote's round.
    pub fn round(&self) -> (r: u32)
        requires
            self.wf(),
        ensures
            r == self.round_model(),
    {
        let r: u32 = Field::read(&self.raw, 22, 26);
        proof {
            crate::encoding::lemma_le32_round_trip(r);
        }
        r
    }

    /// The hash of the propose voted on.
    pub fn propose_hash(&self) -> (r: crate::crypto::Hash)
        requires
            self.wf(),
        ensures
            r@ == self.propose_hash_model(),
            r.wf(),
    {
        read_hash_at(&self.raw, 26)
    }

    /// The hash of the block voted on.
    pub fn block_hash(&self) -> (r: crate::crypto::Hash)
        requires
            self.wf(),
        ensures
            r@ == self.block_hash_model(),
            r.wf(),
    {
        read_hash_at(&self.raw, 58)
    }

    /// Checks the vote's signature under a public key.
    pub fn verify(&self, pk: &crate::crypto::PublicKey) -> (r: bool)
        requires
            self.wf(),
            pk.wf(),
        ensures
            r == sig_valid(pk@, self@.take(self@.len() - 64), self@.skip(self@.len() - 64)),
    {
        crate::messages::buffer_verify(&self.raw, pk)
    }
}

/// Message id of a propose.
pub const PROPOSE_MESSAGE_ID: u16 = 1;

/// The concatenated bytes of a list of hashes.
pub open spec fn hashes_encode(hs: Seq<crate::crypto::Hash>) -> Seq<u8>
    decreases hs.len(),
{
    if hs.len() == 0 {
        Seq::empty()
    } else {
        hs[0]@ + hashes_encode(hs.skip(1))
    }
}

/// Appending a hash appends its bytes.
pub proof fn lemma_hashes_encode_push(hs: Seq<crate::crypto::Hash>, h: crate::crypto::Hash)
    ensures
        hashes_encode(hs.push(h)) == hashes_encode(hs) + h@,
    decreases hs.len(),
{
    if hs.len() == 0 {
        assert(hs.push(h)[0] == h);
        assert(hs.push(h).skip(1) =~= Seq::<crate::crypto::Hash>::empty());
        assert(hashes_encode(hs.push(h)) == hs.push(h)[0]@ + hashes_encode(hs.push(h).skip(1)));
        assert(hashes_encode(Seq::<crate::crypto::Hash>::empty()) == Seq::<u8>::empty());
        assert(hashes_encode(hs) == Seq::<u8>::empty());
        assert(hashes_encode(hs.push(h)) =~= hashes_encode(hs) + h@);
    } else {
        assert(hs.push(h).skip(1) =~= hs.skip(1).push(h));
        lemma_hashes_encode_push(hs.skip(1), h);
        assert(hs.push(h)[0] == hs[0]);
        assert(hashes_encode(hs.push(h)) == hs.push(h)[0]@ + hashes_encode(hs.push(h).skip(1)));
        assert(hashes_encode(hs.push(h)) =~= hashes_encode(hs) + h@);
    }
}

/// Every hash of a well-formed list contributes exactly 32 bytes.
pub proof fn lemma_hashes_encode_len(hs: Seq<crate::crypto::Hash>)
    requires
        forall|i: int| 0 <= i < hs.len() ==> (#[trigger] hs[i]).wf(),
    ensures
        hashes_encode(hs).len() == 32 * hs.len(),
        forall|i: int|
            0 <= i < hs.len() ==> #[trigger] hashes_encode(hs).subrange(32 * i, 32 * i + 32)
                == hs[i]@,
    decreases hs.len(),
{
    if hs.len() > 0 {
        assert(forall|i: int| 0 <= i < hs.skip(1).len() ==> hs.skip(1)[i] == hs[i + 1]);
        lemma_hashes_encode_len(hs.skip(1));
        assert(hs[0].wf());
        assert forall|i: int| 0 <= i < hs.len() implies #[trigger] hashes_encode(hs).subrange(
            32 * i,
            32 * i + 32,
        ) == hs[i]@ by {
            if i == 0 {
                assert(hashes_encode(hs).subrange(0, 32) =~= hs[0]@);
            } else {
                assert(hashes_encode(hs.skip(1)).subrange(32 * (i - 1), 32 * (i - 1) + 32)
                    == hs.skip(1)[i - 1]@);
                assert(hashes_encode(hs).subrange(32 * i, 32 * i + 32) =~= hashes_encode(
                    hs.skip(1),
                ).subrange(32 * (i - 1), 32 * (i - 1) + 32));
            }
        }
    }
}

/// The unsigned bytes of a propose.
pub open spec fn propose_unsigned(
    validator: u32,
    height: u64,
    round: u32,
    prev_hash: Seq<u8>,
    txs: Seq<crate::crypto::Hash>,
) -> Seq<u8> {
    unsigned_header(PROPOSE_MESSAGE_ID, CONSENSUS_SERVICE_ID) + le32_bytes(validator) + le64_bytes(
        height,
    ) + le32_bytes(round) + prev_hash + le32_bytes(66) + le32_bytes((32 * txs.len()) as u32)
        + hashes_encode(txs)
}

/// Whether a buffer is an acceptable propose: framed right, and its
/// transaction segment a whole number of hashes inside the tail.
pub open spec fn propose_valid(b: Seq<u8>) -> bool {
    &&& b.len() >= 130
    &&& msg_message_id(b) == PROPOSE_MESSAGE_ID
    &&& msg_service_id(b) == CONSENSUS_SERVICE_ID
    &&& {
        let pos = le32_value(b.subrange(58, 62)) as int;
        let cnt = le32_value(b.subrange(62, 66)) as int;
        cnt == 0 || (pos >= 66 && pos + cnt <= b.len() - 64 && cnt % 32 == 0)
    }
}

/// The transaction-hash bytes a propose carries, in order.
pub open spec fn propose_tx_bytes(b: Seq<u8>) -> Seq<u8> {
    let pos = le32_value(b.subrange(58, 62)) as int;
    let cnt = le32_value(b.subrange(62, 66)) as int;
    if cnt == 0 {
        Seq::empty()
    } else {
        b.subrange(pos, pos + cnt)
    }
}

/// A proposer's declaration of a candidate block body: its position in
/// the chain and the ordered hashes of the transactions it commits.
pub struct Propose {
    raw: Vec<u8>,
}

impl Propose {
    /// The propose's bytes.
    pub closed spec fn view(&self) -> Seq<u8> {
        self.raw@
    }

    /// The buffer parses as a propose.
    pub open spec fn wf(&self) -> bool {
        propose_valid(self@)
    }

    /// The proposing validator's ordinal, as stored.
    pub open spec fn validator_model(&self) -> u32 {
        le32_value(self@.subrange(10, 14))
    }

    /// The propose's height, as stored.
    pub open spec fn height_model(&self) -> u64 {
        le64_value(self@.subrange(14, 22))
    }

    /// The propose's round, as stored.
    pub open spec fn round_model(&self) -> u32 {
        le32_value(self@.subrange(22, 26))
    }

    /// The previous block's hash, as stored.
    pub open spec fn prev_hash_model(&self) -> Seq<u8> {
        self@.subrange(26, 58)
    }

    /// The transaction-hash bytes, as stored.
    pub open spec fn tx_bytes_model(&self) -> Seq<u8> {
        propose_tx_bytes(self@)
    }

    /// Builds and signs a propose.
    #[verifier::rlimit(100)]
    pub fn new(
        validator: u32,
        height: u64,
        round: u32,
        prev_hash: &crate::crypto::Hash,
        transactions: &Vec<crate::crypto::Hash>,
        sk: &crate::crypto::SecretKey,
    ) -> (r: Propose)
        requires
            prev_hash.wf(),
            sk.wf(),
            forall|i: int| 0 <= i < transactions@.len() ==> (#[trigger] transactions@[i]).wf(),
            transactions@.len() < 0x10_0000,
        ensures
            r@ == sealed(
                propose_unsigned(validator, height, round, prev_hash@, transactions@),
                sk@,
            ),
            r.wf(),
            r.validator_model() == validator,
            r.height_model() == height,
            r.round_model() == round,
            r.prev_hash_model() == prev_hash@,
            r.tx_bytes_model() == hashes_encode(transactions@),
            sig_valid(
                crate::crypto::pub_of(sk@),
                r@.take(r@.len() - 64),
                r@.skip(r@.len() - 64),
            ),
    {
        let mut buf = crate::messages::make_buffer(PROPOSE_MESSAGE_ID, CONSENSUS_SERVICE_ID, 56);
        Field::write(&validator, &mut buf, 10, 14);
        Field::write(&height, &mut buf, 14, 22);
        Field::write(&round, &mut buf, 22, 26);
        Field::write(prev_hash, &mut buf, 26, 58);
        let mut seg: Vec<u8> = Vec::new();
        let mut i: usize = 0;
        while i < transactions.len()
            invariant
                i <= transactions@.len(),
                transactions@.len() < 0x10_0000,
                forall|j: int| 0 <= j < transactions@.len() ==> (#[trigger] transactions@[j]).wf(),
                seg@ =~= hashes_encode(transactions@.take(i as int)),
                seg@.len() == 32 * i,
            decreases transactions@.len() - i,
        {
            let hb = transactions[i].as_bytes();
            let ghost s0 = seg@;
            let mut p: usize = 0;
            while p < hb.len()
                invariant
                    p <= hb@.len(),
                    seg@ =~= s0 + hb@.subrange(0, p as int),
                decreases hb@.len() - p,
            {
                seg.push(hb[p]);
                p = p + 1;
            }
            proof {
                assert(seg@ =~= s0 + hb@);
                assert(transactions@.take(i as int).push(transactions@[i as int])
                    =~= transactions@.take(i as int + 1));
                lemma_hashes_encode_push(
                    transactions@.take(i as int),
                    transactions@[i as int],
                );
            }
            i = i + 1;
        }
        proof {
            assert(transactions@.take(transactions@.len() as int) =~= transactions@);
        }
        crate::messages::append_segment(&mut buf, 58, &seg);
        proof {
            assert(buf@ =~= propose_unsigned(validator, height, round, prev_hash@,
                transactions@));
        }
        let raw = crate::messages::seal(buf, sk);
        let r = Propose { raw };
        proof {
            let u = propose_unsigned(validator, height, round, prev_hash@, transactions@);
            let b = r@;
            assert(b.subrange(2, 4) =~= crate::encoding::le16_bytes(PROPOSE_MESSAGE_ID));
            assert(b.subrange(4, 6) =~= crate::encoding::le16_bytes(CONSENSUS_SERVICE_ID));
            crate::encoding::lemma_le16_round_trip(PROPOSE_MESSAGE_ID);
            crate::encoding::lemma_le16_round_trip(CONSENSUS_SERVICE_ID);
            assert(b.subrange(10, 14) =~= le32_bytes(validator));
            assert(b.subrange(14, 22) =~= le64_bytes(height));
            assert(b.subrange(22, 26) =~= le32_bytes(round));
            assert(b.subrange(26, 58) =~= prev_hash@);
            assert(b.subrange(58, 62) =~= le32_bytes(66));
            assert(b.subrange(62, 66) =~= le32_bytes((32 * transactions@.len()) as u32));
            crate::encoding::lemma_le32_round_trip(validator);
            crate::encoding::lemma_le64_round_trip(height);
            crate::encoding::lemma_le32_round_trip(round);
            crate::encoding::lemma_le32_round_trip(66);
            crate::encoding::lemma_le32_round_trip((32 * transactions@.len()) as u32);
            lemma_hashes_encode_len(transactions@);
            if transactions@.len() > 0 {
                assert(b.subrange(66, 66 + 32 * transactions@.len() as int) =~= hashes_encode(
                    transactions@,
                ));
            } else {
                assert(propose_tx_bytes(b) =~= hashes_encode(transactions@));
            }
            assert(b.take(b.len() - 64) =~= with_len(u));
        }
        r
    }

    /// Wraps a received buffer, accepting exactly the propose shape.
    pub fn from_raw(raw: Vec<u8>) -> (r: Result<Propose, Error>)
        requires
            raw@.len() <= 0xffff_ffff,
        ensures
            (r is Ok) == propose_valid(raw@),
            r matches Ok(p) ==> p@ == raw@,
    {
        if raw.len() < 130 {
            return Err(Error::UnexpectedlyShortPayload {
                actual_size: raw.len() as u32,
                minimum_size: 130,
            });
        }
        let got_mid: u16 = Field::read(&raw, 2, 4);
        let got_sid: u16 = Field::read(&raw, 4, 6);
        proof {
            crate::encoding::lemma_le16_round_trip(got_mid);
            crate::encoding::lemma_le16_round_trip(got_sid);
        }
        if got_mid != PROPOSE_MESSAGE_ID || got_sid != CONSENSUS_SERVICE_ID {
            return Err(Error::IncorrectMessageType { message_type: got_mid });
        }
        let pos: u32 = Field::read(&raw, 58, 62);
        let cnt: u32 = Field::read(&raw, 62, 66);
        proof {
            crate::encoding::lemma_le32_round_trip(pos);
            crate::encoding::lemma_le32_round_trip(cnt);
        }
        if cnt == 0 {
            return Ok(Propose { raw });
        }
        if pos < 66 {
            return Err(Error::IncorrectSegmentReference { position: 58, value: pos });
        }
        if (pos as u64) + (cnt as u64) > (raw.len() - 64) as u64 || cnt % 32 != 0 {
            return Err(Error::IncorrectSegmentSize { position: 62, value: cnt });
        }
        Ok(Propose { raw })
    }

    /// The propose's raw bytes.
    pub fn raw(&self) -> (r: &Vec<u8>)
        ensures
            r@ == self@,
    {
        &self.raw
    }

    /// The proposing validator's ordinal.
    pub fn validator(&self) -> (r: u32)
        requires
            self.wf(),
        ensures
            r == self.validator_model(),
    {
        let r: u32 = Field::read(&self.raw, 10, 14);
        proof {
            crate::encoding::lemma_le32_round_trip(r);
        }
        r
    }

    /// The propose's height.
    pub fn height(&self) -> (r: u64)
        requires
            self.wf(),
        ensures
            r == self.height_model(),
    {
        let r: u64 = Field::read(&self.raw, 14, 22);
        proof {
            crate::encoding::lemma_le64_round_trip(r);
        }
        r
    }

    /// The propose's round.
    pub fn round(&self) -> (r: u32)
        requires
            self.wf(),
        ensures
            r == self.round_model(),
    {
        let r: u32 = Field::read(&self.raw, 22, 26);
        proof {
            crate::encoding::lemma_le32_round_trip(r);
        }
        r
    }

    /// The previous block's hash.
    pub fn prev_hash(&self) -> (r: crate::crypto::Hash)
        requires
            self.wf(),
        ensures
            r@ == self.prev_hash_model(),
            r.wf(),
    {
        read_hash_at(&self.raw, 26)
    }

    /// The ordered transaction hashes the propose commits to.
    pub fn transactions(&self) -> (r: Vec<crate::crypto::Hash>)
        requires
            self.wf(),
        ensures
            32 * r@.len() == self.tx_bytes_model().len(),
            forall|i: int|
                0 <= i < r@.len() ==> (#[trigger] r@[i])@ == self.tx_bytes_model().subrange(
                    32 * i,
                    32 * i + 32,
                ) && r@[i].wf(),
    {
        let pos: u32 = Field::read(&self.raw, 58, 62);
        let cnt: u32 = Field::read(&self.raw, 62, 66);
        proof {
            crate::encoding::lemma_le32_round_trip(pos);
            crate::encoding::lemma_le32_round_trip(cnt);
        }
        let mut r: Vec<crate::crypto::Hash> = Vec::new();
        if cnt == 0 {
            return r;
        }
        let k = (cnt / 32) as usize;
        let rlen = self.raw.len();
        let ghost seg = propose_tx_bytes(self@);
        let mut i: usize = 0;
        while i < k
            invariant
                self.wf(),
                seg == propose_tx_bytes(self@),
                le32_value(self@.subrange(58, 62)) == pos,
                le32_value(self@.subrange(62, 66)) == cnt,
                cnt != 0,
                cnt % 32 == 0,
                k == cnt as int / 32,
                pos >= 66,
                pos + cnt <= self@.len() - 64,
                rlen == self@.len(),
                i <= k,
                r@.len() == i,
                forall|j: int|
                    0 <= j < i ==> (#[trigger] r@[j])@ == seg.subrange(32 * j, 32 * j + 32)
                        && r@[j].wf(),
            decreases k - i,
        {
            proof {
                assert(32 * (i as int) + 32 <= cnt) by (nonlinear_arith)
                    requires
                        0 <= i < k,
                        k == cnt as int / 32,
                        cnt % 32 == 0,
                        cnt >= 0,
                ;
                assert((pos as int) + 32 * (i as int) + 32 <= rlen);
                assert(32 * (i as int) == (i as int) * 32) by (nonlinear_arith);
            }
            let h = read_hash_at(&self.raw, (pos as usize) + i * 32);
            proof {
                assert(h@ =~= seg.subrange(32 * (i as int), 32 * (i as int) + 32));
            }
            r.push(h);
            i = i + 1;
        }
        proof {
            assert(32 * (k as int) == cnt) by (nonlinear_arith)
                requires
                    k == cnt as int / 32,
                    cnt % 32 == 0,
                    cnt >= 0,
            ;
        }
        r
    }

    /// Checks the propose's signature under a public key.
    pub fn verify(&self, pk: &crate::crypto::PublicKey) -> (r: bool)
        requires
            self.wf(),
            pk.wf(),
        ensures
            r == sig_valid(pk@, self@.take(self@.len() - 64), self@.skip(self@.len() - 64)),
    {
        crate::messages::buffer_verify(&self.raw, pk)
    }
}

/// Message id of a prevote.
pub const PREVOTE_MESSAGE_ID: u16 = 3;

/// The unsigned bytes of a prevote.
pub open spec fn prevote_unsigned(
    validator: u32,
    height: u64,
    round: u32,
    propose_hash: Seq<u8>,
    locked_round: u32,
) -> Seq<u8> {
    unsigned_header(PREVOTE_MESSAGE_ID, CONSENSUS_SERVICE_ID) + le32_bytes(validator) + le64_bytes(
        height,
    ) + le32_bytes(round) + propose_hash + le32_bytes(locked_round)
}

/// Whether a buffer is an acceptable prevote.
pub open spec fn prevote_valid(b: Seq<u8>) -> bool {
    b.len() >= 126 && msg_message_id(b) == PREVOTE_MESSAGE_ID && msg_service_id(b)
        == CONSENSUS_SERVICE_ID
}

/// A validator's vote for a propose at a height and round, carrying
/// the round it is locked on: the first voting stage of the consensus
/// protocol.
pub struct Prevote {
    raw: Vec<u8>,
}

impl Prevote {
    /// The vote's bytes.
    pub closed spec fn view(&self) -> Seq<u8> {
        self.raw@
    }

    /// The vote parses as a prevote.
    pub open spec fn wf(&self) -> bool {
        prevote_valid(self@)
    }

    /// The voting validator's ordinal, as stored.
    pub open spec fn validator_model(&self) -> u32 {
        le32_value(self@.subrange(10, 14))
    }

    /// The vote's height, as stored.
    pub open spec fn height_model(&self) -> u64 {
        le64_value(self@.subrange(14, 22))
    }

    /// The vote's round, as stored.
    pub open spec fn round_model(&self) -> u32 {
        le32_value(self@.subrange(22, 26))
    }

    /// The hash of the propose voted for, as stored.
    pub open spec fn propose_hash_model(&self) -> Seq<u8> {
        self@.subrange(26, 58)
    }

    /// The round the voter is locked on, as stored.
    pub open spec fn locked_round_model(&self) -> u32 {
        le32_value(self@.subrange(58, 62))
    }

    /// Builds and signs a prevote.
    #[verifier::rlimit(60)]
    pub fn new(
        validator: u32,
        height: u64,
        round: u32,
        propose_hash: &crate::crypto::Hash,
        locked_round: u32,
        sk: &crate::crypto::SecretKey,
    ) -> (r: Prevote)
        requires
            propose_hash.wf(),
            sk.wf(),
        ensures
            r@ == sealed(
                prevote_unsigned(validator, height, round, propose_hash@, locked_round),
                sk@,
            ),
            r.wf(),
            r.validator_model() == validator,
            r.height_model() == height,
            r.round_model() == round,
            r.propose_hash_model() == propose_hash@,
            r.locked_round_model() == locked_round,
            sig_valid(
                crate::crypto::pub_of(sk@),
                r@.take(r@.len() - 64),
                r@.skip(r@.len() - 64),
            ),
    {
        let mut buf = crate::messages::make_buffer(PREVOTE_MESSAGE_ID, CONSENSUS_SERVICE_ID, 52);
        Field::write(&validator, &mut buf, 10, 14);
        Field::write(&height, &mut buf, 14, 22);
        Field::write(&round, &mut buf, 22, 26);
        Field::write(propose_hash, &mut buf, 26, 58);
        Field::write(&locked_round, &mut buf, 58, 62);
        proof {
            assert(buf@ =~= prevote_unsigned(validator, height, round, propose_hash@,
                locked_round));
        }
        let raw = crate::messages::seal(buf, sk);
        let r = Prevote { raw };
        proof {
            let u = prevote_unsigned(validator, height, round, propose_hash@, locked_round);
            let b = r@;
            assert(b.subrange(2, 4) =~= crate::encoding::le16_bytes(PREVOTE_MESSAGE_ID));
            assert(b.subrange(4, 6) =~= crate::encoding::le16_bytes(CONSENSUS_SERVICE_ID));
            crate::encoding::lemma_le16_round_trip(PREVOTE_MESSAGE_ID);
            crate::encoding::lemma_le16_round_trip(CONSENSUS_SERVICE_ID);
            assert(b.subrange(10, 14) =~= le32_bytes(validator));
            assert(b.subrange(14, 22) =~= le64_bytes(height));
            assert(b.subrange(22, 26) =~= le32_bytes(round));
            assert(b.subrange(58, 62) =~= le32_bytes(locked_round));
            crate::encoding::lemma_le32_round_trip(validator);
            crate::encoding::lemma_le64_round_trip(height);
            crate::encoding::lemma_le32_round_trip(round);
            crate::encoding::lemma_le32_round_trip(locked_round);
            assert(b.subrange(26, 58) =~= propose_hash@);
            assert(b.take(b.len() - 64) =~= with_len(u));
        }
        r
    }

    /// Wraps a received buffer, accepting exactly the prevote shape.
    pub fn from_raw(raw: Vec<u8>) -> (r: Result<Prevote, Error>)
        requires
            raw@.len() <= 0xffff_ffff,
        ensures
            (r is Ok) == prevote_valid(raw@),
            r matches Ok(p) ==> p@ == raw@,
    {
        if raw.len() < 126 {
            return Err(Error::UnexpectedlyShortPayload {
                actual_size: raw.len() as u32,
                minimum_size: 126,
            });
        }
        let got_mid: u16 = Field::read(&raw, 2, 4);
        let got_sid: u16 = Field::read(&raw, 4, 6);
        proof {
            crate::encoding::lemma_le16_round_trip(got_mid);
            crate::encoding::lemma_le16_round_trip(got_sid);
        }
        if got_mid != PREVOTE_MESSAGE_ID || got_sid != CONSENSUS_SERVICE_ID {
            return Err(Error::IncorrectMessageType { message_type: got_mid });
        }
        Ok(Prevote { raw })
    }

    /// The vote's raw bytes.
    pub fn raw(&self) -> (r: &Vec<u8>)
        ensures
            r@ == self@,
    {
        &self.raw
    }

    /// The voting validator's ordinal.
    pub fn validator(&self) -> (r: u32)
        requires
            self.wf(),
        ensures
            r == self.validator_model(),
    {
        let r: u32 = Field::read(&self.raw, 10, 14);
        proof {
            crate::encoding::lemma_le32_round_trip(r);
        }
        r
    }

    /// The vote's height.
    pub fn height(&self) -> (r: u64)
        requires
            self.wf(),
        ensures
            r == self.height_model(),
    {
        let r: u64 = Field::read(&self.raw, 14, 22);
        proof {
            crate::encoding::lemma_le64_round_trip(r);
        }
        r
    }

    /// The vote's round.
    pub fn round(&self) -> (r: u32)
        requires
            self.wf(),
        ensures
            r == self.round_model(),
    {
        let r: u32 = Field::read(&self.raw, 22, 26);
        proof {
            crate::encoding::lemma_le32_round_trip(r);
        }
        r
    }

    /// The hash of the propose voted for.
    pub fn propose_hash(&self) -> (r: crate::crypto::Hash)
        requires
            self.wf(),
        ensures
            r@ == self.propose_hash_model(),
            r.wf(),
    {
        read_hash_at(&self.raw, 26)
    }

    /// The round the voter is locked on, or zero when unlocked.
    pub fn locked_round(&self) -> (r: u32)
        requires
            self.wf(),
        ensures
            r == self.locked_round_model(),
    {
        let r: u32 = Field::read(&self.raw, 58, 62);
        proof {
            crate::encoding::lemma_le32_round_trip(r);
        }
        r
    }

    /// Checks the vote's signature under a public key.
    pub fn verify(&self, pk: &crate::crypto::PublicKey) -> (r: bool)
        requires
            self.wf(),
            pk.wf(),
        ensures
            r == sig_valid(pk@, self@.take(self@.len() - 64), self@.skip(self@.len() - 64)),
    {
        crate::messages::buffer_verify(&self.raw, pk)
    }
}

/// Whether one precommit buffer accepts a block: well shaped, at the
/// block's height, for the block's hash, from a known validator whose
/// signature it carries.
pub open spec fn precommit_accepts(
    b: Seq<u8>,
    block_hash: Seq<u8>,
    height: u64,
    validators: Seq<Seq<u8>>,
) -> bool {
    &&& precommit_valid(b)
    &&& le64_value(b.subrange(14, 22)) == height
    &&& b.subrange(58, 90) == block_hash
    &&& (le32_value(b.subrange(10, 14)) as int) < validators.len()
    &&& sig_valid(
        validators[le32_value(b.subrange(10, 14)) as int],
        b.take(b.len() - 64),
        b.skip(b.len() - 64),
    )
}

/// Whether a set of precommit buffers proves a block: every vote
/// accepts the block, no two votes come from the same validator, and
/// the votes reach the Byzantine quorum `2f + 1`.
pub open spec fn block_proof_ok(
    block_hash: Seq<u8>,
    height: u64,
    pcs: Seq<Seq<u8>>,
    validators: Seq<Seq<u8>>,
) -> bool {
    &&& pcs.len() >= spec_byzantine_majority(validators.len() as nat)
    &&& forall|i: int|
        0 <= i < pcs.len() ==> precommit_accepts(#[trigger] pcs[i], block_hash, height, validators)
    &&& forall|i: int, j: int|
        0 <= i < j < pcs.len() ==> le32_value((#[trigger] pcs[i]).subrange(10, 14)) != le32_value(
            (#[trigger] pcs[j]).subrange(10, 14),
        )
}

/// The raw buffers of a list of precommits.
pub open spec fn precommit_views(pcs: Seq<Precommit>) -> Seq<Seq<u8>> {
    pcs.map_values(|p: Precommit| p@)
}

/// The key bytes of a list of public keys.
pub open spec fn key_views(ks: Seq<crate::crypto::PublicKey>) -> Seq<Seq<u8>> {
    ks.map_values(|k: crate::crypto::PublicKey| k@)
}

/// Checks that the precommits prove the block under the given
/// validator set: at least `2f + 1` distinct validators signed votes
/// for this block's hash at this height. This is the invariant every
/// committed block carries.
pub fn verify_block_proof(
    block: &Block,
    precommits: &Vec<Precommit>,
    validators: &Vec<crate::crypto::PublicKey>,
) -> (r: bool)
    requires
        block.wf(),
        forall|i: int| 0 <= i < validators@.len() ==> (#[trigger] validators@[i]).wf(),
        validators@.len() < 0x2000_0000,
    ensures
        r == block_proof_ok(
            digest_of(block@),
            le64_value(block@.subrange(34, 42)),
            precommit_views(precommits@),
            key_views(validators@),
        ),
{
    let ghost bh = digest_of(block@);
    let ghost h = le64_value(block@.subrange(34, 42));
    let ghost pcs = precommit_views(precommits@);
    let ghost vks = key_views(validators@);
    let quorum = crate::byzantine_majority_count(validators.len());
    if precommits.len() < quorum {
        return false;
    }
    let block_hash = block.hash();
    let height = block.height();
    let mut seen: Vec<bool> = Vec::new();
    let mut k: usize = 0;
    while k < validators.len()
        invariant
            k <= validators@.len(),
            seen@.len() == k,
            forall|j: int| 0 <= j < k ==> !seen@[j],
        decreases validators@.len() - k,
    {
        seen.push(false);
        k = k + 1;
    }
    let mut i: usize = 0;
    while i < precommits.len()
        invariant
            block.wf(),
            bh == digest_of(block@),
            h == le64_value(block@.subrange(34, 42)),
            pcs == precommit_views(precommits@),
            vks == key_views(validators@),
            block_hash@ == bh,
            block_hash.wf(),
            height == h,
            i <= precommits@.len(),
            seen@.len() == validators@.len(),
            vks.len() == validators@.len(),
            forall|j: int| 0 <= j < validators@.len() ==> (#[trigger] validators@[j]).wf(),
            forall|j: int| 0 <= j < i ==> precommit_accepts(#[trigger] pcs[j], bh, h, vks),
            forall|j: int, l: int|
                0 <= j < l < i ==> le32_value((#[trigger] pcs[j]).subrange(10, 14)) != le32_value(
                    (#[trigger] pcs[l]).subrange(10, 14),
                ),
            forall|v: int|
                0 <= v < seen@.len() ==> (seen@[v] == exists|j: int|
                    0 <= j < i && le32_value((#[trigger] pcs[j]).subrange(10, 14)) == v),
        decreases precommits@.len() - i,
    {
        let pc = &precommits[i];
        proof {
            assert(pcs[i as int] == pc@);
        }
        if pc.raw().len() < 154 {
            return false;
        }
        let got_mid: u16 = Field::read(pc.raw(), 2, 4);
        let got_sid: u16 = Field::read(pc.raw(), 4, 6);
        proof {
            crate::encoding::lemma_le16_round_trip(got_mid);
            crate::encoding::lemma_le16_round_trip(got_sid);
        }
        if got_mid != PRECOMMIT_MESSAGE_ID || got_sid != CONSENSUS_SERVICE_ID {
            return false;
        }
        if pc.height() != height {
            return false;
        }
        if !pc.block_hash().equals(&block_hash) {
            return false;
        }
        let v = pc.validator();
        if (v as usize) >= validators.len() {
            return false;
        }
        if seen[v as usize] {
            proof {
                let j = choose|j: int|
                    0 <= j < i && le32_value((#[trigger] pcs[j]).subrange(10, 14)) == v as int;
                assert(le32_value(pcs[j].subrange(10, 14)) == le32_value(
                    pcs[i as int].subrange(10, 14),
                ));
            }
            return false;
        }
        if !pc.verify(&validators[v as usize]) {
            proof {
                assert(vks[v as int] == validators@[v as int]@);
            }
            return false;
        }
        vstd::pervasive::VecAdditionalExecFns::set(&mut seen, v as usize, true);
        proof {
            assert(vks[v as int] == validators@[v as int]@);
            assert(precommit_accepts(pcs[i as int], bh, h, vks));
            assert forall|w: int| 0 <= w < seen@.len() implies (seen@[w] == exists|j: int|
                0 <= j < i + 1 && le32_value((#[trigger] pcs[j]).subrange(10, 14)) == w) by {
                if w == v as int {
                    assert(le32_value((pcs[i as int]).subrange(10, 14)) == w);
                } else {
                    if exists|j: int|
                        0 <= j < i && le32_value((#[trigger] pcs[j]).subrange(10, 14)) == w {
                    }
                }
            }
        }
        i = i + 1;
    }
    true
}


/// A transaction: an opaque signed message a service understands. Its
/// hash is the hash of its canonical bytes; `verify` is a pure
/// signature check and `execute` only touches the fork it is given.
pub trait Transaction: Sized {
    /// The transaction's canonical bytes.
    spec fn tx_model(&self) -> Seq<u8>;

    /// Structural well-formedness.
    spec fn tx_wf(&self) -> bool;

    /// Whether the signature check passes.
    spec fn verified(&self) -> bool;

    /// Checks the transaction's signature; pure.
    fn verify(&self) -> (r: bool)
        requires
            self.tx_wf(),
        ensures
            r == self.verified(),
    ;

    /// Applies the transaction to a fork.
    fn execute(&self, fork: &mut crate::storage::db::Fork) -> (r: Result<
        (),
        crate::storage::db::StorageError,
    >)
        requires
            self.tx_wf(),
            old(fork).wf(),
        ensures
            final(fork).wf(),
            final(fork).snap_model() == old(fork).snap_model(),
    ;

    /// The transaction's raw bytes.
    fn raw(&self) -> (r: &Vec<u8>)
        ensures
            r@ == self.tx_model(),
    ;

    /// The transaction's content hash.
    fn hash(&self) -> (r: crate::crypto::Hash)
        ensures
            r@ == digest_of(self.tx_model()),
            r.wf(),
    ;
}

/// A configuration: the validator set, the consensus timeouts, the
/// hash of the configuration it replaces, and the height it takes
/// effect from. Addressed by the hash of its canonical bytes.
pub struct StoredConfiguration {
    pub previous_cfg_hash: crate::crypto::Hash,
    pub actual_from: u64,
    pub consensus: crate::node::ConsensusConfig,
    pub validators: Vec<crate::crypto::PublicKey>,
}

/// The concatenated bytes of a list of public keys.
pub open spec fn keys_encode(ks: Seq<crate::crypto::PublicKey>) -> Seq<u8>
    decreases ks.len(),
{
    if ks.len() == 0 {
        Seq::empty()
    } else {
        ks[0]@ + keys_encode(ks.skip(1))
    }
}

/// Appending a key appends its bytes.
pub proof fn lemma_keys_encode_push(ks: Seq<crate::crypto::PublicKey>, k: crate::crypto::PublicKey)
    ensures
        keys_encode(ks.push(k)) == keys_encode(ks) + k@,
    decreases ks.len(),
{
    if ks.len() == 0 {
        assert(ks.push(k)[0] == k);
        assert(ks.push(k).skip(1) =~= Seq::<crate::crypto::PublicKey>::empty());
        assert(keys_encode(ks.push(k)) == ks.push(k)[0]@ + keys_encode(ks.push(k).skip(1)));
        assert(keys_encode(Seq::<crate::crypto::PublicKey>::empty())
            == Seq::<u8>::empty());
        assert(keys_encode(ks) == Seq::<u8>::empty());
        assert(keys_encode(ks.push(k)) =~= keys_encode(ks) + k@);
    } else {
        assert(ks.push(k).skip(1) =~= ks.skip(1).push(k));
        lemma_keys_encode_push(ks.skip(1), k);
        assert(ks.push(k)[0] == ks[0]);
        assert(keys_encode(ks.push(k)) == ks.push(k)[0]@ + keys_encode(ks.push(k).skip(1)));
        assert(keys_encode(ks.push(k)) =~= keys_encode(ks) + k@);
    }
}

/// Every key of a well-formed list contributes exactly 32 bytes.
pub proof fn lemma_keys_encode_len(ks: Seq<crate::crypto::PublicKey>)
    requires
        forall|i: int| 0 <= i < ks.len() ==> (#[trigger] ks[i]).wf(),
    ensures
        keys_encode(ks).len() == 32 * ks.len(),
        forall|i: int|
            0 <= i < ks.len() ==> #[trigger] keys_encode(ks).subrange(32 * i, 32 * i + 32)
                == ks[i]@,
    decreases ks.len(),
{
    if ks.len() > 0 {
        assert(forall|i: int| 0 <= i < ks.skip(1).len() ==> ks.skip(1)[i] == ks[i + 1]);
        lemma_keys_encode_len(ks.skip(1));
        assert(ks[0].wf());
        assert forall|i: int| 0 <= i < ks.len() implies #[trigger] keys_encode(ks).subrange(
            32 * i,
            32 * i + 32,
        ) == ks[i]@ by {
            if i == 0 {
                assert(keys_encode(ks).subrange(0, 32) =~= ks[0]@);
            } else {
                assert(keys_encode(ks.skip(1)).subrange(32 * (i - 1), 32 * (i - 1) + 32) == ks.skip(
                    1,
                )[i - 1]@);
                assert(keys_encode(ks).subrange(32 * i, 32 * i + 32) =~= keys_encode(
                    ks.skip(1),
                ).subrange(32 * (i - 1), 32 * (i - 1) + 32));
            }
        }
    }
}

/// Whether bytes have the shape of a serialized configuration: a
/// declared validator count in range and exactly matching length.
pub open spec fn config_bytes_wf(b: Seq<u8>) -> bool {
    b.len() >= 60 && 1 <= le32_value(b.subrange(56, 60)) < 0x2000_0000 && b.len() == 60 + 32 * (
    le32_value(b.subrange(56, 60)) as int)
}

/// The canonical bytes of a configuration.
pub open spec fn config_encode(
    prev: Seq<u8>,
    actual_from: u64,
    consensus: crate::node::ConsensusConfig,
    ks: Seq<crate::crypto::PublicKey>,
) -> Seq<u8> {
    prev + le64_bytes(actual_from) + le32_bytes(consensus.round_timeout) + le32_bytes(
        consensus.propose_timeout,
    ) + le32_bytes(consensus.status_timeout) + le32_bytes(consensus.peers_timeout) + le32_bytes(
        ks.len() as u32,
    ) + keys_encode(ks)
}

impl StoredConfiguration {
    /// A usable configuration: hashes and keys of the right size, and
    /// a validator set a vote count can index.
    pub open spec fn wf(&self) -> bool {
        &&& self.previous_cfg_hash.wf()
        &&& self.validators@.len() >= 1
        &&& self.validators@.len() < 0x2000_0000
        &&& forall|i: int| 0 <= i < self.validators@.len() ==> (#[trigger] self.validators@[i]).wf()
    }

    /// The configuration's canonical bytes.
    pub open spec fn model(&self) -> Seq<u8> {
        config_encode(self.previous_cfg_hash@, self.actual_from, self.consensus, self.validators@)
    }

    /// Serialises the configuration.
    pub fn serialize(&self) -> (r: Vec<u8>)
        requires
            self.wf(),
        ensures
            r@ == self.model(),
    {
        let mut r = crate::storage::db::copy_bytes(self.previous_cfg_hash.as_bytes());
        let ghost h = self.previous_cfg_hash@;
        let mut tail: Vec<u8> = Vec::new();
        let mut i: usize = 0;
        while i < 28
            invariant
                i <= 28,
                tail@.len() == i,
            decreases 28 - i,
        {
            tail.push(0);
            i = i + 1;
        }
        Field::write(&self.actual_from, &mut tail, 0, 8);
        Field::write(&self.consensus.round_timeout, &mut tail, 8, 12);
        Field::write(&self.consensus.propose_timeout, &mut tail, 12, 16);
        Field::write(&self.consensus.status_timeout, &mut tail, 16, 20);
        Field::write(&self.consensus.peers_timeout, &mut tail, 20, 24);
        let n = self.validators.len() as u32;
        Field::write(&n, &mut tail, 24, 28);
        proof {
            assert(tail@ =~= le64_bytes(self.actual_from) + le32_bytes(
                self.consensus.round_timeout,
            ) + le32_bytes(self.consensus.propose_timeout) + le32_bytes(
                self.consensus.status_timeout,
            ) + le32_bytes(self.consensus.peers_timeout) + le32_bytes(
                self.validators@.len() as u32,
            ));
        }
        let mut j: usize = 0;
        while j < self.validators.len()
            invariant
                j <= self.validators@.len(),
                forall|i2: int|
                    0 <= i2 < self.validators@.len() ==> (#[trigger] self.validators@[i2]).wf(),
                tail@ =~= le64_bytes(self.actual_from) + le32_bytes(self.consensus.round_timeout)
                    + le32_bytes(self.consensus.propose_timeout) + le32_bytes(
                    self.consensus.status_timeout,
                ) + le32_bytes(self.consensus.peers_timeout) + le32_bytes(
                    self.validators@.len() as u32,
                ) + keys_encode(self.validators@.take(j as int)),
            decreases self.validators@.len() - j,
        {
            let kb = self.validators[j].as_bytes();
            let mut p: usize = 0;
            let ghost t0 = tail@;
            while p < kb.len()
                invariant
                    p <= kb@.len(),
                    tail@ =~= t0 + kb@.subrange(0, p as int),
                decreases kb@.len() - p,
            {
                tail.push(kb[p]);
                p = p + 1;
            }
            proof {
                assert(self.validators@.take(j as int).push(self.validators@[j as int])
                    =~= self.validators@.take(j as int + 1));
                lemma_keys_encode_push(
                    self.validators@.take(j as int),
                    self.validators@[j as int],
                );
                assert(tail@ =~= t0 + kb@);
            }
            j = j + 1;
        }
        proof {
            assert(self.validators@.take(self.validators@.len() as int) =~= self.validators@);
        }
        let mut p: usize = 0;
        let ghost r0 = r@;
        while p < tail.len()
            invariant
                p <= tail@.len(),
                r@ =~= r0 + tail@.subrange(0, p as int),
            decreases tail@.len() - p,
        {
            r.push(tail[p]);
            p = p + 1;
        }
        proof {
            assert(r@ =~= r0 + tail@);
            assert(r@ =~= self.model());
        }
        r
    }

    /// Reads a configuration back from its canonical bytes: accepted
    /// exactly when the length matches the declared validator count,
    /// and every field comes back unchanged.
    pub fn deserialize(bytes: &Vec<u8>) -> (r: Option<StoredConfiguration>)
        ensures
            match r {
                Some(c) => c.wf() && c.model() == bytes@ && config_bytes_wf(bytes@),
                None => !config_bytes_wf(bytes@),
            },
    {
        if bytes.len() < 60 {
            return None;
        }
        let prev = read_hash_at(bytes, 0);
        let actual_from: u64 = Field::read(bytes, 32, 40);
        let round_timeout: u32 = Field::read(bytes, 40, 44);
        let propose_timeout: u32 = Field::read(bytes, 44, 48);
        let status_timeout: u32 = Field::read(bytes, 48, 52);
        let peers_timeout: u32 = Field::read(bytes, 52, 56);
        let n: u32 = Field::read(bytes, 56, 60);
        proof {
            crate::encoding::lemma_le32_round_trip(n);
            assert(le32_value(bytes@.subrange(56, 60)) == n);
        }
        if n == 0 || n >= 0x2000_0000 {
            return None;
        }
        if (bytes.len() as u64) != 60 + (n as u64) * 32 {
            return None;
        }
        proof {
            assert(bytes@.len() == 60 + (n as int) * 32);
        }
        let blen = bytes.len();
        let mut validators: Vec<crate::crypto::PublicKey> = Vec::new();
        let mut j: usize = 0;
        while j < n as usize
            invariant
                j <= n as usize,
                blen == bytes@.len(),
                60 + (n as int) * 32 == bytes@.len(),
                validators@.len() == j,
                forall|i2: int| 0 <= i2 < j ==> (#[trigger] validators@[i2]).wf(),
                forall|i2: int|
                    0 <= i2 < j ==> (#[trigger] validators@[i2])@ == bytes@.subrange(
                        60 + 32 * i2,
                        60 + 32 * i2 + 32,
                    ),
            decreases n as usize - j,
        {
            proof {
                assert(60 + 32 * (j as int) + 32 <= bytes@.len()) by (nonlinear_arith)
                    requires
                        60 + (n as int) * 32 == bytes@.len(),
                        0 <= j < n as usize,
                ;
            }
            proof {
                assert(32 * (j as int) == (j as int) * 32) by (nonlinear_arith);
                assert((j as int) * 32 + 32 <= (n as int) * 32) by (nonlinear_arith)
                    requires
                        0 <= j < n as usize,
                ;
                assert(60 + (j as int) * 32 + 32 <= bytes@.len());
            }
            let pk = crate::messages::read_author_key_at(bytes, 60 + j * 32);
            validators.push(pk);
            j = j + 1;
        }
        let consensus = crate::node::ConsensusConfig {
            round_timeout,
            propose_timeout,
            status_timeout,
            peers_timeout,
        };
        let c = StoredConfiguration { previous_cfg_hash: prev, actual_from, consensus, validators };
        proof {
            lemma_keys_encode_len(c.validators@);
            crate::encoding::lemma_le64_round_trip(actual_from);
            crate::encoding::lemma_le32_round_trip(round_timeout);
            crate::encoding::lemma_le32_round_trip(propose_timeout);
            crate::encoding::lemma_le32_round_trip(status_timeout);
            crate::encoding::lemma_le32_round_trip(peers_timeout);
            crate::encoding::lemma_le32_round_trip(n);
            assert forall|i2: int| 0 <= i2 < c.validators@.len() implies #[trigger] keys_encode(
                c.validators@,
            ).subrange(32 * i2, 32 * i2 + 32) == bytes@.subrange(
                60 + 32 * i2,
                60 + 32 * i2 + 32,
            ) by {
                assert(keys_encode(c.validators@).subrange(32 * i2, 32 * i2 + 32)
                    == c.validators@[i2]@);
            }
            assert(c.model() =~= bytes@) by {
                assert(c.model().len() == bytes@.len());
                assert forall|p2: int| 0 <= p2 < bytes@.len() implies c.model()[p2]
                    == bytes@[p2] by {
                    if p2 >= 60 {
                        let i2 = (p2 - 60) / 32;
                        assert(0 <= i2 < c.validators@.len() && 60 + 32 * i2 <= p2 < 60 + 32 * i2
                            + 32) by (nonlinear_arith)
                            requires
                                60 <= p2 < bytes@.len(),
                                bytes@.len() == 60 + (n as int) * 32,
                                i2 == (p2 - 60) / 32,
                                c.validators@.len() == n as int,
                        ;
                        assert(keys_encode(c.validators@).subrange(32 * i2, 32 * i2 + 32)
                            == bytes@.subrange(60 + 32 * i2, 60 + 32 * i2 + 32));
                        let off = p2 - 60 - 32 * i2;
                        assert(keys_encode(c.validators@).subrange(32 * i2, 32 * i2 + 32)[off]
                            == keys_encode(c.validators@)[p2 - 60]);
                        assert(bytes@.subrange(60 + 32 * i2, 60 + 32 * i2 + 32)[off]
                            == bytes@[p2]);
                        assert(keys_encode(c.validators@)[p2 - 60] == bytes@[p2]);
                    }
                }
            }
        }
        Some(c)
    }

    /// The configuration's own hash, its address in the store.
    pub fn hash(&self) -> (r: crate::crypto::Hash)
        requires
            self.wf(),
        ensures
            r@ == digest_of(self.model()),
            r.wf(),
    {
        let bytes = self.serialize();
        crate::crypto::hash(bytes.as_slice())
    }
}


/// Whether one prevote buffer counts for a propose at a height and
/// round: well shaped, at that height and round, for that propose,
/// from a known validator whose signature it carries.
pub open spec fn prevote_counts(
    b: Seq<u8>,
    propose_hash: Seq<u8>,
    height: u64,
    round: u32,
    validators: Seq<Seq<u8>>,
) -> bool {
    &&& prevote_valid(b)
    &&& le64_value(b.subrange(14, 22)) == height
    &&& le32_value(b.subrange(22, 26)) == round
    &&& b.subrange(26, 58) == propose_hash
    &&& (le32_value(b.subrange(10, 14)) as int) < validators.len()
    &&& sig_valid(
        validators[le32_value(b.subrange(10, 14)) as int],
        b.take(b.len() - 64),
        b.skip(b.len() - 64),
    )
}

/// Whether a set of prevote buffers is a quorum for a propose at a
/// height and round: every vote counts, no two votes come from the
/// same validator, and the votes reach `2f + 1`.
pub open spec fn prevote_quorum_ok(
    propose_hash: Seq<u8>,
    height: u64,
    round: u32,
    pvs: Seq<Seq<u8>>,
    validators: Seq<Seq<u8>>,
) -> bool {
    &&& pvs.len() >= spec_byzantine_majority(validators.len() as nat)
    &&& forall|i: int|
        0 <= i < pvs.len() ==> prevote_counts(#[trigger] pvs[i], propose_hash, height, round,
            validators)
    &&& forall|i: int, j: int|
        0 <= i < j < pvs.len() ==> le32_value((#[trigger] pvs[i]).subrange(10, 14)) != le32_value(
            (#[trigger] pvs[j]).subrange(10, 14),
        )
}

/// The raw buffers of a list of prevotes.
pub open spec fn prevote_views(pvs: Seq<Prevote>) -> Seq<Seq<u8>> {
    pvs.map_values(|p: Prevote| p@)
}

/// Checks that the prevotes form a `2f + 1` quorum of distinct
/// validators for the propose at the given height and round: the
/// condition under which a validator locks on the propose and sends
/// its precommit.
pub fn verify_prevote_quorum(
    propose_hash: &crate::crypto::Hash,
    height: u64,
    round: u32,
    prevotes: &Vec<Prevote>,
    validators: &Vec<crate::crypto::PublicKey>,
) -> (r: bool)
    requires
        propose_hash.wf(),
        forall|i: int| 0 <= i < validators@.len() ==> (#[trigger] validators@[i]).wf(),
        validators@.len() < 0x2000_0000,
    ensures
        r == prevote_quorum_ok(
            propose_hash@,
            height,
            round,
            prevote_views(prevotes@),
            key_views(validators@),
        ),
{
    let ghost pvs = prevote_views(prevotes@);
    let ghost vks = key_views(validators@);
    let quorum = crate::byzantine_majority_count(validators.len());
    if prevotes.len() < quorum {
        return false;
    }
    let mut seen: Vec<bool> = Vec::new();
    let mut k: usize = 0;
    while k < validators.len()
        invariant
            k <= validators@.len(),
            seen@.len() == k,
            forall|j: int| 0 <= j < k ==> !seen@[j],
        decreases validators@.len() - k,
    {
        seen.push(false);
        k = k + 1;
    }
    let mut i: usize = 0;
    while i < prevotes.len()
        invariant
            propose_hash.wf(),
            pvs == prevote_views(prevotes@),
            vks == key_views(validators@),
            i <= prevotes@.len(),
            seen@.len() == validators@.len(),
            vks.len() == validators@.len(),
            forall|j: int| 0 <= j < validators@.len() ==> (#[trigger] validators@[j]).wf(),
            forall|j: int|
                0 <= j < i ==> prevote_counts(#[trigger] pvs[j], propose_hash@, height, round,
                    vks),
            forall|j: int, l: int|
                0 <= j < l < i ==> le32_value((#[trigger] pvs[j]).subrange(10, 14)) != le32_value(
                    (#[trigger] pvs[l]).subrange(10, 14),
                ),
            forall|v: int|
                0 <= v < seen@.len() ==> (seen@[v] == exists|j: int|
                    0 <= j < i && le32_value((#[trigger] pvs[j]).subrange(10, 14)) == v),
        decreases prevotes@.len() - i,
    {
        let pv = &prevotes[i];
        proof {
            assert(pvs[i as int] == pv@);
        }
        if pv.raw().len() < 126 {
            return false;
        }
        let got_mid: u16 = Field::read(pv.raw(), 2, 4);
        let got_sid: u16 = Field::read(pv.raw(), 4, 6);
        proof {
            crate::encoding::lemma_le16_round_trip(got_mid);
            crate::encoding::lemma_le16_round_trip(got_sid);
        }
        if got_mid != PREVOTE_MESSAGE_ID || got_sid != CONSENSUS_SERVICE_ID {
            return false;
        }
        if pv.height() != height || pv.round() != round {
            return false;
        }
        if !pv.propose_hash().equals(propose_hash) {
            return false;
        }
        let v = pv.validator();
        if (v as usize) >= validators.len() {
            return false;
        }
        if seen[v as usize] {
            proof {
                let j = choose|j: int|
                    0 <= j < i && le32_value((#[trigger] pvs[j]).subrange(10, 14)) == v as int;
                assert(le32_value(pvs[j].subrange(10, 14)) == le32_value(
                    pvs[i as int].subrange(10, 14),
                ));
            }
            return false;
        }
        if !pv.verify(&validators[v as usize]) {
            proof {
                assert(vks[v as int] == validators@[v as int]@);
            }
            return false;
        }
        vstd::pervasive::VecAdditionalExecFns::set(&mut seen, v as usize, true);
        proof {
            assert(vks[v as int] == validators@[v as int]@);
            assert(prevote_counts(pvs[i as int], propose_hash@, height, round, vks));
            assert forall|w: int| 0 <= w < seen@.len() implies (seen@[w] == exists|j: int|
                0 <= j < i + 1 && le32_value((#[trigger] pvs[j]).subrange(10, 14)) == w) by {
                if w == v as int {
                    assert(le32_value((pvs[i as int]).subrange(10, 14)) == w);
                } else {
                    if exists|j: int|
                        0 <= j < i && le32_value((#[trigger] pvs[j]).subrange(10, 14)) == w {
                    }
                }
            }
        }
        i = i + 1;
    }
    true
}

/// The key of a block header: tag byte then the block hash.
pub open spec fn block_key(h: Seq<u8>) -> Seq<u8> {
    seq![0u8] + h
}

/// The key of the block hash committed at a height.
pub open spec fn height_key(h: u64) -> Seq<u8> {
    seq![1u8] + crate::storage::storage_key::u64_key_bytes(h)
}

/// The key of a stored transaction: tag byte then its hash.
pub open spec fn tx_key(h: Seq<u8>) -> Seq<u8> {
    seq![3u8] + h
}

/// The key of the precommit count of a block.
pub open spec fn precommit_count_key(h: Seq<u8>) -> Seq<u8> {
    seq![4u8] + h
}

/// The key of one stored precommit of a block.
pub open spec fn precommit_key(h: Seq<u8>, i: u32) -> Seq<u8> {
    seq![4u8] + h + le32_bytes(i)
}

/// The key of a stored configuration: tag byte then its hash.
pub open spec fn config_key(h: Seq<u8>) -> Seq<u8> {
    seq![5u8] + h
}

/// The cell holding the hash of the configuration in force.
pub open spec fn actual_config_ptr() -> Seq<u8> {
    seq![5u8]
}

/// The cell holding the hash of the scheduled next configuration.
pub open spec fn following_config_ptr() -> Seq<u8> {
    seq![6u8]
}

/// The cell holding the current height.
pub open spec fn current_height_key() -> Seq<u8> {
    seq![1u8]
}

/// A one-tag-byte key followed by raw bytes.
pub fn make_tag_key(tag: u8, rest: &Vec<u8>) -> (r: Vec<u8>)
    ensures
        r@ == seq![tag] + rest@,
{
    let mut r: Vec<u8> = Vec::new();
    r.push(tag);
    let mut i: usize = 0;
    while i < rest.len()
        invariant
            i <= rest@.len(),
            r@ =~= seq![tag] + rest@.subrange(0, i as int),
        decreases rest@.len() - i,
    {
        r.push(rest[i]);
        i = i + 1;
    }
    proof {
        assert(r@ =~= seq![tag] + rest@);
    }
    r
}

/// Stores a block header under its hash.
pub fn put_block(fork: &mut crate::storage::db::Fork, block: &Block)
    requires
        old(fork).wf(),
        block.wf(),
    ensures
        final(fork).wf(),
        final(fork).snap_model() == old(fork).snap_model(),
        final(fork).lookup(block_key(digest_of(block@))) == Some(block@),
        forall|k: Seq<u8>| k != block_key(digest_of(block@)) ==> #[trigger] final(fork).lookup(k)
            == old(fork).lookup(k),
{
    let h = block.hash();
    let key = make_tag_key(0, h.as_bytes());
    fork.put(key, crate::storage::db::copy_bytes(block.raw()));
}

/// The block header stored under a hash.
pub fn get_block<T: crate::storage::db::Snapshot>(view: &T, hash: &crate::crypto::Hash) -> (r:
    Option<Block>)
    requires
        view.inv(),
    ensures
        match r {
            Some(b) => crate::storage::assoc_lookup(view.snap(), block_key(hash@)) == Some(b@)
                && b.wf(),
            None => match crate::storage::assoc_lookup(view.snap(), block_key(hash@)) {
                Some(bytes) => bytes.len() != 114,
                None => true,
            },
        },
{
    let key = make_tag_key(0, hash.as_bytes());
    match view.get(&key) {
        Some(bytes) => Block::from_raw(bytes),
        None => None,
    }
}

/// Stores a raw transaction under its hash.
pub fn put_transaction(fork: &mut crate::storage::db::Fork, raw: &Vec<u8>)
    requires
        old(fork).wf(),
    ensures
        final(fork).wf(),
        final(fork).snap_model() == old(fork).snap_model(),
        final(fork).lookup(tx_key(digest_of(raw@))) == Some(raw@),
        forall|k: Seq<u8>| k != tx_key(digest_of(raw@)) ==> #[trigger] final(fork).lookup(k)
            == old(fork).lookup(k),
{
    let h = crate::crypto::hash(raw.as_slice());
    let key = make_tag_key(3, h.as_bytes());
    fork.put(key, crate::storage::db::copy_bytes(raw));
}

/// The raw transaction stored under a hash.
pub fn get_transaction<T: crate::storage::db::Snapshot>(
    view: &T,
    hash: &crate::crypto::Hash,
) -> (r: Option<Vec<u8>>)
    requires
        view.inv(),
    ensures
        crate::storage::opt_bytes(r) == crate::storage::assoc_lookup(view.snap(), tx_key(hash@)),
{
    let key = make_tag_key(3, hash.as_bytes());
    view.get(&key)
}

/// Stores a configuration under its own hash.
pub fn put_config(fork: &mut crate::storage::db::Fork, cfg: &StoredConfiguration)
    requires
        old(fork).wf(),
        cfg.wf(),
    ensures
        final(fork).wf(),
        final(fork).snap_model() == old(fork).snap_model(),
        final(fork).lookup(config_key(digest_of(cfg.model()))) == Some(cfg.model()),
        forall|k: Seq<u8>| k != config_key(digest_of(cfg.model())) ==> #[trigger] final(fork).lookup(k) == old(fork).lookup(k),
{
    let bytes = cfg.serialize();
    let h = crate::crypto::hash(bytes.as_slice());
    let key = make_tag_key(5, h.as_bytes());
    fork.put(key, bytes);
}

/// The configuration stored under a hash, decoded.
pub fn get_config<T: crate::storage::db::Snapshot>(view: &T, hash: &crate::crypto::Hash) -> (r:
    Option<StoredConfiguration>)
    requires
        view.inv(),
    ensures
        match r {
            Some(c) => crate::storage::assoc_lookup(view.snap(), config_key(hash@)) == Some(
                c.model(),
            ) && c.wf(),
            None => true,
        },
{
    let key = make_tag_key(5, hash.as_bytes());
    match view.get(&key) {
        Some(bytes) => StoredConfiguration::deserialize(&bytes),
        None => None,
    }
}

/// Points the store at the configuration in force.
pub fn set_actual_config_hash(fork: &mut crate::storage::db::Fork, hash: &crate::crypto::Hash)
    requires
        old(fork).wf(),
    ensures
        final(fork).wf(),
        final(fork).snap_model() == old(fork).snap_model(),
        final(fork).lookup(actual_config_ptr()) == Some(hash@),
        forall|k: Seq<u8>| k != actual_config_ptr() ==> #[trigger] final(fork).lookup(k) == old(
            fork,
        ).lookup(k),
{
    let mut key: Vec<u8> = Vec::new();
    key.push(5);
    proof {
        assert(key@ =~= actual_config_ptr());
    }
    fork.put(key, crate::storage::db::copy_bytes(hash.as_bytes()));
}

/// The hash of the configuration in force.
pub fn actual_config_hash<T: crate::storage::db::Snapshot>(view: &T) -> (r: Option<Vec<u8>>)
    requires
        view.inv(),
    ensures
        crate::storage::opt_bytes(r) == crate::storage::assoc_lookup(
            view.snap(),
            actual_config_ptr(),
        ),
{
    let mut key: Vec<u8> = Vec::new();
    key.push(5);
    proof {
        assert(key@ =~= actual_config_ptr());
    }
    view.get(&key)
}

/// Schedules a configuration: stores it and points the following-config
/// cell at it.
pub fn commit_actual_configuration(fork: &mut crate::storage::db::Fork, cfg: &StoredConfiguration)
    requires
        old(fork).wf(),
        cfg.wf(),
    ensures
        final(fork).wf(),
        final(fork).snap_model() == old(fork).snap_model(),
        final(fork).lookup(config_key(digest_of(cfg.model()))) == Some(cfg.model()),
        final(fork).lookup(following_config_ptr()) == Some(digest_of(cfg.model())),
        forall|k: Seq<u8>|
            k != config_key(digest_of(cfg.model())) && k != following_config_ptr()
                ==> #[trigger] final(fork).lookup(k) == old(fork).lookup(k),
{
    put_config(fork, cfg);
    let bytes = cfg.serialize();
    let h = crate::crypto::hash(bytes.as_slice());
    let mut key: Vec<u8> = Vec::new();
    key.push(6);
    proof {
        assert(key@ =~= following_config_ptr());
    }
    fork.put(key, crate::storage::db::copy_bytes(h.as_bytes()));
}

/// The hash of the scheduled next configuration, if one is scheduled.
pub fn following_config_hash<T: crate::storage::db::Snapshot>(view: &T) -> (r: Option<Vec<u8>>)
    requires
        view.inv(),
    ensures
        crate::storage::opt_bytes(r) == crate::storage::assoc_lookup(
            view.snap(),
            following_config_ptr(),
        ),
{
    let mut key: Vec<u8> = Vec::new();
    key.push(6);
    proof {
        assert(key@ =~= following_config_ptr());
    }
    view.get(&key)
}

/// The current height: the number of committed blocks.
pub fn current_height<T: crate::storage::db::Snapshot>(view: &T) -> (r: u64)
    requires
        view.inv(),
    ensures
        match crate::storage::assoc_lookup(view.snap(), current_height_key()) {
            Some(bytes) => if bytes.len() == 8 {
                r == crate::encoding::le64_value(bytes)
            } else {
                r == 0
            },
            None => r == 0,
        },
{
    let mut key: Vec<u8> = Vec::new();
    key.push(1);
    proof {
        assert(key@ =~= current_height_key());
    }
    match view.get(&key) {
        Some(bytes) => {
            if bytes.len() == 8 {
                let r: u64 = Field::read(&bytes, 0, 8);
                proof {
                    crate::encoding::lemma_le64_round_trip(r);
                    assert(bytes@.subrange(0, 8) =~= bytes@);
                }
                r
            } else {
                0
            }
        },
        None => 0,
    }
}

/// The key of the transaction count of a height's block.
pub open spec fn block_txs_count_key(height: u64) -> Seq<u8> {
    seq![2u8] + crate::storage::storage_key::u64_key_bytes(height)
}

/// The key of one transaction hash of a height's block.
pub open spec fn block_txs_key(height: u64, i: u32) -> Seq<u8> {
    seq![2u8] + crate::storage::storage_key::u64_key_bytes(height) + le32_bytes(i)
}

/// The slot count a 4-byte count cell declares, or zero without one.
pub open spec fn stored_count(s: Seq<(Seq<u8>, Seq<u8>)>, key: Seq<u8>) -> int {
    match crate::storage::assoc_lookup(s, key) {
        Some(cb) => if cb.len() == 4 && le32_value(cb) < 0x2000_0000 {
            le32_value(cb) as int
        } else {
            0
        },
        None => 0,
    }
}

/// Whether a read-back of a block's precommit slots is faithful: one
/// element per stored slot; an element is the stored vote when the
/// slot holds one that parses, and `None` when the slot is absent or
/// malformed.
pub open spec fn precommit_slots_ok(
    s: Seq<(Seq<u8>, Seq<u8>)>,
    h: Seq<u8>,
    r: Seq<Option<Precommit>>,
) -> bool {
    &&& r.len() == stored_count(s, precommit_count_key(h))
    &&& forall|i: int|
        0 <= i < r.len() ==> match #[trigger] r[i] {
            Some(p) => crate::storage::assoc_lookup(s, precommit_key(h, i as u32)) == Some(p@)
                && p.wf(),
            None => match crate::storage::assoc_lookup(s, precommit_key(h, i as u32)) {
                Some(pb) => pb.len() > 0xffff_ffff || !precommit_valid(pb),
                None => true,
            },
        }
}

/// Whether a read-back of a block's transaction-hash slots is
/// faithful, in the same sense.
pub open spec fn tx_slots_ok(
    s: Seq<(Seq<u8>, Seq<u8>)>,
    height: u64,
    r: Seq<Option<crate::crypto::Hash>>,
) -> bool {
    &&& r.len() == stored_count(s, block_txs_count_key(height))
    &&& forall|i: int|
        0 <= i < r.len() ==> match #[trigger] r[i] {
            Some(th) => crate::storage::assoc_lookup(s, block_txs_key(height, i as u32)) == Some(
                th@,
            ) && th.wf(),
            None => match crate::storage::assoc_lookup(s, block_txs_key(height, i as u32)) {
                Some(tb) => tb.len() != 32,
                None => true,
            },
        }
}

/// Reads a 4-byte count cell.
fn read_count<T: crate::storage::db::Snapshot>(view: &T, key: &Vec<u8>) -> (r: u32)
    requires
        view.inv(),
    ensures
        r == stored_count(view.snap(), key@),
{
    match view.get(key) {
        Some(cb) => {
            if cb.len() == 4 {
                let c: u32 = Field::read(&cb, 0, 4);
                proof {
                    crate::encoding::lemma_le32_round_trip(c);
                    assert(cb@.subrange(0, 4) =~= cb@);
                }
                if c < 0x2000_0000 {
                    c
                } else {
                    0
                }
            } else {
                0
            }
        },
        None => 0,
    }
}

/// The precommits stored beside a committed block, one slot per vote
/// `commit_block` recorded.
pub fn get_precommits<T: crate::storage::db::Snapshot>(
    view: &T,
    block_hash: &crate::crypto::Hash,
) -> (r: Vec<Option<Precommit>>)
    requires
        view.inv(),
    ensures
        precommit_slots_ok(view.snap(), block_hash@, r@),
{
    let count_key = make_tag_key(4, block_hash.as_bytes());
    proof {
        assert(count_key@ =~= precommit_count_key(block_hash@));
    }
    let count = read_count(view, &count_key);
    let mut r: Vec<Option<Precommit>> = Vec::new();
    let mut i: u32 = 0;
    while i < count
        invariant
            view.inv(),
            i <= count,
            count == stored_count(view.snap(), precommit_count_key(block_hash@)),
            r@.len() == i,
            forall|j: int|
                0 <= j < i ==> match #[trigger] r@[j] {
                    Some(p) => crate::storage::assoc_lookup(
                        view.snap(),
                        precommit_key(block_hash@, j as u32),
                    ) == Some(p@) && p.wf(),
                    None => match crate::storage::assoc_lookup(
                        view.snap(),
                        precommit_key(block_hash@, j as u32),
                    ) {
                        Some(pb) => pb.len() > 0xffff_ffff || !precommit_valid(pb),
                        None => true,
                    },
                },
        decreases count - i,
    {
        let mut key = make_tag_key(4, block_hash.as_bytes());
        key.push((i & 0xff) as u8);
        key.push(((i >> 8) & 0xff) as u8);
        key.push(((i >> 16) & 0xff) as u8);
        key.push(((i >> 24) & 0xff) as u8);
        proof {
            assert(key@ =~= precommit_key(block_hash@, i));
        }
        let slot = match view.get(&key) {
            Some(pb) => {
                if pb.len() <= 0xffff_ffff as usize {
                    match Precommit::from_raw(pb) {
                        Ok(p) => Some(p),
                        Err(_) => None,
                    }
                } else {
                    None
                }
            },
            None => None,
        };
        r.push(slot);
        i = i + 1;
    }
    r
}

/// The transaction hashes stored for a height's block, one slot per
/// hash `commit_block` recorded.
pub fn get_block_txs<T: crate::storage::db::Snapshot>(view: &T, height: u64) -> (r: Vec<Option<
    crate::crypto::Hash,
>>)
    requires
        view.inv(),
    ensures
        tx_slots_ok(view.snap(), height, r@),
{
    let height_bytes = crate::storage::storage_key::StorageKey::write_key(&height);
    let count_key = make_tag_key(2, &height_bytes);
    proof {
        assert(count_key@ =~= block_txs_count_key(height));
    }
    let count = read_count(view, &count_key);
    let mut r: Vec<Option<crate::crypto::Hash>> = Vec::new();
    let mut i: u32 = 0;
    while i < count
        invariant
            view.inv(),
            i <= count,
            height_bytes@ == crate::storage::storage_key::u64_key_bytes(height),
            count == stored_count(view.snap(), block_txs_count_key(height)),
            r@.len() == i,
            forall|j: int|
                0 <= j < i ==> match #[trigger] r@[j] {
                    Some(th) => crate::storage::assoc_lookup(
                        view.snap(),
                        block_txs_key(height, j as u32),
                    ) == Some(th@) && th.wf(),
                    None => match crate::storage::assoc_lookup(
                        view.snap(),
                        block_txs_key(height, j as u32),
                    ) {
                        Some(tb) => tb.len() != 32,
                        None => true,
                    },
                },
        decreases count - i,
    {
        let mut key = make_tag_key(2, &height_bytes);
        key.push((i & 0xff) as u8);
        key.push(((i >> 8) & 0xff) as u8);
        key.push(((i >> 16) & 0xff) as u8);
        key.push(((i >> 24) & 0xff) as u8);
        proof {
            assert(key@ =~= block_txs_key(height, i));
        }
        let slot = match view.get(&key) {
            Some(tb) => {
                if tb.len() == 32 {
                    Some(crate::crypto::Hash::from_bytes(tb))
                } else {
                    None
                }
            },
            None => None,
        };
        r.push(slot);
        i = i + 1;
    }
    r
}

/// Assembles the catch-up answer for a height: the stored block, its
/// precommits and its transaction hashes, when a block hash is
/// recorded for that height and its header is stored.
pub fn get_block_response<T: crate::storage::db::Snapshot>(view: &T, height: u64) -> (r: Option<
    (Block, Vec<Option<Precommit>>, Vec<Option<crate::crypto::Hash>>),
>)
    requires
        view.inv(),
    ensures
        match r {
            Some((b, pcs, txhs)) => match crate::storage::assoc_lookup(
                view.snap(),
                height_key(height),
            ) {
                Some(hh) => {
                    &&& b.wf()
                    &&& crate::storage::assoc_lookup(view.snap(), block_key(hh)) == Some(b@)
                    &&& precommit_slots_ok(view.snap(), hh, pcs@)
                    &&& tx_slots_ok(view.snap(), height, txhs@)
                },
                None => false,
            },
            None => match crate::storage::assoc_lookup(view.snap(), height_key(height)) {
                Some(hh) => hh.len() != 32 || (match crate::storage::assoc_lookup(
                    view.snap(),
                    block_key(hh),
                ) {
                    Some(bb) => bb.len() != 114,
                    None => true,
                }),
                None => true,
            },
        },
{
    let height_bytes = crate::storage::storage_key::StorageKey::write_key(&height);
    let hkey = make_tag_key(1, &height_bytes);
    proof {
        assert(hkey@ =~= height_key(height));
    }
    let hh = match view.get(&hkey) {
        Some(b) => b,
        None => {
            return None;
        },
    };
    if hh.len() != 32 {
        return None;
    }
    let block_hash = crate::crypto::Hash::from_bytes(hh);
    let block = match get_block(view, &block_hash) {
        Some(b) => b,
        None => {
            return None;
        },
    };
    let pcs = get_precommits(view, &block_hash);
    let txhs = get_block_txs(view, height);
    Some((block, pcs, txhs))
}

/// Checks a catch-up answer before it is merged: the block must sit at
/// the expected height on the expected previous block, and carry a
/// Byzantine quorum of distinct, valid precommits for its own hash.
pub fn check_block_response(
    block: &Block,
    precommits: &Vec<Precommit>,
    validators: &Vec<crate::crypto::PublicKey>,
    expected_height: u64,
    expected_prev_hash: &crate::crypto::Hash,
) -> (r: bool)
    requires
        block.wf(),
        forall|i: int| 0 <= i < validators@.len() ==> (#[trigger] validators@[i]).wf(),
        validators@.len() < 0x2000_0000,
    ensures
        r == (le64_value(block@.subrange(34, 42)) == expected_height && block@.subrange(2, 34)
            == expected_prev_hash@ && block_proof_ok(
            digest_of(block@),
            expected_height,
            precommit_views(precommits@),
            key_views(validators@),
        )),
{
    if block.height() != expected_height {
        return false;
    }
    if !block.prev_hash().equals(expected_prev_hash) {
        return false;
    }
    verify_block_proof(block, precommits, validators)
}

/// Commits a block: persists it, its quorum of precommits, and the
/// height entry, and advances the height — but only when the
/// precommits actually prove the block. A block is never persisted
/// without its `2f + 1` votes beside it.
pub fn commit_block(
    fork: &mut crate::storage::db::Fork,
    block: &Block,
    precommits: &Vec<Precommit>,
    validators: &Vec<crate::crypto::PublicKey>,
    txs: &Vec<crate::crypto::Hash>,
    height: u64,
) -> (r: Result<(), Error>)
    requires
        old(fork).wf(),
        block.wf(),
        forall|i: int| 0 <= i < validators@.len() ==> (#[trigger] validators@[i]).wf(),
        forall|i: int| 0 <= i < txs@.len() ==> (#[trigger] txs@[i]).wf(),
        validators@.len() < 0x2000_0000,
        txs@.len() < 0x2000_0000,
        precommits@.len() < 0x2000_0000,
        height < 0xffff_ffff_ffff_ffff,
    ensures
        final(fork).wf(),
        final(fork).snap_model() == old(fork).snap_model(),
        (r is Ok) == block_proof_ok(
            digest_of(block@),
            le64_value(block@.subrange(34, 42)),
            precommit_views(precommits@),
            key_views(validators@),
        ),
        r is Err ==> *final(fork) == *old(fork),
        r is Ok ==> final(fork).lookup(block_key(digest_of(block@))) == Some(block@),
        r is Ok ==> final(fork).lookup(height_key(height)) == Some(digest_of(block@)),
        r is Ok ==> final(fork).lookup(current_height_key()) == Some(
            crate::encoding::le64_bytes((height + 1) as u64),
        ),
        r is Ok ==> final(fork).lookup(precommit_count_key(digest_of(block@))) == Some(
            le32_bytes(precommits@.len() as u32),
        ),
        r is Ok ==> forall|i: int|
            0 <= i < precommits@.len() ==> #[trigger] final(fork).lookup(
                precommit_key(digest_of(block@), i as u32),
            ) == Some(precommit_views(precommits@)[i]),
        r is Ok ==> final(fork).lookup(block_txs_count_key(height)) == Some(
            le32_bytes(txs@.len() as u32),
        ),
        r is Ok ==> forall|i: int|
            0 <= i < txs@.len() ==> #[trigger] final(fork).lookup(block_txs_key(height, i as u32))
                == Some(txs@[i]@),
{
    if !verify_block_proof(block, precommits, validators) {
        return Err(Error::BadSignature);
    }
    let bh = block.hash();
    let ghost bhs = digest_of(block@);
    let mut i: usize = 0;
    while i < precommits.len()
        invariant
            fork.wf(),
            bh@ == bhs,
            bh.wf(),
            bhs == digest_of(block@),
            i <= precommits@.len(),
            precommits@.len() < 0x2000_0000,
            fork.snap_model() == old(fork).snap_model(),
            forall|j: int|
                0 <= j < i ==> #[trigger] fork.lookup(precommit_key(bhs, j as u32)) == Some(
                    precommit_views(precommits@)[j],
                ),
            forall|k: Seq<u8>|
                (forall|j: int| 0 <= j < i ==> k != #[trigger] precommit_key(bhs, j as u32))
                    ==> #[trigger] fork.lookup(k) == old(fork).lookup(k),
        decreases precommits@.len() - i,
    {
        let mut key = make_tag_key(4, bh.as_bytes());
        let idx = i as u32;
        key.push((idx & 0xff) as u8);
        key.push(((idx >> 8) & 0xff) as u8);
        key.push(((idx >> 16) & 0xff) as u8);
        key.push(((idx >> 24) & 0xff) as u8);
        proof {
            assert(key@ =~= precommit_key(bhs, idx));
        }
        fork.put(key, crate::storage::db::copy_bytes(precommits[i].raw()));
        proof {
            assert(precommit_views(precommits@)[i as int] == precommits@[i as int]@);
            assert forall|j: int| 0 <= j < i implies #[trigger] precommit_key(bhs, j as u32)
                != precommit_key(bhs, i as u32) by {
                lemma_precommit_key_injective(bhs, j as u32, i as u32);
            }
        }
        i = i + 1;
    }
    let count_key = make_tag_key(4, bh.as_bytes());
    let mut count_val: Vec<u8> = Vec::new();
    let cnt = precommits.len() as u32;
    count_val.push((cnt & 0xff) as u8);
    count_val.push(((cnt >> 8) & 0xff) as u8);
    count_val.push(((cnt >> 16) & 0xff) as u8);
    count_val.push(((cnt >> 24) & 0xff) as u8);
    proof {
        assert(count_val@ =~= le32_bytes(cnt));
        assert(count_key@ =~= precommit_count_key(bhs));
    }
    fork.put(count_key, count_val);
    let height_bytes = crate::storage::storage_key::StorageKey::write_key(&height);
    let ghost fork_pc = *fork;
    let mut ti: usize = 0;
    while ti < txs.len()
        invariant
            fork.wf(),
            height_bytes@ == crate::storage::storage_key::u64_key_bytes(height),
            ti <= txs@.len(),
            txs@.len() < 0x2000_0000,
            forall|j: int| 0 <= j < txs@.len() ==> (#[trigger] txs@[j]).wf(),
            fork.snap_model() == fork_pc.snap_model(),
            forall|j: int|
                0 <= j < ti ==> #[trigger] fork.lookup(block_txs_key(height, j as u32)) == Some(
                    txs@[j]@,
                ),
            forall|k: Seq<u8>|
                (forall|j: int| 0 <= j < ti ==> k != #[trigger] block_txs_key(height, j as u32))
                    ==> #[trigger] fork.lookup(k) == fork_pc.lookup(k),
        decreases txs@.len() - ti,
    {
        let mut key = make_tag_key(2, &height_bytes);
        let idx = ti as u32;
        key.push((idx & 0xff) as u8);
        key.push(((idx >> 8) & 0xff) as u8);
        key.push(((idx >> 16) & 0xff) as u8);
        key.push(((idx >> 24) & 0xff) as u8);
        proof {
            assert(key@ =~= block_txs_key(height, idx));
        }
        fork.put(key, crate::storage::db::copy_bytes(txs[ti].as_bytes()));
        proof {
            assert forall|j: int| 0 <= j < ti implies #[trigger] block_txs_key(height, j as u32)
                != block_txs_key(height, ti as u32) by {
                lemma_block_txs_key_injective(height, j as u32, ti as u32);
            }
        }
        ti = ti + 1;
    }
    let tcount_key = make_tag_key(2, &height_bytes);
    let mut tcount_val: Vec<u8> = Vec::new();
    let tcnt = txs.len() as u32;
    tcount_val.push((tcnt & 0xff) as u8);
    tcount_val.push(((tcnt >> 8) & 0xff) as u8);
    tcount_val.push(((tcnt >> 16) & 0xff) as u8);
    tcount_val.push(((tcnt >> 24) & 0xff) as u8);
    proof {
        assert(tcount_val@ =~= le32_bytes(tcnt));
        assert(tcount_key@ =~= block_txs_count_key(height));
        assert forall|j: int| 0 <= j < txs@.len() implies block_txs_count_key(height)
            != #[trigger] block_txs_key(height, j as u32) by {
            assert(block_txs_count_key(height).len() == 9);
            assert(block_txs_key(height, j as u32).len() == 13);
        }
    }
    fork.put(tcount_key, tcount_val);
    put_block(fork, block);
    let hkey = make_tag_key(1, &height_bytes);
    proof {
        assert(hkey@ =~= height_key(height));
    }
    fork.put(hkey, crate::storage::db::copy_bytes(bh.as_bytes()));
    let mut chkey: Vec<u8> = Vec::new();
    chkey.push(1);
    proof {
        assert(chkey@ =~= current_height_key());
    }
    let next = height + 1;
    let mut chval: Vec<u8> = Vec::new();
    chval.push((next & 0xff) as u8);
    chval.push(((next >> 8) & 0xff) as u8);
    chval.push(((next >> 16) & 0xff) as u8);
    chval.push(((next >> 24) & 0xff) as u8);
    chval.push(((next >> 32) & 0xff) as u8);
    chval.push(((next >> 40) & 0xff) as u8);
    chval.push(((next >> 48) & 0xff) as u8);
    chval.push(((next >> 56) & 0xff) as u8);
    proof {
        assert(chval@ =~= crate::encoding::le64_bytes(next));
    }
    fork.put(chkey, chval);
    proof {
        assert(precommit_count_key(bhs).len() == 33);
        assert(block_key(bhs).len() == 33);
        assert(height_key(height).len() == 9);
        assert(current_height_key().len() == 1);
        assert(block_txs_count_key(height).len() == 9);
        assert(precommit_count_key(bhs)[0] == 4u8);
        assert(block_key(bhs)[0] == 0u8);
        assert(block_txs_count_key(height)[0] == 2u8);
        assert(precommit_count_key(bhs) != block_key(bhs));
        assert(precommit_count_key(bhs) != height_key(height));
        assert(precommit_count_key(bhs) != current_height_key());
        assert(precommit_count_key(bhs) != block_txs_count_key(height));
        assert(block_key(bhs) != height_key(height));
        assert(block_key(bhs) != current_height_key());
        assert(height_key(height) != current_height_key());
        assert(block_txs_count_key(height) != block_key(bhs));
        assert(block_txs_count_key(height) != height_key(height));
        assert(block_txs_count_key(height) != current_height_key());
        assert forall|i2: int|
            0 <= i2 < precommits@.len() implies #[trigger] fork.lookup(
            precommit_key(bhs, i2 as u32),
        ) == Some(precommit_views(precommits@)[i2]) by {
            assert(precommit_key(bhs, i2 as u32).len() == 37);
            assert(precommit_key(bhs, i2 as u32)[0] == 4u8);
            assert forall|j: int| 0 <= j < txs@.len() implies precommit_key(bhs, i2 as u32)
                != #[trigger] block_txs_key(height, j as u32) by {
                assert(block_txs_key(height, j as u32)[0] == 2u8);
            }
            assert(precommit_key(bhs, i2 as u32) != block_txs_count_key(height));
        }
        assert forall|i2: int|
            0 <= i2 < txs@.len() implies #[trigger] fork.lookup(block_txs_key(height, i2 as u32))
            == Some(txs@[i2]@) by {
            assert(block_txs_key(height, i2 as u32).len() == 13);
            assert(block_txs_key(height, i2 as u32)[0] == 2u8);
        }
    }
    Ok(())
}

/// The precommit key of one index differs from the key of another, and
/// commits persist blocks only together with their quorum: the chain
/// never records a block without `2f + 1` matching votes beside it.
pub proof fn lemma_commit_carries_quorum(
    block_hash: Seq<u8>,
    height: u64,
    pcs: Seq<Seq<u8>>,
    validators: Seq<Seq<u8>>,
)
    requires
        block_proof_ok(block_hash, height, pcs, validators),
    ensures
        pcs.len() >= spec_byzantine_majority(validators.len() as nat),
        forall|i: int| 0 <= i < pcs.len() ==> (#[trigger] pcs[i]).subrange(58, 90) == block_hash,
        forall|i: int, j: int|
            0 <= i < j < pcs.len() ==> le32_value((#[trigger] pcs[i]).subrange(10, 14))
                != le32_value((#[trigger] pcs[j]).subrange(10, 14)),
{
}


/// Different transaction slots of a height store under different keys.
proof fn lemma_block_txs_key_injective(height: u64, j: u32, l: u32)
    requires
        j != l,
    ensures
        block_txs_key(height, j) != block_txs_key(height, l),
{
    crate::encoding::lemma_le32_round_trip(j);
    crate::encoding::lemma_le32_round_trip(l);
    if block_txs_key(height, j) == block_txs_key(height, l) {
        assert(block_txs_key(height, j).subrange(9, 13) =~= le32_bytes(j));
        assert(block_txs_key(height, l).subrange(9, 13) =~= le32_bytes(l));
    }
}

/// Different precommit indices store under different keys.
proof fn lemma_precommit_key_injective(h: Seq<u8>, j: u32, l: u32)
    requires
        j != l,
        h.len() == 32,
    ensures
        precommit_key(h, j) != precommit_key(h, l),
{
    crate::encoding::lemma_le32_round_trip(j);
    crate::encoding::lemma_le32_round_trip(l);
    if precommit_key(h, j) == precommit_key(h, l) {
        assert(precommit_key(h, j).subrange(33, 37) =~= le32_bytes(j));
        assert(precommit_key(h, l).subrange(33, 37) =~= le32_bytes(l));
    }
}


/// The fields a well-formed configuration's canonical bytes carry, at
/// their fixed offsets.
pub proof fn lemma_config_model_fields(c: StoredConfiguration)
    requires
        c.wf(),
    ensures
        c.model().len() == 60 + 32 * c.validators@.len(),
        config_bytes_wf(c.model()),
        c.model().subrange(0, 32) == c.previous_cfg_hash@,
        le64_value(c.model().subrange(32, 40)) == c.actual_from,
        le32_value(c.model().subrange(56, 60)) == c.validators@.len() as u32,
        forall|i: int|
            0 <= i < c.validators@.len() ==> #[trigger] c.model().subrange(
                60 + 32 * i,
                60 + 32 * i + 32,
            ) == c.validators@[i]@,
{
    lemma_keys_encode_len(c.validators@);
    let m = c.model();
    assert(m.subrange(0, 32) =~= c.previous_cfg_hash@);
    assert(m.subrange(32, 40) =~= le64_bytes(c.actual_from));
    crate::encoding::lemma_le64_round_trip(c.actual_from);
    assert(m.subrange(56, 60) =~= le32_bytes(c.validators@.len() as u32));
    crate::encoding::lemma_le32_round_trip(c.validators@.len() as u32);
    assert forall|i: int| 0 <= i < c.validators@.len() implies #[trigger] m.subrange(
        60 + 32 * i,
        60 + 32 * i + 32,
    ) == c.validators@[i]@ by {
        assert(keys_encode(c.validators@).subrange(32 * i, 32 * i + 32) == c.validators@[i]@);
        assert(m.subrange(60 + 32 * i, 60 + 32 * i + 32) =~= keys_encode(c.validators@).subrange(
            32 * i,
            32 * i + 32,
        ));
    }
}

} // verus!
