//! The timestamping service: its transaction carries opaque data whose
//! presence in a committed block is the timestamp.

use vstd::prelude::*;

use crate::blockchain::Transaction;
use crate::crypto::{digest_of, sig_valid};
use crate::encoding::Error;
use crate::messages::{key_segment_data, key_segment_unsigned, key_segment_valid, sealed};

verus! {

/// Service id of the timestamping service.
pub const TIMESTAMPING_SERVICE: u16 = 129;

/// Message id of the timestamping transaction.
pub const TIMESTAMPING_TRANSACTION_MESSAGE_ID: u16 = 128;

/// A timestamping transaction: an author key and opaque data bytes.
pub struct TimestampTx {
    raw: Vec<u8>,
}

impl TimestampTx {
    /// The transaction's bytes.
    pub closed spec fn view(&self) -> Seq<u8> {
        self.raw@
    }

    /// The buffer parses as a timestamping transaction.
    pub open spec fn wf(&self) -> bool {
        key_segment_valid(self@, TIMESTAMPING_TRANSACTION_MESSAGE_ID, TIMESTAMPING_SERVICE)
    }

    /// The author's key bytes.
    pub open spec fn pub_key_model(&self) -> Seq<u8> {
        self@.subrange(10, 42)
    }

    /// The data bytes.
    pub open spec fn data_model(&self) -> Seq<u8> {
        key_segment_data(self@)
    }

    /// Builds and signs a timestamping transaction.
    pub fn new(
        pub_key: &crate::crypto::PublicKey,
        data: &Vec<u8>,
        sk: &crate::crypto::SecretKey,
    ) -> (r: TimestampTx)
        requires
            pub_key.wf(),
            sk.wf(),
            data@.len() + 114 <= 0xffff_ffff,
        ensures
            r@ == sealed(
                key_segment_unsigned(
                    TIMESTAMPING_TRANSACTION_MESSAGE_ID,
                    TIMESTAMPING_SERVICE,
                    pub_key@,
                    data@,
                ),
                sk@,
            ),
            r.wf(),
            r.pub_key_model() == pub_key@,
            r.data_model() == data@,
            sig_valid(
                crate::crypto::pub_of(sk@),
                r@.take(r@.len() - 64),
                r@.skip(r@.len() - 64),
            ),
    {
        let raw = crate::messages::new_key_segment_message(
            TIMESTAMPING_TRANSACTION_MESSAGE_ID,
            TIMESTAMPING_SERVICE,
            pub_key,
            data,
            sk,
        );
        TimestampTx { raw }
    }

    /// Wraps a received buffer, accepting exactly the transaction's
    /// shape.
    pub fn from_raw(raw: Vec<u8>) -> (r: Result<TimestampTx, Error>)
        requires
            raw@.len() <= 0xffff_ffff,
        ensures
            (r is Ok) == key_segment_valid(
                raw@,
                TIMESTAMPING_TRANSACTION_MESSAGE_ID,
                TIMESTAMPING_SERVICE,
            ),
            r matches Ok(tx) ==> tx@ == raw@,
    {
        match crate::messages::check_key_segment_message(
            &raw,
            TIMESTAMPING_TRANSACTION_MESSAGE_ID,
            TIMESTAMPING_SERVICE,
        ) {
            Ok(()) => Ok(TimestampTx { raw }),
            Err(e) => Err(e),
        }
    }

    /// The author's public key.
    pub fn pub_key(&self) -> (r: crate::crypto::PublicKey)
        requires
            self.wf(),
        ensures
            r@ == self.pub_key_model(),
            r.wf(),
    {
        crate::messages::read_author_key(&self.raw)
    }

    /// The data bytes.
    pub fn data(&self) -> (r: Vec<u8>)
        requires
            self.wf(),
        ensures
            r@ == self.data_model(),
    {
        crate::messages::read_segment_bytes(
            &self.raw,
            TIMESTAMPING_TRANSACTION_MESSAGE_ID,
            TIMESTAMPING_SERVICE,
        )
    }
}

impl Transaction for TimestampTx {
    open spec fn tx_model(&self) -> Seq<u8> {
        self@
    }

    open spec fn tx_wf(&self) -> bool {
        self.wf()
    }

    open spec fn verified(&self) -> bool {
        sig_valid(self@.subrange(10, 42), self@.take(self@.len() - 64), self@.skip(self@.len() - 64))
    }

    fn verify(&self) -> (r: bool) {
        let pk = crate::messages::read_author_key(&self.raw);
        crate::messages::buffer_verify(&self.raw, &pk)
    }

    fn execute(&self, fork: &mut crate::storage::db::Fork) -> (r: Result<
        (),
        crate::storage::db::StorageError,
    >) {
        Ok(())
    }

    fn raw(&self) -> (r: &Vec<u8>) {
        &self.raw
    }

    fn hash(&self) -> (r: crate::crypto::Hash) {
        crate::crypto::hash(self.raw.as_slice())
    }
}

/// The timestamping service: it stores nothing of its own, so its
/// state hash is the digest of the empty string.
pub struct TimestampingService {}

impl TimestampingService {
    /// The service.
    pub fn new() -> (r: TimestampingService)
        ensures
            true,
    {
        TimestampingService {  }
    }

    /// The service's identifier.
    pub fn service_id(&self) -> (r: u16)
        ensures
            r == TIMESTAMPING_SERVICE,
    {
        TIMESTAMPING_SERVICE
    }

    /// Parses a raw transaction of this service.
    pub fn tx_from_raw(&self, raw: Vec<u8>) -> (r: Result<TimestampTx, Error>)
        requires
            raw@.len() <= 0xffff_ffff,
        ensures
            (r is Ok) == key_segment_valid(
                raw@,
                TIMESTAMPING_TRANSACTION_MESSAGE_ID,
                TIMESTAMPING_SERVICE,
            ),
            r matches Ok(tx) ==> tx@ == raw@,
    {
        TimestampTx::from_raw(raw)
    }

    /// The service's state hash: nothing stored, the digest of the
    /// empty string.
    pub fn state_hash(&self) -> (r: crate::crypto::Hash)
        ensures
            r@ == digest_of(Seq::<u8>::empty()),
            r.wf(),
    {
        let empty: Vec<u8> = Vec::new();
        let h = crate::crypto::hash(empty.as_slice());
        proof {
            assert(empty@ =~= Seq::<u8>::empty());
        }
        h
    }

    /// Genesis initialisation: nothing to set up.
    pub fn handle_genesis_block(&self, fork: &mut crate::storage::db::Fork) -> (r: Result<
        (),
        crate::storage::db::StorageError,
    >)
        requires
            old(fork).wf(),
        ensures
            r is Ok,
            *final(fork) == *old(fork),
    {
        Ok(())
    }

    /// Commit hook: this service broadcasts nothing.
    pub fn handle_commit(&self) -> (r: Vec<TimestampTx>)
        ensures
            r@.len() == 0,
    {
        Vec::new()
    }
}

} // verus!
