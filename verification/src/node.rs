//! The node: its configuration, its timeouts, the channel through
//! which transactions enter the engine, and the pure decision rules of
//! the event handlers. The handlers' I/O lives outside the library;
//! every decision they take is a function here, verified for every
//! input.

use vstd::prelude::*;

use crate::blockchain::Transaction;
use crate::encoding::Timespec;

verus! {

/// The consensus timing parameters, all in milliseconds.
#[derive(Clone, Copy, Debug, PartialEq, Eq, Structural)]
pub struct ConsensusConfig {
    pub round_timeout: u32,
    pub propose_timeout: u32,
    pub status_timeout: u32,
    pub peers_timeout: u32,
}

/// How long a request message stays answerable, in nanoseconds.
pub const REQUEST_ALIVE_NANOS: u64 = 3_000_000_000;

/// The data a node asks a peer for.
pub enum RequestData {
    Propose(u64, crate::crypto::Hash),
    Transactions(Vec<crate::crypto::Hash>),
    Prevotes(u32, crate::crypto::Hash),
    Precommits(u32, crate::crypto::Hash, crate::crypto::Hash),
    Peers,
    Block(u64),
}

/// The timeouts the event loop schedules.
pub enum NodeTimeout {
    Status,
    Round(u64, u32),
    Request(RequestData, Option<crate::crypto::PublicKey>),
    Propose,
    PeerExchange,
}

/// An application event handed to the node from outside.
pub enum ExternalMessage<T> {
    Transaction(T),
}

/// Whether a request's timestamp falls inside the answerable window:
/// not from the future, and at most the alive window old.
pub fn request_is_timely(now: &Timespec, msg_time: &Timespec) -> (r: bool)
    requires
        now.wf(),
        msg_time.wf(),
    ensures
        r == (msg_time.spec_nanos() <= now.spec_nanos() && now.spec_nanos() - msg_time.spec_nanos()
            <= REQUEST_ALIVE_NANOS),
{
    proof {
        crate::encoding::lemma_timespec_nanos_bound(*now);
        crate::encoding::lemma_timespec_nanos_bound(*msg_time);
    }
    let now_n: u64 = (now.sec as u64) * 1_000_000_000 + (now.nsec as u64);
    let msg_n: u64 = (msg_time.sec as u64) * 1_000_000_000 + (msg_time.nsec as u64);
    msg_n <= now_n && now_n - msg_n <= REQUEST_ALIVE_NANOS
}

/// Whether a request message is for us at all: addressed to our own
/// key and timestamped inside the answerable window. The signature
/// check follows per message type.
pub fn request_accepted(
    our_key: &crate::crypto::PublicKey,
    to: &crate::crypto::PublicKey,
    now: &Timespec,
    msg_time: &Timespec,
) -> (r: bool)
    requires
        now.wf(),
        msg_time.wf(),
    ensures
        r == (to@ == our_key@ && msg_time.spec_nanos() <= now.spec_nanos() && now.spec_nanos()
            - msg_time.spec_nanos() <= REQUEST_ALIVE_NANOS),
{
    if !to.equals(our_key) {
        return false;
    }
    request_is_timely(now, msg_time)
}

/// What to do with a `Connect` from a peer already known: a strictly
/// older message is ignored; otherwise the peer record is replaced,
/// and a new link is opened unless address and time are both
/// unchanged.
pub fn connect_decision(saved_time: &Timespec, new_time: &Timespec, same_addr: bool) -> (r: (
    bool,
    bool,
))
    requires
        saved_time.wf(),
        new_time.wf(),
    ensures
        r.0 == (saved_time.spec_nanos() <= new_time.spec_nanos()),
        r.1 == !(same_addr && saved_time.spec_nanos() == new_time.spec_nanos()),
{
    proof {
        crate::encoding::lemma_timespec_nanos_bound(*saved_time);
        crate::encoding::lemma_timespec_nanos_bound(*new_time);
    }
    let saved_n: u64 = (saved_time.sec as u64) * 1_000_000_000 + (saved_time.nsec as u64);
    let new_n: u64 = (new_time.sec as u64) * 1_000_000_000 + (new_time.nsec as u64);
    let accept = saved_n <= new_n;
    let need_connect = !(same_addr && saved_n == new_n);
    (accept, need_connect)
}

/// Whether a peer's `Status` should trigger a catch-up request: the
/// peer claims a height above ours that we have not yet recorded for
/// it.
pub fn status_triggers_request(msg_height: u64, our_height: u64, known_height: u64) -> (r: bool)
    ensures
        r == (msg_height > our_height && known_height < msg_height),
{
    msg_height > our_height && known_height < msg_height
}

/// Whether a block request can be answered: only history strictly
/// below our height is served.
pub fn should_serve_block(req_height: u64, our_height: u64) -> (r: bool)
    ensures
        r == (req_height < our_height),
{
    req_height < our_height
}

/// Whether a propose request concerns the height we are at; proposes
/// of other heights are not held.
pub fn should_serve_propose(req_height: u64, our_height: u64) -> (r: bool)
    ensures
        r == (req_height == our_height),
{
    req_height == our_height
}

/// The validator ordinal whose turn it is to propose at a height and
/// round: rotation by `(height + round) mod n`.
pub fn proposer_for(height: u64, round: u32, n: usize) -> (r: usize)
    requires
        n > 0,
        height < 0x8000_0000_0000_0000,
    ensures
        r == ((height + round) as int) % (n as int),
{
    (((height + (round as u64)) % (n as u64)) as usize)
}

/// The wall-clock deadline of a round: the last block's time plus the
/// round number times the round timeout.
pub fn round_timeout_at(last_block_time: &Timespec, round: u32, round_timeout_ms: u32) -> (r:
    Timespec)
    requires
        last_block_time.wf(),
        round <= 1_000_000,
        round_timeout_ms <= 3_600_000,
        last_block_time.spec_nanos() + 3_600_000_000_000_000_000 <= 0xffff_ffff_ffff_ffff,
    ensures
        r.wf(),
        r.spec_nanos() == last_block_time.spec_nanos() + (round as int) * (
        round_timeout_ms as int) * 1_000_000,
{
    proof {
        crate::encoding::lemma_timespec_nanos_bound(*last_block_time);
        assert((round as int) * (round_timeout_ms as int) <= 3_600_000_000_000int)
            by (nonlinear_arith)
            requires
                round <= 1_000_000,
                round_timeout_ms <= 3_600_000,
        ;
        assert((round as int) * (round_timeout_ms as int) * 1_000_000
            <= 3_600_000_000_000_000_000int) by (nonlinear_arith)
            requires
                (round as int) * (round_timeout_ms as int) <= 3_600_000_000_000int,
                0 <= (round as int) * (round_timeout_ms as int),
        ;
    }
    let base: u64 = (last_block_time.sec as u64) * 1_000_000_000 + (last_block_time.nsec as u64);
    let delta: u64 = (round as u64) * (round_timeout_ms as u64) * 1_000_000;
    let total: u64 = base + delta;
    let r = Timespec { sec: (total / 1_000_000_000) as i64, nsec: (total % 1_000_000_000) as i32 };
    proof {
        assert(r.sec * 1_000_000_000 + r.nsec == total && 0 <= r.nsec < 1_000_000_000)
            by (nonlinear_arith)
            requires
                r.sec == total / 1_000_000_000,
                r.nsec == total % 1_000_000_000,
        ;
    }
    r
}

/// Relies on rand::thread_rng and rand::Rng::gen_range: a uniformly
/// chosen index below the bound. Nothing more is promised of a random
/// draw than its range.
#[verifier::external_body]
pub fn random_below(bound: usize) -> (r: usize)
    requires
        bound > 0,
    ensures
        r < bound,
{
    rand::Rng::gen_range(&mut rand::thread_rng(), 0..bound)
}

/// A channel into the node's event loop: what was posted on it, in
/// order. The network back end outside the library implements the
/// actual delivery.
pub trait Channel: Sized {
    /// The payloads posted so far, oldest first.
    spec fn sent(&self) -> Seq<Seq<u8>>;

    /// Posts one payload.
    fn post_event(&mut self, payload: Vec<u8>)
        ensures
            final(self).sent() == old(self).sent().push(payload@),
    ;
}

/// An in-memory channel: a queue of posted payloads.
pub struct QueueChannel {
    queue: Vec<Vec<u8>>,
}

impl QueueChannel {
    /// An empty channel.
    pub fn new() -> (r: QueueChannel)
        ensures
            r.sent().len() == 0,
    {
        let r = QueueChannel { queue: Vec::new() };
        proof {
            assert(r.sent() =~= Seq::<Seq<u8>>::empty());
        }
        r
    }

    /// The posted payloads, oldest first.
    pub fn posted(&self) -> (r: &Vec<Vec<u8>>)
        ensures
            r@.map_values(|v: Vec<u8>| v@) == self.sent(),
    {
        &self.queue
    }
}

impl Channel for QueueChannel {
    closed spec fn sent(&self) -> Seq<Seq<u8>> {
        self.queue@.map_values(|v: Vec<u8>| v@)
    }

    fn post_event(&mut self, payload: Vec<u8>) {
        self.queue.push(payload);
        proof {
            assert(self.sent() =~= old(self).sent().push(payload@));
        }
    }
}

/// The transaction entry point handed to the interfaces outside the
/// consensus loop: it checks a transaction's signature and posts the
/// accepted ones into the node's channel.
pub struct TxSender<S> {
    inner: S,
}

impl<S: Channel> TxSender<S> {
    /// The payloads this sender has posted.
    pub closed spec fn sent(&self) -> Seq<Seq<u8>> {
        self.inner.sent()
    }

    /// A sender over the given channel.
    pub fn new(inner: S) -> (r: TxSender<S>)
        ensures
            r.sent() == inner.sent(),
    {
        TxSender { inner }
    }

    /// Posts a transaction if its signature checks; drops it
    /// otherwise.
    pub fn send<T: Transaction>(&mut self, tx: T) -> (accepted: bool)
        requires
            tx.tx_wf(),
        ensures
            accepted == tx.verified(),
            accepted ==> final(self).sent() == old(self).sent().push(tx.tx_model()),
            !accepted ==> final(self).sent() == old(self).sent(),
    {
        if tx.verify() {
            let raw = crate::storage::db::copy_bytes(tx.raw());
            self.inner.post_event(raw);
            true
        } else {
            false
        }
    }

    /// Gives the underlying channel back.
    pub fn into_inner(self) -> (r: S)
        ensures
            r.sent() == self.sent(),
    {
        self.inner
    }
}

} // verus!
