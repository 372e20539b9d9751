//! Burst-protocol adapter: fixed-size tagged transactions written over one
//! length-framed stream, paced in bursts of a fixed period.

use crate::common::{RoundResults, TestrpcError};
use crate::config::{find_arg, lookup_arg, Arg, ArgValue};
use vstd::prelude::*;
use vstd::string::StringExecFns;

verus! {

/// Number of bursts that one delivery is split into.
pub const PRECISION: u64 = 20;

/// Target period of one burst, in milliseconds.
pub const BURST_DURATION_MS: u64 = 1000 / PRECISION;

/// Smallest transaction: one tag byte and an eight-byte identifier.
pub const MIN_TX_SIZE: usize = 9;

/// Tag of a sample transaction (used externally to measure latency).
pub const SAMPLE_TAG: u8 = 0;

/// Tag of a standard (filler) transaction.
pub const STANDARD_TAG: u8 = 1;

/// Byte `k` (0 = most significant) of the big-endian form of `id`.
pub open spec fn be_byte(id: u64, k: int) -> u8 {
    (#[verifier::truncate] ((id >> ((8 * (7 - k)) as u64)) as u8))
}

/// Wire form of one transaction: the tag, the big-endian identifier, then
/// zeros up to `size` bytes.
pub open spec fn encoded_tx(tag: u8, id: u64, size: nat) -> Seq<u8> {
    Seq::new(
        size,
        |i: int|
            if i == 0 {
                tag
            } else if i < 9 {
                be_byte(id, i - 1)
            } else {
                0u8
            },
    )
}

/// Encodes one transaction of `tx_size` bytes.
pub fn encode_transaction(tag: u8, id: u64, tx_size: usize) -> (r: Vec<u8>)
    requires
        tx_size >= MIN_TX_SIZE,
    ensures
        r@ == encoded_tx(tag, id, tx_size as nat),
{
    let mut r: Vec<u8> = Vec::with_capacity(tx_size);
    r.push(tag);
    let mut k: u64 = 0;
    while k < 8
        invariant
            k <= 8,
            tx_size >= MIN_TX_SIZE,
            r@.len() == k + 1,
            r@ =~= encoded_tx(tag, id, tx_size as nat).take(k + 1),
        decreases 8 - k,
    {
        let shift: u64 = 8 * (7 - k);
        let byte: u8 = (#[verifier::truncate] ((id >> shift) as u8));
        r.push(byte);
        k = k + 1;
    }
    while r.len() < tx_size
        invariant
            9 <= r@.len() <= tx_size,
            r@ =~= encoded_tx(tag, id, tx_size as nat).take(r@.len() as int),
        decreases tx_size - r@.len(),
    {
        r.push(0u8);
    }
    assert(r@ =~= encoded_tx(tag, id, tx_size as nat));
    r
}

/// Transactions per burst for a delivery of `n`.
pub open spec fn burst_size(n: nat) -> nat {
    n / (PRECISION as nat)
}

/// Length of burst `c`: the last burst also takes the remainder.
pub open spec fn burst_len(n: nat, c: nat) -> nat {
    if c + 1 < PRECISION {
        burst_size(n)
    } else if c + 1 == PRECISION {
        burst_size(n) + n % (PRECISION as nat)
    } else {
        0
    }
}

/// Index of the first transaction of burst `c` (for `c < PRECISION`).
pub open spec fn burst_start(n: nat, c: nat) -> nat {
    c * burst_size(n)
}

/// Whether slot `x` of burst `c` carries the sample transaction.
pub open spec fn is_sample_slot(n: nat, c: nat, x: nat) -> bool {
    burst_size(n) > 0 && x == c % burst_size(n)
}

/// Burst that the `k`-th transaction of a delivery of `n` falls in.
pub open spec fn slot_burst(n: nat, k: nat) -> nat {
    let b = burst_size(n);
    if b > 0 && k < (PRECISION - 1) * b {
        k / b
    } else {
        (PRECISION - 1) as nat
    }
}

/// Position of the `k`-th transaction inside its burst.
pub open spec fn slot_pos(n: nat, k: nat) -> nat {
    let b = burst_size(n);
    if b > 0 && k < (PRECISION - 1) * b {
        k % b
    } else {
        (k - (PRECISION - 1) * b) as nat
    }
}

/// Whether the `k`-th transaction of a delivery of `n` is a sample.
pub open spec fn is_sample_index(n: nat, k: nat) -> bool {
    is_sample_slot(n, slot_burst(n, k), slot_pos(n, k))
}

/// Identifier of the standard transaction that follows one with identifier `r`.
pub open spec fn next_standard_id(r: u64) -> u64 {
    if r == u64::MAX {
        0
    } else {
        (r + 1) as u64
    }
}

/// Abstract state of one burst delivery.
pub struct BurstState {
    pub num_txs: nat,
    pub tx_size: nat,
    /// Number of the current burst.
    pub counter: nat,
    /// Next slot inside the current burst.
    pub pos: nat,
    /// A timer tick has opened the current burst.
    pub in_burst: bool,
    pub sent: nat,
    pub failed: nat,
    /// Identifier of the last standard transaction.
    pub next_id: u64,
    pub finished: bool,
}

/// Whether the next transaction of state `s` is the sample of its burst.
pub open spec fn next_is_sample(s: BurstState) -> bool {
    is_sample_slot(s.num_txs, s.counter, s.pos)
}

/// The next transaction that state `s` writes.
pub open spec fn next_tx(s: BurstState) -> Seq<u8> {
    if next_is_sample(s) {
        encoded_tx(SAMPLE_TAG, s.counter as u64, s.tx_size)
    } else {
        encoded_tx(STANDARD_TAG, next_standard_id(s.next_id), s.tx_size)
    }
}

/// Effect of a timer tick.
pub open spec fn tick_step(s: BurstState) -> BurstState {
    if s.finished || s.in_burst {
        s
    } else if burst_len(s.num_txs, s.counter) > 0 {
        BurstState { in_burst: true, pos: 0, ..s }
    } else {
        BurstState { counter: s.counter + 1, finished: s.sent >= s.num_txs, ..s }
    }
}

/// Effect of the outcome of writing `next_tx(s)`.
pub open spec fn send_step(s: BurstState, ok: bool) -> BurstState {
    if s.finished || !s.in_burst {
        s
    } else if !ok {
        BurstState { failed: s.failed + 1, finished: true, ..s }
    } else {
        let id = if next_is_sample(s) {
            s.next_id
        } else {
            next_standard_id(s.next_id)
        };
        if s.sent + 1 >= s.num_txs {
            BurstState { sent: s.sent + 1, pos: s.pos + 1, next_id: id, finished: true, ..s }
        } else if s.pos + 1 >= burst_len(s.num_txs, s.counter) {
            BurstState {
                sent: s.sent + 1,
                pos: 0,
                in_burst: false,
                counter: s.counter + 1,
                next_id: id,
                ..s
            }
        } else {
            BurstState { sent: s.sent + 1, pos: s.pos + 1, next_id: id, ..s }
        }
    }
}

/// Invariant of a burst delivery.
pub open spec fn burst_state_ok(s: BurstState) -> bool {
    &&& s.tx_size >= MIN_TX_SIZE
    &&& s.num_txs <= usize::MAX
    &&& s.counter <= PRECISION
    &&& s.sent <= s.num_txs
    &&& s.failed <= 1
    &&& s.failed == 1 ==> s.finished
    &&& !s.finished ==> {
        &&& s.failed == 0
        &&& s.in_burst ==> s.sent < s.num_txs
        &&& s.counter < PRECISION
        &&& s.sent == burst_start(s.num_txs, s.counter) + s.pos
        &&& s.in_burst ==> s.pos < burst_len(s.num_txs, s.counter)
        &&& !s.in_burst ==> s.pos == 0
    }
}

/// Number of sample transactions among the first `m` of a delivery of `n`.
pub open spec fn sample_count(n: nat, m: nat) -> nat
    decreases m,
{
    if m == 0 {
        0
    } else {
        sample_count(n, (m - 1) as nat) + if is_sample_index(n, (m - 1) as nat) {
            1nat
        } else {
            0nat
        }
    }
}

/// Closed form of `sample_count` (for at least one transaction per burst):
/// one sample per burst begun, counting the current burst once its sample
/// position is passed.
spec fn sample_count_closed(n: nat, m: nat) -> nat {
    let b = burst_size(n);
    if m <= 19 * b {
        m / b + if m % b > (m / b) % b {
            1nat
        } else {
            0nat
        }
    } else {
        19 + if (m - 19 * b) as nat > 19nat % b {
            1nat
        } else {
            0nat
        }
    }
}

proof fn lemma_sample_count_closed(n: nat, m: nat)
    requires
        burst_size(n) > 0,
        m <= n,
    ensures
        sample_count(n, m) == sample_count_closed(n, m),
    decreases m,
{
    let b = burst_size(n);
    if m == 0 {
        vstd::arithmetic::div_mod::lemma_fundamental_div_mod_converse(0, b as int, 0, 0);
    } else {
        let k = (m - 1) as nat;
        lemma_sample_count_closed(n, k);
        if m <= 19 * b {
            let c = k / b;
            let j = k % b;
            vstd::arithmetic::div_mod::lemma_fundamental_div_mod(k as int, b as int);
            vstd::arithmetic::div_mod::lemma_mod_bound(c as int, b as int);
            if j + 1 < b {
                vstd::arithmetic::div_mod::lemma_fundamental_div_mod_converse(
                    m as int,
                    b as int,
                    c as int,
                    (j + 1) as int,
                );
            } else {
                assert(m == (c + 1) * b) by (nonlinear_arith)
                    requires
                        k == c * b + j,
                        j + 1 == b,
                        m == k + 1,
                ;
                vstd::arithmetic::div_mod::lemma_fundamental_div_mod_converse(
                    m as int,
                    b as int,
                    (c + 1) as int,
                    0,
                );
            }
        } else if k == 19 * b {
            vstd::arithmetic::div_mod::lemma_fundamental_div_mod_converse(k as int, b as int, 19, 0);
        }
    }
}

/// Over a whole delivery of `n` transactions with at least one transaction
/// per burst, exactly one transaction per burst is a sample: `min(n,
/// PRECISION)` in all, every other one being standard.
pub proof fn lemma_samples_per_delivery(n: nat)
    requires
        burst_size(n) > 0,
    ensures
        sample_count(n, n) == vstd::math::min(n as int, PRECISION as int),
{
    lemma_sample_count_closed(n, n);
    lemma_burst_sizes(n);
    let b = burst_size(n);
    vstd::arithmetic::div_mod::lemma_mod_bound(19, b as int);
    assert(n >= 20) by (nonlinear_arith)
        requires
            n == 20 * b + n % 20,
            b > 0,
    ;
}

/// State of a delivery that has not begun.
pub open spec fn initial_state(num_txs: nat, tx_size: nat, seed: u64) -> BurstState {
    BurstState {
        num_txs,
        tx_size,
        counter: 0,
        pos: 0,
        in_burst: false,
        sent: 0,
        failed: 0,
        next_id: seed,
        finished: false,
    }
}

/// A delivery of zero transactions ends at its first tick with nothing sent
/// and nothing failed.
pub proof fn lemma_empty_delivery(tx_size: nat, seed: u64)
    ensures
        tick_step(initial_state(0, tx_size, seed)).finished,
        tick_step(initial_state(0, tx_size, seed)).sent == 0,
        tick_step(initial_state(0, tx_size, seed)).failed == 0,
{
}

/// Every transaction that a delivery writes is `tx_size` bytes long and
/// starts with the sample or the standard tag.
pub proof fn lemma_tx_shape(s: BurstState)
    requires
        burst_state_ok(s),
    ensures
        next_tx(s).len() == s.tx_size,
        next_tx(s)[0] == SAMPLE_TAG || next_tx(s)[0] == STANDARD_TAG,
{
}

/// What the caller of a burst delivery does next.
pub enum BurstAction {
    /// Wait for the next tick of the burst timer, then call `tick`.
    WaitTick,
    /// Write these bytes as one frame, then call `record_send`.
    Send(Vec<u8>),
    /// The delivery is over.
    Done(RoundResults),
}

/// Pacing of one delivery: `num_txs` transactions of `tx_size` bytes,
/// split into `PRECISION` bursts with one sample transaction per burst.
pub struct BurstSender {
    num_txs: usize,
    tx_size: usize,
    burst_size: usize,
    remainder: usize,
    counter: u64,
    pos: usize,
    in_burst: bool,
    sent: usize,
    failed: usize,
    next_id: u64,
    finished: bool,
}

impl View for BurstSender {
    type V = BurstState;

    closed spec fn view(&self) -> BurstState {
        BurstState {
            num_txs: self.num_txs as nat,
            tx_size: self.tx_size as nat,
            counter: self.counter as nat,
            pos: self.pos as nat,
            in_burst: self.in_burst,
            sent: self.sent as nat,
            failed: self.failed as nat,
            next_id: self.next_id,
            finished: self.finished,
        }
    }
}

proof fn lemma_burst_sizes(n: nat)
    ensures
        burst_size(n) + n % (PRECISION as nat) <= n,
        (PRECISION as nat) * burst_size(n) + n % (PRECISION as nat) == n,
        burst_start(n, (PRECISION - 1) as nat) + burst_len(n, (PRECISION - 1) as nat) == n,
{
    vstd::arithmetic::div_mod::lemma_fundamental_div_mod(n as int, PRECISION as int);
    assert(burst_start(n, 19) == 19 * burst_size(n));
}

/// A burst ends within the delivery.
proof fn lemma_burst_fits(n: nat, c: nat)
    requires
        c < PRECISION,
    ensures
        burst_start(n, c) + burst_len(n, c) <= n,
        burst_len(n, c) == 0 && c + 1 < PRECISION ==> burst_start(n, c + 1) == burst_start(n, c),
{
    lemma_burst_sizes(n);
    let b = burst_size(n);
    if c + 1 < PRECISION {
        assert(c * b + b <= 20 * b) by (nonlinear_arith)
            requires
                c + 1 < 20,
        ;
        if b == 0 {
            assert(c * b == 0 && (c + 1) * b == 0) by (nonlinear_arith)
                requires
                    b == 0,
            ;
        }
    }
}

/// The slot that the state machine is at agrees with the closed form of
/// the transaction's index.
proof fn lemma_slot_matches(s: BurstState)
    requires
        burst_state_ok(s),
        !s.finished,
        s.in_burst,
    ensures
        next_is_sample(s) == is_sample_index(s.num_txs, s.sent),
{
    let n = s.num_txs;
    let b = burst_size(n);
    if b > 0 {
        if s.counter + 1 < PRECISION {
            vstd::arithmetic::div_mod::lemma_fundamental_div_mod_converse(
                s.sent as int,
                b as int,
                s.counter as int,
                s.pos as int,
            );
            assert(s.counter * b + b <= 19 * b) by (nonlinear_arith)
                requires
                    s.counter + 1 <= 19,
            ;
        }
    }
}

impl BurstSender {
    /// Invariant of the delivery state.
    pub closed spec fn wf(&self) -> bool {
        &&& burst_state_ok(self@)
        &&& self.burst_size == burst_size(self.num_txs as nat)
        &&& self.remainder == self.num_txs % (PRECISION as usize)
    }

    /// Starts a delivery of `num_txs` transactions of `tx_size` bytes;
    /// standard identifiers count up from `seed`. Fails when `tx_size` is
    /// below the protocol minimum.
    pub fn new(num_txs: usize, tx_size: usize, seed: u64) -> (r: Result<BurstSender, TestrpcError>)
        ensures
            tx_size < MIN_TX_SIZE <==> r is Err,
            r matches Err(e) ==> (e matches TestrpcError::RpcError(m) && m@ == tx_size_error_text()),
            r matches Ok(b) ==> b.wf() && b@ == initial_state(num_txs as nat, tx_size as nat, seed),
    {
        if tx_size < MIN_TX_SIZE {
            return Err(TestrpcError::RpcError(tx_size_message()));
        }
        proof {
            lemma_burst_sizes(num_txs as nat);
        }
        Ok(BurstSender {
            num_txs,
            tx_size,
            burst_size: num_txs / (PRECISION as usize),
            remainder: num_txs % (PRECISION as usize),
            counter: 0,
            pos: 0,
            in_burst: false,
            sent: 0,
            failed: 0,
            next_id: seed,
            finished: false,
        })
    }

    fn current_burst_len(&self) -> (r: usize)
        requires
            self.wf(),
            self.counter < PRECISION,
        ensures
            r == burst_len(self.num_txs as nat, self.counter as nat),
    {
        proof {
            lemma_burst_sizes(self.num_txs as nat);
        }
        if self.counter + 1 < PRECISION {
            self.burst_size
        } else {
            self.burst_size + self.remainder
        }
    }

    /// The next step of the delivery.
    pub fn next_action(&self) -> (r: BurstAction)
        requires
            self.wf(),
        ensures
            self@.finished ==> r == BurstAction::Done(
                RoundResults { sent: self@.sent as usize, failed: self@.failed as usize },
            ),
            !self@.finished && !self@.in_burst ==> r is WaitTick,
            !self@.finished && self@.in_burst ==> (r matches BurstAction::Send(tx) && tx@ == next_tx(self@)),
            r matches BurstAction::Send(tx) ==> tx@[0] == (if is_sample_index(self@.num_txs, self@.sent) {
                SAMPLE_TAG
            } else {
                STANDARD_TAG
            }) && tx@.len() == self@.tx_size,
    {
        if self.finished {
            return BurstAction::Done(RoundResults { sent: self.sent, failed: self.failed });
        }
        if !self.in_burst {
            return BurstAction::WaitTick;
        }
        proof {
            lemma_slot_matches(self@);
        }
        let tx = if self.is_sample_slot() {
            encode_transaction(SAMPLE_TAG, self.counter, self.tx_size)
        } else {
            encode_transaction(STANDARD_TAG, self.next_standard_id(), self.tx_size)
        };
        BurstAction::Send(tx)
    }

    fn is_sample_slot(&self) -> (r: bool)
        requires
            self.wf(),
        ensures
            r == next_is_sample(self@),
    {
        self.burst_size > 0 && self.pos as u64 == self.counter % (self.burst_size as u64)
    }

    fn next_standard_id(&self) -> (r: u64)
        ensures
            r == next_standard_id(self.next_id),
    {
        if self.next_id == u64::MAX {
            0
        } else {
            self.next_id + 1
        }
    }

    /// A tick of the burst timer: opens the next burst.
    pub fn tick(&mut self)
        requires
            old(self).wf(),
        ensures
            final(self).wf(),
            final(self)@ == tick_step(old(self)@),
    {
        if self.finished || self.in_burst {
            return;
        }
        proof {
            lemma_burst_fits(self.num_txs as nat, self.counter as nat);
        }
        if self.current_burst_len() > 0 {
            self.in_burst = true;
            self.pos = 0;
        } else {
            self.counter = self.counter + 1;
            self.finished = self.sent >= self.num_txs;
        }
    }

    /// Records whether the transaction from `next_action` was written.
    pub fn record_send(&mut self, ok: bool)
        requires
            old(self).wf(),
        ensures
            final(self).wf(),
            final(self)@ == send_step(old(self)@, ok),
    {
        if self.finished || !self.in_burst {
            return;
        }
        if !ok {
            self.failed = self.failed + 1;
            self.finished = true;
            return;
        }
        let len = self.current_burst_len();
        if !self.is_sample_slot() {
            self.next_id = self.next_standard_id();
        }
        proof {
            lemma_burst_sizes(self.num_txs as nat);
            let b = burst_size(self.num_txs as nat);
            let c = self.counter as nat;
            assert(c * b + b == (c + 1) * b) by (nonlinear_arith);
        }
        self.sent = self.sent + 1;
        if self.sent >= self.num_txs {
            self.pos = self.pos + 1;
            self.finished = true;
        } else if self.pos + 1 >= len {
            self.pos = 0;
            self.in_burst = false;
            self.counter = self.counter + 1;
        } else {
            self.pos = self.pos + 1;
        }
    }
}

/// How one delivery proceeds.
pub enum Delivery {
    /// Nothing to send: the result is known at once.
    Immediate(RoundResults),
    /// Open a connection and drive this burst sender.
    Stream(BurstSender),
}

/// Arguments of the burst-protocol adapter.
#[derive(Debug, Clone)]
pub struct AutobahnArgs {
    /// Path of the JSON document that lists the nodes' endpoints.
    pub nodes_config_file: String,
}

impl AutobahnArgs {
    /// Reads the arguments: `nodes_config_file` must be a string.
    pub fn from_args(args: &Vec<Arg>) -> (r: Result<AutobahnArgs, TestrpcError>)
        ensures
            lookup_arg(args@, "nodes_config_file"@) matches Some(ArgValue::Str(f)) ==> (r matches Ok(a)
                && a.nodes_config_file@ == f@),
            !(lookup_arg(args@, "nodes_config_file"@) matches Some(ArgValue::Str(_))) ==> (r matches Err(
                TestrpcError::MissingArgs(m),
            ) && m@ == "nodes_config_file"@),
    {
        match find_arg(args, "nodes_config_file") {
            Some(ArgValue::Str(f)) => Ok(AutobahnArgs { nodes_config_file: f.clone() }),
            _ => Err(TestrpcError::MissingArgs(String::from_str("nodes_config_file"))),
        }
    }
}

/// The burst-protocol adapter.
pub struct AutobahnAdapter;

/// Relies on rand::random (rand 0.9): a value drawn from the thread-local
/// generator; nothing is assumed of it.
#[verifier::external_body]
fn random_seed() -> u64 {
    rand::random::<u64>()
}

impl AutobahnAdapter {
    pub fn new() -> (r: Self) {
        AutobahnAdapter
    }

    /// Decides how a delivery of `num_txs` transactions of `tx_size` bytes
    /// proceeds: in dry-run mode everything counts as sent; otherwise the
    /// size is checked before any connection is opened.
    pub fn plan_delivery(dry_run: bool, num_txs: usize, tx_size: usize, seed: u64) -> (r: Result<
        Delivery,
        TestrpcError,
    >)
        ensures
            dry_run ==> r == Ok::<Delivery, TestrpcError>(
                Delivery::Immediate(RoundResults { sent: num_txs, failed: 0 }),
            ),
            !dry_run && tx_size < MIN_TX_SIZE ==> (r matches Err(TestrpcError::RpcError(m))
                && m@ == tx_size_error_text()),
            !dry_run && tx_size >= MIN_TX_SIZE ==> (r matches Ok(Delivery::Stream(b)) && b.wf()
                && b@ == initial_state(num_txs as nat, tx_size as nat, seed)),
    {
        if dry_run {
            return Ok(Delivery::Immediate(RoundResults { sent: num_txs, failed: 0 }));
        }
        match BurstSender::new(num_txs, tx_size, seed) {
            Ok(b) => Ok(Delivery::Stream(b)),
            Err(e) => Err(e),
        }
    }

    /// `plan_delivery` with a standard-identifier seed drawn once for this
    /// connection.
    pub fn start_delivery(&self, dry_run: bool, num_txs: usize, tx_size: usize) -> (r: Result<
        Delivery,
        TestrpcError,
    >)
        ensures
            dry_run ==> r == Ok::<Delivery, TestrpcError>(
                Delivery::Immediate(RoundResults { sent: num_txs, failed: 0 }),
            ),
            !dry_run && tx_size < MIN_TX_SIZE ==> (r matches Err(TestrpcError::RpcError(m))
                && m@ == tx_size_error_text()),
            !dry_run && tx_size >= MIN_TX_SIZE ==> (r matches Ok(Delivery::Stream(b)) && b.wf()
                && b@ == initial_state(num_txs as nat, tx_size as nat, b@.next_id)),
    {
        if dry_run {
            return Ok(Delivery::Immediate(RoundResults { sent: num_txs, failed: 0 }));
        }
        let seed = random_seed();
        Self::plan_delivery(false, num_txs, tx_size, seed)
    }
}

/// Message of the error for a transaction size below the protocol minimum.
pub open spec fn tx_size_error_text() -> Seq<char> {
    "Transaction size must be at least 9 bytes for Autobahn protocol"@
}

fn tx_size_message() -> (m: String)
    ensures
        m@ == tx_size_error_text(),
{
    String::from_str("Transaction size must be at least 9 bytes for Autobahn protocol")
}

} // verus!
