//! The node's defence against misbehaving gossip peers, as decisions from
//! what arrived to what to do: per-peer rate limits over one-second windows,
//! size caps, which gossiped blocks are worth applying, strikes for invalid
//! blocks (a failed proof-of-work pre-check weighs heavily) and disconnection
//! after three strikes, and the bounds of block synchronization.
//!
//! Peers are named by numbers the caller assigns; the caller decodes the
//! payloads, runs the proof-of-work hash and the block transition, and
//! performs the actions returned here.
use crate::constants::{MAX_BLOCK_SIZE_BYTES, TX_MAX_SIZE_BYTES};
use crate::networking::MAX_SYNC_BLOCKS;
use vstd::prelude::*;

verus! {

/// Blocks a peer may gossip per second.
pub const MAX_BLOCKS_PER_PEER_PER_SECOND: u32 = 10;

/// Transactions a peer may gossip per second.
pub const MAX_TXS_PER_PEER_PER_SECOND: u32 = 50;

/// How far above the tip a gossiped block may be.
pub const MAX_HEIGHT_LOOKAHEAD: u64 = 10;

/// Strikes for a block whose proof-of-work hash misses its target.
pub const VEIN_YIELD_PENALTY: u32 = 50;

/// Strikes after which a peer is disconnected.
pub const STRIKE_LIMIT: u32 = 3;

/// Length of a rate-limit window, in milliseconds.
pub const RATE_WINDOW_MS: u64 = 1_000;

/// What a gossip message carries.
#[derive(Clone, Copy, Debug, PartialEq, Eq, Structural)]
pub enum GossipKind {
    Block,
    Transaction,
}

/// The outcome of the proof-of-work pre-check of a gossiped block.
#[derive(Clone, Copy, Debug, PartialEq, Eq, Structural)]
pub enum PowPrecheck {
    /// No pre-check applies (no proof, or a target of zero).
    Skipped,
    /// The hash value is within the target.
    Meets,
    /// The hash value is above the target.
    Fails,
    /// The proof is too short to carry a nonce.
    Malformed,
}

/// What to do with a gossiped block.
#[derive(Clone, Copy, Debug, PartialEq, Eq, Structural)]
pub enum GossipAction {
    /// Ignore it.
    Drop,
    /// Run the block transition on it.
    Apply,
    /// It was applied: pass it on to the other peers.
    Rebroadcast,
    /// Ignore it and disconnect the peer.
    Disconnect,
}

/// A peer's rate-limit window: messages counted since the window started.
#[derive(Clone, Copy, Debug, PartialEq, Eq, Structural)]
pub struct RateWindow {
    pub blocks: u32,
    pub txs: u32,
    pub window_start_ms: u64,
}

/// The value last recorded for `k`.
pub open spec fn lookup<V>(s: Seq<(u64, V)>, k: u64) -> Option<V>
    decreases s.len(),
{
    if s.len() == 0 {
        None
    } else if s.last().0 == k {
        Some(s.last().1)
    } else {
        lookup(s.drop_last(), k)
    }
}

/// The records without those of `k`, in order.
pub open spec fn without_key<V>(s: Seq<(u64, V)>, k: u64) -> Seq<(u64, V)>
    decreases s.len(),
{
    if s.len() == 0 {
        s
    } else if s.last().0 == k {
        without_key(s.drop_last(), k)
    } else {
        without_key(s.drop_last(), k).push(s.last())
    }
}

/// Dropping the records of `k` forgets `k` and keeps the rest.
proof fn lemma_without_key<V>(s: Seq<(u64, V)>, k: u64, q: u64)
    ensures
        lookup(without_key(s, k), q) == if q == k {
            None
        } else {
            lookup(s, q)
        },
    decreases s.len(),
{
    if s.len() > 0 {
        lemma_without_key(s.drop_last(), k, q);
        if s.last().0 != k {
            let w = without_key(s.drop_last(), k);
            assert(w.push(s.last()).drop_last() =~= w);
        }
    }
}

/// The last value recorded for `k`.
fn find<V: Copy>(v: &Vec<(u64, V)>, k: u64) -> (r: Option<V>)
    ensures
        r == lookup(v@, k),
{
    let mut i: usize = v.len();
    assert(v@.take(i as int) =~= v@);
    while i > 0
        invariant
            i <= v@.len(),
            lookup(v@, k) == lookup(v@.take(i as int), k),
        decreases i,
    {
        proof {
            assert(v@.take(i as int).drop_last() =~= v@.take(i - 1));
        }
        if v[i - 1].0 == k {
            return Some(v[i - 1].1);
        }
        i = i - 1;
    }
    None
}

/// Drops the records of `k`.
fn forget<V: Copy>(v: &mut Vec<(u64, V)>, k: u64)
    ensures
        final(v)@ == without_key(old(v)@, k),
{
    let ghost s = v@;
    let mut out: Vec<(u64, V)> = Vec::new();
    let mut i: usize = 0;
    while i < v.len()
        invariant
            i <= s.len(),
            s == v@,
            out@ == without_key(s.take(i as int), k),
        decreases s.len() - i,
    {
        proof {
            assert(s.take(i as int + 1).drop_last() =~= s.take(i as int));
        }
        if v[i].0 != k {
            out.push(v[i]);
        }
        i = i + 1;
    }
    assert(s.take(i as int) =~= s);
    *v = out;
}

/// Records `x` for `k` in place of what was recorded.
fn record<V: Copy>(v: &mut Vec<(u64, V)>, k: u64, x: V)
    ensures
        forall|q: u64| #[trigger] lookup(final(v)@, q) == if q == k {
            Some(x)
        } else {
            lookup(old(v)@, q)
        },
{
    let ghost s = v@;
    forget(v, k);
    let ghost w = v@;
    v.push((k, x));
    proof {
        assert forall|q: u64| #[trigger] lookup(v@, q) == if q == k {
            Some(x)
        } else {
            lookup(s, q)
        } by {
            assert(v@.drop_last() =~= w);
            lemma_without_key(s, k, q);
        }
    }
}

/// The per-peer state of the gossip defence.
pub struct PeerTable {
    rates: Vec<(u64, RateWindow)>,
    strike_counts: Vec<(u64, u32)>,
}

/// The window a message at `now_ms` counts in: a fresh one for a peer
/// without a window or whose window is at least a second old.
pub open spec fn current_window(w: Option<RateWindow>, now_ms: u64) -> RateWindow {
    match w {
        None => RateWindow { blocks: 0, txs: 0, window_start_ms: now_ms },
        Some(r) => if now_ms >= r.window_start_ms && now_ms - r.window_start_ms >= RATE_WINDOW_MS {
            RateWindow { blocks: 0, txs: 0, window_start_ms: now_ms }
        } else {
            r
        },
    }
}

/// `x + 1`, at most `u32::MAX`.
pub open spec fn incr(x: u32) -> u32 {
    if x == u32::MAX {
        x
    } else {
        (x + 1) as u32
    }
}

/// The window after counting one message of `kind`.
pub open spec fn counted(w: RateWindow, kind: GossipKind) -> RateWindow {
    match kind {
        GossipKind::Block => RateWindow { blocks: incr(w.blocks), ..w },
        GossipKind::Transaction => RateWindow { txs: incr(w.txs), ..w },
    }
}

/// Whether a message of `kind` and `len` bytes is taken in, counted in `w`.
pub open spec fn within_limits(w: RateWindow, kind: GossipKind, len: usize) -> bool {
    match kind {
        GossipKind::Block => w.blocks <= MAX_BLOCKS_PER_PEER_PER_SECOND && len <= MAX_BLOCK_SIZE_BYTES,
        GossipKind::Transaction => w.txs <= MAX_TXS_PER_PEER_PER_SECOND && len <= TX_MAX_SIZE_BYTES,
    }
}

/// `strikes + more`, at most `u32::MAX`.
pub open spec fn add_strikes(strikes: u32, more: u32) -> u32 {
    if strikes + more > u32::MAX {
        u32::MAX
    } else {
        (strikes + more) as u32
    }
}

impl PeerTable {
    /// No peer known.
    pub fn new() -> (t: PeerTable)
        ensures
            forall|p: u64| #[trigger] t.window(p) is None && t.strikes(p) == 0,
    {
        PeerTable { rates: Vec::new(), strike_counts: Vec::new() }
    }

    /// The rate-limit window of `peer`, if it has one.
    pub closed spec fn window(&self, peer: u64) -> Option<RateWindow> {
        lookup(self.rates@, peer)
    }

    /// The strikes against `peer`.
    pub closed spec fn strikes(&self, peer: u64) -> u32 {
        match lookup(self.strike_counts@, peer) {
            Some(s) => s,
            None => 0,
        }
    }

    /// The strikes against `peer`.
    pub fn strikes_of(&self, peer: u64) -> (s: u32)
        ensures
            s == self.strikes(peer),
    {
        match find(&self.strike_counts, peer) {
            Some(s) => s,
            None => 0,
        }
    }

    /// Counts a gossip message of `kind` and `payload_len` bytes from `peer`
    /// at `now_ms` in its window, and says whether to take it in: within
    /// the per-second limit of its kind (10 blocks, 50 transactions) and its
    /// size cap.
    pub fn on_gossip_payload(&mut self, peer: u64, kind: GossipKind, payload_len: usize, now_ms: u64) -> (accepted: bool)
        ensures
            final(self).window(peer) == Some(counted(current_window(old(self).window(peer), now_ms), kind)),
            accepted == within_limits(counted(current_window(old(self).window(peer), now_ms), kind), kind, payload_len),
            forall|p: u64| p != peer ==> #[trigger] final(self).window(p) == old(self).window(p),
            forall|p: u64| #[trigger] final(self).strikes(p) == old(self).strikes(p),
    {
        let w = match find(&self.rates, peer) {
            None => RateWindow { blocks: 0, txs: 0, window_start_ms: now_ms },
            Some(r) => if now_ms >= r.window_start_ms && now_ms - r.window_start_ms >= RATE_WINDOW_MS {
                RateWindow { blocks: 0, txs: 0, window_start_ms: now_ms }
            } else {
                r
            },
        };
        let w = match kind {
            GossipKind::Block => RateWindow { blocks: w.blocks.saturating_add(1), ..w },
            GossipKind::Transaction => RateWindow { txs: w.txs.saturating_add(1), ..w },
        };
        record(&mut self.rates, peer, w);
        match kind {
            GossipKind::Block => w.blocks <= MAX_BLOCKS_PER_PEER_PER_SECOND && payload_len <= MAX_BLOCK_SIZE_BYTES,
            GossipKind::Transaction => w.txs <= MAX_TXS_PER_PEER_PER_SECOND && payload_len <= TX_MAX_SIZE_BYTES,
        }
    }

    /// Forgets a peer: its window and its strikes.
    pub fn on_peer_disconnected(&mut self, peer: u64)
        ensures
            final(self).window(peer) is None,
            final(self).strikes(peer) == 0,
            forall|p: u64| p != peer ==> #[trigger] final(self).window(p) == old(self).window(p),
            forall|p: u64| p != peer ==> #[trigger] final(self).strikes(p) == old(self).strikes(p),
    {
        let ghost r0 = self.rates@;
        let ghost s0 = self.strike_counts@;
        forget(&mut self.rates, peer);
        forget(&mut self.strike_counts, peer);
        proof {
            assert forall|p: u64| true implies lookup(self.rates@, p) == (if p == peer { None } else { lookup(r0, p) })
                && lookup(self.strike_counts@, p) == (if p == peer { None } else { lookup(s0, p) }) by {
                lemma_without_key(r0, peer, p);
                lemma_without_key(s0, peer, p);
            }
        }
    }

    /// Adds `more` strikes against `peer`: at `STRIKE_LIMIT` or more the
    /// peer is forgotten and to be disconnected; otherwise the block is
    /// dropped.
    fn strike(&mut self, peer: u64, more: u32) -> (a: GossipAction)
        ensures
            a == (if add_strikes(old(self).strikes(peer), more) >= STRIKE_LIMIT {
                GossipAction::Disconnect
            } else {
                GossipAction::Drop
            }),
            a is Disconnect ==> final(self).window(peer) is None && final(self).strikes(peer) == 0,
            a is Drop ==> final(self).window(peer) == old(self).window(peer) && final(self).strikes(peer) == add_strikes(
                old(self).strikes(peer),
                more,
            ),
            forall|p: u64| p != peer ==> #[trigger] final(self).window(p) == old(self).window(p),
            forall|p: u64| p != peer ==> #[trigger] final(self).strikes(p) == old(self).strikes(p),
    {
        let s = self.strikes_of(peer).saturating_add(more);
        if s >= STRIKE_LIMIT {
            self.on_peer_disconnected(peer);
            GossipAction::Disconnect
        } else {
            record(&mut self.strike_counts, peer, s);
            GossipAction::Drop
        }
    }

    /// Decides on a gossiped block at `height` from `peer` that was taken
    /// in, with the tip at `tip`: a block at or below the tip, or more than
    /// `MAX_HEIGHT_LOOKAHEAD` above it, is dropped; one whose proof-of-work
    /// hash misses its target earns `VEIN_YIELD_PENALTY` strikes (and
    /// disconnection at `STRIKE_LIMIT`); one with a malformed proof is
    /// dropped; the rest are applied.
    pub fn on_gossip_block(&mut self, peer: u64, height: u64, tip: u64, pow: PowPrecheck) -> (a: GossipAction)
        ensures
            height <= tip ==> a == GossipAction::Drop && *final(self) == *old(self),
            height > tip && height - tip > MAX_HEIGHT_LOOKAHEAD ==> a == GossipAction::Drop && *final(self) == *old(self),
            height > tip && height - tip <= MAX_HEIGHT_LOOKAHEAD ==> {
                &&& pow == PowPrecheck::Fails ==> (a == if add_strikes(old(self).strikes(peer), VEIN_YIELD_PENALTY)
                    >= STRIKE_LIMIT {
                    GossipAction::Disconnect
                } else {
                    GossipAction::Drop
                })
                &&& pow == PowPrecheck::Malformed ==> a == GossipAction::Drop && *final(self) == *old(self)
                &&& (pow == PowPrecheck::Skipped || pow == PowPrecheck::Meets) ==> a == GossipAction::Apply && *final(self)
                    == *old(self)
            },
            a is Disconnect ==> final(self).window(peer) is None && final(self).strikes(peer) == 0,
            pow == PowPrecheck::Fails && a is Drop && height > tip && height - tip <= MAX_HEIGHT_LOOKAHEAD ==> final(self).strikes(peer) == add_strikes(
                old(self).strikes(peer),
                VEIN_YIELD_PENALTY,
            ),
            forall|p: u64| p != peer ==> #[trigger] final(self).window(p) == old(self).window(p),
            forall|p: u64| p != peer ==> #[trigger] final(self).strikes(p) == old(self).strikes(p),
    {
        if height <= tip {
            return GossipAction::Drop;
        }
        if height - tip > MAX_HEIGHT_LOOKAHEAD {
            return GossipAction::Drop;
        }
        match pow {
            PowPrecheck::Fails => self.strike(peer, VEIN_YIELD_PENALTY),
            PowPrecheck::Malformed => GossipAction::Drop,
            _ => GossipAction::Apply,
        }
    }

    /// Decides after the block transition ran on a gossiped block from
    /// `peer`: an applied block is passed on; a refused one earns a strike
    /// (and disconnection at `STRIKE_LIMIT`).
    pub fn on_apply_result(&mut self, peer: u64, ok: bool) -> (a: GossipAction)
        ensures
            ok ==> a == GossipAction::Rebroadcast && *final(self) == *old(self),
            !ok ==> a == if add_strikes(old(self).strikes(peer), 1) >= STRIKE_LIMIT {
                GossipAction::Disconnect
            } else {
                GossipAction::Drop
            },
            !ok && a is Drop ==> final(self).strikes(peer) == add_strikes(old(self).strikes(peer), 1),
            a is Disconnect ==> final(self).window(peer) is None && final(self).strikes(peer) == 0,
            forall|p: u64| p != peer ==> #[trigger] final(self).window(p) == old(self).window(p),
            forall|p: u64| p != peer ==> #[trigger] final(self).strikes(p) == old(self).strikes(p),
    {
        if ok {
            GossipAction::Rebroadcast
        } else {
            self.strike(peer, 1)
        }
    }
}

/// The outcome of the proof-of-work pre-check of a block of `difficulty`
/// with a proof, given the hash value EVO-OMAP computed (`None` when the
/// proof is too short to carry a nonce): skipped for a target of zero,
/// otherwise the value must not exceed the target.
pub fn pow_precheck(difficulty: u64, hash_value: Option<u64>) -> (p: PowPrecheck)
    ensures
        crate::emission::difficulty_target_spec(difficulty) == 0 ==> p == PowPrecheck::Skipped,
        crate::emission::difficulty_target_spec(difficulty) > 0 ==> p == match hash_value {
            None => PowPrecheck::Malformed,
            Some(v) => if v > crate::emission::difficulty_target_spec(difficulty) {
                PowPrecheck::Fails
            } else {
                PowPrecheck::Meets
            },
        },
{
    let target = crate::emission::difficulty_to_target(difficulty);
    if target == 0 {
        return PowPrecheck::Skipped;
    }
    match hash_value {
        None => PowPrecheck::Malformed,
        Some(v) => if v > target {
            PowPrecheck::Fails
        } else {
            PowPrecheck::Meets
        },
    }
}

/// The blocks to ask a newly connected peer for: from the one after the
/// tip, at most `MAX_SYNC_BLOCKS` of them.
pub fn sync_request_for(tip: u64) -> (r: (u64, u64))
    requires
        tip < u64::MAX,
    ensures
        r.0 == tip + 1,
        r.1 == MAX_SYNC_BLOCKS,
{
    (tip + 1, MAX_SYNC_BLOCKS)
}

/// How many blocks to serve for a sync request of `count`.
pub fn sync_serve_count(count: u64) -> (n: u64)
    ensures
        n == if count < MAX_SYNC_BLOCKS {
            count
        } else {
            MAX_SYNC_BLOCKS
        },
{
    if count < MAX_SYNC_BLOCKS {
        count
    } else {
        MAX_SYNC_BLOCKS
    }
}

/// Whether to apply the next block of a sync response, of `payload_len`
/// bytes and decoded to `height` (`None` when it did not decode), with the
/// tip at `tip`: it must fit the block size and be the block after the tip;
/// otherwise the sync stops.
pub fn sync_block_in_order(payload_len: usize, height: Option<u64>, tip: u64) -> (b: bool)
    ensures
        b == (payload_len <= MAX_BLOCK_SIZE_BYTES && height is Some && height->0 == tip + 1),
{
    if payload_len > MAX_BLOCK_SIZE_BYTES {
        return false;
    }
    match height {
        None => false,
        Some(h) => tip < u64::MAX && h == tip + 1,
    }
}

} // verus!
