//! Latency injection: how long a call to a peer is delayed.
//!
//! The delay is the base latency of the peer's tier plus a symmetric jitter. The jitter comes
//! from a generator that is seeded explicitly, so that delays can be reproduced.

use rand::{Rng, RngCore, SeedableRng};
use rand_chacha::ChaCha8Rng;
use vstd::prelude::*;
use vstd::string::*;

use crate::error::BackendError;
use crate::rank::{LatencyTier, RankId, Topology};

verus! {

/// `rand_chacha::ChaCha8Rng`, opaque to the prover.
#[verifier::external_type_specification]
#[verifier::external_body]
pub struct ExChaCha8Rng(rand_chacha::ChaCha8Rng);

/// Internal state of a generator: its key and its position in the stream, as one number.
pub uninterp spec fn rng_state(rng: ChaCha8Rng) -> nat;

/// State of a generator that was just seeded.
pub uninterp spec fn seeded_state(seed: u64) -> nat;

/// What a generator in a given state draws from `-bound..=bound`, and its state afterwards.
pub uninterp spec fn drawn(state: nat, bound: i64) -> (i64, nat);

/// `rand_chacha::ChaCha8Rng::seed_from_u64`: the state of the generator depends on the seed
/// alone.
#[verifier::external_body]
fn seeded(seed: u64) -> (rng: ChaCha8Rng)
    ensures
        rng_state(rng) == seeded_state(seed),
{
    ChaCha8Rng::seed_from_u64(seed)
}

/// `rand::Rng::gen_range` over `-bound..=bound`: the number lies in the range, and it and the
/// new state of the generator depend on the old state and the range alone.
#[verifier::external_body]
fn draw(rng: &mut ChaCha8Rng, bound: i64) -> (n: i64)
    requires
        0 <= bound,
    ensures
        -bound <= n <= bound,
        n == drawn(rng_state(*old(rng)), bound).0,
        rng_state(*final(rng)) == drawn(rng_state(*old(rng)), bound).1,
{
    rng.gen_range(-bound..=bound)
}

/// `rand::RngCore::next_u64` of the thread's generator, which the operating system seeds. Nothing
/// is known of the number.
#[verifier::external_body]
fn entropy() -> (seed: u64) {
    rand::thread_rng().next_u64()
}

/// Latency profile, in microseconds.
#[derive(Debug, Clone, Copy, PartialEq, Eq, Structural)]
pub struct LatencyProfile {
    /// Base latency for peers on the same node.
    pub intra_node_us: u64,
    /// Base latency for peers on different nodes within the same rack.
    pub intra_rack_us: u64,
    /// Base latency for peers in a different rack.
    pub cross_rack_us: u64,
    /// Symmetric jitter range applied per call; 0 for none.
    pub jitter_us: u64,
}

impl LatencyProfile {
    /// Base latency of a tier.
    pub open spec fn base(self, tier: LatencyTier) -> u64 {
        match tier {
            LatencyTier::IntraNode => self.intra_node_us,
            LatencyTier::IntraRack => self.intra_rack_us,
            LatencyTier::CrossRack => self.cross_rack_us,
        }
    }

    /// Base latency in microseconds for a given tier.
    pub fn base_us(&self, tier: LatencyTier) -> (us: u64)
        ensures
            us == self.base(tier),
    {
        match tier {
            LatencyTier::IntraNode => self.intra_node_us,
            LatencyTier::IntraRack => self.intra_rack_us,
            LatencyTier::CrossRack => self.cross_rack_us,
        }
    }

    /// Realistic intra-node profile: a NVLink baseline without jitter.
    pub fn intra_node_realistic() -> (p: LatencyProfile)
        ensures
            p == (LatencyProfile {
                intra_node_us: 5,
                intra_rack_us: 50,
                cross_rack_us: 500,
                jitter_us: 0,
            }),
    {
        LatencyProfile { intra_node_us: 5, intra_rack_us: 50, cross_rack_us: 500, jitter_us: 0 }
    }

    /// Multi-rack stress profile: large cross-rack base and jitter.
    pub fn stress_multi_rack() -> (p: LatencyProfile)
        ensures
            p == (LatencyProfile {
                intra_node_us: 10,
                intra_rack_us: 100,
                cross_rack_us: 800,
                jitter_us: 200,
            }),
    {
        LatencyProfile { intra_node_us: 10, intra_rack_us: 100, cross_rack_us: 800, jitter_us: 200 }
    }

    /// Profile without latency.
    pub fn zero() -> (p: LatencyProfile)
        ensures
            p == (LatencyProfile {
                intra_node_us: 0,
                intra_rack_us: 0,
                cross_rack_us: 0,
                jitter_us: 0,
            }),
    {
        LatencyProfile { intra_node_us: 0, intra_rack_us: 0, cross_rack_us: 0, jitter_us: 0 }
    }
}

impl Default for LatencyProfile {
    fn default() -> (p: LatencyProfile)
        ensures
            p == (LatencyProfile {
                intra_node_us: 5,
                intra_rack_us: 50,
                cross_rack_us: 500,
                jitter_us: 0,
            }),
    {
        LatencyProfile::intra_node_realistic()
    }
}

/// `base` as a signed 64-bit number: numbers from 2^63 on stand for negative ones.
pub open spec fn signed(base: u64) -> int {
    if base <= i64::MAX {
        base as int
    } else {
        base - 0x1_0000_0000_0000_0000
    }
}

/// Microseconds of delay for a base latency and a jitter: their sum as signed numbers, or none
/// if that is negative.
pub open spec fn delay(base: u64, jitter: i64) -> u64 {
    if signed(base) + jitter < 0 {
        0
    } else {
        (signed(base) + jitter) as u64
    }
}

/// Microseconds of delay for a base latency and a jitter.
pub fn delay_for(base: u64, jitter: i64) -> (us: u64)
    requires
        i64::MIN <= signed(base) + jitter <= i64::MAX,
    ensures
        us == delay(base, jitter),
{
    let b: i128 = if base <= i64::MAX as u64 {
        base as i128
    } else {
        base as i128 - 0x1_0000_0000_0000_0000i128
    };
    let total: i128 = b + jitter as i128;
    if total < 0 {
        0
    } else {
        total as u64
    }
}

/// The rank that stands for all peers in an announcement of `src`: rank 0, or rank 1 if `src` is
/// rank 0.
pub open spec fn stand_in(src: RankId) -> RankId {
    if src.0 == 0 {
        RankId(1)
    } else {
        RankId(0)
    }
}

/// The rank whose latency is injected for an announcement of `src`.
pub fn representative_peer(src: RankId) -> (r: RankId)
    ensures
        r == stand_in(src),
{
    if src.0 == 0 {
        RankId(1)
    } else {
        RankId(0)
    }
}

/// What a call of `op` to `peer` comes to before it is made: an error if it is dropped.
pub fn admit_call(op: &str, peer: RankId, dropped: bool) -> (r: std::result::Result<
    (),
    BackendError,
>)
    ensures
        match r {
            Ok(_) => !dropped,
            Err(e) => {
                &&& dropped
                &&& e matches BackendError::Other(text) && text@
                    == "LatencyInjector: simulated drop on "@ + op@ + " to peer "@ + peer.label()
            },
        },
{
    if !dropped {
        return Ok(());
    }
    let mut s = String::from_str("LatencyInjector: simulated drop on ");
    s.append(op);
    s.append(" to peer ");
    let label = peer.to_string();
    s.append(label.as_str());
    Err(BackendError::Other(s))
}

/// Decides how long calls to peers are delayed.
#[derive(Debug)]
pub struct LatencyInjector {
    profile: LatencyProfile,
    local: RankId,
    topology: Topology,
    rng: ChaCha8Rng,
}

impl LatencyInjector {
    /// Profile of the injector.
    pub closed spec fn profile_spec(self) -> LatencyProfile {
        self.profile
    }

    /// Rank that makes the calls.
    pub closed spec fn local_spec(self) -> RankId {
        self.local
    }

    /// Topology that determines the tiers.
    pub closed spec fn topology_spec(self) -> Topology {
        self.topology
    }

    /// State of the generator.
    pub closed spec fn state(self) -> nat {
        rng_state(self.rng)
    }

    /// Tier of the way to `peer`: within the node if both ranks are on the same node, within the
    /// rack otherwise.
    pub open spec fn tier(self, peer: RankId) -> LatencyTier {
        if self.topology_spec() is SingleNode || self.topology_spec().same_host(
            self.local_spec(),
            peer,
        ) {
            LatencyTier::IntraNode
        } else {
            LatencyTier::IntraRack
        }
    }

    /// Whether the jitter around the base latency to `peer` stays within signed 64-bit numbers.
    pub open spec fn jitter_fits(self, peer: RankId) -> bool {
        let base = signed(self.profile_spec().base(self.tier(peer)));
        let jitter = self.profile_spec().jitter_us;
        jitter == 0 || (jitter <= i64::MAX && i64::MIN <= base - jitter && base + jitter
            <= i64::MAX)
    }

    /// Construct an injector with an explicit seed.
    pub fn new(profile: LatencyProfile, local: RankId, topology: Topology, seed: u64) -> (r:
        LatencyInjector)
        ensures
            r.profile_spec() == profile,
            r.local_spec() == local,
            r.topology_spec() == topology,
            r.state() == seeded_state(seed),
    {
        LatencyInjector { profile, local, topology, rng: seeded(seed) }
    }

    /// Construct an injector seeded from the entropy of the operating system.
    pub fn with_entropy(profile: LatencyProfile, local: RankId, topology: Topology) -> (r:
        LatencyInjector)
        ensures
            r.profile_spec() == profile,
            r.local_spec() == local,
            r.topology_spec() == topology,
    {
        let seed: u64 = entropy();
        LatencyInjector::new(profile, local, topology, seed)
    }

    /// The active profile.
    pub fn profile(&self) -> (p: &LatencyProfile)
        ensures
            *p == self.profile_spec(),
    {
        &self.profile
    }

    /// The topology that determines the tiers.
    pub fn topology(&self) -> (t: &Topology)
        ensures
            *t == self.topology_spec(),
    {
        &self.topology
    }

    /// The generator, for draws of another kind. Such a draw moves the generator on.
    pub fn rng_mut(&mut self) -> (rng: &mut ChaCha8Rng)
        ensures
            rng_state(*rng) == old(self).state(),
            final(self).state() == rng_state(*final(rng)),
            final(self).profile_spec() == old(self).profile_spec(),
            final(self).local_spec() == old(self).local_spec(),
            final(self).topology_spec() == old(self).topology_spec(),
    {
        &mut self.rng
    }

    /// Tier of the way to `peer`.
    pub fn tier_for(&self, peer: RankId) -> (t: LatencyTier)
        ensures
            t == self.tier(peer),
    {
        match &self.topology {
            Topology::SingleNode => LatencyTier::IntraNode,
            _ => {
                if self.topology.is_same_node(self.local, peer) {
                    LatencyTier::IntraNode
                } else {
                    LatencyTier::IntraRack
                }
            },
        }
    }

    /// Sample a delay for `peer` in whole microseconds: the base latency of its tier plus a
    /// jitter drawn from the symmetric range. Without jitter nothing is drawn.
    pub fn sample_delay(&mut self, peer: RankId) -> (us: u64)
        requires
            old(self).jitter_fits(peer),
        ensures
            final(self).profile_spec() == old(self).profile_spec(),
            final(self).local_spec() == old(self).local_spec(),
            final(self).topology_spec() == old(self).topology_spec(),
            ({
                let base = old(self).profile_spec().base(old(self).tier(peer));
                let jitter = old(self).profile_spec().jitter_us;
                if jitter == 0 {
                    &&& us == base
                    &&& final(self).state() == old(self).state()
                } else {
                    let (n, next) = drawn(old(self).state(), jitter as i64);
                    &&& us == delay(base, n)
                    &&& -jitter <= n <= jitter
                    &&& final(self).state() == next
                }
            }),
    {
        let base: u64 = self.profile.base_us(self.tier_for(peer));
        if self.profile.jitter_us == 0 {
            return base;
        }
        let jitter: i64 = draw(&mut self.rng, self.profile.jitter_us as i64);
        delay_for(base, jitter)
    }
}

/// Injectors with the same profile, place and seed delay the same calls by the same times: two
/// that agree now agree after every call.
pub proof fn delays_are_reproducible(
    a: LatencyInjector,
    b: LatencyInjector,
    peer: RankId,
)
    requires
        a.profile_spec() == b.profile_spec(),
        a.local_spec() == b.local_spec(),
        a.topology_spec() == b.topology_spec(),
        a.state() == b.state(),
    ensures
        a.tier(peer) == b.tier(peer),
        delay(
            a.profile_spec().base(a.tier(peer)),
            drawn(a.state(), a.profile_spec().jitter_us as i64).0,
        ) == delay(
            b.profile_spec().base(b.tier(peer)),
            drawn(b.state(), b.profile_spec().jitter_us as i64).0,
        ),
        drawn(a.state(), a.profile_spec().jitter_us as i64).1 == drawn(
            b.state(),
            b.profile_spec().jitter_us as i64,
        ).1,
{
}

/// The delay of a call differs from the base latency by at most the jitter, and is never
/// negative.
pub proof fn delay_stays_near_base(base: u64, jitter_us: u64, n: i64)
    requires
        base <= i64::MAX,
        jitter_us <= i64::MAX,
        base + jitter_us <= i64::MAX,
        -jitter_us <= n <= jitter_us,
    ensures
        delay(base, n) <= base + jitter_us,
        base >= jitter_us ==> delay(base, n) >= base - jitter_us,
{
}

/// A jitter moves the delay by as much as it is, in its own direction, but never below zero.
pub proof fn jitter_moves_the_delay(base: u64, n: i64)
    requires
        base <= i64::MAX,
        base + n <= i64::MAX,
    ensures
        n >= 0 ==> delay(base, n) == base + n,
        n < 0 && -n <= base ==> delay(base, n) == base + n,
        n < 0 && -n > base ==> delay(base, n) == 0,
        delay(base, 0) == base,
{
}

/// The signed reading of a base latency differs from it by a multiple of 2^64 and fits 64 bits.
pub proof fn signed_reading(base: u64)
    ensures
        i64::MIN <= signed(base) <= i64::MAX,
        signed(base) == base || signed(base) + 0x1_0000_0000_0000_0000 == base,
{
}

/// The rank that stands for all peers is a peer: never the announcing rank itself, and one of the
/// first two, so that every world with a peer has it.
pub proof fn stand_in_is_a_peer(src: RankId, size: u32)
    requires
        src.0 < size,
        size > 1,
    ensures
        stand_in(src) != src,
        stand_in(src).0 < size,
        stand_in(src).0 <= 1,
{
}

/// A call within a node has the base latency for the node, every other call the one for the rack.
pub proof fn base_follows_the_nodes(i: LatencyInjector, peer: RankId)
    ensures
        ({
            let p = i.profile_spec();
            &&& i.topology_spec() is SingleNode ==> p.base(i.tier(peer)) == p.intra_node_us
            &&& i.topology_spec() matches Topology::MultiNode { node_of } ==> {
                let known = i.local_spec().0 < node_of@.len() && peer.0 < node_of@.len();
                p.base(i.tier(peer)) == if known && node_of@[i.local_spec().0 as int]
                    == node_of@[peer.0 as int] {
                    p.intra_node_us
                } else {
                    p.intra_rack_us
                }
            }
            &&& p.base(LatencyTier::CrossRack) == p.cross_rack_us
        }),
{
}

/// Where both ranks are mapped to a node, the injector and the world agree on the tier.
pub proof fn injector_agrees_with_the_world(
    i: LatencyInjector,
    w: crate::rank::World,
    peer: RankId,
)
    requires
        w.local == i.local_spec(),
        w.topology == i.topology_spec(),
        w.topology.host(w.local) is Some,
    ensures
        i.tier(peer) == w.tier(peer),
{
}

} // verus!
