//! Cross-rank transport.
//!
//! [`RankTransport`] is what the block manager asks of a transport. [`MockTransport`] connects
//! the ranks of one process.

use vstd::prelude::*;
use vstd::string::*;

pub mod latency;
pub mod mock;
pub mod nccl;
pub mod p2p_cuda;

pub use latency::{LatencyInjector, LatencyProfile};
pub use mock::MockTransport;
pub use nccl::NcclTransport;
pub use p2p_cuda::P2pCudaTransport;

use crate::block::BlockId;
use crate::error::BackendError;
use crate::rank::{RankId, Topology};
use crate::text;

verus! {

/// Opaque handle of a reservation of block slots on a rank.
#[derive(Debug, Clone, Copy, PartialEq, Eq, Hash, Structural)]
pub struct ReservationToken(pub u64);

impl ReservationToken {
    /// Raw integer.
    pub fn raw(self) -> (r: u64)
        ensures
            r == self.0,
    {
        self.0
    }

    /// `tok:` and the number of the token.
    pub open spec fn label(self) -> Seq<char> {
        "tok:"@ + text::decimal(self.0 as nat)
    }

    /// Render the token as it appears in messages.
    pub fn to_string(&self) -> (s: String)
        ensures
            s@ == self.label(),
    {
        let mut s = String::from_str("tok:");
        text::push_decimal(&mut s, self.0);
        s
    }
}

/// The serialised payload of a single block transferred across a rank boundary.
#[derive(Debug)]
pub struct BlockPayload {
    /// Primary region (`c_kv`) bytes.
    pub c_kv: Vec<u8>,
    /// `k_rope` region bytes.
    pub k_rope: Vec<u8>,
    /// Per-layer scales, if the source block has them.
    pub fp8_scales: Option<Vec<u8>>,
}

impl BlockPayload {
    /// Bytes in the three parts of the payload.
    pub open spec fn size(self) -> nat {
        self.c_kv@.len() + self.k_rope@.len() + (match self.fp8_scales {
            Some(scales) => scales@.len(),
            None => 0,
        })
    }

    /// [`BlockPayload::size`] as a machine number, cut off at `usize::MAX`.
    pub open spec fn size_in_memory(self) -> usize {
        if self.size() > usize::MAX {
            usize::MAX
        } else {
            self.size() as usize
        }
    }

    /// Bytes in the three parts of the payload. The sum is cut off at `usize::MAX`, which parts
    /// that are in memory together do not reach.
    pub fn byte_len(&self) -> (n: usize)
        ensures
            n == self.size_in_memory(),
    {
        let scales: usize = match &self.fp8_scales {
            Some(s) => s.len(),
            None => 0,
        };
        self.c_kv.len().saturating_add(self.k_rope.len()).saturating_add(scales)
    }
}

/// Cross-rank transport. Each operation may fail; callers treat a failure as recoverable.
pub trait RankTransport: Sized {
    /// The world this transport spans.
    closed spec fn spans(&self) -> Topology {
        arbitrary()
    }

    /// Name of the transport.
    closed spec fn label(&self) -> Seq<char> {
        arbitrary()
    }

    /// Whether the transport is in a consistent state, which every operation keeps. By default
    /// every state is.
    open spec fn usable(&self) -> bool {
        true
    }

    /// Announce that `src` has sealed `block_id` with the given content hash and descriptor,
    /// whose components are given as the bit patterns of 32-bit floats.
    fn broadcast_seal(
        &mut self,
        src: RankId,
        block_id: BlockId,
        content_hash: u64,
        descriptor: &[u32],
    ) -> (r: std::result::Result<(), BackendError>)
        requires
            old(self).usable(),
        ensures
            final(self).usable(),
    ;

    /// Fetch the payload of `block_id` from rank `src`.
    fn fetch_block(&mut self, src: RankId, block_id: BlockId) -> (r: std::result::Result<
        BlockPayload,
        BackendError,
    >)
        requires
            old(self).usable(),
        ensures
            final(self).usable(),
    ;

    /// Push a payload to rank `dst`, which assigns it a block.
    fn push_block(&mut self, dst: RankId, payload: BlockPayload) -> (r: std::result::Result<
        BlockId,
        BackendError,
    >)
        requires
            old(self).usable(),
        ensures
            final(self).usable(),
    ;

    /// Announce the release of `block_id` so that peers can drop cached references.
    fn announce_release(&mut self, src: RankId, block_id: BlockId) -> (r: std::result::Result<
        (),
        BackendError,
    >)
        requires
            old(self).usable(),
        ensures
            final(self).usable(),
    ;

    /// Ask rank `dst` for a block with the given content hash.
    fn query_hash(&mut self, dst: RankId, content_hash: u64) -> (r: std::result::Result<
        Option<BlockId>,
        BackendError,
    >)
        requires
            old(self).usable(),
        ensures
            final(self).usable(),
    ;

    /// Reserve `count` block slots on rank `dst` for `req_id`. A rank that grants them keeps them
    /// for pushed blocks, until they are used up or the reservation is released.
    fn reserve_slots(&mut self, dst: RankId, req_id: u64, count: u32) -> (r: std::result::Result<
        ReservationToken,
        BackendError,
    >)
        requires
            old(self).usable(),
        ensures
            final(self).usable(),
    ;

    /// Release a reservation.
    fn release_reservation(
        &mut self,
        dst: RankId,
        token: ReservationToken,
    ) -> (r: std::result::Result<(), BackendError>)
        requires
            old(self).usable(),
        ensures
            final(self).usable(),
    ;

    /// The world this transport spans.
    fn topology(&self) -> (t: &Topology)
        ensures
            *t == self.spans(),
    ;

    /// Name of the transport for diagnostics.
    fn name(&self) -> (s: &'static str)
        ensures
            s@ == self.label(),
    ;
}

/// A copy of a byte vector.
pub(crate) fn copy_bytes(v: &Vec<u8>) -> (c: Vec<u8>)
    ensures
        c@ == v@,
{
    let mut c: Vec<u8> = Vec::with_capacity(v.len());
    c.extend_from_slice(v.as_slice());
    assert(c@ =~= v@);
    c
}

impl Clone for BlockPayload {
    fn clone(&self) -> (c: BlockPayload)
        ensures
            c.c_kv@ == self.c_kv@,
            c.k_rope@ == self.k_rope@,
            c.fp8_scales is Some <==> self.fp8_scales is Some,
            c.fp8_scales matches Some(scales) ==> scales@ == self.fp8_scales->0@,
    {
        BlockPayload {
            c_kv: copy_bytes(&self.c_kv),
            k_rope: copy_bytes(&self.k_rope),
            fp8_scales: match &self.fp8_scales {
                Some(scales) => Some(copy_bytes(scales)),
                None => None,
            },
        }
    }
}

/// The parts of a payload count byte by byte, the scales only where there are any. The size that is
/// reported is the exact one unless no machine number holds it.
pub proof fn payload_parts_add_up(a: BlockPayload, b: BlockPayload)
    requires
        a.c_kv@ == b.c_kv@,
        a.k_rope@ == b.k_rope@,
        a.fp8_scales is None,
    ensures
        a.size() == a.c_kv@.len() + a.k_rope@.len(),
        b.fp8_scales matches Some(scales) ==> b.size() - a.size() == scales@.len(),
        b.size() <= usize::MAX <==> b.size_in_memory() == b.size(),
        b.size() > usize::MAX ==> b.size_in_memory() == usize::MAX,
{
}

/// Tokens are told apart by their labels.
pub proof fn token_labels_are_unique(a: ReservationToken, b: ReservationToken)
    ensures
        a.label() == b.label() <==> a == b,
{
    reveal_strlit("tok:");
    text::decimal_is_unique(a.0 as nat, b.0 as nat);
    assert(a.label().skip(4) =~= text::decimal(a.0 as nat));
    assert(b.label().skip(4) =~= text::decimal(b.0 as nat));
}

} // verus!
