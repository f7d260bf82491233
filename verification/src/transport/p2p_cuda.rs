//! Intra-node transport over NVLink P2P. The type records the layout of the world; its
//! operations are not available yet and say so.

use vstd::prelude::*;
use vstd::string::*;

use crate::block::BlockId;
use crate::error::BackendError;
use crate::rank::{RankId, Topology};
use crate::transport::{BlockPayload, RankTransport, ReservationToken};

verus! {

/// Intra-node transport over NVLink P2P.
#[derive(Debug, Clone)]
pub struct P2pCudaTransport {
    /// This process's rank.
    pub local: RankId,
    /// Number of ranks in the world.
    pub world_size: u32,
    /// Topology of the world.
    pub topology: Topology,
}

/// The text that reports that `op` is not available yet.
pub open spec fn deferral_text(op: Seq<char>) -> Seq<char> {
    "P2pCudaTransport::"@ + op
        + ": runtime impl deferred to cloud-burst session (TD-021). The dispatcher is wired; this stub guarantees the API surface stays stable."@
}

/// Whether `e` reports that `op` is not available yet.
pub open spec fn deferral(e: BackendError, op: Seq<char>) -> bool {
    e matches BackendError::Other(text) && text@ == deferral_text(op)
}

impl P2pCudaTransport {
    /// Record the layout of the world.
    pub fn new(local: RankId, world_size: u32, topology: Topology) -> (t: P2pCudaTransport)
        ensures
            t.local == local,
            t.world_size == world_size,
            t.topology == topology,
    {
        P2pCudaTransport { local, world_size, topology }
    }

    /// The error of an operation that is not available yet.
    pub fn deferred(op: &str) -> (e: BackendError)
        ensures
            deferral(e, op@),
    {
        let mut s = String::from_str("P2pCudaTransport::");
        s.append(op);
        s.append(
            ": runtime impl deferred to cloud-burst session (TD-021). The dispatcher is wired; this stub guarantees the API surface stays stable.",
        );
        BackendError::Other(s)
    }
}

impl RankTransport for P2pCudaTransport {
    open spec fn spans(&self) -> Topology {
        self.topology
    }

    open spec fn label(&self) -> Seq<char> {
        "p2p_cuda"@
    }

    open spec fn usable(&self) -> bool {
        true
    }

    fn broadcast_seal(
        &mut self,
        src: RankId,
        block_id: BlockId,
        content_hash: u64,
        descriptor: &[u32],
    ) -> (r: std::result::Result<
        (),
        BackendError,
    >)
        ensures
            r matches Err(e) && deferral(e, "broadcast_seal"@),
    {
        Err(P2pCudaTransport::deferred("broadcast_seal"))
    }

    fn fetch_block(&mut self, src: RankId, block_id: BlockId) -> (r: std::result::Result<
        BlockPayload,
        BackendError,
    >)
        ensures
            r matches Err(e) && deferral(e, "fetch_block"@),
    {
        Err(P2pCudaTransport::deferred("fetch_block"))
    }

    fn push_block(&mut self, dst: RankId, payload: BlockPayload) -> (r: std::result::Result<
        BlockId,
        BackendError,
    >)
        ensures
            r matches Err(e) && deferral(e, "push_block"@),
    {
        Err(P2pCudaTransport::deferred("push_block"))
    }

    fn announce_release(&mut self, src: RankId, block_id: BlockId) -> (r: std::result::Result<
        (),
        BackendError,
    >)
        ensures
            r matches Err(e) && deferral(e, "announce_release"@),
    {
        Err(P2pCudaTransport::deferred("announce_release"))
    }

    fn query_hash(&mut self, dst: RankId, content_hash: u64) -> (r: std::result::Result<
        Option<BlockId>,
        BackendError,
    >)
        ensures
            r matches Err(e) && deferral(e, "query_hash"@),
    {
        Err(P2pCudaTransport::deferred("query_hash"))
    }

    fn reserve_slots(&mut self, dst: RankId, req_id: u64, count: u32) -> (r: std::result::Result<
        ReservationToken,
        BackendError,
    >)
        ensures
            r matches Err(e) && deferral(e, "reserve_slots"@),
    {
        Err(P2pCudaTransport::deferred("reserve_slots"))
    }

    fn release_reservation(&mut self, dst: RankId, token: ReservationToken) -> (r: std::result::Result<
        (),
        BackendError,
    >)
        ensures
            r matches Err(e) && deferral(e, "release_reservation"@),
    {
        Err(P2pCudaTransport::deferred("release_reservation"))
    }

    fn topology(&self) -> (t: &Topology) {
        &self.topology
    }

    fn name(&self) -> (s: &'static str) {
        "p2p_cuda"
    }
}

} // verus!
