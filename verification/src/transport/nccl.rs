//! Multi-node transport over NCCL. The type records the layout of the world; its
//! operations are not available yet and say so.

use vstd::prelude::*;
use vstd::string::*;

use crate::block::BlockId;
use crate::error::BackendError;
use crate::rank::{RankId, Topology};
use crate::transport::{BlockPayload, RankTransport, ReservationToken};

verus! {

/// Multi-node transport over NCCL.
#[derive(Debug, Clone)]
pub struct NcclTransport {
    /// This process's rank.
    pub local: RankId,
    /// Number of ranks in the world.
    pub world_size: u32,
    /// Topology of the world.
    pub topology: Topology,
}

/// The text that reports that `op` is not available yet.
pub open spec fn deferral_text(op: Seq<char>) -> Seq<char> {
    "NcclTransport::"@ + op
        + ": runtime impl deferred to Sprint 4 (TD-022). The dispatcher is wired; multi-node configs can author against the stable API."@
}

/// Whether `e` reports that `op` is not available yet.
pub open spec fn deferral(e: BackendError, op: Seq<char>) -> bool {
    e matches BackendError::Other(text) && text@ == deferral_text(op)
}

impl NcclTransport {
    /// Record the layout of the world.
    pub fn new(local: RankId, world_size: u32, topology: Topology) -> (t: NcclTransport)
        ensures
            t.local == local,
            t.world_size == world_size,
            t.topology == topology,
    {
        NcclTransport { local, world_size, topology }
    }

    /// The error of an operation that is not available yet.
    pub fn deferred(op: &str) -> (e: BackendError)
        ensures
            deferral(e, op@),
    {
        let mut s = String::from_str("NcclTransport::");
        s.append(op);
        s.append(
            ": runtime impl deferred to Sprint 4 (TD-022). The dispatcher is wired; multi-node configs can author against the stable API.",
        );
        BackendError::Other(s)
    }
}

impl RankTransport for NcclTransport {
    open spec fn spans(&self) -> Topology {
        self.topology
    }

    open spec fn label(&self) -> Seq<char> {
        "nccl"@
    }

    open spec fn usable(&self) -> bool {
        true
    }

    fn broadcast_seal(
        &mut self,
        src: RankId,
        block_id: BlockId,
        content_hash: u64,
        descriptor: &[u32],
    ) -> (r: std::result::Result<
        (),
        BackendError,
    >)
        ensures
            r matches Err(e) && deferral(e, "broadcast_seal"@),
    {
        Err(NcclTransport::deferred("broadcast_seal"))
    }

    fn fetch_block(&mut self, src: RankId, block_id: BlockId) -> (r: std::result::Result<
        BlockPayload,
        BackendError,
    >)
        ensures
            r matches Err(e) && deferral(e, "fetch_block"@),
    {
        Err(NcclTransport::deferred("fetch_block"))
    }

    fn push_block(&mut self, dst: RankId, payload: BlockPayload) -> (r: std::result::Result<
        BlockId,
        BackendError,
    >)
        ensures
            r matches Err(e) && deferral(e, "push_block"@),
    {
        Err(NcclTransport::deferred("push_block"))
    }

    fn announce_release(&mut self, src: RankId, block_id: BlockId) -> (r: std::result::Result<
        (),
        BackendError,
    >)
        ensures
            r matches Err(e) && deferral(e, "announce_release"@),
    {
        Err(NcclTransport::deferred("announce_release"))
    }

    fn query_hash(&mut self, dst: RankId, content_hash: u64) -> (r: std::result::Result<
        Option<BlockId>,
        BackendError,
    >)
        ensures
            r matches Err(e) && deferral(e, "query_hash"@),
    {
        Err(NcclTransport::deferred("query_hash"))
    }

    fn reserve_slots(&mut self, dst: RankId, req_id: u64, count: u32) -> (r: std::result::Result<
        ReservationToken,
        BackendError,
    >)
        ensures
            r matches Err(e) && deferral(e, "reserve_slots"@),
    {
        Err(NcclTransport::deferred("reserve_slots"))
    }

    fn release_reservation(&mut self, dst: RankId, token: ReservationToken) -> (r: std::result::Result<
        (),
        BackendError,
    >)
        ensures
            r matches Err(e) && deferral(e, "release_reservation"@),
    {
        Err(NcclTransport::deferred("release_reservation"))
    }

    fn topology(&self) -> (t: &Topology) {
        &self.topology
    }

    fn name(&self) -> (s: &'static str) {
        "nccl"
    }
}

} // verus!
