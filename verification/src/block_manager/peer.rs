//! A block manager as the handler of its rank.

use vstd::prelude::*;
use vstd::string::*;

use crate::block::{BlockId, TokenRange};
use crate::block_manager::state::{self, ManagerState};
use crate::block_manager::TesseraBlockManager;
use crate::content_hash::ContentHasher;
use crate::device::DeviceBackend;
use crate::error::{BackendError, Result};
use crate::text;
use crate::transport::mock::MockPeer;
use crate::transport::{BlockPayload, ReservationToken};

verus! {

/// Lets a block manager answer for its rank. Blocks that are pushed to the rank belong to one
/// request and cover one token range.
#[derive(Debug)]
pub struct BlockManagerPeerAdapter<B: DeviceBackend, H: ContentHasher> {
    /// The manager of the rank.
    pub manager: TesseraBlockManager<B, H>,
    /// Request that pushed blocks belong to.
    pub accept_req_id: u64,
    /// Token range that pushed blocks cover.
    pub token_range: TokenRange,
}

/// Whether `r` reports `answer` to a peer: a failure is reported by its text, behind the text `op`
/// and a colon.
pub open spec fn reports<V>(
    answer: Result<V>,
    op: Seq<char>,
    r: std::result::Result<V, BackendError>,
) -> bool {
    match answer {
        Ok(value) => r == Ok::<V, BackendError>(value),
        Err(cause) => {
            &&& r matches Err(e)
            &&& e matches BackendError::Other(text)
            &&& text@ == op + ": "@ + cause.message()
        },
    }
}

/// The export of block `id` as it is called in messages.
pub open spec fn export_label(id: u32) -> Seq<char> {
    "export_payload(BlockId("@ + text::decimal(id as nat) + "))"@
}

/// Report the answer of a manager to a peer.
pub fn report<V>(answer: Result<V>, op: &str) -> (r: std::result::Result<V, BackendError>)
    ensures
        reports(answer, op@, r),
{
    match answer {
        Ok(value) => Ok(value),
        Err(cause) => {
            let mut s = String::from_str(op);
            s.append(": ");
            let message = cause.to_string();
            s.append(message.as_str());
            Err(BackendError::Other(s))
        },
    }
}

impl<B: DeviceBackend, H: ContentHasher> BlockManagerPeerAdapter<B, H> {
    /// Whether `after` is this adapter with its manager in another state.
    pub open spec fn same_role(self, after: BlockManagerPeerAdapter<B, H>) -> bool {
        &&& after.accept_req_id == self.accept_req_id
        &&& after.token_range == self.token_range
        &&& self.manager.same_setup(after.manager)
    }

    /// State of the manager.
    pub open spec fn state(self) -> ManagerState {
        self.manager@
    }
}

impl<B: DeviceBackend, H: ContentHasher> MockPeer for BlockManagerPeerAdapter<B, H> {
    open spec fn ready(&self) -> bool {
        self.manager.wf()
    }

    fn provide_block(&mut self, block_id: BlockId) -> (r: std::result::Result<
        BlockPayload,
        BackendError,
    >)
        ensures
            old(self).same_role(*final(self)),
            exists|answer: Result<BlockPayload>|
                {
                    &&& #[trigger] state::exported(
                        old(self).state(),
                        final(self).state(),
                        old(self).manager.device(),
                        block_id.0,
                        answer,
                    )
                    &&& reports(answer, export_label(block_id.0), r)
                },
    {
        let mut op = String::from_str("export_payload(BlockId(");
        text::push_decimal(&mut op, block_id.0 as u64);
        op.append("))");
        let answer = self.manager.export_payload(block_id);
        report(answer, op.as_str())
    }

    fn accept_pushed(&mut self, payload: BlockPayload) -> (r: std::result::Result<
        BlockId,
        BackendError,
    >)
        ensures
            old(self).same_role(*final(self)),
            exists|answer: Result<BlockId>|
                {
                    &&& #[trigger] state::imported(
                        old(self).state(),
                        final(self).state(),
                        old(self).manager.dependable(),
                        old(self).accept_req_id,
                        old(self).token_range,
                        payload,
                        answer,
                    )
                    &&& reports(answer, "import_payload"@, r)
                },
    {
        let answer = self.manager.import_payload(self.accept_req_id, self.token_range, &payload);
        report(answer, "import_payload")
    }

    /// Content hashes are looked up elsewhere: the answer is always that the rank holds no such
    /// block.
    fn lookup_hash(&mut self, content_hash: u64) -> (r: std::result::Result<
        Option<BlockId>,
        BackendError,
    >)
        ensures
            r == Ok::<Option<BlockId>, BackendError>(None),
            *final(self) == *old(self),
    {
        Ok(None)
    }

    fn reserve(&mut self, req_id: u64, count: u32) -> (r: std::result::Result<
        ReservationToken,
        BackendError,
    >)
        ensures
            old(self).same_role(*final(self)),
            exists|answer: Result<ReservationToken>|
                {
                    &&& #[trigger] state::reserved(
                        old(self).state(),
                        final(self).state(),
                        req_id,
                        count,
                        answer,
                    )
                    &&& reports(answer, "reserve_incoming"@, r)
                },
    {
        let answer = self.manager.reserve_incoming(req_id, count);
        report(answer, "reserve_incoming")
    }

    fn release_reservation(&mut self, token: ReservationToken) -> (r: std::result::Result<
        (),
        BackendError,
    >)
        ensures
            r is Ok,
            old(self).same_role(*final(self)),
            final(self).state() == old(self).state().with_pool(
                old(self).state().pool.unreserve(token.0),
            ),
    {
        let answer = self.manager.release_reservation_local(token);
        report(answer, "release_reservation_local")
    }
}

} // verus!
