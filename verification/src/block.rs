//! Block identity and metadata.

use vstd::prelude::*;
use vstd::std_specs::convert::FromSpecImpl;
use vstd::string::*;

use crate::config::CkvDtype;
use crate::rank::RankId;
use crate::text;

verus! {

/// Sentinel `req_id` denoting a multi-owner block. The share table resolves its owners.
pub const SHARED_SENTINEL: u64 = u64::MAX;

/// Globally addressable block identifier: a block on a rank.
#[derive(Debug, Clone, Copy, PartialEq, Eq, Hash, PartialOrd, Ord, Structural)]
pub struct GlobalBlockId {
    /// Rank that owns the block.
    pub rank: RankId,
    /// Local block id on that rank.
    pub block: BlockId,
}

impl GlobalBlockId {
    /// Construct a global id from its parts.
    pub fn new(rank: RankId, block: BlockId) -> (r: GlobalBlockId)
        ensures
            r == (GlobalBlockId { rank, block }),
    {
        GlobalBlockId { rank, block }
    }

    /// The rank's label, `:b`, and the block number.
    pub open spec fn label(self) -> Seq<char> {
        self.rank.label() + ":b"@ + text::decimal(self.block.0 as nat)
    }

    /// Render the id as it appears in labels and messages.
    pub fn to_string(&self) -> (text: String)
        ensures
            text@ == self.label(),
    {
        let mut s = self.rank.to_string();
        s.append(":b");
        text::push_decimal(&mut s, self.block.0 as u64);
        s
    }
}

/// Strongly-typed block identifier. A block that is evicted gives up its number: its memory is
/// handed out again under another one.
#[derive(Debug, Clone, Copy, PartialEq, Eq, Hash, PartialOrd, Ord, Structural)]
pub struct BlockId(pub u32);

impl BlockId {
    /// Underlying integer.
    pub fn raw(self) -> (r: u32)
        ensures
            r == self.0,
    {
        self.0
    }
}

impl From<u32> for BlockId {
    fn from(value: u32) -> (r: BlockId) {
        BlockId(value)
    }
}

impl FromSpecImpl<u32> for BlockId {
    open spec fn obeys_from_spec() -> bool {
        true
    }

    open spec fn from_spec(value: u32) -> BlockId {
        BlockId(value)
    }
}

impl From<BlockId> for u32 {
    fn from(value: BlockId) -> (r: u32) {
        value.0
    }
}

impl FromSpecImpl<BlockId> for u32 {
    open spec fn obeys_from_spec() -> bool {
        true
    }

    open spec fn from_spec(value: BlockId) -> u32 {
        value.0
    }
}

/// Half-open range `start..end` of token positions covered by a single block.
#[derive(Debug, Clone, Copy, PartialEq, Eq, Structural)]
pub struct TokenRange {
    /// Inclusive start position.
    pub start: u32,
    /// Exclusive end position.
    pub end: u32,
}

impl TokenRange {
    /// Construct a range that does not end before it starts.
    pub fn new(start: u32, end: u32) -> (r: TokenRange)
        requires
            start <= end,
        ensures
            r == (TokenRange { start, end }),
    {
        TokenRange { start, end }
    }

    /// Number of tokens covered.
    pub fn len(self) -> (n: u32)
        requires
            self.start <= self.end,
        ensures
            n == self.end - self.start,
    {
        self.end - self.start
    }

    /// Whether the range is empty.
    pub fn is_empty(self) -> (r: bool)
        ensures
            r == (self.start == self.end),
    {
        self.start == self.end
    }
}

impl From<core::ops::Range<u32>> for TokenRange {
    fn from(r: core::ops::Range<u32>) -> (t: TokenRange) {
        TokenRange { start: r.start, end: r.end }
    }
}

impl FromSpecImpl<core::ops::Range<u32>> for TokenRange {
    open spec fn obeys_from_spec() -> bool {
        true
    }

    open spec fn from_spec(r: core::ops::Range<u32>) -> TokenRange {
        TokenRange { start: r.start, end: r.end }
    }
}

/// Per-block bookkeeping kept by the block manager.
#[derive(Debug, Clone, Copy)]
pub struct BlockMeta {
    /// Stable identifier for this block.
    pub block_id: BlockId,
    /// Owning request, or `Some(SHARED_SENTINEL)` if several requests share the block.
    pub req_id: Option<u64>,
    /// Reference count. The block returns to the free pool when it drops to zero.
    pub ref_count: u32,
    /// Content hash over the raw `c_kv` bytes; zero until the block is sealed.
    pub content_hash: u64,
    /// Whether this block's mean-`c_kv` vector has been added to the segment index.
    pub indexed: bool,
    /// Token range covered by this block.
    pub token_range: TokenRange,
    /// Storage dtype of the `c_kv` region for this block.
    pub ckv_dtype: CkvDtype,
    /// Epoch of the last access, which orders blocks for eviction.
    pub last_touched: u64,
}

impl BlockMeta {
    /// Metadata of a newly allocated block.
    pub open spec fn fresh_spec(
        block_id: BlockId,
        req_id: u64,
        token_range: TokenRange,
        ckv_dtype: CkvDtype,
        initial_epoch: u64,
    ) -> BlockMeta {
        BlockMeta {
            block_id,
            req_id: Some(req_id),
            ref_count: 1,
            content_hash: 0,
            indexed: false,
            token_range,
            ckv_dtype,
            last_touched: initial_epoch,
        }
    }

    /// Construct fresh metadata for a newly allocated block: one reference, not sealed, not
    /// indexed, last touched at `initial_epoch`.
    pub fn fresh(
        block_id: BlockId,
        req_id: u64,
        token_range: TokenRange,
        ckv_dtype: CkvDtype,
        initial_epoch: u64,
    ) -> (m: BlockMeta)
        ensures
            m == BlockMeta::fresh_spec(block_id, req_id, token_range, ckv_dtype, initial_epoch),
    {
        BlockMeta {
            block_id,
            req_id: Some(req_id),
            ref_count: 1,
            content_hash: 0,
            indexed: false,
            token_range,
            ckv_dtype,
            last_touched: initial_epoch,
        }
    }
}

/// Blocks are told apart by their labels, across ranks.
pub proof fn block_labels_are_unique(a: GlobalBlockId, b: GlobalBlockId)
    ensures
        a.label() == b.label() <==> a == b,
{
    reveal_strlit("r");
    reveal_strlit(":b");
    let p = text::decimal(a.rank.0 as nat);
    let q = text::decimal(b.rank.0 as nat);
    let x = text::decimal(a.block.0 as nat);
    let y = text::decimal(b.block.0 as nat);
    let f = a.label();
    let g = b.label();
    text::decimal_reads_back(a.rank.0 as nat);
    text::decimal_reads_back(b.rank.0 as nat);
    assert(f[p.len() + 1int] == ':');
    assert(g[q.len() + 1int] == ':');
    assert(forall|k: int| 0 <= k < p.len() ==> f[1 + k] == #[trigger] p[k]);
    assert(forall|k: int| 0 <= k < q.len() ==> g[1 + k] == #[trigger] q[k]);
    if f == g {
        if p.len() < q.len() {
            assert(g[p.len() + 1int] == q[p.len() as int]);
        }
        if q.len() < p.len() {
            assert(f[q.len() + 1int] == p[q.len() as int]);
        }
        assert(p =~= q) by {
            assert forall|k: int| 0 <= k < p.len() implies p[k] == q[k] by {
                assert(f[1 + k] == p[k]);
                assert(g[1 + k] == q[k]);
            }
        }
        assert(f.skip(p.len() + 3int) =~= x);
        assert(g.skip(q.len() + 3int) =~= y);
        text::decimal_is_unique(a.rank.0 as nat, b.rank.0 as nat);
        text::decimal_is_unique(a.block.0 as nat, b.block.0 as nat);
    }
}

} // verus!
