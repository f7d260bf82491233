//! Cross-agent share table: which requests share which blocks.
//!
//! The block manager counts the references to each block. This table layers on top of it who
//! holds them, so that a request that completes can give up all of its shared blocks in one
//! walk.

use dashmap::DashMap;
use vstd::prelude::*;

use crate::block::BlockId;
use crate::lists;
use crate::pool;
use crate::shared_map;

verus! {

/// Mathematical state of a share table.
#[verifier::ext_equal]
pub struct ShareState {
    /// Requests that share each block, one entry per share, in order.
    pub owners: Map<u32, Seq<u64>>,
    /// Blocks that each request shares, one entry per share, in order.
    pub blocks: Map<u64, Seq<u32>>,
    /// Shares registered so far.
    pub total: u64,
}

/// Number of entries in all lists of `lists_of`.
pub open spec fn entries(lists_of: Map<u32, Seq<u64>>) -> nat
    decreases lists_of.dom().len(),
{
    if lists_of.dom().finite() && lists_of.dom().len() > 0 {
        let id = lists_of.dom().choose();
        lists_of[id].len() + entries(lists_of.remove(id))
    } else {
        0
    }
}

impl ShareState {
    /// Number of references that belong to currently shared blocks: one per owner of each.
    pub open spec fn refs(self) -> nat {
        entries(self.owners)
    }

    /// Owners of block `id`.
    pub open spec fn owners_of(self, id: u32) -> Seq<u64> {
        if self.owners.dom().contains(id) {
            self.owners[id]
        } else {
            Seq::empty()
        }
    }

    /// Blocks shared by request `req`.
    pub open spec fn blocks_of(self, req: u64) -> Seq<u32> {
        if self.blocks.dom().contains(req) {
            self.blocks[req]
        } else {
            Seq::empty()
        }
    }

    /// Invariant: the two directions agree, and every listed block has an owner.
    pub open spec fn inv(self) -> bool {
        &&& self.owners.dom().finite()
        &&& forall|id: u32| #[trigger]
            self.owners.dom().contains(id) ==> self.owners[id].len() > 0
        &&& forall|id: u32, req: u64|
            #![trigger self.owners_of(id).contains(req)]
            #![trigger self.blocks_of(req).contains(id)]
            self.owners_of(id).contains(req) <==> self.blocks_of(req).contains(id)
    }

    /// Register `req` as an owner of block `id`.
    pub open spec fn share(self, req: u64, id: u32) -> ShareState {
        ShareState {
            owners: self.owners.insert(id, self.owners_of(id).push(req)),
            blocks: self.blocks.insert(req, self.blocks_of(req).push(id)),
            total: pool::state::successor(self.total),
        }
    }

    /// Owners after `req` left the blocks in `ids`; a block without owners is not listed.
    pub open spec fn owners_without(self, ids: Seq<u32>, req: u64) -> Map<u32, Seq<u64>> {
        Map::new(
            |id: u32|
                if ids.contains(id) {
                    lists::without(self.owners_of(id), req).len() > 0
                } else {
                    self.owners.dom().contains(id)
                },
            |id: u32|
                if ids.contains(id) {
                    lists::without(self.owners_of(id), req)
                } else {
                    self.owners[id]
                },
        )
    }

    /// Remove request `req` from every block that it shares.
    pub open spec fn release(self, req: u64) -> ShareState {
        ShareState {
            owners: self.owners_without(self.blocks_of(req), req),
            blocks: self.blocks.remove(req),
            total: self.total,
        }
    }
}

/// Cross-agent share-state index.
#[derive(Debug)]
pub struct CrossAgentShareTable {
    block_to_owners: DashMap<u32, Vec<u64>>,
    req_to_blocks: DashMap<u64, Vec<u32>>,
    /// Shares registered so far.
    total_shared_refs: u64,
    /// References that belong to currently shared blocks.
    current_refs: u64,
}

impl View for CrossAgentShareTable {
    type V = ShareState;

    closed spec fn view(&self) -> ShareState {
        ShareState {
            owners: shared_map::owners_entries(self.block_to_owners),
            blocks: shared_map::blocks_entries(self.req_to_blocks),
            total: self.total_shared_refs,
        }
    }
}

/// `list` without the occurrences of `req`.
fn owners_without(list: &Vec<u64>, req: u64) -> (out: Vec<u64>)
    ensures
        out@ == lists::without(list@, req),
{
    let mut out: Vec<u64> = Vec::new();
    let mut i: usize = 0;
    proof {
        reveal(Seq::filter);
        assert(list@.take(0) =~= Seq::<u64>::empty());
    }
    while i < list.len()
        invariant
            i <= list@.len(),
            out@ == lists::without(list@.take(i as int), req),
        decreases list.len() - i,
    {
        let x: u64 = list[i];
        proof {
            lists::without_push(list@.take(i as int), x, req);
            assert(list@.take(i + 1) =~= list@.take(i as int).push(x));
        }
        if x != req {
            out.push(x);
        }
        i += 1;
    }
    proof {
        assert(list@.take(list@.len() as int) =~= list@);
    }
    out
}

impl CrossAgentShareTable {
    /// Whether the table is in a consistent state.
    pub closed spec fn wf(self) -> bool {
        &&& self@.inv()
        &&& self.current_refs == self@.refs()
    }

    /// A consistent table satisfies the invariant of its state.
    pub proof fn wf_implies_inv(&self)
        requires
            self.wf(),
        ensures
            self@.inv(),
    {
    }

    /// Construct an empty table.
    pub fn new() -> (t: CrossAgentShareTable)
        ensures
            t.wf(),
            t@ == (ShareState { owners: Map::empty(), blocks: Map::empty(), total: 0 }),
    {
        CrossAgentShareTable {
            block_to_owners: shared_map::new_owners(),
            req_to_blocks: shared_map::new_blocks(),
            total_shared_refs: 0,
            current_refs: 0,
        }
    }

    /// Register `req_id` as an additional owner of `block_id`. The references must stay countable.
    pub fn add_share(&mut self, req_id: u64, block_id: BlockId)
        requires
            old(self).wf(),
            old(self)@.refs() < u64::MAX,
        ensures
            final(self).wf(),
            final(self)@ == old(self)@.share(req_id, block_id.0),
    {
        let id: u32 = block_id.0;
        let mut owners: Vec<u64> = match shared_map::remove_owners(&mut self.block_to_owners, id) {
            Some(list) => list,
            None => Vec::new(),
        };
        owners.push(req_id);
        let mut blocks: Vec<u32> = match shared_map::remove_blocks(
            &mut self.req_to_blocks,
            req_id,
        ) {
            Some(list) => list,
            None => Vec::new(),
        };
        blocks.push(id);
        proof {
            assert(owners@ =~= old(self)@.owners_of(id).push(req_id));
            assert(blocks@ =~= old(self)@.blocks_of(req_id).push(id));
        }
        shared_map::insert_owners(&mut self.block_to_owners, id, owners);
        shared_map::insert_blocks(&mut self.req_to_blocks, req_id, blocks);
        self.total_shared_refs = self.total_shared_refs.wrapping_add(1);
        self.current_refs = self.current_refs + 1;
        proof {
            assert(self@ =~= old(self)@.share(req_id, id));
            share_adds_a_reference(old(self)@, req_id, id);
            share_keeps_inv(old(self)@, req_id, id);
        }
    }

    /// Release every shared block held by `req_id`. Returns one entry per share, in order: the
    /// caller gives up one reference on the block manager for each of them.
    pub fn release_request(&mut self, req_id: u64) -> (to_free: Vec<BlockId>)
        requires
            old(self).wf(),
        ensures
            final(self).wf(),
            final(self)@ == old(self)@.release(req_id),
            to_free@ == old(self)@.blocks_of(req_id).map_values(|id: u32| BlockId(id)),
    {
        let ghost s = self@;
        let list: Vec<u32> = match shared_map::remove_blocks(&mut self.req_to_blocks, req_id) {
            Some(list) => list,
            None => Vec::new(),
        };
        proof {
            assert(list@ =~= s.blocks_of(req_id));
            assert(s.owners =~= s.owners_without(list@.take(0), req_id));
        }
        let mut to_free: Vec<BlockId> = Vec::with_capacity(list.len());
        let mut i: usize = 0;
        while i < list.len()
            invariant
                i <= list@.len(),
                list@ == s.blocks_of(req_id),
                self@.blocks == s.blocks.remove(req_id),
                self@.total == s.total,
                self@.owners == s.owners_without(list@.take(i as int), req_id),
                to_free@ == list@.take(i as int).map_values(|id: u32| BlockId(id)),
                self@.owners.dom().finite(),
                self.current_refs == entries(self@.owners),
                s.inv(),
            decreases list.len() - i,
        {
            let id: u32 = list[i];
            let ghost before = list@.take(i as int);
            let ghost after = list@.take(i + 1);
            proof {
                assert(after =~= before.push(id));
                assert forall|x: u32| after.contains(x) == (before.contains(x) || x == id) by {
                    if before.contains(x) {
                        let j = choose|j: int| 0 <= j < before.len() && before[j] == x;
                        assert(after[j] == x);
                    }
                    if x == id {
                        assert(after[i as int] == x);
                    }
                    if after.contains(x) {
                        let j = choose|j: int| 0 <= j < after.len() && after[j] == x;
                        if j < i {
                            assert(before[j] == x);
                        }
                    }
                }
            }
            let ghost held = if self@.owners.dom().contains(id) {
                self@.owners[id]
            } else {
                Seq::<u64>::empty()
            };
            let ghost listed = self@.owners;
            let owners: Vec<u64> = match shared_map::remove_owners(&mut self.block_to_owners, id) {
                Some(list) => list,
                None => Vec::new(),
            };
            let rest = owners_without(&owners, req_id);
            proof {
                assert(owners@ =~= held);
                lists::without_twice(s.owners_of(id), req_id);
                lists::without_of_empty::<u64>(req_id);
                if before.contains(id) {
                    assert(held =~= lists::without(s.owners_of(id), req_id));
                } else {
                    assert(held =~= s.owners_of(id));
                }
                assert(rest@ == lists::without(s.owners_of(id), req_id));
            }
            proof {
                entries_split(listed, id);
                without_is_no_longer(owners@, req_id);
                if rest@.len() > 0 {
                    entries_split(listed.remove(id).insert(id, rest@), id);
                    assert(listed.remove(id).insert(id, rest@).remove(id) =~= listed.remove(id));
                }
            }
            let kept: u64 = rest.len() as u64;
            self.current_refs = self.current_refs - owners.len() as u64 + kept;
            if rest.len() > 0 {
                shared_map::insert_owners(&mut self.block_to_owners, id, rest);
            }
            to_free.push(BlockId(id));
            i += 1;
            proof {
                assert(self@.owners =~= s.owners_without(after, req_id));
                assert(to_free@ =~= after.map_values(|id: u32| BlockId(id)));
            }
        }
        proof {
            assert(list@.take(list@.len() as int) =~= list@);
            assert(self@ =~= s.release(req_id));
            release_keeps_inv(s, req_id);
        }
        to_free
    }

    /// Look up all current owners of `block_id`; `None` if the block is not shared.
    pub fn owners(&self, block_id: BlockId) -> (r: Option<Vec<u64>>)
        ensures
            r is Some <==> self@.owners.dom().contains(block_id.0),
            r matches Some(list) ==> list@ == self@.owners[block_id.0],
    {
        shared_map::get_owners(&self.block_to_owners, block_id.0)
    }

    /// Distinct shared blocks tracked.
    pub fn shared_block_count(&self) -> (n: usize)
        ensures
            n == self@.owners.dom().len(),
    {
        shared_map::len_owners(&self.block_to_owners)
    }

    /// Number of references that belong to currently shared blocks.
    pub fn shared_ref_count(&self) -> (n: u64)
        requires
            self.wf(),
        ensures
            n == self@.refs(),
    {
        self.current_refs
    }

    /// References that belong to currently shared blocks over shares registered so far, as an exact
    /// fraction; zero before the first share.
    pub fn sharing_rate(&self) -> (r: (u64, u64))
        requires
            self.wf(),
        ensures
            self@.total == 0 ==> r == (0u64, 1u64),
            self@.total > 0 ==> r.0 == self@.refs() && r.1 == self@.total,
    {
        if self.total_shared_refs == 0 {
            return (0, 1);
        }
        (self.current_refs, self.total_shared_refs)
    }
}

impl Default for CrossAgentShareTable {
    fn default() -> (t: CrossAgentShareTable)
        ensures
            t.wf(),
            t@ == (ShareState { owners: Map::empty(), blocks: Map::empty(), total: 0 }),
    {
        CrossAgentShareTable::new()
    }
}

/// The entries of one list are part of the entries of all lists.
pub proof fn entries_split(lists_of: Map<u32, Seq<u64>>, id: u32)
    requires
        lists_of.dom().finite(),
    ensures
        entries(lists_of) == (if lists_of.dom().contains(id) {
            lists_of[id].len() + entries(lists_of.remove(id))
        } else {
            entries(lists_of.remove(id))
        }),
    decreases lists_of.dom().len(),
{
    if lists_of.dom().contains(id) {
        let first = lists_of.dom().choose();
        if first != id {
            entries_split(lists_of.remove(first), id);
            entries_split(lists_of.remove(id), first);
            assert(lists_of.remove(first).remove(id) =~= lists_of.remove(id).remove(first));
        }
    } else {
        assert(lists_of.remove(id) =~= lists_of);
    }
}

/// Removing an element does not make a list longer.
proof fn without_is_no_longer<A>(s: Seq<A>, x: A)
    ensures
        lists::without(s, x).len() <= s.len(),
    decreases s.len(),
{
    if s.len() == 0 {
        lists::without_of_empty::<A>(x);
        assert(s =~= Seq::<A>::empty());
    } else {
        assert(s =~= s.drop_last().push(s.last()));
        lists::without_push(s.drop_last(), s.last(), x);
        without_is_no_longer(s.drop_last(), x);
    }
}

/// Every share adds one reference.
pub proof fn share_adds_a_reference(s: ShareState, req: u64, id: u32)
    requires
        s.inv(),
    ensures
        s.share(req, id).refs() == s.refs() + 1,
{
    let t = s.share(req, id);
    entries_split(s.owners, id);
    entries_split(t.owners, id);
    assert(t.owners.remove(id) =~= s.owners.remove(id));
}

/// Fewer lists with no more entries each have no more entries in all.
proof fn entries_shrink(a: Map<u32, Seq<u64>>, b: Map<u32, Seq<u64>>)
    requires
        a.dom().finite(),
        b.dom().finite(),
        forall|id: u32| #[trigger]
            a.dom().contains(id) ==> b.dom().contains(id) && a[id].len() <= b[id].len(),
    ensures
        entries(a) <= entries(b),
    decreases b.dom().len(),
{
    if b.dom().len() > 0 {
        let id = b.dom().choose();
        assert(b.dom().contains(id));
        entries_split(a, id);
        entries_split(b, id);
        entries_shrink(a.remove(id), b.remove(id));
    } else {
        assert(b.dom() =~= Set::<u32>::empty());
        assert(a.dom() =~= Set::<u32>::empty());
    }
}

proof fn push_membership<A>(s: Seq<A>, last: A, x: A)
    ensures
        s.push(last).contains(x) <==> s.contains(x) || x == last,
{
    if s.contains(x) {
        let i = choose|i: int| 0 <= i < s.len() && s[i] == x;
        assert(s.push(last)[i] == x);
    }
    assert(s.push(last)[s.len() as int] == last);
    if s.push(last).contains(x) {
        let i = choose|i: int| 0 <= i < s.push(last).len() && s.push(last)[i] == x;
        if i < s.len() {
            assert(s[i] == x);
        }
    }
}

/// Registering a share keeps the two directions of the table in agreement.
pub proof fn share_keeps_inv(s: ShareState, req: u64, id: u32)
    requires
        s.inv(),
    ensures
        s.share(req, id).inv(),
        s.share(req, id).owners_of(id).contains(req),
{
    let t = s.share(req, id);
    assert forall|i: u32, r: u64|
        #![trigger t.owners_of(i).contains(r)]
        #![trigger t.blocks_of(r).contains(i)]
        t.owners_of(i).contains(r) <==> t.blocks_of(r).contains(i) by {
        push_membership(s.owners_of(id), req, r);
        push_membership(s.blocks_of(req), id, i);
        assert(s.owners_of(i).contains(r) <==> s.blocks_of(r).contains(i));
    }
    push_membership(s.owners_of(id), req, req);
}

/// Releasing a request keeps the two directions of the table in agreement.
pub proof fn release_keeps_inv(s: ShareState, req: u64)
    requires
        s.inv(),
    ensures
        s.release(req).inv(),
{
    let t = s.release(req);
    let ids = s.blocks_of(req);
    assert(t.owners.dom().subset_of(s.owners.dom())) by {
        assert forall|i: u32| t.owners.dom().contains(i) implies s.owners.dom().contains(i) by {
            if ids.contains(i) && !s.owners.dom().contains(i) {
                lists::without_of_empty::<u64>(req);
                assert(s.owners_of(i) =~= Seq::<u64>::empty());
            }
        }
    }
    vstd::set_lib::lemma_len_subset(t.owners.dom(), s.owners.dom());
    assert forall|i: u32, r: u64|
        #![trigger t.owners_of(i).contains(r)]
        #![trigger t.blocks_of(r).contains(i)]
        t.owners_of(i).contains(r) <==> t.blocks_of(r).contains(i) by {
        release_owners(s, req, i);
        assert(s.owners_of(i).contains(r) <==> s.blocks_of(r).contains(i));
        assert(s.owners_of(i).contains(req) <==> s.blocks_of(req).contains(i));
        lists::without_membership(s.owners_of(i), req);
    }
}

/// Releasing a request removes it from the owners of every block, and no one else.
pub proof fn release_owners(s: ShareState, req: u64, id: u32)
    requires
        s.inv(),
    ensures
        s.release(req).owners_of(id) == lists::without(s.owners_of(id), req),
        s.release(req).blocks_of(req).len() == 0,
{
    let t = s.release(req);
    if s.blocks_of(req).contains(id) {
        assert(t.owners_of(id) =~= lists::without(s.owners_of(id), req));
    } else {
        assert(!s.owners_of(id).contains(req)) by {
            assert(s.owners_of(id).contains(req) <==> s.blocks_of(req).contains(id));
        }
        lists::without_absent(s.owners_of(id), req);
    }
}

/// There are at most as many references to shared blocks as there were shares.
pub open spec fn rate_is_bounded(s: ShareState) -> bool {
    s.refs() <= s.total
}

/// As long as the count of shares does not wrap around, the sharing rate never exceeds one: it is
/// one as long as nothing is released, and releasing never raises it.
pub proof fn sharing_rate_stays_bounded(s: ShareState, req: u64, id: u32)
    requires
        s.inv(),
        rate_is_bounded(s),
        s.total < u64::MAX,
    ensures
        rate_is_bounded(s.share(req, id)),
        s.refs() == s.total ==> s.share(req, id).refs() == s.share(req, id).total,
        rate_is_bounded(s.release(req)),
        s.release(req).refs() <= s.refs(),
{
    share_adds_a_reference(s, req, id);
    release_keeps_inv(s, req);
    let t = s.release(req);
    assert forall|i: u32| #[trigger] t.owners.dom().contains(i) implies s.owners.dom().contains(i)
        && t.owners[i].len() <= s.owners[i].len() by {
        if s.blocks_of(req).contains(i) {
            without_is_no_longer(s.owners_of(i), req);
        }
    }
    entries_shrink(t.owners, s.owners);
}

/// A share is the newest entry of the block and of the request, counts once, and changes no other
/// list.
pub proof fn share_extends_two_lists(
    s: ShareState,
    req: u64,
    id: u32,
    other_req: u64,
    other_id: u32,
)
    requires
        s.inv(),
    ensures
        ({
            let t = s.share(req, id);
            &&& t.owners_of(id).last() == req
            &&& t.owners_of(id).drop_last() == s.owners_of(id)
            &&& t.owners_of(id).len() == s.owners_of(id).len() + 1
            &&& t.blocks_of(req).last() == id
            &&& t.blocks_of(req).drop_last() == s.blocks_of(req)
            &&& t.blocks_of(req).len() == s.blocks_of(req).len() + 1
            &&& other_id != id ==> t.owners_of(other_id) == s.owners_of(other_id)
            &&& other_req != req ==> t.blocks_of(other_req) == s.blocks_of(other_req)
            &&& s.total < u64::MAX ==> t.total == s.total + 1
        }),
{
    let t = s.share(req, id);
    assert(t.owners_of(id).drop_last() =~= s.owners_of(id));
    assert(t.blocks_of(req).drop_last() =~= s.blocks_of(req));
}

/// Releasing a request takes it, and it alone, out of every block: the others stay owners, in
/// order, their blocks stay listed, and a block is listed as long as it has an owner.
pub proof fn release_leaves_the_others(
    s: ShareState,
    req: u64,
    other: u64,
    id: u32,
)
    requires
        s.inv(),
        other != req,
    ensures
        ({
            let t = s.release(req);
            &&& !t.owners_of(id).contains(req)
            &&& t.blocks_of(req).len() == 0
            &&& t.owners_of(id).contains(other) <==> s.owners_of(id).contains(other)
            &&& t.blocks_of(other) == s.blocks_of(other)
            &&& t.owners.dom().contains(id) <==> t.owners_of(id).len() > 0
            &&& !s.blocks_of(req).contains(id) ==> t.owners_of(id) == s.owners_of(id)
            &&& t.total == s.total
        }),
{
    release_keeps_inv(s, req);
    release_owners(s, req, id);
    lists::without_membership(s.owners_of(id), req);
    if !s.blocks_of(req).contains(id) {
        assert(!s.owners_of(id).contains(req)) by {
            assert(s.owners_of(id).contains(req) <==> s.blocks_of(req).contains(id));
        }
        lists::without_absent(s.owners_of(id), req);
    }
}

} // verus!
