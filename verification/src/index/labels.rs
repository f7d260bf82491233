//! Bookkeeping of an approximate nearest-neighbour index: which label stands for which block.
//!
//! A block that is added again gets a new label, so that labels never collide. The label that
//! it had before is given back, and its vector is to be dropped from the index.

use std::collections::HashMap;

use vstd::prelude::*;
use vstd::string::*;

use crate::error::BackendError;
use crate::text;

verus! {

broadcast use vstd::std_specs::hash::group_hash_axioms;

/// HNSW configuration of an index.
#[derive(Debug, Clone, Copy, PartialEq, Eq, Structural)]
pub struct UsearchConfig {
    /// Vector dimensionality.
    pub dimensions: usize,
    /// Number of bidirectional links per node.
    pub connectivity: usize,
    /// Build-time search depth.
    pub expansion_add: usize,
    /// Query-time search depth.
    pub expansion_search: usize,
}

impl UsearchConfig {
    /// Default configuration for vectors of the given dimensionality.
    pub fn default_for_dim(dimensions: usize) -> (c: UsearchConfig)
        ensures
            c == (UsearchConfig {
                dimensions,
                connectivity: 32,
                expansion_add: 200,
                expansion_search: 64,
            }),
    {
        UsearchConfig { dimensions, connectivity: 32, expansion_add: 200, expansion_search: 64 }
    }
}

/// The text that reports a descriptor of the wrong length.
pub open spec fn dimension_text(length: nat, dimensions: nat) -> Seq<char> {
    "descriptor length "@ + text::decimal(length) + " does not match index dimensions "@
        + text::decimal(dimensions)
}

/// Check that a descriptor has the dimensionality of the index.
pub fn check_dim(length: usize, dimensions: usize) -> (r: std::result::Result<(), BackendError>)
    ensures
        match r {
            Ok(_) => length == dimensions,
            Err(e) => {
                &&& length != dimensions
                &&& e matches BackendError::Other(message)
                &&& message@ == dimension_text(length as nat, dimensions as nat)
            },
        },
{
    if length != dimensions {
        let mut s = String::from_str("descriptor length ");
        text::push_decimal(&mut s, length as u64);
        s.append(" does not match index dimensions ");
        text::push_decimal(&mut s, dimensions as u64);
        return Err(BackendError::Other(s));
    }
    Ok(())
}

/// Capacity to grow to before another vector is added, or `None` if there is room: twice the
/// capacity, but at least 1024.
pub open spec fn grown(size: nat, capacity: nat) -> Option<nat> {
    if size + 1 > capacity {
        if 2 * capacity < 1024 {
            Some(1024)
        } else if 2 * capacity > usize::MAX {
            Some(usize::MAX as nat)
        } else {
            Some(2 * capacity)
        }
    } else {
        None
    }
}

/// Capacity to grow to before another vector is added, or `None` if there is room.
pub fn grown_capacity(size: usize, capacity: usize) -> (r: Option<usize>)
    ensures
        match r {
            Some(n) => grown(size as nat, capacity as nat) == Some(n as nat),
            None => grown(size as nat, capacity as nat) is None,
        },
{
    if size >= capacity {
        if capacity < 512 {
            Some(1024)
        } else if capacity > usize::MAX / 2 {
            Some(usize::MAX)
        } else {
            Some(capacity * 2)
        }
    } else {
        None
    }
}

/// Mathematical state of a label map.
#[verifier::ext_equal]
pub struct LabelState {
    /// Label of each block.
    pub labels: Map<u32, u64>,
    /// Block of each label.
    pub blocks: Map<u64, u32>,
    /// The label that is given out next.
    pub next: u64,
}

impl LabelState {
    /// Invariant: labels and blocks correspond one to one, and every label was given out.
    pub open spec fn inv(self) -> bool {
        &&& self.labels.dom().finite()
        &&& forall|block: u32| #[trigger]
            self.labels.dom().contains(block) ==> {
                &&& self.blocks.dom().contains(self.labels[block])
                &&& self.blocks[self.labels[block]] == block
                &&& 1 <= self.labels[block] < self.next
            }
        &&& forall|label: u64| #[trigger]
            self.blocks.dom().contains(label) ==> {
                &&& self.labels.dom().contains(self.blocks[label])
                &&& self.labels[self.blocks[label]] == label
            }
    }

    /// State after `label` was bound to `block` in place of the label it had.
    pub open spec fn bind(self, block: u32, label: u64) -> LabelState {
        LabelState {
            labels: self.labels.insert(block, label),
            blocks: (if self.labels.dom().contains(block) {
                self.blocks.remove(self.labels[block])
            } else {
                self.blocks
            }).insert(label, block),
            ..self
        }
    }

    /// State after `block` lost its label, if it had one.
    pub open spec fn unbind(self, block: u32) -> LabelState {
        if self.labels.dom().contains(block) {
            LabelState {
                labels: self.labels.remove(block),
                blocks: self.blocks.remove(self.labels[block]),
                ..self
            }
        } else {
            self
        }
    }
}

/// Which label stands for which block.
#[derive(Debug)]
pub struct LabelMap {
    next_label: u64,
    label_for_block: HashMap<u32, u64>,
    block_for_label: HashMap<u64, u32>,
}

impl View for LabelMap {
    type V = LabelState;

    closed spec fn view(&self) -> LabelState {
        LabelState {
            labels: self.label_for_block@,
            blocks: self.block_for_label@,
            next: self.next_label,
        }
    }
}

impl LabelMap {
    /// Whether the map is in a consistent state.
    pub closed spec fn wf(self) -> bool {
        self@.inv()
    }

    /// A consistent map satisfies the invariant of its state.
    pub proof fn wf_implies_inv(&self)
        requires
            self.wf(),
        ensures
            self@.inv(),
    {
    }

    /// A map without labels. Label 0 is never given out.
    pub fn new() -> (m: LabelMap)
        ensures
            m.wf(),
            m@ == (LabelState { labels: Map::empty(), blocks: Map::empty(), next: 1 }),
    {
        LabelMap {
            next_label: 1,
            label_for_block: HashMap::new(),
            block_for_label: HashMap::new(),
        }
    }

    /// Give out the next label.
    pub fn next_label(&mut self) -> (label: u64)
        requires
            old(self).wf(),
            old(self)@.next < u64::MAX,
        ensures
            final(self).wf(),
            label == old(self)@.next,
            final(self)@ == (LabelState { next: (old(self)@.next + 1) as u64, ..old(self)@ }),
    {
        let label: u64 = self.next_label;
        self.next_label = label + 1;
        label
    }

    /// Bind a label that was given out, but not bound yet, to `block`. Returns the label that
    /// the block had before, whose vector is now stale.
    pub fn bind(&mut self, block: u32, label: u64) -> (stale: Option<u64>)
        requires
            old(self).wf(),
            1 <= label < old(self)@.next,
            !old(self)@.blocks.dom().contains(label),
        ensures
            final(self).wf(),
            final(self)@ == old(self)@.bind(block, label),
            stale == (if old(self)@.labels.dom().contains(block) {
                Some(old(self)@.labels[block])
            } else {
                None
            }),
    {
        let stale: Option<u64> = match self.label_for_block.get(&block) {
            Some(old_label) => Some(*old_label),
            None => None,
        };
        if let Some(old_label) = stale {
            self.block_for_label.remove(&old_label);
        }
        self.label_for_block.insert(block, label);
        self.block_for_label.insert(label, block);
        proof {
            assert(self@ =~= old(self)@.bind(block, label));
            bind_keeps_inv(old(self)@, block, label);
        }
        stale
    }

    /// Remove the label of `block`. Returns it, so that its vector can be dropped; `None` if the
    /// block has no label.
    pub fn unbind(&mut self, block: u32) -> (label: Option<u64>)
        requires
            old(self).wf(),
        ensures
            final(self).wf(),
            final(self)@ == old(self)@.unbind(block),
            label == (if old(self)@.labels.dom().contains(block) {
                Some(old(self)@.labels[block])
            } else {
                None
            }),
    {
        let label = self.label_for_block.remove(&block);
        if let Some(l) = label {
            self.block_for_label.remove(&l);
        }
        proof {
            assert(self@ =~= old(self)@.unbind(block));
            unbind_keeps_inv(old(self)@, block);
        }
        label
    }

    /// Block that a label stands for.
    pub fn block_of(&self, label: u64) -> (block: Option<u32>)
        ensures
            block == (if self@.blocks.dom().contains(label) {
                Some(self@.blocks[label])
            } else {
                None
            }),
    {
        match self.block_for_label.get(&label) {
            Some(block) => Some(*block),
            None => None,
        }
    }

    /// Positions of the labels that stand for a block, in order, with the block.
    pub fn resolve(&self, labels: &Vec<u64>) -> (hits: Vec<(usize, u32)>)
        ensures
            hits@ == resolved(self@, labels@),
    {
        let mut hits: Vec<(usize, u32)> = Vec::new();
        let mut i: usize = 0;
        proof {
            assert(labels@.take(0) =~= Seq::<u64>::empty());
        }
        while i < labels.len()
            invariant
                i <= labels@.len(),
                hits@ == resolved(self@, labels@.take(i as int)),
            decreases labels.len() - i,
        {
            proof {
                assert(labels@.take(i + 1).drop_last() =~= labels@.take(i as int));
            }
            if let Some(block) = self.block_of(labels[i]) {
                hits.push((i, block));
            }
            i += 1;
        }
        proof {
            assert(labels@.take(labels@.len() as int) =~= labels@);
        }
        hits
    }

    /// Number of blocks with a label.
    pub fn len(&self) -> (n: usize)
        ensures
            n == self@.labels.dom().len(),
    {
        self.label_for_block.len()
    }

    /// Whether no block has a label.
    pub fn is_empty(&self) -> (r: bool)
        ensures
            r == (self@.labels.dom().len() == 0),
    {
        self.label_for_block.len() == 0
    }
}

/// Positions of the labels that stand for a block, with the block.
pub open spec fn resolved(s: LabelState, labels: Seq<u64>) -> Seq<(usize, u32)>
    decreases labels.len(),
{
    if labels.len() == 0 {
        Seq::empty()
    } else {
        let before = resolved(s, labels.drop_last());
        if s.blocks.dom().contains(labels.last()) {
            before.push(((labels.len() - 1) as usize, s.blocks[labels.last()]))
        } else {
            before
        }
    }
}

/// Binding a fresh label keeps labels and blocks in correspondence.
pub proof fn bind_keeps_inv(s: LabelState, block: u32, label: u64)
    requires
        s.inv(),
        1 <= label < s.next,
        !s.blocks.dom().contains(label),
    ensures
        s.bind(block, label).inv(),
        s.bind(block, label).labels[block] == label,
{
    let t = s.bind(block, label);
    assert forall|b: u32| #[trigger] t.labels.dom().contains(b) implies {
        &&& t.blocks.dom().contains(t.labels[b])
        &&& t.blocks[t.labels[b]] == b
        &&& 1 <= t.labels[b] < t.next
    } by {
        if b != block {
            assert(s.labels.dom().contains(b));
            if s.labels.dom().contains(block) {
                assert(s.labels[b] != s.labels[block]);
            }
        }
    }
    assert forall|l: u64| #[trigger] t.blocks.dom().contains(l) implies {
        &&& t.labels.dom().contains(t.blocks[l])
        &&& t.labels[t.blocks[l]] == l
    } by {
        if l != label {
            assert(s.blocks.dom().contains(l));
        }
    }
}

/// Removing a label keeps labels and blocks in correspondence.
pub proof fn unbind_keeps_inv(s: LabelState, block: u32)
    requires
        s.inv(),
    ensures
        s.unbind(block).inv(),
        !s.unbind(block).labels.dom().contains(block),
{
    let t = s.unbind(block);
    if s.labels.dom().contains(block) {
        assert forall|b: u32| #[trigger] t.labels.dom().contains(b) implies {
            &&& t.blocks.dom().contains(t.labels[b])
            &&& t.blocks[t.labels[b]] == b
            &&& 1 <= t.labels[b] < t.next
        } by {
            assert(s.labels.dom().contains(b));
            assert(s.labels[b] != s.labels[block]);
        }
        assert forall|l: u64| #[trigger] t.blocks.dom().contains(l) implies {
            &&& t.labels.dom().contains(t.blocks[l])
            &&& t.labels[t.blocks[l]] == l
        } by {
            assert(s.blocks.dom().contains(l));
        }
    }
}

/// A search for a block's vector resolves to that block once it has been added, and to nothing
/// after it has been removed. Adding a block again invalidates the label that it had.
pub proof fn labels_follow_blocks(s: LabelState, block: u32, label: u64)
    requires
        s.inv(),
        1 <= label < s.next,
        !s.blocks.dom().contains(label),
    ensures
        s.bind(block, label).blocks[label] == block,
        s.labels.dom().contains(block) ==> !s.bind(block, label).blocks.dom().contains(
            s.labels[block],
        ),
        !s.bind(block, label).unbind(block).blocks.dom().contains(label),
{
}

/// Resolving finds every label that stands for a block, at whatever position it is, and nothing
/// else: position `i` is paired with `block` if and only if `labels[i]` stands for `block`. The
/// positions come in increasing order, so that none comes twice.
pub proof fn every_position_is_resolved(s: LabelState, labels: Seq<u64>)
    requires
        labels.len() <= usize::MAX,
    ensures
        forall|i: usize, block: u32| #[trigger]
            resolved(s, labels).contains((i, block)) <==> i < labels.len() && s.blocks.dom().contains(
                labels[i as int],
            ) && s.blocks[labels[i as int]] == block,
        forall|a: int, b: int|
            0 <= a < b < resolved(s, labels).len() ==> (#[trigger] resolved(s, labels)[a]).0 < (
            #[trigger] resolved(s, labels)[b]).0,
    decreases labels.len(),
{
    let hits = resolved(s, labels);
    if labels.len() > 0 {
        let rest = labels.drop_last();
        let before = resolved(s, rest);
        let last = (labels.len() - 1) as usize;
        every_position_is_resolved(s, rest);
        assert forall|a: int| 0 <= a < before.len() implies (#[trigger] before[a]).0 < last by {
            assert(before.contains((before[a].0, before[a].1)));
        }
        assert forall|i: usize, block: u32| #[trigger] hits.contains((i, block)) <==> i
            < labels.len() && s.blocks.dom().contains(labels[i as int])
            && s.blocks[labels[i as int]] == block by {
            if hits.contains((i, block)) {
                let a = choose|a: int| 0 <= a < hits.len() && hits[a] == (i, block);
                if a < before.len() {
                    assert(before[a] == (i, block));
                    assert(before.contains((i, block)));
                    assert(rest[i as int] == labels[i as int]);
                }
            }
            if i < labels.len() && s.blocks.dom().contains(labels[i as int])
                && s.blocks[labels[i as int]] == block {
                if i < last {
                    assert(rest[i as int] == labels[i as int]);
                    assert(before.contains((i, block)));
                    let a = choose|a: int| 0 <= a < before.len() && before[a] == (i, block);
                    assert(hits[a] == (i, block));
                } else {
                    assert(hits[before.len() as int] == (i, block));
                }
            }
        }
        assert forall|a: int, b: int| 0 <= a < b < hits.len() implies (#[trigger] hits[a]).0 < (
        #[trigger] hits[b]).0 by {
            if b < before.len() {
                assert(before[a].0 < before[b].0);
            } else {
                assert(hits[a] == before[a]);
            }
        }
    }
}

/// Adding or removing a block changes nothing for the other blocks. Adding a block leaves exactly
/// one more block with a label, unless it had one; removing it leaves one fewer, if it had one.
pub proof fn other_blocks_keep_their_labels(s: LabelState, block: u32, label: u64, other: u32)
    requires
        s.inv(),
        1 <= label < s.next,
        !s.blocks.dom().contains(label),
        other != block,
    ensures
        s.bind(block, label).labels.dom().contains(other) == s.labels.dom().contains(other),
        s.unbind(block).labels.dom().contains(other) == s.labels.dom().contains(other),
        s.labels.dom().contains(other) ==> {
            &&& s.bind(block, label).labels[other] == s.labels[other]
            &&& s.bind(block, label).blocks.dom().contains(s.labels[other])
            &&& s.bind(block, label).blocks[s.labels[other]] == other
            &&& s.unbind(block).labels[other] == s.labels[other]
            &&& s.unbind(block).blocks.dom().contains(s.labels[other])
            &&& s.unbind(block).blocks[s.labels[other]] == other
        },
        s.bind(block, label).next == s.next,
        s.unbind(block).next == s.next,
        s.bind(block, label).labels.dom().len() == s.labels.dom().len() + (
        if s.labels.dom().contains(block) {
            0int
        } else {
            1
        }),
        s.unbind(block).labels.dom().len() == s.labels.dom().len() - (
        if s.labels.dom().contains(block) {
            1int
        } else {
            0
        }),
{
    bind_keeps_inv(s, block, label);
    unbind_keeps_inv(s, block);
    assert(s.bind(block, label).labels.dom() =~= s.labels.dom().insert(block));
    if s.labels.dom().contains(block) {
        assert(s.labels.dom().insert(block) =~= s.labels.dom());
        assert(s.unbind(block).labels.dom() =~= s.labels.dom().remove(block));
    }
}

/// The capacity grows exactly when the index is full. There is then room for another vector, the
/// capacity is no smaller than 1024, and it has doubled unless it was small or the machine allows
/// no more.
pub proof fn growing_makes_room(size: nat, capacity: nat)
    requires
        size < usize::MAX,
        capacity <= usize::MAX,
        size <= capacity,
    ensures
        grown(size, capacity) is None <==> size < capacity,
        grown(size, capacity) matches Some(n) ==> {
            &&& n > size
            &&& 1024 <= n <= usize::MAX
            &&& n > 1024 && n < usize::MAX ==> n == capacity + capacity
            &&& n == 1024 ==> capacity <= 512
            &&& n == usize::MAX ==> capacity + capacity >= usize::MAX
        },
{
}

} // verus!
