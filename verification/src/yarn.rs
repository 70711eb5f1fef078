//! The engine: a sequence of slots that tying fills with blocks and untying
//! empties, the reservations that keep a value ahead of what it owns, and the
//! table by which the owners of one mesh are led to one slot.

use std::collections::HashMap;
use vstd::prelude::*;
use vstd::slice::slice_subrange;
use crate::block::{Block, BlockKind, BlockView};
use crate::codec::{bincode_deserialized, bincode_serialized, deserialize, serialize, Record};
use crate::geometry::{GeometryData, GeometryDataView};
use crate::wire::{
    all_valid, block_views, blocks_of, from_records, record_of, records_of,
    records_stand_for_blocks, to_record,
};
use crate::handle::{Handle, HandleView};

verus! {

/// The four bytes that open a sealed engine: the letters of `yarn`.
pub open spec fn tag() -> Seq<u8> {
    seq![0x79u8, 0x61u8, 0x72u8, 0x6eu8]
}

/// A payload behind the tag.
pub open spec fn framed(payload: Seq<u8>) -> Seq<u8> {
    tag() + payload
}

/// What follows the tag, if the bytes begin with the tag.
pub open spec fn unframed(bytes: Seq<u8>) -> Option<Seq<u8>> {
    if bytes.len() >= 4 && bytes.subrange(0, 4) == tag() {
        Some(bytes.subrange(4, bytes.len() as int))
    } else {
        None
    }
}

/// What follows the tag of framed bytes is the payload.
pub proof fn unframed_framed(payload: Seq<u8>)
    ensures
        unframed(framed(payload)) == Some(payload),
{
    let bytes = framed(payload);
    assert(bytes.subrange(0, 4) =~= tag());
    assert(bytes.subrange(4, bytes.len() as int) =~= payload);
}

/// Blocks as sealed bytes: the tag, then the bytes that the codec gives
/// for the records of the blocks. There are none where the codec gives none.
pub open spec fn seal(blocks: Seq<BlockView>) -> Option<Seq<u8>> {
    match bincode_serialized(records_of(blocks)) {
        Some(payload) => Some(framed(payload)),
        None => None,
    }
}

/// The blocks that sealed bytes hold. There are none where the bytes do not
/// begin with the tag, the codec reads no records from what follows it, or
/// one of the records stands for no block.
pub open spec fn unseal(bytes: Seq<u8>) -> Option<Seq<BlockView>> {
    match unframed(bytes) {
        Some(payload) => match bincode_deserialized(payload) {
            Some(records) => blocks_of(records),
            None => None,
        },
        None => None,
    }
}

/// One byte of the tag.
pub fn tag_byte(i: usize) -> (b: u8)
    requires
        i < 4,
    ensures
        b == tag()[i as int],
{
    if i == 0 {
        0x79u8
    } else if i == 1 {
        0x61u8
    } else if i == 2 {
        0x72u8
    } else {
        0x6eu8
    }
}

/// Tells whether bytes begin with the tag.
pub fn begins_with_tag(bytes: &[u8]) -> (r: bool)
    ensures
        r == unframed(bytes@) is Some,
{
    if bytes.len() < 4 {
        return false;
    }
    let mut i: usize = 0;
    while i < 4
        invariant
            i <= 4,
            bytes@.len() >= 4,
            forall|k: int| 0 <= k < i ==> bytes@[k] == tag()[k],
        decreases 4 - i,
    {
        if bytes[i] != tag_byte(i) {
            return false;
        }
        i = i + 1;
    }
    proof {
        assert(bytes@.subrange(0, 4) =~= tag());
    }
    true
}

/// Puts the tag before a payload.
pub fn frame(payload: Vec<u8>) -> (bytes: Vec<u8>)
    ensures
        bytes@ == framed(payload@),
{
    let mut payload = payload;
    let mut bytes: Vec<u8> = Vec::new();
    let mut i: usize = 0;
    while i < 4
        invariant
            i <= 4,
            bytes@ == tag().subrange(0, i as int),
        decreases 4 - i,
    {
        bytes.push(tag_byte(i));
        i = i + 1;
    }
    bytes.append(&mut payload);
    bytes
}

/// What follows the tag, if the bytes begin with the tag.
pub fn unframe(bytes: &[u8]) -> (r: Option<&[u8]>)
    ensures
        match r {
            Some(payload) => unframed(bytes@) == Some(payload@),
            None => unframed(bytes@) is None,
        },
{
    if begins_with_tag(bytes) {
        Some(slice_subrange(bytes, 4, bytes.len()))
    } else {
        None
    }
}

/// The state of an engine.
pub struct YarnView {
    /// The slots in order, each empty or holding a block.
    pub slots: Seq<Option<BlockView>>,
    /// The reserved slots, the latest last.
    pub reserved: Seq<usize>,
    /// For the key of every mesh that could not be taken from its owners yet,
    /// the slot that is kept for it.
    pub pending: Map<usize, usize>,
    /// For a slot, the handle that the engine holds for it: an owner of a
    /// mesh that is awaited there, or of the mesh that was untied from it.
    pub handles: Map<usize, HandleView>,
}

impl YarnView {
    /// The state of a new engine.
    pub open spec fn empty() -> YarnView {
        YarnView { slots: Seq::empty(), reserved: Seq::empty(), pending: Map::empty(), handles: Map::empty() }
    }

    /// The state of an engine that holds the given blocks and nothing else.
    pub open spec fn hydrated(blocks: Seq<BlockView>) -> YarnView {
        YarnView {
            slots: Seq::new(blocks.len(), |i: int| Some(blocks[i])),
            reserved: Seq::empty(),
            pending: Map::empty(),
            handles: Map::empty(),
        }
    }

    /// The blocks in the slots, in order. It is meant for a state in which
    /// no slot is empty.
    pub open spec fn occupants(self) -> Seq<BlockView> {
        Seq::new(self.slots.len(), |i: int| self.slots[i]->0)
    }

    /// What holds of every engine. The slots can be counted. The reserved
    /// slots are slots of the sequence, in ascending order, empty and
    /// without a handle. A slot that is kept for a mesh is a slot of the
    /// sequence, empty and not reserved, it is kept for no other mesh, and
    /// if the engine holds a handle for it, it is a handle of that mesh. A
    /// slot that has a handle is a slot of the sequence and empty.
    pub open spec fn wf(self) -> bool {
        &&& self.slots.len() <= usize::MAX
        &&& forall|i: int|
            0 <= i < self.reserved.len() ==> {
                &&& (#[trigger] self.reserved[i]) < self.slots.len()
                &&& self.slots[self.reserved[i] as int] is None
                &&& !self.handles.contains_key(self.reserved[i])
            }
        &&& forall|i: int, j: int|
            0 <= i < j < self.reserved.len() ==> (#[trigger] self.reserved[i])
                < #[trigger] self.reserved[j]
        &&& forall|key: usize| #[trigger]
            self.pending.contains_key(key) ==> {
                &&& self.pending[key] < self.slots.len()
                &&& self.slots[self.pending[key] as int] is None
                &&& self.handles.contains_key(self.pending[key]) ==> self.handles[self.pending[key]].key
                    == key
            }
        &&& forall|key: usize, i: int|
            0 <= i < self.reserved.len() && #[trigger] self.pending.contains_key(key)
                ==> #[trigger] self.reserved[i] != self.pending[key]
        &&& forall|a: usize, b: usize|
            a != b && #[trigger] self.pending.contains_key(a) && #[trigger] self.pending.contains_key(
                b,
            ) ==> self.pending[a] != self.pending[b]
        &&& forall|i: usize| #[trigger]
            self.handles.contains_key(i) ==> {
                &&& i < self.slots.len()
                &&& self.slots[i as int] is None
            }
    }

    /// Some slot is empty.
    pub open spec fn entangled(self) -> bool {
        exists|i: int| 0 <= i < self.slots.len() && (#[trigger] self.slots[i]) is None
    }

    /// No slot holds a block.
    pub open spec fn drained(self) -> bool {
        forall|i: int| 0 <= i < self.slots.len() ==> (#[trigger] self.slots[i]) is None
    }

    /// The slot `i` holds a block and no slot before it does.
    pub open spec fn first_occupied(self, i: int) -> bool {
        &&& 0 <= i < self.slots.len()
        &&& self.slots[i] is Some
        &&& forall|j: int| 0 <= j < i ==> (#[trigger] self.slots[j]) is None
    }

    /// The first slot that holds a block, or the number of slots if there is
    /// none.
    pub open spec fn next(self) -> int {
        if self.drained() {
            self.slots.len() as int
        } else {
            choose|i: int| self.first_occupied(i)
        }
    }

    /// The state with one more slot, empty and reserved.
    pub open spec fn allocate(self) -> YarnView {
        YarnView {
            slots: self.slots.push(None),
            reserved: self.reserved.push(self.slots.len() as usize),
            ..self
        }
    }

    /// The slot that the next block goes to: the one reserved last, or a new
    /// one at the end if none is reserved.
    pub open spec fn target(self) -> int {
        if self.reserved.len() == 0 {
            self.slots.len() as int
        } else {
            self.reserved.last() as int
        }
    }

    /// The state with `block` in its target slot, which is no longer
    /// reserved.
    pub open spec fn tie_block(self, block: BlockView) -> YarnView {
        if self.reserved.len() == 0 {
            YarnView { slots: self.slots.push(Some(block)), ..self }
        } else {
            YarnView {
                slots: self.slots.update(self.reserved.last() as int, Some(block)),
                reserved: self.reserved.drop_last(),
                ..self
            }
        }
    }

    /// The state with the slot `i` emptied.
    pub open spec fn emptied(self, i: int) -> YarnView {
        YarnView { slots: self.slots.update(i, None), ..self }
    }

    /// The slot that stands for the mesh with this key: the one that is kept
    /// for it, or a new one at the end if none is.
    pub open spec fn slot_of(self, key: usize) -> int {
        if self.pending.contains_key(key) {
            self.pending[key] as int
        } else {
            self.slots.len() as int
        }
    }

    /// The owner from which the mesh is taken, if it can be: the engine's own
    /// where it holds one for the slot that is kept for the mesh, else the
    /// one that is handed in.
    pub open spec fn holder(self, handle: HandleView) -> HandleView {
        if self.pending.contains_key(handle.key) && self.handles.contains_key(
            self.pending[handle.key],
        ) {
            self.handles[self.pending[handle.key]]
        } else {
            handle
        }
    }

    /// The state after the engine gave its own owner of a mesh out of its
    /// hands: it holds no handle for the slot that is kept for the mesh.
    pub open spec fn claimed(self, key: usize) -> YarnView {
        if self.pending.contains_key(key) {
            YarnView { handles: self.handles.remove(self.pending[key]), ..self }
        } else {
            self
        }
    }

    /// The state after a mesh was taken from its last owner: its block
    /// stands in its slot, and nothing is kept for it any longer.
    pub open spec fn taken(self, key: usize, data: GeometryDataView) -> YarnView {
        let block = Some(BlockView::GeometryData(data));
        if self.pending.contains_key(key) {
            YarnView {
                slots: self.slots.update(self.pending[key] as int, block),
                pending: self.pending.remove(key),
                handles: self.handles.remove(self.pending[key]),
                ..self
            }
        } else {
            YarnView { slots: self.slots.push(block), ..self }
        }
    }

    /// The state after a mesh could not be taken from `holder` because it
    /// has other owners: an empty slot is kept for it, and the engine holds
    /// `holder` for the slot.
    pub open spec fn kept(self, holder: HandleView) -> YarnView {
        if self.pending.contains_key(holder.key) {
            YarnView { handles: self.handles.insert(self.pending[holder.key], holder), ..self }
        } else {
            YarnView {
                slots: self.slots.push(None),
                pending: self.pending.insert(holder.key, self.slots.len() as usize),
                handles: self.handles.insert(self.slots.len() as usize, holder),
                ..self
            }
        }
    }

    /// The state after the mesh of `handle` was tied and could be taken.
    pub open spec fn extracted(self, handle: HandleView) -> YarnView {
        self.taken(handle.key, self.holder(handle).data)
    }

    /// The state after the mesh of `handle` was tied and could not be taken.
    /// Where the engine held an owner of the mesh before, nothing changes.
    pub open spec fn retained(self, handle: HandleView) -> YarnView {
        self.kept(self.holder(handle))
    }

    /// Whether a handle can be had for the slot `index`: the engine holds
    /// one, or the slot holds the block of a mesh.
    pub open spec fn shareable(self, index: usize) -> bool {
        self.handles.contains_key(index) || (index < self.slots.len()
            && self.slots[index as int] matches Some(BlockView::GeometryData(_)))
    }

    /// The state after the mesh in the slot `index` was put under `handle`:
    /// the slot is empty and the engine holds the handle for it.
    pub open spec fn cached(self, index: usize, handle: HandleView) -> YarnView {
        YarnView {
            slots: self.slots.update(index as int, None),
            handles: self.handles.insert(index, handle),
            ..self
        }
    }

    /// Whether tying a shared mesh can lead from this state to `after`: the
    /// mesh was taken from its last owner, or it has other owners still.
    pub open spec fn shares(self, handle: HandleView, after: YarnView) -> bool {
        after == self.extracted(handle) || after == self.retained(handle)
    }

    /// Whether asking for an owner of the mesh in the slot `index` can give
    /// `handle` and lead from this state to `after`. Where the engine holds a
    /// handle for the slot, it gives that one and stays as it is. Where it
    /// holds none and the slot holds the block of a mesh, it puts that mesh
    /// under a handle, which it gives and holds from then on. Else it gives
    /// none and stays as it is.
    pub open spec fn lends(self, index: usize, handle: Option<HandleView>, after: YarnView) -> bool {
        if self.handles.contains_key(index) {
            handle == Some(self.handles[index]) && after == self
        } else if self.shareable(index) {
            &&& handle matches Some(h)
            &&& self.slots[index as int] == Some(BlockView::GeometryData(h.data))
            &&& after == self.cached(index, h)
        } else {
            handle is None && after == self
        }
    }

    /// While a slot is kept for a mesh, every owner of the mesh that is tied
    /// is led to that slot: where tying one owner of a mesh did not take the
    /// mesh, tying another owner of it returns the same slot.
    pub proof fn owners_share_slot(self, first: HandleView, second: HandleView)
        requires
            self.wf(),
            first.key == second.key,
        ensures
            self.retained(first).slot_of(second.key) == self.slot_of(first.key),
    {
    }

    /// Giving the holder out and recording what came of it leads to the
    /// same state as tying the mesh at once.
    pub proof fn claimed_then_settled(self, handle: HandleView)
        requires
            self.wf(),
        ensures
            self.holder(handle).key == handle.key,
            self.claimed(handle.key).slot_of(handle.key) == self.slot_of(handle.key),
            self.claimed(handle.key).taken(handle.key, self.holder(handle).data) == self.extracted(
                handle,
            ),
            self.claimed(handle.key).kept(self.holder(handle)) == self.retained(handle),
    {
        let key = handle.key;
        let mid = self.claimed(key);
        let holder = self.holder(handle);
        assert(mid.taken(key, holder.data).handles =~= self.extracted(handle).handles);
        assert(mid.kept(holder).handles =~= self.retained(handle).handles);
    }

    /// No slot is kept for two meshes.
    pub proof fn kept_slots_differ(self, a: usize, b: usize)
        requires
            self.wf(),
            self.pending.contains_key(a),
            self.pending.contains_key(b),
            a != b,
        ensures
            self.pending[a] != self.pending[b],
    {
    }

    /// The slot to which the owners of a mesh are led is a slot of the
    /// engine once an owner was tied.
    pub proof fn shared_slot_exists(self, handle: HandleView, after: YarnView)
        requires
            self.wf(),
            self.shares(handle, after),
        ensures
            0 <= self.slot_of(handle.key) < after.slots.len(),
    {
    }

    /// The slot that is kept for a mesh stays the same whatever else is done
    /// with the engine: a reservation, a block that is tied or untied, an
    /// owner of another mesh that is tied, a handle that is lent.
    pub proof fn kept_slot_is_stable(
        self,
        key: usize,
        block: BlockView,
        other: HandleView,
        index: usize,
    )
        requires
            self.wf(),
            self.pending.contains_key(key),
            other.key != key,
        ensures
            self.allocate().slot_of(key) == self.slot_of(key),
            self.tie_block(block).slot_of(key) == self.slot_of(key),
            self.emptied(index as int).slot_of(key) == self.slot_of(key),
            self.retained(other).slot_of(key) == self.slot_of(key),
            self.extracted(other).slot_of(key) == self.slot_of(key),
            self.cached(index, other).slot_of(key) == self.slot_of(key),
    {
    }

    /// The last owner of a mesh resolves what the first left open: in an
    /// engine without an empty slot, tying an owner of a mesh that has other
    /// owners leaves a slot empty, and tying the owner from whom the mesh is
    /// taken fills it, so that no slot is empty again.
    pub proof fn last_owner_resolves(self, first: HandleView, last: HandleView)
        requires
            self.wf(),
            !self.entangled(),
            first.key == last.key,
        ensures
            self.retained(first).entangled(),
            !self.retained(first).extracted(last).entangled(),
            self.retained(first).extracted(last).slots == self.slots.push(
                Some(BlockView::GeometryData(first.data)),
            ),
    {
        self.resolved_is_bare();
        let open = self.retained(first);
        let n = self.slots.len() as int;
        assert(open.slots[n] is None);
        let closed = open.extracted(last);
        assert(closed.slots =~= self.slots.push(Some(BlockView::GeometryData(first.data))));
        assert forall|i: int| 0 <= i < closed.slots.len() implies (#[trigger] closed.slots[i])
            is Some by {
            if i < n {
                assert(self.slots[i] is Some);
            }
        }
    }

    /// Every owner that is lent for one slot is an owner of one mesh: once
    /// the engine has lent a handle for a slot, it lends that handle for the
    /// slot as long as it holds it.
    pub proof fn lent_handles_alias(
        self,
        index: usize,
        first: HandleView,
        mid: YarnView,
        later: YarnView,
        second: Option<HandleView>,
        after: YarnView,
    )
        requires
            self.lends(index, Some(first), mid),
            later.handles.contains_key(index),
            later.handles[index] == mid.handles[index],
            later.lends(index, second, after),
        ensures
            second == Some(first),
            after == later,
    {
    }

    /// Untying blocks takes no handle from the engine, so that what was lent
    /// for a slot before is lent for it after.
    pub proof fn untying_keeps_handles(self, i: int, index: usize)
        requires
            self.handles.contains_key(index),
        ensures
            self.emptied(i).handles.contains_key(index),
            self.emptied(i).handles[index] == self.handles[index],
    {
    }

    /// An engine without an empty slot holds nothing but its blocks: no
    /// reservation, no slot kept for a mesh, and no handle.
    pub proof fn resolved_is_bare(self)
        requires
            self.wf(),
            !self.entangled(),
        ensures
            self == YarnView::hydrated(self.occupants()),
    {
        if self.reserved.len() > 0 {
            assert(self.slots[self.reserved[0] as int] is None);
        }
        assert(self.reserved =~= Seq::empty());
        assert forall|key: usize| !self.pending.contains_key(key) by {
            if self.pending.contains_key(key) {
                assert(self.handles.contains_key(self.pending[key]));
                assert(self.slots[self.pending[key] as int] is None);
            }
        }
        assert(self.pending =~= Map::empty());
        assert forall|i: usize| !self.handles.contains_key(i) by {
            if self.handles.contains_key(i) {
                assert(self.slots[i as int] is None);
            }
        }
        assert(self.handles =~= Map::empty());
        assert forall|i: int| 0 <= i < self.slots.len() implies #[trigger] self.slots[i] == Some(
            self.occupants()[i],
        ) by {
            assert(self.slots[i] is Some);
        }
        assert(self.slots =~= YarnView::hydrated(self.occupants()).slots);
    }

    /// An engine that holds blocks and nothing else is in a state that an
    /// engine can reach, has no empty slot, and seals to the bytes of those
    /// blocks.
    pub proof fn hydrated_is_resolved(blocks: Seq<BlockView>)
        requires
            blocks.len() <= usize::MAX,
        ensures
            YarnView::hydrated(blocks).wf(),
            !YarnView::hydrated(blocks).entangled(),
            YarnView::hydrated(blocks).occupants() == blocks,
    {
        let v = YarnView::hydrated(blocks);
        assert(v.occupants() =~= blocks);
    }

    /// If a slot holds a block, `next()` is the first that does.
    pub proof fn next_is_first(self)
        requires
            !self.drained(),
        ensures
            self.first_occupied(self.next()),
        decreases self.slots.len(),
    {
        self.first_exists(self.slots.len() as int);
    }

    /// Among the first `n` slots, if one holds a block, one is the first to.
    proof fn first_exists(self, n: int)
        requires
            0 <= n <= self.slots.len(),
        ensures
            (forall|j: int| 0 <= j < n ==> (#[trigger] self.slots[j]) is None) || exists|i: int|
                i < n && self.first_occupied(i),
        decreases n,
    {
        if n > 0 {
            self.first_exists(n - 1);
            if forall|j: int| 0 <= j < n - 1 ==> (#[trigger] self.slots[j]) is None {
                if self.slots[n - 1] is Some {
                    assert(self.first_occupied(n - 1));
                }
            }
        }
    }

    /// There is at most one first slot that holds a block.
    pub proof fn first_is_next(self, i: int)
        requires
            self.first_occupied(i),
        ensures
            !self.drained(),
            self.next() == i,
    {
        self.next_is_first();
        let n = self.next();
        if n < i {
            assert(self.slots[n] is None);
        }
        if i < n {
            assert(self.slots[i] is None);
        }
    }
}

/// The engine.
#[derive(Debug)]
pub struct Yarn {
    blocks: Vec<Option<Block>>,
    rcs: HashMap<usize, Handle>,
    indices: HashMap<usize, usize>,
    allocated: Vec<usize>,
}

/// What a handle holds, if there is one.
pub open spec fn handle_view(handle: Option<Handle>) -> Option<HandleView> {
    match handle {
        Some(h) => Some(h@),
        None => None,
    }
}

/// What a slot holds.
pub open spec fn slot_view(slot: Option<Block>) -> Option<BlockView> {
    match slot {
        Some(block) => Some(block@),
        None => None,
    }
}

impl View for Yarn {
    type V = YarnView;

    closed spec fn view(&self) -> YarnView {
        YarnView {
            slots: Seq::new(self.blocks@.len(), |i: int| slot_view(self.blocks@[i])),
            reserved: self.allocated@,
            pending: self.indices@,
            handles: self.rcs@.map_values(|h: Handle| h@),
        }
    }
}

impl Yarn {
    /// Whether the engine is in a state that an engine can reach.
    pub open spec fn wf(&self) -> bool {
        self@.wf()
    }

    /// A new engine, without slots.
    pub fn new() -> (yarn: Yarn)
        ensures
            yarn.wf(),
            yarn@ == YarnView::empty(),
    {
        let yarn = Yarn {
            blocks: Vec::new(),
            rcs: HashMap::new(),
            indices: HashMap::new(),
            allocated: Vec::new(),
        };
        proof {
            assert(yarn@.slots =~= Seq::empty());
            assert(yarn@.handles =~= Map::empty());
        }
        yarn
    }

    /// An engine that holds the given blocks and nothing else.
    pub fn from_blocks(blocks: Vec<Block>) -> (yarn: Yarn)
        ensures
            yarn.wf(),
            yarn@ == YarnView::hydrated(block_views(blocks@)),
    {
        let ghost all = block_views(blocks@);
        let mut yarn = Yarn::new();
        proof {
            assert(yarn@.slots =~= YarnView::hydrated(all.subrange(0, 0)).slots);
        }
        for block in it: blocks
            invariant
                it.seq() == blocks@,
                all == block_views(blocks@),
                yarn.wf(),
                yarn@ == YarnView::hydrated(all.subrange(0, it.index() as int)),
        {
            yarn.tie_block(block);
            proof {
                assert(block@ == all[it.index() as int]);
                assert(yarn@.slots =~= YarnView::hydrated(
                    all.subrange(0, it.index() + 1),
                ).slots);
            }
        }
        proof {
            assert(all.subrange(0, all.len() as int) =~= all);
        }
        yarn
    }

    /// The records of the blocks, in order, unless a slot is empty.
    pub fn records(&self) -> (r: Option<Vec<Record>>)
        requires
            self.wf(),
        ensures
            r is Some <==> !self@.entangled(),
            r matches Some(records) ==> records.deep_view() == records_of(self@.occupants()),
            r is Some ==> all_valid(self@.occupants()),
    {
        let mut records: Vec<Record> = Vec::new();
        let mut i: usize = 0;
        while i < self.blocks.len()
            invariant
                i <= self.blocks.len(),
                records@.len() == i,
                forall|k: int|
                    0 <= k < i ==> (#[trigger] self@.slots[k]) is Some && self@.slots[k]->0.valid(),
                forall|k: int|
                    0 <= k < i ==> (#[trigger] records@[k]).deep_view() == record_of(
                        self@.slots[k]->0,
                    ),
            decreases self.blocks.len() - i,
        {
            match &self.blocks[i] {
                Some(block) => {
                    records.push(to_record(block));
                },
                None => {
                    assert(self@.slots[i as int] is None);
                    return None;
                },
            }
            i = i + 1;
        }
        Some(records)
    }

    /// An engine from sealed bytes: every slot holds one of the blocks that
    /// the bytes hold, in order. There is none where the bytes hold no
    /// blocks. From the bytes that sealing gave for blocks, the engine has
    /// those blocks.
    pub fn from_bytes(bytes: &[u8]) -> (r: Option<Yarn>)
        ensures
            match r {
                Some(yarn) => {
                    &&& yarn.wf()
                    &&& unseal(bytes@) is Some
                    &&& yarn@ == YarnView::hydrated(unseal(bytes@)->0)
                },
                None => unseal(bytes@) is None,
            },
            forall|blocks: Seq<BlockView>|
                all_valid(blocks) && #[trigger] seal(blocks) == Some(bytes@) ==> r is Some
                    && r->0@ == YarnView::hydrated(blocks),
    {
        proof {
            assert forall|blocks: Seq<BlockView>|
                all_valid(blocks) && #[trigger] seal(blocks) == Some(bytes@) implies unframed(
                bytes@,
            ) == bincode_serialized(records_of(blocks)) by {
                unframed_framed(bincode_serialized(records_of(blocks))->0);
            }
        }
        let payload = match unframe(bytes) {
            Some(payload) => payload,
            None => {
                return None;
            },
        };
        let records = match deserialize(payload) {
            Some(records) => records,
            None => {
                return None;
            },
        };
        proof {
            assert forall|blocks: Seq<BlockView>|
                all_valid(blocks) && #[trigger] seal(blocks) == Some(bytes@) implies unseal(bytes@)
                == Some(blocks) by {
                records_stand_for_blocks(blocks);
            }
        }
        match from_records(records) {
            Some(blocks) => Some(Yarn::from_blocks(blocks)),
            None => None,
        }
    }

    /// Seals the engine into bytes. An engine with an empty slot is not
    /// sealed, nor one for whose blocks the codec gives no bytes: it is
    /// handed back as it is.
    pub fn into_bytes(self) -> (r: Result<Vec<u8>, Yarn>)
        requires
            self.wf(),
        ensures
            match r {
                Ok(bytes) => {
                    &&& !self@.entangled()
                    &&& all_valid(self@.occupants())
                    &&& seal(self@.occupants()) == Some(bytes@)
                },
                Err(yarn) => {
                    &&& yarn == self
                    &&& self@.entangled() || seal(self@.occupants()) is None
                },
            },
    {
        let records = match self.records() {
            Some(records) => records,
            None => {
                return Err(self);
            },
        };
        match serialize(&records) {
            Some(payload) => Ok(frame(payload)),
            None => Err(self),
        }
    }

    /// The number of slots.
    pub fn len_blocks(&self) -> (n: usize)
        ensures
            n == self@.slots.len(),
    {
        self.blocks.len()
    }

    /// Tells whether a slot is empty: a mesh is awaited, a reservation was
    /// not used, or a block was untied.
    pub fn is_entangled(&self) -> (r: bool)
        ensures
            r == self@.entangled(),
    {
        let mut i: usize = 0;
        while i < self.blocks.len()
            invariant
                i <= self.blocks.len(),
                forall|j: int| 0 <= j < i ==> (#[trigger] self@.slots[j]) is Some,
            decreases self.blocks.len() - i,
        {
            if self.blocks[i].is_none() {
                assert(self@.slots[i as int] is None);
                return true;
            }
            i = i + 1;
        }
        false
    }

    /// The place of the first slot that holds a block.
    fn first(&self) -> (r: Option<usize>)
        ensures
            match r {
                Some(i) => self@.first_occupied(i as int),
                None => self@.drained(),
            },
    {
        let mut i: usize = 0;
        while i < self.blocks.len()
            invariant
                i <= self.blocks.len(),
                forall|j: int| 0 <= j < i ==> (#[trigger] self@.slots[j]) is None,
            decreases self.blocks.len() - i,
        {
            if self.blocks[i].is_some() {
                return Some(i);
            }
            i = i + 1;
        }
        None
    }

    /// The kind of the block that is untied next, if a slot holds a block.
    /// The engine is left as it is.
    pub fn tied_type_id(&self) -> (r: Option<BlockKind>)
        ensures
            r == (if self@.drained() {
                None
            } else {
                Some(self@.slots[self@.next()]->0.kind())
            }),
    {
        match self.first() {
            Some(i) => {
                match &self.blocks[i] {
                    Some(block) => Some(block.kind()),
                    None => None,
                }
            },
            None => None,
        }
    }

    /// Adds an empty slot at the end and reserves it for the block that is
    /// tied next.
    pub fn allocate_block(&mut self)
        requires
            old(self).wf(),
        ensures
            final(self).wf(),
            final(self)@ == old(self)@.allocate(),
    {
        let index = self.blocks.len();
        self.allocated.push(index);
        self.blocks.push(None);
        proof {
            assert(self@.slots =~= old(self)@.slots.push(None));
            assert(self@.handles =~= old(self)@.handles);
            assert(self@.slots.len() == self.blocks.len());
        }
    }

    /// Puts a block into the slot that was reserved last, or into a new slot
    /// at the end if none is reserved, and tells which slot it was.
    pub fn tie_block(&mut self, block: Block) -> (index: usize)
        requires
            old(self).wf(),
        ensures
            final(self).wf(),
            index == old(self)@.target(),
            final(self)@ == old(self)@.tie_block(block@),
    {
        match self.allocated.pop() {
            None => {
                let index = self.blocks.len();
                self.blocks.push(Some(block));
                proof {
                    assert(self@.slots =~= old(self)@.slots.push(Some(block@)));
                    assert(self@.handles =~= old(self)@.handles);
                    assert(self@.slots.len() == self.blocks.len());
                    assert(self@.reserved =~= old(self)@.reserved);
                }
                index
            },
            Some(index) => {
                assert(old(self)@.reserved[old(self)@.reserved.len() - 1] == index);
                self.blocks[index] = Some(block);
                proof {
                    assert(self@.slots =~= old(self)@.slots.update(index as int, Some(block@)));
                    assert(self@.handles =~= old(self)@.handles);
                    assert(self@.reserved =~= old(self)@.reserved.drop_last());
                }
                index
            },
        }
    }

    /// Gives out the owner from which a mesh is taken, if it can be. Where
    /// the engine holds an owner for the slot that is kept for the mesh, it
    /// gives that one out, and the one handed in gives its share up; else it
    /// gives back the one handed in.
    pub fn claim(&mut self, handle: Handle) -> (holder: Handle)
        requires
            old(self).wf(),
        ensures
            final(self).wf(),
            holder@ == old(self)@.holder(handle@),
            final(self)@ == old(self)@.claimed(handle@.key),
    {
        let key = handle.key();
        let kept = match self.indices.get(&key) {
            Some(index) => Some(*index),
            None => None,
        };
        match kept {
            Some(index) => match self.rcs.remove(&index) {
                Some(held) => {
                    handle.release();
                    proof {
                        assert(self@.slots =~= old(self)@.slots);
                        assert(self@.handles =~= old(self)@.handles.remove(index));
                    }
                    held
                },
                None => {
                    proof {
                        assert(self@.slots =~= old(self)@.slots);
                        assert(self@.handles =~= old(self)@.handles.remove(index));
                    }
                    handle
                },
            },
            None => handle,
        }
    }

    /// Records what came of trying to take a mesh from an owner. A mesh that
    /// was taken is put as a block into the slot that is kept for the mesh
    /// with the key `key`, or into a new slot at the end if none is kept,
    /// and nothing is kept for the mesh any longer. Where the owner came
    /// back, the engine keeps a slot for its mesh, a new and empty one at the
    /// end if none was kept, and holds the owner for the slot. The slot is
    /// returned.
    pub fn settle(&mut self, key: usize, outcome: Result<GeometryData, Handle>) -> (index: usize)
        requires
            old(self).wf(),
        ensures
            final(self).wf(),
            match outcome {
                Ok(data) => {
                    &&& index == old(self)@.slot_of(key)
                    &&& final(self)@ == old(self)@.taken(key, data@)
                },
                Err(holder) => {
                    &&& index == old(self)@.slot_of(holder@.key)
                    &&& final(self)@ == old(self)@.kept(holder@)
                },
            },
    {
        match outcome {
            Ok(data) => {
                let block = Block::of_geometry(data);
                match self.indices.remove(&key) {
                    Some(index) => {
                        self.rcs.remove(&index);
                        self.blocks[index] = Some(block);
                        proof {
                            assert(self@.slots =~= old(self)@.taken(key, data@).slots);
                            assert(self@.handles =~= old(self)@.taken(key, data@).handles);
                            assert(self@.pending =~= old(self)@.taken(key, data@).pending);
                        }
                        index
                    },
                    None => {
                        let index = self.blocks.len();
                        self.blocks.push(Some(block));
                        proof {
                            assert(self@.slots =~= old(self)@.taken(key, data@).slots);
                            assert(self@.handles =~= old(self)@.handles);
                            assert(self@.pending =~= old(self)@.pending);
                            assert(self@.slots.len() == self.blocks.len());
                        }
                        index
                    },
                }
            },
            Err(holder) => {
                let key = holder.key();
                let kept = match self.indices.get(&key) {
                    Some(index) => Some(*index),
                    None => None,
                };
                match kept {
                    Some(index) => {
                        self.rcs.insert(index, holder);
                        proof {
                            assert(self@.slots =~= old(self)@.slots);
                            assert(self@.handles =~= old(self)@.kept(holder@).handles);
                        }
                        index
                    },
                    None => {
                        let index = self.blocks.len();
                        self.blocks.push(None);
                        self.indices.insert(key, index);
                        self.rcs.insert(index, holder);
                        proof {
                            assert(self@.slots =~= old(self)@.kept(holder@).slots);
                            assert(self@.handles =~= old(self)@.kept(holder@).handles);
                            assert(self@.slots.len() == self.blocks.len());
                        }
                        index
                    },
                }
            },
        }
    }

    /// Ties a shared mesh. All owners of one mesh are led to one slot, which
    /// is returned. While the mesh has other owners the slot stays empty and
    /// the engine keeps an owner of its own; it replaces the one handed in
    /// when the mesh is tied again. Once the engine's owner or the one handed
    /// in is the last, the mesh is taken from it and its block fills the slot.
    pub fn tie_rc(&mut self, handle: Handle) -> (index: usize)
        requires
            old(self).wf(),
        ensures
            final(self).wf(),
            index == old(self)@.slot_of(handle@.key),
            old(self)@.shares(handle@, final(self)@),
    {
        let key = handle.key();
        let holder = self.claim(handle);
        let outcome = holder.try_unwrap();
        proof {
            old(self)@.claimed_then_settled(handle@);
        }
        self.settle(key, outcome)
    }

    /// Gives an owner of the mesh that stands in the slot `index`. The first
    /// call takes the block out of the slot, puts the mesh under a new handle
    /// and keeps an owner; every later call gives one more owner of the same
    /// mesh. There is none where the engine holds no handle for the slot and
    /// the slot is out of range, is empty, or holds the block of an object;
    /// the engine is then left as it is.
    pub fn untie_rc(&mut self, index: usize) -> (r: Option<Handle>)
        requires
            old(self).wf(),
        ensures
            final(self).wf(),
            old(self)@.lends(index, handle_view(r), final(self)@),
    {
        match self.rcs.get(&index) {
            Some(handle) => {
                return Some(handle.clone());
            },
            None => {},
        }
        if index >= self.blocks.len() {
            return None;
        }
        let found = match &self.blocks[index] {
            Some(block) => block.kind() == BlockKind::GeometryData,
            None => false,
        };
        if !found {
            return None;
        }
        match self.blocks[index].take() {
            Some(block) => {
                match block.into_geometry() {
                    Some(data) => {
                        let handle = Handle::new(data);
                        self.rcs.insert(index, handle.clone());
                        proof {
                            assert(self@.slots =~= old(self)@.cached(index, handle@).slots);
                            assert(self@.handles =~= old(self)@.cached(index, handle@).handles);
                        }
                        Some(handle)
                    },
                    None => None,
                }
            },
            None => None,
        }
    }

    /// Takes the block out of the first slot that holds one.
    pub fn untie_block(&mut self) -> (r: Option<Block>)
        requires
            old(self).wf(),
        ensures
            final(self).wf(),
            match r {
                Some(block) => {
                    &&& !old(self)@.drained()
                    &&& old(self)@.slots[old(self)@.next()] == Some(block@)
                    &&& final(self)@ == old(self)@.emptied(old(self)@.next())
                },
                None => old(self)@.drained() && final(self)@ == old(self)@,
            },
    {
        match self.first() {
            Some(i) => {
                let slot = self.blocks[i].take();
                proof {
                    assert(self@.slots =~= old(self)@.slots.update(i as int, None));
                    assert(self@.handles =~= old(self)@.handles);
                }
                slot
            },
            None => None,
        }
    }
}

/// What can be flattened into a block and built from one again.
pub trait Tie: Sized {
    /// The kind of the blocks that stand for values of this type.
    spec fn kind() -> BlockKind;

    /// Whether flattening this value in the state `before` can give `block`
    /// and leave the engine in the state `after`.
    spec fn decomposes(self, before: YarnView, block: BlockView, after: YarnView) -> bool;

    /// Whether building a value from `block` in the state `before` can give
    /// `value` and leave the engine in the state `after`.
    spec fn recomposes(block: BlockView, before: YarnView, value: Option<Self>, after: YarnView) -> bool;

    /// The kind of the blocks that stand for values of this type.
    fn block_kind() -> (k: BlockKind)
        ensures
            k == Self::kind(),
    ;

    /// Flattens the value: hands what it owns to the engine, and returns the
    /// block that stands for the value itself.
    fn into_block(self, yarn: &mut Yarn) -> (block: Block)
        requires
            old(yarn).wf(),
        ensures
            final(yarn).wf(),
            block@.kind() == Self::kind(),
            self.decomposes(old(yarn)@, block@, final(yarn)@),
    ;

    /// Builds a value from its block, and what the value owns from the
    /// engine. There is no value where the block is of another kind or
    /// what the value owns cannot be had.
    fn from_block(block: Block, yarn: &mut Yarn) -> (r: Option<Self>)
        requires
            old(yarn).wf(),
        ensures
            final(yarn).wf(),
            Self::recomposes(block@, old(yarn)@, r, final(yarn)@),
    ;

    /// Ties the value: flattens it and puts its block into the engine.
    /// Returns the slot of the block.
    fn tie(self, yarn: &mut Yarn) -> (index: usize)
        requires
            old(yarn).wf(),
        ensures
            final(yarn).wf(),
            exists|block: BlockView, mid: YarnView|
                {
                    &&& #[trigger] self.decomposes(old(yarn)@, block, mid)
                    &&& block.kind() == Self::kind()
                    &&& index == mid.target()
                    &&& final(yarn)@ == mid.tie_block(block)
                },
    {
        let block = self.into_block(yarn);
        yarn.tie_block(block)
    }

    /// Unties a value of this type: takes the next block out of the engine
    /// and builds the value from it. Where no slot holds a block, or the next
    /// block is of another kind, there is no value and the engine is left as
    /// it is.
    fn untie(yarn: &mut Yarn) -> (r: Option<Self>)
        requires
            old(yarn).wf(),
        ensures
            final(yarn).wf(),
            if old(yarn)@.drained() || old(yarn)@.slots[old(yarn)@.next()]->0.kind() != Self::kind() {
                r is None && final(yarn)@ == old(yarn)@
            } else {
                Self::recomposes(
                    old(yarn)@.slots[old(yarn)@.next()]->0,
                    old(yarn)@.emptied(old(yarn)@.next()),
                    r,
                    final(yarn)@,
                )
            },
    {
        match yarn.tied_type_id() {
            Some(kind) => {
                if kind != Self::block_kind() {
                    return None;
                }
            },
            None => {
                return None;
            },
        }
        match yarn.untie_block() {
            Some(block) => Self::from_block(block, yarn),
            None => None,
        }
    }
}

impl Tie for GeometryData {
    open spec fn kind() -> BlockKind {
        BlockKind::GeometryData
    }

    /// The block holds the mesh, and the engine is left as it is.
    open spec fn decomposes(self, before: YarnView, block: BlockView, after: YarnView) -> bool {
        block == BlockView::GeometryData(self@) && after == before
    }

    /// The mesh of the block, if it is the block of a mesh; the engine is
    /// left as it is.
    open spec fn recomposes(
        block: BlockView,
        before: YarnView,
        value: Option<GeometryData>,
        after: YarnView,
    ) -> bool {
        &&& after == before
        &&& match block {
            BlockView::GeometryData(data) => value matches Some(v) && v@ == data,
            BlockView::Object(_) => value is None,
        }
    }

    fn block_kind() -> (k: BlockKind) {
        BlockKind::GeometryData
    }

    fn into_block(self, yarn: &mut Yarn) -> (block: Block) {
        Block::of_geometry(self)
    }

    fn from_block(block: Block, yarn: &mut Yarn) -> (r: Option<GeometryData>) {
        block.into_geometry()
    }
}

} // verus!
