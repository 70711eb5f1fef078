//! An entity that owns a share of a mesh.

use vstd::prelude::*;
use crate::geometry::GeometryData;
use crate::block::{Block, BlockKind, BlockView};
use crate::handle::{Handle, HandleView};
use crate::yarn::{Tie, Yarn, YarnView};

verus! {

/// What the block of an object holds: the slot in which its mesh stands.
#[derive(Debug)]
pub struct BlockObject {
    pub geometry_index: usize,
}

/// An entity with a mesh that it may share with other objects.
#[derive(Debug)]
pub struct Object {
    geometry: Handle,
}

impl View for Object {
    type V = HandleView;

    closed spec fn view(&self) -> HandleView {
        self.geometry@
    }
}

impl Object {
    /// Makes an object that is one of the owners of a mesh.
    pub fn new(geometry: Handle) -> (object: Object)
        ensures
            object@ == geometry@,
    {
        Object { geometry }
    }

    /// The mesh.
    pub fn geometry(&self) -> (data: &GeometryData)
        ensures
            data@ == self@.data,
    {
        self.geometry.get()
    }

    /// The handle by which the object owns its mesh.
    pub fn handle(&self) -> (handle: &Handle)
        ensures
            handle@ == self@,
    {
        &self.geometry
    }
}

/// What an object holds, if there is one.
pub open spec fn object_view(object: Option<Object>) -> Option<HandleView> {
    match object {
        Some(o) => Some(o@),
        None => None,
    }
}

impl Tie for Object {
    open spec fn kind() -> BlockKind {
        BlockKind::Object
    }

    /// A slot is reserved for the object, then its mesh is tied; the block
    /// holds the slot of the mesh.
    open spec fn decomposes(self, before: YarnView, block: BlockView, after: YarnView) -> bool {
        let reserved = before.allocate();
        &&& block == BlockView::Object(reserved.slot_of(self@.key) as usize)
        &&& reserved.shares(self@, after)
    }

    /// The object owns what the engine lends for the slot that the block
    /// names. There is no object where the engine lends nothing, or the
    /// block is not the block of an object.
    open spec fn recomposes(
        block: BlockView,
        before: YarnView,
        value: Option<Object>,
        after: YarnView,
    ) -> bool {
        match block {
            BlockView::Object(index) => before.lends(index, object_view(value), after),
            BlockView::GeometryData(_) => value is None && after == before,
        }
    }

    fn block_kind() -> (k: BlockKind) {
        BlockKind::Object
    }

    fn into_block(self, yarn: &mut Yarn) -> (block: Block) {
        yarn.allocate_block();
        let geometry_index = yarn.tie_rc(self.geometry);
        Block::of_object(geometry_index)
    }

    fn from_block(block: Block, yarn: &mut Yarn) -> (r: Option<Object>) {
        match block.geometry_index() {
            Some(geometry_index) => {
                match yarn.untie_rc(geometry_index) {
                    Some(geometry) => Some(Object { geometry }),
                    None => None,
                }
            },
            None => None,
        }
    }
}

/// An object stands before the mesh that is tied for it: where no slot was
/// kept for the mesh, the block of the object goes to the first new slot and
/// names the second.
pub proof fn object_stands_before_mesh(
    start: YarnView,
    object: Object,
    block: BlockView,
    after: YarnView,
)
    requires
        start.wf(),
        start.slots.len() < usize::MAX,
        !start.pending.contains_key(object@.key),
        object.decomposes(start, block, after),
    ensures
        after.target() == start.slots.len(),
        block == BlockView::Object((start.slots.len() + 1) as usize),
        after.slots.len() == start.slots.len() + 2,
{
    let reserved = start.allocate();
    assert(reserved.reserved.last() == start.slots.len());
}

/// Two objects that own one mesh name one slot for it. Where the mesh was
/// not taken when the first object was tied, as it is not while the second
/// object owns it too, the blocks of both objects hold the same slot,
/// whatever was reserved or tied in between.
pub proof fn objects_share_slot(
    start: YarnView,
    first: Object,
    second: Object,
    first_block: BlockView,
    between: YarnView,
    second_block: BlockView,
    end: YarnView,
)
    requires
        start.wf(),
        first@.key == second@.key,
        first.decomposes(start, first_block, start.allocate().retained(first@)),
        between.pending.contains_key(first@.key),
        between.pending[first@.key] == start.allocate().retained(first@).pending[first@.key],
        second.decomposes(between, second_block, end),
    ensures
        first_block is Object,
        second_block == first_block,
{
}

/// Two objects that are built from blocks that name one slot own one mesh:
/// as long as the engine holds the handle that it lent to the first, the
/// second is lent the same.
pub proof fn objects_share_mesh(
    start: YarnView,
    index: usize,
    first: Object,
    mid: YarnView,
    later: YarnView,
    second: Option<Object>,
    end: YarnView,
)
    requires
        Object::recomposes(BlockView::Object(index), start, Some(first), mid),
        later.handles.contains_key(index),
        later.handles[index] == mid.handles[index],
        Object::recomposes(BlockView::Object(index), later, second, end),
    ensures
        second is Some,
        second->0@ == first@,
        end == later,
{
    start.lent_handles_alias(index, first@, mid, later, object_view(second), end);
}

} // verus!
