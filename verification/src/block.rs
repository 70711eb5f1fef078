//! The unit of storage: one block for every value that is flattened.

use vstd::prelude::*;
use crate::geometry::{GeometryData, GeometryDataView};
use crate::object::BlockObject;

verus! {

/// The kinds of value that a block can stand for.
#[derive(Clone, Copy, Debug, PartialEq, Eq, Structural)]
pub enum BlockKind {
    GeometryData,
    Object,
}

/// What a block holds.
#[derive(Debug)]
pub enum BlockInner {
    GeometryData(GeometryData),
    Object(BlockObject),
}

/// One flattened value.
#[derive(Debug)]
pub struct Block(pub(crate) BlockInner);

/// What a block holds: a mesh, or for an object the slot of its mesh.
pub enum BlockView {
    GeometryData(GeometryDataView),
    Object(usize),
}

impl BlockView {
    /// The kind of value that the block stands for.
    pub open spec fn kind(self) -> BlockKind {
        match self {
            BlockView::GeometryData(_) => BlockKind::GeometryData,
            BlockView::Object(_) => BlockKind::Object,
        }
    }

    /// A mesh in the block is valid.
    pub open spec fn valid(self) -> bool {
        match self {
            BlockView::GeometryData(data) => data.valid(),
            BlockView::Object(_) => true,
        }
    }
}

impl View for Block {
    type V = BlockView;

    closed spec fn view(&self) -> BlockView {
        match self.0 {
            BlockInner::GeometryData(data) => BlockView::GeometryData(data@),
            BlockInner::Object(object) => BlockView::Object(object.geometry_index),
        }
    }
}

impl Block {
    /// The block of a mesh.
    pub fn of_geometry(data: GeometryData) -> (block: Block)
        ensures
            block@ == BlockView::GeometryData(data@),
    {
        Block(BlockInner::GeometryData(data))
    }

    /// The block of an object whose mesh stands in the slot `geometry_index`.
    pub fn of_object(geometry_index: usize) -> (block: Block)
        ensures
            block@ == BlockView::Object(geometry_index),
    {
        Block(BlockInner::Object(BlockObject { geometry_index }))
    }

    /// The mesh in the block, if it is the block of a mesh.
    pub fn geometry(&self) -> (r: Option<&GeometryData>)
        ensures
            match self@ {
                BlockView::GeometryData(data) => r matches Some(d) && d@ == data,
                BlockView::Object(_) => r is None,
            },
    {
        match &self.0 {
            BlockInner::GeometryData(data) => Some(data),
            BlockInner::Object(_) => None,
        }
    }

    /// The mesh of the block, if it is the block of a mesh.
    pub fn into_geometry(self) -> (r: Option<GeometryData>)
        ensures
            match self@ {
                BlockView::GeometryData(data) => r matches Some(d) && d@ == data,
                BlockView::Object(_) => r is None,
            },
    {
        match self.0 {
            BlockInner::GeometryData(data) => Some(data),
            BlockInner::Object(_) => None,
        }
    }

    /// The slot of the mesh, if the block is the block of an object.
    pub fn geometry_index(&self) -> (r: Option<usize>)
        ensures
            match self@ {
                BlockView::GeometryData(_) => r is None,
                BlockView::Object(index) => r == Some(index),
            },
    {
        match &self.0 {
            BlockInner::GeometryData(_) => None,
            BlockInner::Object(object) => Some(object.geometry_index),
        }
    }

    /// The kind of value that the block stands for.
    pub fn kind(&self) -> (k: BlockKind)
        ensures
            k == self@.kind(),
    {
        match &self.0 {
            BlockInner::GeometryData(_) => BlockKind::GeometryData,
            BlockInner::Object(_) => BlockKind::Object,
        }
    }
}

} // verus!
