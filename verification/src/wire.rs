//! Blocks as records, the form in which they are written and read.
//!
//! A record has a field for everything that a block of any kind can hold.
//! The fields that the kind of a block does not use are left empty, and a
//! record that fills one of them stands for no block.

use vstd::prelude::*;
use vstd::slice::slice_to_vec;
use crate::block::{Block, BlockView};
use crate::codec::{Record, RecordView};
use crate::geometry::{
    ExpandedView, Geometry, GeometryCompressed, GeometryData, GeometryDataView, GeometryExpanded,
    GeometryView,
};

verus! {

/// The kind of the record of an indexed mesh.
pub const INDEXED: u32 = 0;

/// The kind of the record of a compressed mesh.
pub const COMPRESSED: u32 = 1;

/// The kind of the record of an expanded mesh.
pub const EXPANDED: u32 = 2;

/// The kind of the record of an object.
pub const OBJECT: u32 = 3;

/// Index pairs as they are written.
pub open spec fn widened(pairs: Seq<(usize, usize)>) -> Seq<(u64, u64)> {
    Seq::new(pairs.len(), |k: int| (pairs[k].0 as u64, pairs[k].1 as u64))
}

/// Whether pairs that were read are index pairs on this machine.
pub open spec fn fits(pairs: Seq<(u64, u64)>) -> bool {
    forall|k: int| 0 <= k < pairs.len() ==> (#[trigger] pairs[k]).0 <= usize::MAX && pairs[k].1 <= usize::MAX
}

/// Pairs that were read as index pairs.
pub open spec fn narrowed(pairs: Seq<(u64, u64)>) -> Seq<(usize, usize)> {
    Seq::new(pairs.len(), |k: int| (pairs[k].0 as usize, pairs[k].1 as usize))
}

/// The record of an indexed mesh.
pub open spec fn indexed_record(g: GeometryView) -> RecordView {
    (INDEXED, 0u64, g.vertices, g.uvs, widened(g.indices), Seq::empty())
}

/// The record of a block.
pub open spec fn record_of(block: BlockView) -> RecordView {
    match block {
        BlockView::GeometryData(GeometryDataView::Geometry(g)) => indexed_record(g),
        BlockView::GeometryData(GeometryDataView::GeometryCompressed(data)) => (
            COMPRESSED,
            0u64,
            Seq::empty(),
            Seq::empty(),
            Seq::empty(),
            data,
        ),
        BlockView::GeometryData(GeometryDataView::GeometryExpanded(e)) => (
            EXPANDED,
            0u64,
            e.vertices,
            e.uvs,
            Seq::empty(),
            Seq::empty(),
        ),
        BlockView::Object(index) => (
            OBJECT,
            index as u64,
            Seq::empty(),
            Seq::empty(),
            Seq::empty(),
            Seq::empty(),
        ),
    }
}

/// The block that a record stands for. There is none where the kind is
/// unknown, a field that the kind does not use is filled, or the mesh is not
/// valid.
pub open spec fn block_of(record: RecordView) -> Option<BlockView> {
    let (kind, index, vertices, uvs, indices, data) = record;
    if kind == INDEXED {
        let g = GeometryView { vertices, uvs, indices: narrowed(indices) };
        if index == 0 && data.len() == 0 && fits(indices) && g.valid() {
            Some(BlockView::GeometryData(GeometryDataView::Geometry(g)))
        } else {
            None
        }
    } else if kind == COMPRESSED {
        if index == 0 && vertices.len() == 0 && uvs.len() == 0 && indices.len() == 0 {
            Some(BlockView::GeometryData(GeometryDataView::GeometryCompressed(data)))
        } else {
            None
        }
    } else if kind == EXPANDED {
        let e = ExpandedView { vertices, uvs };
        if index == 0 && indices.len() == 0 && data.len() == 0 && e.valid() {
            Some(BlockView::GeometryData(GeometryDataView::GeometryExpanded(e)))
        } else {
            None
        }
    } else if kind == OBJECT {
        if index <= usize::MAX && vertices.len() == 0 && uvs.len() == 0 && indices.len() == 0
            && data.len() == 0 {
            Some(BlockView::Object(index as usize))
        } else {
            None
        }
    } else {
        None
    }
}

/// The records of a sequence of blocks.
pub open spec fn records_of(blocks: Seq<BlockView>) -> Seq<RecordView> {
    Seq::new(blocks.len(), |i: int| record_of(blocks[i]))
}

/// Every record stands for a block.
pub open spec fn all_blocks(records: Seq<RecordView>) -> bool {
    forall|i: int| 0 <= i < records.len() ==> block_of(#[trigger] records[i]) is Some
}

/// The blocks that a sequence of records stands for, if each of them stands
/// for one.
pub open spec fn blocks_of(records: Seq<RecordView>) -> Option<Seq<BlockView>> {
    if all_blocks(records) {
        Some(Seq::new(records.len(), |i: int| block_of(records[i])->0))
    } else {
        None
    }
}

/// Every block of the sequence is valid.
pub open spec fn all_valid(blocks: Seq<BlockView>) -> bool {
    forall|i: int| 0 <= i < blocks.len() ==> (#[trigger] blocks[i]).valid()
}

/// The record of a valid block stands for that block.
pub proof fn record_stands_for_block(block: BlockView)
    requires
        block.valid(),
    ensures
        block_of(record_of(block)) == Some(block),
{
    if let BlockView::GeometryData(GeometryDataView::Geometry(g)) = block {
        assert(narrowed(widened(g.indices)) =~= g.indices);
    }
}

/// The records of valid blocks stand for those blocks.
pub proof fn records_stand_for_blocks(blocks: Seq<BlockView>)
    requires
        all_valid(blocks),
    ensures
        blocks_of(records_of(blocks)) == Some(blocks),
{
    let records = records_of(blocks);
    assert forall|i: int| 0 <= i < records.len() implies block_of(#[trigger] records[i])
        == Some(blocks[i]) by {
        record_stands_for_block(blocks[i]);
    }
    assert(blocks_of(records)->0 =~= blocks);
}

/// What a block holds, if there is one.
pub open spec fn block_view(block: Option<Block>) -> Option<BlockView> {
    match block {
        Some(b) => Some(b@),
        None => None,
    }
}

/// Writes index pairs with 64 bits.
pub fn widen(pairs: &[(usize, usize)]) -> (out: Vec<(u64, u64)>)
    ensures
        out@ == widened(pairs@),
{
    let mut out: Vec<(u64, u64)> = Vec::new();
    let mut k: usize = 0;
    while k < pairs.len()
        invariant
            k <= pairs.len(),
            out@ == widened(pairs@.subrange(0, k as int)),
        decreases pairs.len() - k,
    {
        let pair = pairs[k];
        out.push((pair.0 as u64, pair.1 as u64));
        k = k + 1;
    }
    out
}

/// Reads pairs as index pairs, if they are index pairs on this machine.
pub fn narrow(pairs: &Vec<(u64, u64)>) -> (r: Option<Vec<(usize, usize)>>)
    ensures
        r is Some <==> fits(pairs@),
        r matches Some(out) ==> out@ == narrowed(pairs@),
{
    let mut out: Vec<(usize, usize)> = Vec::new();
    let mut k: usize = 0;
    while k < pairs.len()
        invariant
            k <= pairs.len(),
            fits(pairs@.subrange(0, k as int)),
            out@ == narrowed(pairs@.subrange(0, k as int)),
        decreases pairs.len() - k,
    {
        let pair = pairs[k];
        if pair.0 > usize::MAX as u64 || pair.1 > usize::MAX as u64 {
            return None;
        }
        out.push((pair.0 as usize, pair.1 as usize));
        k = k + 1;
    }
    proof {
        assert(pairs@.subrange(0, k as int) =~= pairs@);
    }
    Some(out)
}

/// Writes an indexed mesh as a record.
pub fn indexed_to_record(g: &Geometry) -> (record: Record)
    ensures
        record.deep_view() == indexed_record(g@),
        g@.valid(),
{
    proof {
        use_type_invariant(g);
    }
    let record: Record = (
        INDEXED,
        0,
        slice_to_vec(g.vertices()),
        slice_to_vec(g.uvs()),
        widen(g.indices()),
        Vec::new(),
    );
    record
}

/// Writes a block as a record.
pub fn to_record(block: &Block) -> (record: Record)
    ensures
        record.deep_view() == record_of(block@),
        block@.valid(),
{
    let record: Record = match block.geometry() {
        Some(GeometryData::Geometry(g)) => indexed_to_record(g),
        Some(GeometryData::GeometryCompressed(c)) => (
            COMPRESSED,
            0,
            Vec::new(),
            Vec::new(),
            Vec::new(),
            slice_to_vec(c.data()),
        ),
        Some(GeometryData::GeometryExpanded(e)) => {
            proof {
                use_type_invariant(e);
            }
            (EXPANDED, 0, slice_to_vec(e.vertices()), slice_to_vec(e.uvs()), Vec::new(), Vec::new())
        },
        None => {
            let index = match block.geometry_index() {
                Some(index) => index,
                None => 0,
            };
            (OBJECT, index as u64, Vec::new(), Vec::new(), Vec::new(), Vec::new())
        },
    };
    record
}

/// Reads the block that a record stands for, if it stands for one.
pub fn from_record(record: Record) -> (r: Option<Block>)
    ensures
        block_view(r) == block_of(record.deep_view()),
{
    let ghost view = record.deep_view();
    let (kind, index, vertices, uvs, indices, data) = record;
    proof {
        assert(view.2 =~= vertices@);
        assert(view.3 =~= uvs@);
        assert(view.4 =~= indices@);
        assert(view.5 =~= data@);
    }
    if kind == INDEXED {
        if index != 0 || data.len() != 0 {
            return None;
        }
        match narrow(&indices) {
            Some(indices) => match Geometry::new(vertices, uvs, indices) {
                Some(g) => Some(Block::of_geometry(GeometryData::Geometry(g))),
                None => None,
            },
            None => None,
        }
    } else if kind == COMPRESSED {
        if index != 0 || vertices.len() != 0 || uvs.len() != 0 || indices.len() != 0 {
            return None;
        }
        Some(Block::of_geometry(GeometryData::GeometryCompressed(GeometryCompressed::new(data))))
    } else if kind == EXPANDED {
        if index != 0 || indices.len() != 0 || data.len() != 0 {
            return None;
        }
        match GeometryExpanded::new(vertices, uvs) {
            Some(e) => Some(Block::of_geometry(GeometryData::GeometryExpanded(e))),
            None => None,
        }
    } else if kind == OBJECT {
        if index > usize::MAX as u64 || vertices.len() != 0 || uvs.len() != 0 || indices.len() != 0
            || data.len() != 0 {
            return None;
        }
        Some(Block::of_object(index as usize))
    } else {
        None
    }
}

/// What blocks hold.
pub open spec fn block_views(blocks: Seq<Block>) -> Seq<BlockView> {
    Seq::new(blocks.len(), |i: int| blocks[i]@)
}

/// Reads the blocks that records stand for, if each of them stands for one.
pub fn from_records(records: Vec<Record>) -> (r: Option<Vec<Block>>)
    ensures
        match r {
            Some(blocks) => blocks_of(records.deep_view()) == Some(block_views(blocks@)),
            None => blocks_of(records.deep_view()) is None,
        },
{
    let ghost read = records.deep_view();
    let mut blocks: Vec<Block> = Vec::new();
    for record in it: records
        invariant
            it.seq() == records@,
            read == records.deep_view(),
            blocks@.len() == it.index(),
            forall|k: int|
                0 <= k < blocks@.len() ==> block_of(read[k]) == Some((#[trigger] blocks@[k])@),
    {
        match from_record(record) {
            Some(block) => {
                blocks.push(block);
            },
            None => {
                proof {
                    assert(block_of(read[it.index() as int]) is None);
                }
                return None;
            },
        }
    }
    proof {
        assert forall|i: int| 0 <= i < read.len() implies block_of(#[trigger] read[i]) is Some by {
            assert(block_of(read[i]) == Some(blocks@[i]@));
        }
        assert(blocks_of(read)->0 =~= block_views(blocks@));
    }
    Some(blocks)
}

} // verus!
