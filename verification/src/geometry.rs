//! Meshes: an indexed form, an expanded form with one texture coordinate per
//! vertex, and a compressed form.
//!
//! A vertex is three coordinates and a texture coordinate two, each held as
//! the bits of a binary32 number (see [`crate::scalar`]).

use vstd::prelude::*;
use crate::block::BlockView;
use crate::codec::{
    bincode_deserialized, bincode_serialized, brotli_compressed, brotli_decompressed, compress,
    decompress, deserialize, serialize, Record, RecordView,
};
use crate::order::{
    key_below, covers, distinct, drawn_from, has_key, position, same_values_same_places, sorted,
    strictly_ascending, Ranked,
};
use crate::scalar::{finite, is_finite, negative_zero, rank_determines_value};
use crate::wire::{
    block_of, from_record, indexed_record, indexed_to_record, record_stands_for_block,
};

verus! {

/// All three coordinates of a vertex are finite.
pub open spec fn vertex_finite(v: (u32, u32, u32)) -> bool {
    finite(v.0) && finite(v.1) && finite(v.2)
}

/// Both coordinates of a texture coordinate are finite.
pub open spec fn uv_finite(t: (u32, u32)) -> bool {
    finite(t.0) && finite(t.1)
}

/// Every vertex of the sequence is finite.
pub open spec fn vertices_finite(s: Seq<(u32, u32, u32)>) -> bool {
    forall|i: int| 0 <= i < s.len() ==> vertex_finite(#[trigger] s[i])
}

/// Every texture coordinate of the sequence is finite.
pub open spec fn uvs_finite(s: Seq<(u32, u32)>) -> bool {
    forall|i: int| 0 <= i < s.len() ==> uv_finite(#[trigger] s[i])
}

/// Every pair points at one of `vertices` vertices and one of `uvs` texture
/// coordinates.
pub open spec fn indices_within(s: Seq<(usize, usize)>, vertices: nat, uvs: nat) -> bool {
    forall|k: int| 0 <= k < s.len() ==> (#[trigger] s[k]).0 < vertices && s[k].1 < uvs
}

/// The level at which meshes are compressed.
pub const QUALITY: u32 = 6;

/// What an indexed mesh holds.
pub struct GeometryView {
    pub vertices: Seq<(u32, u32, u32)>,
    pub uvs: Seq<(u32, u32)>,
    pub indices: Seq<(usize, usize)>,
}

/// What an expanded mesh holds.
pub struct ExpandedView {
    pub vertices: Seq<(u32, u32, u32)>,
    pub uvs: Seq<(u32, u32)>,
}

impl GeometryView {
    /// The coordinates are finite and every index pair is within bounds.
    pub open spec fn valid(self) -> bool {
        &&& vertices_finite(self.vertices)
        &&& uvs_finite(self.uvs)
        &&& indices_within(self.indices, self.vertices.len(), self.uvs.len())
    }

    /// The mesh in compressed form: the one record of the mesh is written
    /// by the codec for records, and what it gives is compressed. There is
    /// none where one of the two codecs gives nothing.
    pub open spec fn compressed(self) -> Option<Seq<u8>> {
        match bincode_serialized(seq![indexed_record(self)]) {
            Some(encoded) => brotli_compressed(encoded, QUALITY),
            None => None,
        }
    }

    /// The mesh without its indices: for every index pair, in order, the
    /// vertex and the texture coordinate that the pair points at.
    pub open spec fn expanded(self) -> ExpandedView {
        ExpandedView {
            vertices: Seq::new(self.indices.len(), |k: int| self.vertices[self.indices[k].0 as int]),
            uvs: Seq::new(self.indices.len(), |k: int| self.uvs[self.indices[k].1 as int]),
        }
    }
}

impl ExpandedView {
    /// There is one texture coordinate per vertex, and all coordinates are
    /// finite.
    pub open spec fn valid(self) -> bool {
        &&& self.vertices.len() == self.uvs.len()
        &&& vertices_finite(self.vertices)
        &&& uvs_finite(self.uvs)
    }

    /// The numbers that the mesh denotes: the key of every vertex and of every
    /// texture coordinate, in order.
    pub open spec fn values(self) -> (Seq<(int, int, int)>, Seq<(int, int, int)>) {
        (
            Seq::new(self.vertices.len(), |k: int| self.vertices[k].key()),
            Seq::new(self.uvs.len(), |k: int| self.uvs[k].key()),
        )
    }

    /// Whether `g` is this mesh in indexed form without repetition: the
    /// vertices of `g` are vertices of this mesh, in strictly ascending order,
    /// so that no value occurs twice among them, and likewise its texture
    /// coordinates; and for every vertex of this mesh, in order, `g` has the
    /// pair of places at which the values of the vertex and of its texture
    /// coordinate stand.
    pub open spec fn condensed(self, g: GeometryView) -> bool {
        &&& strictly_ascending(g.vertices)
        &&& strictly_ascending(g.uvs)
        &&& drawn_from(g.vertices, self.vertices)
        &&& drawn_from(g.uvs, self.uvs)
        &&& g.indices.len() == self.vertices.len()
        &&& forall|k: int|
            0 <= k < g.indices.len() ==> {
                &&& (#[trigger] g.indices[k]).0 < g.vertices.len()
                &&& g.indices[k].1 < g.uvs.len()
                &&& g.vertices[g.indices[k].0 as int].key() == self.vertices[k].key()
                &&& g.uvs[g.indices[k].1 as int].key() == self.uvs[k].key()
            }
    }
}

/// No coordinate of the mesh is the negative zero.
pub open spec fn without_negative_zero(e: ExpandedView) -> bool {
    &&& forall|k: int|
        0 <= k < e.vertices.len() ==> !negative_zero((#[trigger] e.vertices[k]).0) && !negative_zero(
            e.vertices[k].1,
        ) && !negative_zero(e.vertices[k].2)
    &&& forall|k: int|
        0 <= k < e.uvs.len() ==> !negative_zero((#[trigger] e.uvs[k]).0) && !negative_zero(
            e.uvs[k].1,
        )
}

/// Bringing an expanded mesh into indexed form and writing that out again
/// gives the mesh back: the indexed form is valid, and what is written out
/// has the same length and denotes, place by place, the same numbers.
pub proof fn condense_then_expand(e: ExpandedView, g: GeometryView)
    requires
        e.valid(),
        e.condensed(g),
    ensures
        g.valid(),
        g.expanded().valid(),
        g.expanded().values() == e.values(),
{
    assert forall|n: int| 0 <= n < g.vertices.len() implies vertex_finite(
        #[trigger] g.vertices[n],
    ) by {
        let x = g.vertices[n];
        assert(e.vertices.contains(x));
        let m = choose|m: int| 0 <= m < e.vertices.len() && e.vertices[m] == x;
        assert(vertex_finite(e.vertices[m]));
    }
    assert forall|n: int| 0 <= n < g.uvs.len() implies uv_finite(#[trigger] g.uvs[n]) by {
        let x = g.uvs[n];
        assert(e.uvs.contains(x));
        let m = choose|m: int| 0 <= m < e.uvs.len() && e.uvs[m] == x;
        assert(uv_finite(e.uvs[m]));
    }
    let back = g.expanded();
    assert forall|k: int| 0 <= k < back.vertices.len() implies vertex_finite(
        #[trigger] back.vertices[k],
    ) by {
        assert(g.indices[k].0 < g.vertices.len());
    }
    assert forall|k: int| 0 <= k < back.uvs.len() implies uv_finite(#[trigger] back.uvs[k]) by {
        assert(g.indices[k].1 < g.uvs.len());
    }
    assert forall|k: int| 0 <= k < back.vertices.len() implies #[trigger] back.vertices[k].key()
        == e.vertices[k].key() by {
        assert(g.indices[k].0 < g.vertices.len());
    }
    assert forall|k: int| 0 <= k < back.uvs.len() implies #[trigger] back.uvs[k].key()
        == e.uvs[k].key() by {
        assert(g.indices[k].1 < g.uvs.len());
    }
    assert(back.values().0 =~= e.values().0);
    assert(back.values().1 =~= e.values().1);
}

/// An expanded mesh has one indexed form without repetition, but for the
/// sign of a zero: any two have the same index pairs, and vertices and
/// texture coordinates that denote, place by place, the same numbers.
pub proof fn condensed_is_determined(e: ExpandedView, g: GeometryView, h: GeometryView)
    requires
        e.valid(),
        e.condensed(g),
        e.condensed(h),
    ensures
        g.indices == h.indices,
        g.vertices.len() == h.vertices.len(),
        g.uvs.len() == h.uvs.len(),
        forall|i: int| 0 <= i < g.vertices.len() ==> (#[trigger] g.vertices[i]).key() == h.vertices[i].key(),
        forall|j: int| 0 <= j < g.uvs.len() ==> (#[trigger] g.uvs[j]).key() == h.uvs[j].key(),
{
    condensed_covers(e, g);
    condensed_covers(e, h);
    assert forall|i: int| 0 <= i < h.vertices.len() implies has_key(
        g.vertices,
        (#[trigger] h.vertices[i]).key(),
    ) by {
        let x = h.vertices[i];
        assert(e.vertices.contains(x));
        let m = choose|m: int| 0 <= m < e.vertices.len() && e.vertices[m] == x;
        assert(has_key(g.vertices, e.vertices[m].key()));
    }
    assert forall|i: int| 0 <= i < g.vertices.len() implies has_key(
        h.vertices,
        (#[trigger] g.vertices[i]).key(),
    ) by {
        let x = g.vertices[i];
        assert(e.vertices.contains(x));
        let m = choose|m: int| 0 <= m < e.vertices.len() && e.vertices[m] == x;
        assert(has_key(h.vertices, e.vertices[m].key()));
    }
    assert forall|i: int| 0 <= i < h.uvs.len() implies has_key(g.uvs, (#[trigger] h.uvs[i]).key()) by {
        let x = h.uvs[i];
        assert(e.uvs.contains(x));
        let m = choose|m: int| 0 <= m < e.uvs.len() && e.uvs[m] == x;
        assert(has_key(g.uvs, e.uvs[m].key()));
    }
    assert forall|i: int| 0 <= i < g.uvs.len() implies has_key(h.uvs, (#[trigger] g.uvs[i]).key()) by {
        let x = g.uvs[i];
        assert(e.uvs.contains(x));
        let m = choose|m: int| 0 <= m < e.uvs.len() && e.uvs[m] == x;
        assert(has_key(h.uvs, e.uvs[m].key()));
    }
    same_values_same_places(g.vertices, h.vertices);
    same_values_same_places(g.uvs, h.uvs);
    assert forall|k: int| 0 <= k < g.indices.len() implies #[trigger] g.indices[k]
        == h.indices[k] by {
        let (gi, gj) = g.indices[k];
        let (hi, hj) = h.indices[k];
        assert(h.indices[k].0 < h.vertices.len());
        assert(g.vertices[gi as int].key() == h.vertices[hi as int].key());
        assert(g.vertices[hi as int].key() == h.vertices[hi as int].key());
        if gi < hi {
            assert(key_below(g.vertices[gi as int].key(), g.vertices[hi as int].key()));
        }
        if hi < gi {
            assert(key_below(g.vertices[hi as int].key(), g.vertices[gi as int].key()));
        }
        assert(g.uvs[gj as int].key() == h.uvs[hj as int].key());
        assert(g.uvs[hj as int].key() == h.uvs[hj as int].key());
        if gj < hj {
            assert(key_below(g.uvs[gj as int].key(), g.uvs[hj as int].key()));
        }
        if hj < gj {
            assert(key_below(g.uvs[hj as int].key(), g.uvs[gj as int].key()));
        }
    }
    assert(g.indices =~= h.indices);
}

/// The indexed form of a mesh denotes every value that the mesh denotes.
proof fn condensed_covers(e: ExpandedView, g: GeometryView)
    requires
        e.valid(),
        e.condensed(g),
    ensures
        covers(g.vertices, e.vertices),
        covers(g.uvs, e.uvs),
{
    assert forall|k: int| 0 <= k < e.vertices.len() implies has_key(
        g.vertices,
        (#[trigger] e.vertices[k]).key(),
    ) by {
        assert(g.indices[k].0 < g.vertices.len());
        assert(g.vertices[g.indices[k].0 as int].key() == e.vertices[k].key());
    }
    assert forall|k: int| 0 <= k < e.uvs.len() implies has_key(g.uvs, (#[trigger] e.uvs[k]).key()) by {
        assert(g.indices[k].1 < g.uvs.len());
        assert(g.uvs[g.indices[k].1 as int].key() == e.uvs[k].key());
    }
}

/// Where no coordinate is the negative zero, what is written out is the
/// mesh bit for bit.
pub proof fn condense_then_expand_exact(e: ExpandedView, g: GeometryView)
    requires
        e.valid(),
        e.condensed(g),
        without_negative_zero(e),
    ensures
        g.expanded() == e,
{
    let back = g.expanded();
    assert forall|k: int| 0 <= k < back.vertices.len() implies #[trigger] back.vertices[k]
        == e.vertices[k] by {
        assert(g.indices[k].0 < g.vertices.len());
        let x = back.vertices[k];
        let y = e.vertices[k];
        assert(x == g.vertices[g.indices[k].0 as int]);
        assert(e.vertices.contains(x));
        let m = choose|m: int| 0 <= m < e.vertices.len() && e.vertices[m] == x;
        assert(!negative_zero(e.vertices[m].0));
        assert(x.key() == y.key());
        rank_determines_value(x.0, y.0);
        rank_determines_value(x.1, y.1);
        rank_determines_value(x.2, y.2);
    }
    assert forall|k: int| 0 <= k < back.uvs.len() implies #[trigger] back.uvs[k] == e.uvs[k] by {
        assert(g.indices[k].1 < g.uvs.len());
        let x = back.uvs[k];
        let y = e.uvs[k];
        assert(x == g.uvs[g.indices[k].1 as int]);
        assert(e.uvs.contains(x));
        let m = choose|m: int| 0 <= m < e.uvs.len() && e.uvs[m] == x;
        assert(!negative_zero(e.uvs[m].0));
        assert(x.key() == y.key());
        rank_determines_value(x.0, y.0);
        rank_determines_value(x.1, y.1);
    }
    assert(back.vertices =~= e.vertices);
    assert(back.uvs =~= e.uvs);
}

/// The indexed mesh that records stand for: there is one where there is
/// one record and it stands for the block of an indexed mesh.
pub open spec fn indexed_of(records: Seq<RecordView>) -> Option<GeometryView> {
    if records.len() == 1 {
        match block_of(records[0]) {
            Some(BlockView::GeometryData(GeometryDataView::Geometry(g))) => Some(g),
            _ => None,
        }
    } else {
        None
    }
}

/// The indexed mesh that compressed bytes stand for. There is none where
/// the bytes cannot be decompressed, the codec for records reads nothing
/// from what comes out, or what it reads stands for no indexed mesh.
pub open spec fn decompressed(data: Seq<u8>) -> Option<GeometryView> {
    match brotli_decompressed(data) {
        Some(encoded) => match bincode_deserialized(encoded) {
            Some(records) => indexed_of(records),
            None => None,
        },
        None => None,
    }
}

/// What an indexed mesh holds, if there is one.
pub open spec fn geometry_view(g: Option<Geometry>) -> Option<GeometryView> {
    match g {
        Some(g) => Some(g@),
        None => None,
    }
}

/// What a compressed mesh holds, if there is one.
pub open spec fn compressed_view(c: Option<GeometryCompressed>) -> Option<Seq<u8>> {
    match c {
        Some(c) => Some(c@),
        None => None,
    }
}

/// Tells whether every vertex is finite.
pub fn check_vertices(vertices: &Vec<(u32, u32, u32)>) -> (r: bool)
    ensures
        r == vertices_finite(vertices@),
{
    let mut i: usize = 0;
    while i < vertices.len()
        invariant
            i <= vertices.len(),
            forall|k: int| 0 <= k < i ==> vertex_finite(#[trigger] vertices@[k]),
        decreases vertices.len() - i,
    {
        let v = vertices[i];
        if !is_finite(v.0) || !is_finite(v.1) || !is_finite(v.2) {
            return false;
        }
        i = i + 1;
    }
    true
}

/// Tells whether every texture coordinate is finite.
pub fn check_uvs(uvs: &Vec<(u32, u32)>) -> (r: bool)
    ensures
        r == uvs_finite(uvs@),
{
    let mut i: usize = 0;
    while i < uvs.len()
        invariant
            i <= uvs.len(),
            forall|k: int| 0 <= k < i ==> uv_finite(#[trigger] uvs@[k]),
        decreases uvs.len() - i,
    {
        let t = uvs[i];
        if !is_finite(t.0) || !is_finite(t.1) {
            return false;
        }
        i = i + 1;
    }
    true
}

/// Tells whether every index pair is within the two bounds.
pub fn check_indices(indices: &Vec<(usize, usize)>, vertices: usize, uvs: usize) -> (r: bool)
    ensures
        r == indices_within(indices@, vertices as nat, uvs as nat),
{
    let mut k: usize = 0;
    while k < indices.len()
        invariant
            k <= indices.len(),
            forall|n: int| 0 <= n < k ==> (#[trigger] indices@[n]).0 < vertices && indices@[n].1 < uvs,
        decreases indices.len() - k,
    {
        let pair = indices[k];
        if pair.0 >= vertices || pair.1 >= uvs {
            return false;
        }
        k = k + 1;
    }
    true
}

/// An indexed mesh: vertices, texture coordinates, and pairs of a vertex
/// index and a texture coordinate index.
#[derive(Debug)]
pub struct Geometry {
    vertices: Vec<(u32, u32, u32)>,
    uvs: Vec<(u32, u32)>,
    indices: Vec<(usize, usize)>,
}

impl View for Geometry {
    type V = GeometryView;

    closed spec fn view(&self) -> GeometryView {
        GeometryView { vertices: self.vertices@, uvs: self.uvs@, indices: self.indices@ }
    }
}

impl Geometry {
    /// Every mesh is valid.
    #[verifier::type_invariant]
    pub open spec fn wf(&self) -> bool {
        self@.valid()
    }

    /// Makes a mesh, unless a coordinate is not finite or an index pair is
    /// out of bounds.
    pub fn new(
        vertices: Vec<(u32, u32, u32)>,
        uvs: Vec<(u32, u32)>,
        indices: Vec<(usize, usize)>,
    ) -> (r: Option<Geometry>)
        ensures
            r is Some <==> (GeometryView {
                vertices: vertices@,
                uvs: uvs@,
                indices: indices@,
            }).valid(),
            r matches Some(g) ==> g@ == (GeometryView {
                vertices: vertices@,
                uvs: uvs@,
                indices: indices@,
            }),
    {
        if !check_vertices(&vertices) {
            return None;
        }
        if !check_uvs(&uvs) {
            return None;
        }
        if !check_indices(&indices, vertices.len(), uvs.len()) {
            return None;
        }
        Some(Geometry { vertices, uvs, indices })
    }

    /// The vertices.
    pub fn vertices(&self) -> (r: &[(u32, u32, u32)])
        ensures
            r@ == self@.vertices,
    {
        self.vertices.as_slice()
    }

    /// The texture coordinates.
    pub fn uvs(&self) -> (r: &[(u32, u32)])
        ensures
            r@ == self@.uvs,
    {
        self.uvs.as_slice()
    }

    /// The index pairs.
    pub fn indices(&self) -> (r: &[(usize, usize)])
        ensures
            r@ == self@.indices,
    {
        self.indices.as_slice()
    }

    /// The mesh as records: the one record of the mesh.
    pub fn records(&self) -> (records: Vec<Record>)
        ensures
            records.deep_view() == seq![indexed_record(self@)],
    {
        let mut records: Vec<Record> = Vec::new();
        records.push(indexed_to_record(self));
        records
    }

    /// The mesh that records stand for, if they stand for one.
    pub fn from_records(records: Vec<Record>) -> (r: Option<Geometry>)
        ensures
            geometry_view(r) == indexed_of(records.deep_view()),
    {
        let ghost read = records.deep_view();
        let mut records = records;
        if records.len() != 1 {
            return None;
        }
        let record = match records.pop() {
            Some(record) => record,
            None => {
                return None;
            },
        };
        assert(record.deep_view() == read[0]);
        match from_record(record) {
            Some(block) => match block.into_geometry() {
                Some(GeometryData::Geometry(g)) => Some(g),
                _ => None,
            },
            None => None,
        }
    }

    /// Compresses the mesh. There is no result where one of the two codecs
    /// gives none.
    pub fn compress(&self) -> (r: Option<GeometryCompressed>)
        ensures
            compressed_view(r) == self@.compressed(),
    {
        let records = self.records();
        let encoded = match serialize(&records) {
            Some(encoded) => encoded,
            None => {
                return None;
            },
        };
        match compress(encoded.as_slice(), QUALITY) {
            Some(data) => Some(GeometryCompressed { data }),
            None => None,
        }
    }

    /// Writes the mesh out without indices.
    pub fn expand(&self) -> (e: GeometryExpanded)
        ensures
            e@ == self@.expanded(),
    {
        proof {
            use_type_invariant(self);
        }
        let mut vertices: Vec<(u32, u32, u32)> = Vec::new();
        let mut uvs: Vec<(u32, u32)> = Vec::new();
        let mut k: usize = 0;
        while k < self.indices.len()
            invariant
                k <= self.indices.len(),
                self@.valid(),
                vertices@.len() == k,
                uvs@.len() == k,
                forall|n: int| 0 <= n < k ==> #[trigger] vertices@[n] == self@.expanded().vertices[n],
                forall|n: int| 0 <= n < k ==> #[trigger] uvs@[n] == self@.expanded().uvs[n],
            decreases self.indices.len() - k,
        {
            let pair = self.indices[k];
            assert(self@.indices[k as int] == pair);
            vertices.push(self.vertices[pair.0]);
            uvs.push(self.uvs[pair.1]);
            k = k + 1;
        }
        proof {
            assert(vertices@ =~= self@.expanded().vertices);
            assert(uvs@ =~= self@.expanded().uvs);
            assert forall|n: int| 0 <= n < vertices@.len() implies vertex_finite(
                #[trigger] vertices@[n],
            ) by {
                assert(self@.indices[n].0 < self@.vertices.len());
            }
            assert forall|n: int| 0 <= n < uvs@.len() implies uv_finite(#[trigger] uvs@[n]) by {
                assert(self@.indices[n].1 < self@.uvs.len());
            }
        }
        GeometryExpanded { vertices, uvs }
    }
}

/// A mesh without indices: one texture coordinate for every vertex.
#[derive(Debug)]
pub struct GeometryExpanded {
    vertices: Vec<(u32, u32, u32)>,
    uvs: Vec<(u32, u32)>,
}

impl View for GeometryExpanded {
    type V = ExpandedView;

    closed spec fn view(&self) -> ExpandedView {
        ExpandedView { vertices: self.vertices@, uvs: self.uvs@ }
    }
}

impl GeometryExpanded {
    /// Every expanded mesh is valid.
    #[verifier::type_invariant]
    pub open spec fn wf(&self) -> bool {
        self@.valid()
    }

    /// Makes an expanded mesh, unless the two lengths differ or a coordinate
    /// is not finite.
    pub fn new(vertices: Vec<(u32, u32, u32)>, uvs: Vec<(u32, u32)>) -> (r: Option<
        GeometryExpanded,
    >)
        ensures
            r is Some <==> (ExpandedView { vertices: vertices@, uvs: uvs@ }).valid(),
            r matches Some(e) ==> e@ == (ExpandedView { vertices: vertices@, uvs: uvs@ }),
    {
        if vertices.len() != uvs.len() {
            return None;
        }
        if !check_vertices(&vertices) {
            return None;
        }
        if !check_uvs(&uvs) {
            return None;
        }
        Some(GeometryExpanded { vertices, uvs })
    }

    /// The vertices.
    pub fn vertices(&self) -> (r: &[(u32, u32, u32)])
        ensures
            r@ == self@.vertices,
    {
        self.vertices.as_slice()
    }

    /// The texture coordinates.
    pub fn uvs(&self) -> (r: &[(u32, u32)])
        ensures
            r@ == self@.uvs,
    {
        self.uvs.as_slice()
    }

    /// Brings the mesh into indexed form without repetition: sorts a copy of
    /// the vertices and one of the texture coordinates, keeps one point of
    /// every value, and looks every vertex and its texture coordinate up in
    /// what is left.
    pub fn condense(&self) -> (g: Geometry)
        ensures
            self@.condensed(g@),
    {
        proof {
            use_type_invariant(self);
        }
        let vertices = distinct(&sorted(&self.vertices));
        let uvs = distinct(&sorted(&self.uvs));
        let mut indices: Vec<(usize, usize)> = Vec::new();
        let mut k: usize = 0;
        while k < self.vertices.len()
            invariant
                k <= self.vertices.len(),
                self.vertices@.len() == self.uvs@.len(),
                strictly_ascending(vertices@),
                strictly_ascending(uvs@),
                covers(vertices@, self.vertices@),
                covers(uvs@, self.uvs@),
                indices@.len() == k,
                forall|n: int|
                    0 <= n < k ==> {
                        &&& (#[trigger] indices@[n]).0 < vertices@.len()
                        &&& indices@[n].1 < uvs@.len()
                        &&& vertices@[indices@[n].0 as int].key() == self.vertices@[n].key()
                        &&& uvs@[indices@[n].1 as int].key() == self.uvs@[n].key()
                    },
            decreases self.vertices.len() - k,
        {
            let vertex = self.vertices[k];
            let uv = self.uvs[k];
            assert(has_key(vertices@, self.vertices@[k as int].key()));
            assert(has_key(uvs@, self.uvs@[k as int].key()));
            let i = match position(&vertices, &vertex) {
                Some(i) => i,
                None => 0,
            };
            let j = match position(&uvs, &uv) {
                Some(j) => j,
                None => 0,
            };
            indices.push((i, j));
            k = k + 1;
        }
        Geometry { vertices, uvs, indices }
    }
}

/// A mesh in compressed form. Any bytes can be held; whether they stand for
/// a mesh shows when they are decompressed.
#[derive(Debug)]
pub struct GeometryCompressed {
    data: Vec<u8>,
}

impl View for GeometryCompressed {
    type V = Seq<u8>;

    closed spec fn view(&self) -> Seq<u8> {
        self.data@
    }
}

impl GeometryCompressed {
    /// Wraps compressed bytes.
    pub fn new(data: Vec<u8>) -> (r: GeometryCompressed)
        ensures
            r@ == data@,
    {
        GeometryCompressed { data }
    }

    /// Decompresses the mesh. There is no result where the bytes stand for
    /// no indexed mesh. From what compressing a mesh gave, the result is that
    /// mesh.
    pub fn decompress(&self) -> (r: Option<Geometry>)
        ensures
            geometry_view(r) == decompressed(self@),
            forall|g: GeometryView|
                g.valid() && #[trigger] g.compressed() == Some(self@) ==> geometry_view(r)
                    == Some(g),
    {
        let encoded = match decompress(self.data.as_slice()) {
            Some(encoded) => encoded,
            None => {
                return None;
            },
        };
        let records = match deserialize(encoded.as_slice()) {
            Some(records) => records,
            None => {
                return None;
            },
        };
        proof {
            assert forall|g: GeometryView|
                g.valid() && #[trigger] g.compressed() == Some(self@) implies decompressed(self@)
                == Some(g) by {
                let written = seq![indexed_record(g)];
                assert(bincode_serialized(written) == Some(encoded@));
                assert(records.deep_view() == written);
                record_stands_for_block(BlockView::GeometryData(GeometryDataView::Geometry(g)));
            }
        }
        Geometry::from_records(records)
    }

    /// The compressed bytes.
    pub fn data(&self) -> (r: &[u8])
        ensures
            r@ == self@,
    {
        self.data.as_slice()
    }
}

/// A mesh in one of its three forms.
#[derive(Debug)]
pub enum GeometryData {
    Geometry(Geometry),
    GeometryCompressed(GeometryCompressed),
    GeometryExpanded(GeometryExpanded),
}

/// What a mesh in one of its three forms holds.
pub enum GeometryDataView {
    Geometry(GeometryView),
    GeometryCompressed(Seq<u8>),
    GeometryExpanded(ExpandedView),
}

impl GeometryDataView {
    /// The mesh is valid in the form that it has.
    pub open spec fn valid(self) -> bool {
        match self {
            GeometryDataView::Geometry(g) => g.valid(),
            GeometryDataView::GeometryCompressed(_) => true,
            GeometryDataView::GeometryExpanded(e) => e.valid(),
        }
    }
}

impl View for GeometryData {
    type V = GeometryDataView;

    open spec fn view(&self) -> GeometryDataView {
        match self {
            GeometryData::Geometry(g) => GeometryDataView::Geometry(g@),
            GeometryData::GeometryCompressed(c) => GeometryDataView::GeometryCompressed(c@),
            GeometryData::GeometryExpanded(e) => GeometryDataView::GeometryExpanded(e@),
        }
    }
}

} // verus!
