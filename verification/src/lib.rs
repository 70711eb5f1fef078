//! Flattens a graph of values that share ownership into a sequence of blocks,
//! and builds the graph again with its sharing intact.
//!
//! An [`object::Object`] owns a share of a mesh through a [`handle::Handle`].
//! Tying a value hands it to a [`yarn::Yarn`], which keeps one
//! [`block::Block`] for every value and leads all owners of one mesh to one
//! block. The engine is sealed into bytes, read from bytes, and untied again,
//! and the objects that owned one mesh before own one mesh after.
//!
//! - [`scalar`]: coordinates as the bits of binary32 numbers, and their order.
//! - [`order`]: sorting, removal of repeated values, and search.
//! - [`geometry`]: meshes in indexed, expanded and compressed form.
//! - [`handle`]: shared ownership of a mesh.
//! - [`block`]: the blocks.
//! - [`object`]: the entity that shares a mesh.
//! - [`yarn`]: the engine, and what can be tied and untied.
//! - [`wire`]: blocks as the records that are written and read.
//! - [`codec`]: the two outside codecs.
//! - [`yarn_container`]: sealed bytes as a queue that is written and read in
//!   pieces.

pub mod block;
pub mod codec;
pub mod geometry;
pub mod handle;
pub mod object;
pub mod order;
pub mod scalar;
pub mod wire;
pub mod yarn;
pub mod yarn_container;
