//! The chunk-graph data the descriptor builder reads.
//!
//! The surrounding bundler owns the chunk graph; the builder only consumes a
//! narrow view of it: each chunk's identity, its classification as a directly
//! executable ECMAScript chunk or some other asset, whether a chunk-in-group
//! membership record wraps it, and its absolute filesystem path. A chunk
//! carries that view as plain fields, fixed when the chunk is constructed.

use vstd::prelude::*;

verus! {

/// Stable identifier under which the runtime loader references a module's
/// code.
#[derive(Clone, Copy, PartialEq, Eq, Structural, Debug)]
pub struct ModuleId {
    pub id: u64,
}

/// How a chunk may take part in evaluation: an ECMAScript chunk can be
/// executed directly, any other chunk (a stylesheet, an asset) can only be
/// loaded.
#[derive(Clone, Copy, PartialEq, Eq, Structural, Debug)]
pub enum ChunkKind {
    Script,
    Other,
}

/// A unit of bundled output.
#[derive(Clone, Debug)]
pub struct Chunk {
    /// Identity of the chunk within the chunk graph.
    pub id: u64,
    /// Classification fixed at chunk construction time.
    pub kind: ChunkKind,
    /// Whether a chunk-in-group membership record wraps this chunk. A chunk
    /// reachable in the graph without such a record is not a real group
    /// member and is ignored by the builder.
    pub in_group: bool,
    /// Absolute filesystem path of the chunk's output file.
    pub path: String,
}

/// The chunks that must all be loaded before an evaluation may begin, in the
/// group's canonical iteration order.
#[derive(Clone, Debug)]
pub struct ChunkGroup {
    pub chunks: Vec<Chunk>,
}

impl ChunkGroup {
    /// The member chunks, in group order.
    pub fn chunks(&self) -> (r: &Vec<Chunk>)
        ensures
            r@ == self.chunks@,
    {
        &self.chunks
    }
}

/// Configuration describing how chunks are produced for one output target.
#[derive(Clone, Debug)]
pub struct ChunkingContext {
    /// Absolute path of the directory whose contents the runtime loader can
    /// address; chunks outside it have no server path.
    pub output_root: String,
}

impl ChunkingContext {
    /// The absolute path of the output root.
    pub fn output_root(&self) -> (r: &String)
        ensures
            r@ == self.output_root@,
    {
        &self.output_root
    }
}

/// The per-chunk representation of a placeable module, exposing the module
/// identifier under which the runtime invokes it.
#[derive(Clone, Copy, PartialEq, Eq, Structural, Debug)]
pub struct EcmascriptChunkItem {
    pub id: ModuleId,
}

impl EcmascriptChunkItem {
    /// The module id of this chunk item.
    pub fn id(&self) -> (r: ModuleId)
        ensures
            r == self.id,
    {
        self.id
    }
}

/// A module that can be placed into an ECMAScript chunk and executed.
#[derive(Clone, Copy, PartialEq, Eq, Structural, Debug)]
pub struct EcmascriptChunkPlaceable {
    /// The chunk-item representation of this module.
    pub chunk_item: EcmascriptChunkItem,
}

impl EcmascriptChunkPlaceable {
    /// The chunk item that represents this module under the given chunking
    /// context. The representation is fixed when the module is placed, so the
    /// context does not change it.
    pub fn as_chunk_item(&self, _context: &ChunkingContext) -> (r: EcmascriptChunkItem)
        ensures
            r == self.chunk_item,
    {
        self.chunk_item
    }
}

} // verus!
