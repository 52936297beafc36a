//! The renderer collaborator.
//!
//! The engine never builds GPU state itself; it talks to a renderer through
//! this narrow interface: upload a mesh payload under caller-chosen buffer
//! handles, and issue indexed draw calls.  The interface carries a
//! specification-level log of both, so that what the systems hand the
//! renderer is part of their contracts.  `RecordingRenderer` is the
//! library's own implementation, which simply keeps the log; a host backs
//! the same interface with a real GPU device.

use vstd::prelude::*;

use crate::geometry::{ModelMatrix, Vertex};

verus! {

/// One buffer allocation and payload upload, as the specification sees it.
pub ghost struct UploadEvent {
    pub vertex_handle: u64,
    pub index_handle: u64,
    pub vertices: Seq<Vertex>,
    pub indices: Seq<u16>,
}

/// One indexed draw call, as the specification sees it.
pub ghost struct DrawEvent {
    pub vertex_buffer: u64,
    pub index_buffer: u64,
    pub num_indices: u32,
    pub model: ModelMatrix,
}

/// What the engine asks of a renderer.  Each operation appends exactly one
/// event to its log and leaves the other log alone.
pub trait Renderer {
    /// Every upload made so far, oldest first.
    spec fn uploads(&self) -> Seq<UploadEvent>;

    /// Every draw call made so far, oldest first.
    spec fn draws(&self) -> Seq<DrawEvent>;

    /// Allocate a vertex and an index buffer under the given handles and
    /// upload the payload into them.
    fn upload_mesh(
        &mut self,
        vertex_handle: u64,
        index_handle: u64,
        vertices: &Vec<Vertex>,
        indices: &Vec<u16>,
    )
        ensures
            final(self).uploads() == old(self).uploads().push(
                UploadEvent {
                    vertex_handle,
                    index_handle,
                    vertices: vertices@,
                    indices: indices@,
                },
            ),
            final(self).draws() == old(self).draws(),
    ;

    /// Draw `num_indices` indices from the given buffer pair under the given
    /// model matrix.
    fn draw_indexed(
        &mut self,
        vertex_buffer: u64,
        index_buffer: u64,
        num_indices: u32,
        model: &ModelMatrix,
    )
        ensures
            final(self).draws() == old(self).draws().push(
                DrawEvent { vertex_buffer, index_buffer, num_indices, model: *model },
            ),
            final(self).uploads() == old(self).uploads(),
    ;
}

/// One recorded upload, payload included.
pub struct RecordedUpload {
    pub vertex_handle: u64,
    pub index_handle: u64,
    pub vertices: Vec<Vertex>,
    pub indices: Vec<u16>,
}

/// One recorded draw call.
#[derive(Clone, Copy, Debug, PartialEq, Eq, Structural)]
pub struct RecordedDraw {
    pub vertex_buffer: u64,
    pub index_buffer: u64,
    pub num_indices: u32,
    pub model: ModelMatrix,
}

/// A renderer that performs nothing and remembers everything: the reference
/// implementation of the interface, and the double for tests that count
/// uploads and draws.
pub struct RecordingRenderer {
    pub uploads: Vec<RecordedUpload>,
    pub draws: Vec<RecordedDraw>,
}

impl RecordingRenderer {
    /// A recorder with empty logs.
    pub fn new() -> (r: RecordingRenderer)
        ensures
            r.uploads() == Seq::<UploadEvent>::empty(),
            r.draws() == Seq::<DrawEvent>::empty(),
            r.uploads@.len() == 0,
            r.draws@.len() == 0,
    {
        let r = RecordingRenderer { uploads: Vec::new(), draws: Vec::new() };
        proof {
            assert(r.uploads() =~= Seq::<UploadEvent>::empty());
            assert(r.draws() =~= Seq::<DrawEvent>::empty());
        }
        r
    }

    /// How many uploads have been requested.
    pub fn upload_count(&self) -> (n: usize)
        ensures
            n == self.uploads().len(),
    {
        self.uploads.len()
    }

    /// How many draw calls have been issued.
    pub fn draw_count(&self) -> (n: usize)
        ensures
            n == self.draws().len(),
    {
        self.draws.len()
    }
}

impl Renderer for RecordingRenderer {
    open spec fn uploads(&self) -> Seq<UploadEvent> {
        self.uploads@.map(
            |i: int, u: RecordedUpload|
                UploadEvent {
                    vertex_handle: u.vertex_handle,
                    index_handle: u.index_handle,
                    vertices: u.vertices@,
                    indices: u.indices@,
                },
        )
    }

    open spec fn draws(&self) -> Seq<DrawEvent> {
        self.draws@.map(
            |i: int, d: RecordedDraw|
                DrawEvent {
                    vertex_buffer: d.vertex_buffer,
                    index_buffer: d.index_buffer,
                    num_indices: d.num_indices,
                    model: d.model,
                },
        )
    }

    fn upload_mesh(
        &mut self,
        vertex_handle: u64,
        index_handle: u64,
        vertices: &Vec<Vertex>,
        indices: &Vec<u16>,
    ) {
        let record = RecordedUpload {
            vertex_handle,
            index_handle,
            vertices: copy_vertices(vertices),
            indices: copy_indices(indices),
        };
        self.uploads.push(record);
        proof {
            assert(self.uploads() =~= old(self).uploads().push(
                UploadEvent {
                    vertex_handle,
                    index_handle,
                    vertices: vertices@,
                    indices: indices@,
                },
            ));
            assert(self.draws() =~= old(self).draws());
        }
    }

    fn draw_indexed(
        &mut self,
        vertex_buffer: u64,
        index_buffer: u64,
        num_indices: u32,
        model: &ModelMatrix,
    ) {
        self.draws.push(RecordedDraw { vertex_buffer, index_buffer, num_indices, model: *model });
        proof {
            assert(self.draws() =~= old(self).draws().push(
                DrawEvent { vertex_buffer, index_buffer, num_indices, model: *model },
            ));
            assert(self.uploads() =~= old(self).uploads());
        }
    }
}

/// An element-wise copy of a vertex list.
fn copy_vertices(src: &Vec<Vertex>) -> (r: Vec<Vertex>)
    ensures
        r@ == src@,
{
    let mut r: Vec<Vertex> = Vec::new();
    let mut i: usize = 0;
    while i < src.len()
        invariant
            i <= src@.len(),
            r@ == src@.subrange(0, i as int),
        decreases src@.len() - i,
    {
        r.push(src[i]);
        proof {
            assert(r@ =~= src@.subrange(0, i + 1));
        }
        i = i + 1;
    }
    proof {
        assert(r@ =~= src@);
    }
    r
}

/// An element-wise copy of an index list.
fn copy_indices(src: &Vec<u16>) -> (r: Vec<u16>)
    ensures
        r@ == src@,
{
    let mut r: Vec<u16> = Vec::new();
    let mut i: usize = 0;
    while i < src.len()
        invariant
            i <= src@.len(),
            r@ == src@.subrange(0, i as int),
        decreases src@.len() - i,
    {
        r.push(src[i]);
        proof {
            assert(r@ =~= src@.subrange(0, i + 1));
        }
        i = i + 1;
    }
    proof {
        assert(r@ =~= src@);
    }
    r
}

} // verus!
