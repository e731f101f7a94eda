//! Renderable geometry.

use crate::math::{Scalar, Vertex, VertexView};
use vstd::prelude::*;

verus! {

/// A mesh: an optional texture, named by its file, the corners, and the
/// triangles as indices into the corners.
#[derive(Clone, Debug, PartialEq, Eq)]
pub struct Model {
    pub texture: Option<String>,
    pub vertices: Vec<Vertex>,
    pub indices: Vec<i16>,
}

/// What a [`Model`] holds.
pub struct ModelView {
    pub texture: Option<Seq<char>>,
    pub vertices: Seq<VertexView>,
    pub indices: Seq<i16>,
}

impl ModelView {
    /// Every vertex is well formed.
    pub open spec fn wf(self) -> bool {
        forall|i: int| 0 <= i < self.vertices.len() ==> (#[trigger] self.vertices[i]).wf()
    }

    /// The unit square in the plane `z = 0`, centred on the origin, as two
    /// triangles.
    pub open spec fn quad(texture: Option<Seq<char>>) -> ModelView {
        ModelView {
            texture,
            vertices: seq![
                VertexView { pos: seq!["-0.5"@, "-0.5"@, "0.0"@], uv: seq!["0.0"@, "0.0"@] },
                VertexView { pos: seq!["0.5"@, "-0.5"@, "0.0"@], uv: seq!["1.0"@, "0.0"@] },
                VertexView { pos: seq!["0.5"@, "0.5"@, "0.0"@], uv: seq!["1.0"@, "1.0"@] },
                VertexView { pos: seq!["-0.5"@, "0.5"@, "0.0"@], uv: seq!["0.0"@, "1.0"@] },
            ],
            indices: seq![0i16, 1i16, 2i16, 0i16, 2i16, 3i16],
        }
    }
}

/// The views of a sequence of vertices.
pub open spec fn vertex_views(s: Seq<Vertex>) -> Seq<VertexView> {
    s.map_values(|v: Vertex| v@)
}

/// The text of an optional string.
pub open spec fn option_text(s: Option<String>) -> Option<Seq<char>> {
    match s {
        Some(t) => Some(t@),
        None => None,
    }
}

impl View for Model {
    type V = ModelView;

    open spec fn view(&self) -> ModelView {
        ModelView {
            texture: option_text(self.texture),
            vertices: vertex_views(self.vertices@),
            indices: self.indices@,
        }
    }
}

/// One corner of the unit square.
fn corner(x: Scalar, y: Scalar, u: Scalar, v: Scalar) -> (r: Vertex)
    ensures
        r@ == (VertexView { pos: seq![x@, y@, "0.0"@], uv: seq![u@, v@] }),
{
    let r = Vertex { pos: [x, y, Scalar::zero()], uv: [u, v] };
    assert(r@.pos =~= seq![x@, y@, "0.0"@]);
    assert(r@.uv =~= seq![u@, v@]);
    r
}

impl Model {
    /// The unit square in the plane `z = 0`, centred on the origin, with the
    /// given texture.
    pub fn quad(texture: Option<String>) -> (r: Model)
        ensures
            r@ == ModelView::quad(option_text(texture)),
    {
        let mut vertices: Vec<Vertex> = Vec::new();
        vertices.push(
            corner(Scalar::minus_half(), Scalar::minus_half(), Scalar::zero(), Scalar::zero()),
        );
        vertices.push(corner(Scalar::half(), Scalar::minus_half(), Scalar::one(), Scalar::zero()));
        vertices.push(corner(Scalar::half(), Scalar::half(), Scalar::one(), Scalar::one()));
        vertices.push(corner(Scalar::minus_half(), Scalar::half(), Scalar::zero(), Scalar::one()));
        let mut indices: Vec<i16> = Vec::new();
        indices.push(0);
        indices.push(1);
        indices.push(2);
        indices.push(0);
        indices.push(2);
        indices.push(3);
        let r = Model { texture, vertices, indices };
        assert(r@.vertices =~= ModelView::quad(option_text(texture)).vertices);
        assert(r@.indices =~= ModelView::quad(option_text(texture)).indices);
        r
    }
}

} // verus!
