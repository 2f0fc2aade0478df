//! Helpers that build meshes of flat-coloured triangles, such as the arrow
//! that marks the sorted column.

use egui::{Color32, Mesh, Pos2};
use vstd::prelude::*;

verus! {

/// `egui::Mesh`: triangles over a list of vertices, drawn with one texture.
#[verifier::external_type_specification]
#[verifier::external_body]
pub struct ExMesh(Mesh);

/// `egui::Pos2`, a position in points. The helpers only put such values into
/// vertices.
#[verifier::external_type_specification]
#[verifier::external_body]
pub struct ExPos2(Pos2);

/// `egui::Color32`, a colour. The helpers only put such values into vertices.
#[verifier::external_type_specification]
#[verifier::external_body]
pub struct ExColor32(Color32);

/// The field `indices` of a mesh: three for each triangle, each the position
/// of a corner among the vertices.
pub uninterp spec fn mesh_indices(mesh: Mesh) -> Seq<u32>;

/// The field `vertices` of a mesh, each vertex by its position and colour.
pub uninterp spec fn mesh_vertices(mesh: Mesh) -> Seq<(Pos2, Color32)>;

/// Whether the field `texture_id` of a mesh is the default texture, the one
/// that flat colours are drawn with.
pub uninterp spec fn mesh_is_untextured(mesh: Mesh) -> bool;

/// A mesh without indices and vertices.
pub open spec fn mesh_is_empty(mesh: Mesh) -> bool {
    mesh_indices(mesh).len() == 0 && mesh_vertices(mesh).len() == 0
}

/// Every index of the mesh names one of its vertices.
pub open spec fn mesh_is_valid(mesh: Mesh) -> bool {
    forall|i: int|
        0 <= i < mesh_indices(mesh).len() ==> (#[trigger] mesh_indices(mesh)[i])
            < mesh_vertices(mesh).len()
}

/// The indices, each moved up by `offset`.
pub open spec fn shifted(indices: Seq<u32>, offset: nat) -> Seq<u32> {
    Seq::new(indices.len(), |i: int| (indices[i] + offset) as u32)
}

/// The `count` indices that follow one another from `first`.
pub open spec fn index_run(first: nat, count: nat) -> Seq<u32> {
    Seq::new(count, |i: int| (first + i) as u32)
}

/// Vertices at the given corners, all of one colour.
pub open spec fn flat_vertices(corners: Seq<Pos2>, color: Color32) -> Seq<(Pos2, Color32)> {
    Seq::new(corners.len(), |i: int| (corners[i], color))
}

/// `Mesh::default()`: a mesh without indices and vertices, with the default
/// texture.
pub assume_specification[ <Mesh as core::default::Default>::default ]() -> (mesh: Mesh)
    ensures
        mesh_is_empty(mesh),
        mesh_is_untextured(mesh),
;

/// `Mesh::colored_vertex`: pushes one vertex with the given position and
/// colour, and the texture coordinate of flat colour. With its extra
/// assertions switched on egui panics here on a mesh with another texture.
pub assume_specification[ Mesh::colored_vertex ](mesh: &mut Mesh, pos: Pos2, color: Color32)
    requires
        mesh_is_untextured(*old(mesh)),
    ensures
        mesh_vertices(*final(mesh)) == mesh_vertices(*old(mesh)).push((pos, color)),
        mesh_indices(*final(mesh)) == mesh_indices(*old(mesh)),
        mesh_is_untextured(*final(mesh)),
;

/// `Mesh::add_triangle`: pushes the three indices, in this order.
pub assume_specification[ Mesh::add_triangle ](mesh: &mut Mesh, a: u32, b: u32, c: u32)
    ensures
        mesh_indices(*final(mesh)) == mesh_indices(*old(mesh)).push(a).push(b).push(c),
        mesh_vertices(*final(mesh)) == mesh_vertices(*old(mesh)),
        mesh_is_untextured(*final(mesh)) == mesh_is_untextured(*old(mesh)),
;

/// `Mesh::append`: an empty mesh becomes `other`. Otherwise the vertices of
/// `other` are added behind those of `mesh`, and its indices behind the
/// indices of `mesh`, each moved up by the number of vertices that `mesh`
/// had; the texture of `mesh` stays. egui panics where a mesh that is not
/// empty has another texture than `other`, in a debug build where a moved
/// index leaves `u32`, and with its extra assertions switched on where
/// `other` is not valid.
pub assume_specification[ Mesh::append ](mesh: &mut Mesh, other: Mesh)
    requires
        mesh_is_empty(*old(mesh)) || (mesh_is_untextured(*old(mesh)) && mesh_is_untextured(other)),
        mesh_is_valid(other),
        mesh_vertices(*old(mesh)).len() + mesh_vertices(other).len() <= u32::MAX,
    ensures
        mesh_vertices(*final(mesh)) == mesh_vertices(*old(mesh)) + mesh_vertices(other),
        mesh_indices(*final(mesh)) == mesh_indices(*old(mesh)) + shifted(
            mesh_indices(other),
            mesh_vertices(*old(mesh)).len(),
        ),
        mesh_is_untextured(*final(mesh)) == if mesh_is_empty(*old(mesh)) {
            mesh_is_untextured(other)
        } else {
            mesh_is_untextured(*old(mesh))
        },
;

/// A mesh of one flat-coloured triangle with the corners `a`, `b`, `c`.
pub fn triangle(a: Pos2, b: Pos2, c: Pos2, color: Color32) -> (mesh: Mesh)
    ensures
        mesh_vertices(mesh) == flat_vertices(seq![a, b, c], color),
        mesh_indices(mesh) == index_run(0, 3),
        mesh_is_untextured(mesh),
        mesh_is_valid(mesh),
{
    let mut mesh = Mesh::default();
    mesh.colored_vertex(a, color);
    mesh.colored_vertex(b, color);
    mesh.colored_vertex(c, color);
    mesh.add_triangle(0, 1, 2);
    assert(mesh_vertices(mesh) =~= flat_vertices(seq![a, b, c], color));
    assert(mesh_indices(mesh) =~= index_run(0, 3));
    mesh
}

/// A mesh of one flat-coloured quad with the corners `a`, `b`, `c`, `d`, as
/// the two triangles `a b c` and `b c d` on either side of the diagonal from
/// `b` to `c`.
pub fn quad(a: Pos2, b: Pos2, c: Pos2, d: Pos2, color: Color32) -> (mesh: Mesh)
    ensures
        mesh_vertices(mesh) == flat_vertices(seq![a, b, c, b, c, d], color),
        mesh_indices(mesh) == index_run(0, 6),
        mesh_is_untextured(mesh),
        mesh_is_valid(mesh),
{
    let mut mesh = Mesh::default();
    mesh.append(triangle(a, b, c, color));
    mesh.append(triangle(b, c, d, color));
    assert(mesh_vertices(mesh) =~= flat_vertices(seq![a, b, c, b, c, d], color));
    assert(mesh_indices(mesh) =~= index_run(0, 6));
    mesh
}

/// Adding flat-coloured shapes to a mesh in place.
pub trait SimpleMeshBuilder: Sized {
    /// Whether `corners` more vertices can be added.
    spec fn has_room(&self, corners: nat) -> bool;

    /// `grown` is this mesh with one vertex of the given colour added for each
    /// of the corners, and with their indices added: one for each new vertex,
    /// in the order of the corners.
    spec fn grown_by(&self, grown: &Self, corners: Seq<Pos2>, color: Color32) -> bool;

    /// Adds the triangle with the corners `a`, `b`, `c`.
    fn add_triangle_simple(&mut self, a: Pos2, b: Pos2, c: Pos2, color: Color32)
        requires
            old(self).has_room(3),
        ensures
            old(self).grown_by(final(self), seq![a, b, c], color),
    ;

    /// Adds the quad with the corners `a`, `b`, `c`, `d`, as the two triangles
    /// `a b c` and `b c d`.
    fn add_quad_simple(&mut self, a: Pos2, b: Pos2, c: Pos2, d: Pos2, color: Color32)
        requires
            old(self).has_room(6),
        ensures
            old(self).grown_by(final(self), seq![a, b, c, b, c, d], color),
    ;
}

impl SimpleMeshBuilder for Mesh {
    /// The mesh is empty or drawn with the default texture, and the indices
    /// of all its vertices and the new ones fit `u32`.
    open spec fn has_room(&self, corners: nat) -> bool {
        &&& mesh_is_empty(*self) || mesh_is_untextured(*self)
        &&& mesh_vertices(*self).len() + corners <= u32::MAX
    }

    open spec fn grown_by(&self, grown: &Mesh, corners: Seq<Pos2>, color: Color32) -> bool {
        &&& mesh_vertices(*grown) == mesh_vertices(*self) + flat_vertices(corners, color)
        &&& mesh_indices(*grown) == mesh_indices(*self) + index_run(
            mesh_vertices(*self).len(),
            corners.len(),
        )
        &&& mesh_is_untextured(*grown)
        &&& mesh_is_valid(*self) ==> mesh_is_valid(*grown)
    }

    fn add_triangle_simple(&mut self, a: Pos2, b: Pos2, c: Pos2, color: Color32) {
        self.append(triangle(a, b, c, color));
        assert(mesh_indices(*self) =~= mesh_indices(*old(self)) + index_run(
            mesh_vertices(*old(self)).len(),
            3,
        ));
    }

    fn add_quad_simple(&mut self, a: Pos2, b: Pos2, c: Pos2, d: Pos2, color: Color32) {
        self.append(quad(a, b, c, d, color));
        assert(mesh_indices(*self) =~= mesh_indices(*old(self)) + index_run(
            mesh_vertices(*old(self)).len(),
            6,
        ));
    }
}

} // verus!
