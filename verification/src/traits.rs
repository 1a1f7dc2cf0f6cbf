//! Object capabilities.
//!
//! `Transform` is the single interface the transform operations need:
//! get and set of the model matrix.  `translate_by`, `rotate_around`,
//! `scale_by` and `scaled_by` work over any `Transform` implementor and
//! carry the exact matrix-composition contracts of the underlying
//! elementary operations.  The remaining traits describe the other
//! capabilities of a renderable object; a rendering backend implements
//! `Drawable` for what it draws.

use vstd::prelude::*;
use crate::fixed::abs_int;
use crate::math::{
    mat_bounded, mat_is_product, rotation_spec, scaling_spec, translation_spec, vec_bounded,
    Camera, Mat4x4, Vec3, LEN_LIMIT, MAT_LIMIT,
};
use crate::trig::DEG_LIMIT;

verus! {

/// A surface color in 8-bit channels.
pub trait Colored {
    fn set_color(&mut self, red: u8, green: u8, blue: u8);

    fn get_color(&self) -> (u8, u8, u8);
}

/// An object lit by a positioned light source.
pub trait Shadowed {
    fn light_source<P: Positioned>(&mut self, position: P);
}

/// An object that can be moved.
pub trait Positioned {
    fn translate_by(&mut self, v: Vec3);
}

/// An object that can be rotated.
pub trait Rotated {
    fn rotate_around(&mut self, d: i64, v: Vec3);
}

/// An object that can be scaled.
pub trait Scaled {
    fn scale_by(&mut self, v: Vec3);

    fn scaled_by(&mut self, d: i64);
}

/// A visibility flag: an invisible object is not drawn.
pub trait Visible {
    spec fn visibility(&self) -> bool;

    fn set_visibility(&mut self, visible: bool)
        ensures
            final(self).visibility() == visible,
    ;

    fn get_visibility(&self) -> (r: bool)
        ensures
            r == self.visibility(),
    ;
}

/// Ownership of a model matrix.
pub trait Transform {
    spec fn model(&self) -> Mat4x4;

    fn get_matrix(&self) -> (m: Mat4x4)
        ensures
            m == self.model(),
    ;

    fn set_matrix(&mut self, matrix: Mat4x4)
        ensures
            final(self).model() == matrix,
    ;
}

/// Ownership of mesh data: flat vertex positions, triangle indices and
/// per-vertex normals.
pub trait Meshed {
    spec fn mesh_vertices(&self) -> Seq<i64>;

    spec fn mesh_indices(&self) -> Seq<u32>;

    spec fn mesh_normals(&self) -> Seq<i64>;

    fn get_vertices(&self) -> (r: &Vec<i64>)
        ensures
            r@ == self.mesh_vertices(),
    ;

    fn set_vertices(&mut self, vertices: Vec<i64>)
        ensures
            final(self).mesh_vertices() == vertices@,
    ;

    fn get_indices(&self) -> (r: &Vec<u32>)
        ensures
            r@ == self.mesh_indices(),
    ;

    fn set_indices(&mut self, indices: Vec<u32>)
        ensures
            final(self).mesh_indices() == indices@,
    ;

    fn get_normals(&self) -> (r: &Vec<i64>)
        ensures
            r@ == self.mesh_normals(),
    ;

    fn set_normals(&mut self, normals: Vec<i64>)
        ensures
            final(self).mesh_normals() == normals@,
    ;
}

/// An object a rendering backend can draw with a camera.
pub trait Drawable {
    fn draw(&self, camera: &Camera);
}

/// Ownership of a linked shader program handle.
pub trait Shaded {
    spec fn shader_program(&self) -> u32;

    fn get_shader_program(&self) -> (r: u32)
        ensures
            r == self.shader_program(),
    ;

    fn set_shader_program(&mut self, id: u32)
        ensures
            final(self).shader_program() == id,
    ;
}

/// Pre-multiplies a translation by `v` onto the object's model matrix.
pub fn translate_by<T: Transform>(object: &mut T, v: Vec3)
    requires
        vec_bounded(v, LEN_LIMIT as int),
        mat_bounded(old(object).model(), MAT_LIMIT as int),
    ensures
        mat_is_product(final(object).model(), translation_spec(v), old(object).model()),
{
    let mut m = object.get_matrix();
    m.translate(v);
    object.set_matrix(m);
}

/// Pre-multiplies a rotation of `d` fixed-point degrees around the
/// axis `v` onto the object's model matrix.  A zero angle leaves the
/// model matrix unchanged.
pub fn rotate_around<T: Transform>(object: &mut T, d: i64, v: Vec3)
    requires
        abs_int(d as int) <= DEG_LIMIT as int,
        vec_bounded(v, 2 * crate::fixed::ONE as int),
        mat_bounded(old(object).model(), MAT_LIMIT as int),
    ensures
        mat_is_product(final(object).model(), rotation_spec(d as int, v), old(object).model()),
        d == 0 ==> final(object).model() == old(object).model(),
{
    let mut m = object.get_matrix();
    m.rotate(d, v);
    object.set_matrix(m);
}

/// Pre-multiplies a scaling by `v` onto the object's model matrix.
pub fn scale_by<T: Transform>(object: &mut T, v: Vec3)
    requires
        vec_bounded(v, LEN_LIMIT as int),
        mat_bounded(old(object).model(), MAT_LIMIT as int),
    ensures
        mat_is_product(final(object).model(), scaling_spec(v), old(object).model()),
{
    let mut m = object.get_matrix();
    m.scale(v);
    object.set_matrix(m);
}

/// Pre-multiplies a uniform scaling by `d` onto the object's model
/// matrix.
pub fn scaled_by<T: Transform>(object: &mut T, d: i64)
    requires
        abs_int(d as int) <= LEN_LIMIT as int,
        mat_bounded(old(object).model(), MAT_LIMIT as int),
    ensures
        mat_is_product(
            final(object).model(),
            scaling_spec(Vec3 { x: d, y: d, z: d }),
            old(object).model(),
        ),
{
    let mut m = object.get_matrix();
    m.scale(Vec3 { x: d, y: d, z: d });
    object.set_matrix(m);
}

} // verus!
