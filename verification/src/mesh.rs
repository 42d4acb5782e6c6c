//! Mesh descriptions assembled by a small builder: which mesh file to load
//! and, optionally, which texture to put on it.  The driver turns a built
//! [`Mesh`] into GPU buffers.

use vstd::prelude::*;

verus! {

/// A validated mesh description.
#[derive(Clone, Debug, PartialEq, Eq)]
pub struct Mesh {
    pub mesh_filename: &'static str,
    pub img_filename: Option<&'static str>,
}

impl Mesh {
    /// Build a mesh description from a builder's choices.
    pub fn from_builder(builder: MeshBuilder) -> (r: Result<Mesh, BuildError>)
        ensures
            match r {
                Result::Ok(mesh) => mesh.mesh_filename == builder.spec_mesh_filename()
                    && mesh.img_filename == builder.spec_img_filename(),
                Result::Err(_) => false,
            },
    {
        Ok(Mesh { mesh_filename: builder.mesh_filename, img_filename: builder.img_filename })
    }
}

/// Accumulates the choices for a mesh before it is built.
#[derive(Clone, Eq, PartialEq)]
pub struct MeshBuilder {
    mesh_filename: &'static str,
    img_filename: Option<&'static str>,
}

impl MeshBuilder {
    /// The chosen mesh file name.
    pub closed spec fn spec_mesh_filename(self) -> &'static str {
        self.mesh_filename
    }

    /// The chosen texture file name, if any.
    pub closed spec fn spec_img_filename(self) -> Option<&'static str> {
        self.img_filename
    }

    /// A builder with no choices made.
    pub fn new() -> (r: MeshBuilder)
        ensures
            r.spec_mesh_filename()@ =~= Seq::<char>::empty(),
            r.spec_img_filename() is None,
    {
        proof {
            reveal_strlit("");
        }
        MeshBuilder { mesh_filename: "", img_filename: None }
    }

    /// Choose the mesh file.
    pub fn with_mesh(self, filename: &'static str) -> (r: MeshBuilder)
        ensures
            r.spec_mesh_filename() == filename,
            r.spec_img_filename() == self.spec_img_filename(),
    {
        MeshBuilder { mesh_filename: filename, ..self }
    }

    /// Choose the texture file.
    pub fn with_texture(self, filename: &'static str) -> (r: MeshBuilder)
        ensures
            r.spec_mesh_filename() == self.spec_mesh_filename(),
            r.spec_img_filename() == Some(filename),
    {
        MeshBuilder { img_filename: Some(filename), ..self }
    }

    /// Build the mesh description.
    pub fn build(self) -> (r: Result<Mesh, BuildError>)
        ensures
            match r {
                Result::Ok(mesh) => mesh.mesh_filename == self.spec_mesh_filename()
                    && mesh.img_filename == self.spec_img_filename(),
                Result::Err(_) => false,
            },
    {
        Mesh::from_builder(self)
    }
}

/// Building a mesh description cannot currently fail; the type is kept so
/// that callers are already written for future fallible validation.  No
/// operation constructs its single placeholder variant.
#[derive(Clone, Copy, Debug, PartialEq, Eq)]
pub enum BuildError {
    Invalid,
}

} // verus!
