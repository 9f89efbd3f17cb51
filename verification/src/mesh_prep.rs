//! Cloth topology: welded OBJ meshes and procedural grids, their edges, hinges and braces, and the
//! constraint tables that the solvers read.

pub mod batches;
pub mod braces;
pub mod cloth_mesh;
pub mod grid_fit;
pub mod grid_fit_laws;
pub mod grid_laws;
pub mod hanging;
pub mod laws;
pub mod mass;
pub mod mesh_laws;
pub mod neighbors;
pub mod obj;
pub mod obj_laws;
pub mod obj_mesh;
pub mod ops;
pub mod sort;
pub mod text;
pub mod text_laws;
pub mod topology;
pub mod weld;

pub use cloth_mesh::{particle_ids, ClothMeshData, Compliances};
pub use hanging::grid_cloth_hanging;
pub use obj_mesh::parse_welded_obj;
pub use ops::{MeshModel, MeshOps};
pub use topology::find_tri_neighbors;
