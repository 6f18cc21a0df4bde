//! Checking a request to spawn an entity that renders a mesh, before any
//! GPU work is done for it.

use vstd::prelude::*;

use crate::text::{concat3, str_eq};

verus! {

/// What a mesh spawn request asks for, with the defaults filled in.
#[derive(Debug, Clone)]
pub struct MeshSpawn {
    pub entity_id: String,
    pub mesh: String,
    pub material: String,
}

/// The error for the first missing part of a request, in the order the
/// parts are needed: the entity id, a GPU to upload to, the components, and
/// among them a mesh renderer.
pub open spec fn spawn_error(
    entity_id: Option<Seq<char>>,
    gpu_ready: bool,
    has_components: bool,
    has_mesh_renderer: bool,
) -> Option<Seq<char>> {
    if entity_id is None {
        Some("Missing 'entity_id' parameter"@)
    } else if !gpu_ready {
        Some("GPU not initialized"@)
    } else if !has_components {
        Some("Missing 'components' parameter"@)
    } else if !has_mesh_renderer {
        Some("Missing 'mesh_renderer' in components"@)
    } else {
        None
    }
}

/// Checks a mesh spawn request: fails with the first missing part (see
/// `spawn_error`), else gives the entity id, the mesh (a procedural cube
/// unless named) and the material (the procedural default unless named).
pub fn check_mesh_spawn(
    entity_id: Option<&str>,
    gpu_ready: bool,
    has_components: bool,
    has_mesh_renderer: bool,
    mesh: Option<&str>,
    material: Option<&str>,
) -> (r: Result<MeshSpawn, String>)
    ensures
        match spawn_error(
            match entity_id {
                Some(e) => Some(e@),
                None => None,
            },
            gpu_ready,
            has_components,
            has_mesh_renderer,
        ) {
            Some(msg) => r matches Err(m) && m@ == msg,
            None => r matches Ok(s) && Some(s.entity_id@) == match entity_id {
                Some(e) => Some(e@),
                None => None::<Seq<char>>,
            } && s.mesh@ == match mesh {
                Some(m) => m@,
                None => "procedural:cube"@,
            } && s.material@ == match material {
                Some(m) => m@,
                None => "procedural:default"@,
            },
        },
{
    let id = match entity_id {
        Some(id) => id.to_owned(),
        None => {
            return Err("Missing 'entity_id' parameter".to_owned());
        },
    };
    if !gpu_ready {
        return Err("GPU not initialized".to_owned());
    }
    if !has_components {
        return Err("Missing 'components' parameter".to_owned());
    }
    if !has_mesh_renderer {
        return Err("Missing 'mesh_renderer' in components".to_owned());
    }
    let mesh = match mesh {
        Some(m) => m.to_owned(),
        None => "procedural:cube".to_owned(),
    };
    let material = match material {
        Some(m) => m.to_owned(),
        None => "procedural:default".to_owned(),
    };
    Ok(MeshSpawn { entity_id: id, mesh, material })
}

/// Checks that a spawned entity can be added: a scene must be loaded, and
/// no entity may already have the id.
pub fn check_spawn_target(scene_loaded: bool, already_exists: bool, entity_id: &str) -> (r: Result<(), String>)
    ensures
        !scene_loaded ==> (r matches Err(m) && m@ == "No scene loaded"@),
        scene_loaded && already_exists ==> (r matches Err(m) && m@ == "Entity '"@ + entity_id@ + "' already exists"@),
        scene_loaded && !already_exists ==> r is Ok,
{
    if !scene_loaded {
        return Err("No scene loaded".to_owned());
    }
    if already_exists {
        return Err(concat3("Entity '", entity_id, "' already exists"));
    }
    Ok(())
}

/// The collider shapes a spawn request can ask for.
#[derive(Debug, Clone, Copy, PartialEq, Eq, Structural)]
pub enum ColliderShape {
    Sphere,
    Capsule,
    Box,
}

/// The collider shape a request names: a sphere or a capsule by name, a box
/// otherwise (also when none is named).
pub fn collider_shape(shape: Option<&str>) -> (r: ColliderShape)
    ensures
        r == match shape {
            Some(s) => if s@ == "sphere"@ {
                ColliderShape::Sphere
            } else if s@ == "capsule"@ {
                ColliderShape::Capsule
            } else {
                ColliderShape::Box
            },
            None => ColliderShape::Box,
        },
{
    match shape {
        Some(s) => if str_eq(s, "sphere") {
            ColliderShape::Sphere
        } else if str_eq(s, "capsule") {
            ColliderShape::Capsule
        } else {
            ColliderShape::Box
        },
        None => ColliderShape::Box,
    }
}

} // verus!
