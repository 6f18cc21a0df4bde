//! Entity components that carry no geometry: cache handles, identity, tags
//! and markers, and the tag operations scripts perform on them.

use vstd::prelude::*;

use crate::text::str_eq;

verus! {

/// Handle into the mesh cache.
#[derive(Debug, Clone, Copy, PartialEq, Eq, Hash, Structural)]
pub struct MeshHandle(pub usize);

/// Handle into the material cache.
#[derive(Debug, Clone, Copy, PartialEq, Eq, Hash, Structural)]
pub struct MaterialHandle(pub usize);

/// Handle into the splat cache.
#[derive(Debug, Clone, Copy, PartialEq, Eq, Hash, Structural)]
pub struct SplatHandle(pub usize);

/// Marks an entity as a mesh to render with a material.
#[derive(Debug, Clone, Copy)]
pub struct MeshRenderer {
    pub mesh_handle: MeshHandle,
    pub material_handle: MaterialHandle,
}

/// Marks an entity as a Gaussian splat cloud to render.
#[derive(Debug, Clone, Copy)]
pub struct GaussianSplat {
    pub splat_handle: SplatHandle,
}

/// Which view a camera renders: the main one, or a named other.
#[derive(Debug, Clone)]
pub enum CameraRole {
    Main,
    Other(String),
}

impl CameraRole {
    /// The role's name as scenes write it: `main`, or the other role's name.
    pub fn name(&self) -> (r: String)
        ensures
            r@ == match self {
                CameraRole::Main => "main"@,
                CameraRole::Other(s) => s@,
            },
    {
        match self {
            CameraRole::Main => "main".to_owned(),
            CameraRole::Other(s) => s.clone(),
        }
    }

    /// Whether this is the main camera.
    pub fn is_main(&self) -> (r: bool)
        ensures
            r == (self is Main),
    {
        match self {
            CameraRole::Main => true,
            CameraRole::Other(_) => false,
        }
    }
}

/// The id an entity has in its scene file.
#[derive(Debug, Clone)]
pub struct EntityId(pub String);

/// Marker: the entity is not drawn.
#[derive(Debug, Clone, Copy)]
pub struct Hidden;

/// Marks an entity owned by a named entity pool, and whether it is in use.
#[derive(Debug, Clone)]
pub struct Pooled {
    pub pool_name: String,
    pub active: bool,
}

/// The searchable tags of an entity, in the order they were added.
#[derive(Debug, Clone)]
pub struct Tags(pub Vec<String>);

/// The tags as plain character sequences.
pub open spec fn tag_seq(t: Tags) -> Seq<Seq<char>> {
    t.0@.map_values(|s: String| s@)
}

impl Tags {
    /// Whether the entity carries `tag`.
    pub fn has_tag(&self, tag: &str) -> (r: bool)
        ensures
            r == tag_seq(*self).contains(tag@),
    {
        let mut i: usize = 0;
        while i < self.0.len()
            invariant
                i <= self.0@.len(),
                forall|j: int| 0 <= j < i ==> tag_seq(*self)[j] != tag@,
            decreases self.0@.len() - i,
        {
            if str_eq(self.0[i].as_str(), tag) {
                proof {
                    assert(tag_seq(*self)[i as int] == tag@);
                }
                return true;
            }
            i = i + 1;
        }
        false
    }

    /// Adds `tag` at the end unless the entity already carries it.
    pub fn add_tag(&mut self, tag: &str)
        ensures
            tag_seq(*final(self)) == if tag_seq(*old(self)).contains(tag@) {
                tag_seq(*old(self))
            } else {
                tag_seq(*old(self)).push(tag@)
            },
    {
        if !self.has_tag(tag) {
            let ghost before = tag_seq(*self);
            self.0.push(tag.to_owned());
            proof {
                assert(tag_seq(*self) =~= before.push(tag@));
            }
        }
    }

    /// Removes every occurrence of `tag`, keeping the others in order.
    pub fn remove_tag(&mut self, tag: &str)
        ensures
            tag_seq(*final(self)) == tag_seq(*old(self)).filter(|t: Seq<char>| t != tag@),
    {
        let ghost all = tag_seq(*self);
        let ghost keep = |t: Seq<char>| t != tag@;
        let mut kept: Vec<String> = Vec::new();
        let mut i: usize = 0;
        while i < self.0.len()
            invariant
                i <= self.0@.len(),
                all == tag_seq(*self),
                keep == (|t: Seq<char>| t != tag@),
                kept@.map_values(|s: String| s@) == all.take(i as int).filter(keep),
            decreases self.0@.len() - i,
        {
            let ghost prev = kept@.map_values(|s: String| s@);
            proof {
                assert(all.take(i + 1) =~= all.take(i as int).push(all[i as int]));
                all.take(i as int).lemma_filter_push(all[i as int], keep);
                assert(all[i as int] == self.0@[i as int]@);
            }
            if !str_eq(self.0[i].as_str(), tag) {
                let t = self.0[i].clone();
                kept.push(t);
                proof {
                    assert(kept@.map_values(|s: String| s@) =~= prev.push(all[i as int]));
                }
            } else {
                proof {
                    assert(kept@.map_values(|s: String| s@) =~= prev);
                }
            }
            i = i + 1;
        }
        proof {
            assert(all.take(self.0@.len() as int) =~= all);
        }
        self.0 = kept;
    }

    /// The first tag, if any.
    pub fn first_tag(&self) -> (r: Option<String>)
        ensures
            match r {
                Some(t) => tag_seq(*self).len() > 0 && t@ == tag_seq(*self)[0],
                None => tag_seq(*self).len() == 0,
            },
    {
        if self.0.len() == 0 {
            None
        } else {
            Some(self.0[0].clone())
        }
    }

    /// Whether the entity carries every one of `required`.
    pub fn has_all_tags(&self, required: &Vec<String>) -> (r: bool)
        ensures
            r == carries_all(*self, required@),
    {
        let mut k: usize = 0;
        while k < required.len()
            invariant
                k <= required@.len(),
                forall|j: int| 0 <= j < k ==> tag_seq(*self).contains(#[trigger] required@[j]@),
            decreases required@.len() - k,
        {
            if !self.has_tag(required[k].as_str()) {
                return false;
            }
            k = k + 1;
        }
        true
    }
}

/// The entity carries every one of `required`.
pub open spec fn carries_all(t: Tags, required: Seq<String>) -> bool {
    forall|k: int| 0 <= k < required.len() ==> tag_seq(t).contains(#[trigger] required[k]@)
}

/// The ids of the entities, among `entities`, that carry every tag in
/// `required`, in the order the entities are given.
pub fn find_by_tags(entities: &Vec<(EntityId, Tags)>, required: &Vec<String>) -> (r: Vec<String>)
    ensures
        r@.map_values(|s: String| s@) == entities@.filter(|e: (EntityId, Tags)| carries_all(e.1, required@)).map_values(
            |e: (EntityId, Tags)| e.0.0@,
        ),
{
    let ghost pred = |e: (EntityId, Tags)| carries_all(e.1, required@);
    let ghost f = |e: (EntityId, Tags)| e.0.0@;
    let mut out: Vec<String> = Vec::new();
    let mut i: usize = 0;
    while i < entities.len()
        invariant
            i <= entities@.len(),
            pred == (|e: (EntityId, Tags)| carries_all(e.1, required@)),
            f == (|e: (EntityId, Tags)| e.0.0@),
            out@.map_values(|s: String| s@) == entities@.take(i as int).filter(pred).map_values(f),
        decreases entities@.len() - i,
    {
        let ghost prev = out@.map_values(|s: String| s@);
        let ghost e = entities@[i as int];
        proof {
            assert(entities@.take(i + 1) =~= entities@.take(i as int).push(e));
            entities@.take(i as int).lemma_filter_push(e, pred);
        }
        if entities[i].1.has_all_tags(required) {
            let id = entities[i].0.0.clone();
            out.push(id);
            proof {
                assert(out@.map_values(|s: String| s@) =~= prev.push(f(e)));
                assert(entities@.take(i as int).filter(pred).push(e).map_values(f)
                    =~= entities@.take(i as int).filter(pred).map_values(f).push(f(e)));
            }
        } else {
            proof {
                assert(out@.map_values(|s: String| s@) =~= prev);
            }
        }
        i = i + 1;
    }
    proof {
        assert(entities@.take(entities@.len() as int) =~= entities@);
    }
    out
}

// ---------------------------------------------------------------------------
// Laws
// ---------------------------------------------------------------------------

/// After a tag is added, the entity carries it.
pub proof fn lemma_added_tag_present(before: Seq<Seq<char>>, tag: Seq<char>)
    ensures
        (if before.contains(tag) { before } else { before.push(tag) }).contains(tag),
{
    if !before.contains(tag) {
        assert(before.push(tag)[before.len() as int] == tag);
    }
}

/// Adding a tag twice leaves the tags as adding it once.
pub proof fn lemma_add_tag_idempotent(before: Seq<Seq<char>>, tag: Seq<char>)
    ensures
        ({
            let once = if before.contains(tag) { before } else { before.push(tag) };
            (if once.contains(tag) { once } else { once.push(tag) }) == once
        }),
{
    lemma_added_tag_present(before, tag);
}

/// After a tag is removed, the entity no longer carries it, and every other
/// tag it carried stays.
pub proof fn lemma_removed_tag_absent(before: Seq<Seq<char>>, tag: Seq<char>, other: Seq<char>)
    ensures
        !before.filter(|t: Seq<char>| t != tag).contains(tag),
        other != tag && before.contains(other) ==> before.filter(|t: Seq<char>| t != tag).contains(other),
{
    let kept = before.filter(|t: Seq<char>| t != tag);
    if kept.contains(tag) {
        let k = choose|k: int| 0 <= k < kept.len() && kept[k] == tag;
        before.lemma_filter_pred(|t: Seq<char>| t != tag, k);
    }
    if other != tag && before.contains(other) {
        let k = choose|k: int| 0 <= k < before.len() && before[k] == other;
        before.lemma_filter_contains(|t: Seq<char>| t != tag, k);
    }
}

} // verus!
