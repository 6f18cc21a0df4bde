//! Materials: the defaults of a material file, its errors, and the cache
//! that hands out one handle per material path.

use vstd::prelude::*;

use crate::components::MaterialHandle;
use crate::paths::{same_path, is_same_path};
use crate::text::concat3;

verus! {

/// The blend mode of a material file that names none.
pub fn default_opaque() -> (r: String)
    ensures
        r@ == "opaque"@,
{
    "opaque".to_owned()
}

/// The cull mode of a material file that names none.
pub fn default_back() -> (r: String)
    ensures
        r@ == "back"@,
{
    "back".to_owned()
}

/// Why a material file could not be loaded; each carries the message of the
/// underlying error.
#[derive(Debug, Clone)]
pub enum MaterialError {
    IoError(String),
    ParseError(String),
}

impl MaterialError {
    /// The human-readable text of the error.
    pub fn message(&self) -> (m: String)
        ensures
            m@ == match self {
                MaterialError::IoError(e) => "Material IO error: "@ + e@,
                MaterialError::ParseError(e) => "Material parse error: "@ + e@,
            },
    {
        proof {
            reveal_strlit("");
        }
        match self {
            MaterialError::IoError(e) => concat3("Material IO error: ", e.as_str(), ""),
            MaterialError::ParseError(e) => concat3("Material parse error: ", e.as_str(), ""),
        }
    }
}

/// The handle of the first entry whose path is the same as `path`.
pub open spec fn spec_lookup(entries: Seq<(Seq<char>, usize)>, path: Seq<char>, i: int) -> Option<usize>
    decreases entries.len() - i,
{
    if i < 0 || i >= entries.len() {
        None
    } else if is_same_path(entries[i].0, path) {
        Some(entries[i].1)
    } else {
        spec_lookup(entries, path, i + 1)
    }
}

/// The index of the first entry whose path is the same as `path`.
pub open spec fn spec_entry_index(entries: Seq<(Seq<char>, usize)>, path: Seq<char>, i: int) -> Option<int>
    decreases entries.len() - i,
{
    if i < 0 || i >= entries.len() {
        None
    } else if is_same_path(entries[i].0, path) {
        Some(i)
    } else {
        spec_entry_index(entries, path, i + 1)
    }
}

/// The entries after recording `handle` for `path`: an entry for the same
/// path keeps its path and takes the handle, otherwise a new entry is added.
pub open spec fn spec_record(entries: Seq<(Seq<char>, usize)>, path: Seq<char>, handle: usize) -> Seq<(Seq<char>, usize)> {
    match spec_entry_index(entries, path, 0) {
        Some(i) => entries.update(i, (entries[i].0, handle)),
        None => entries.push((path, handle)),
    }
}

proof fn lemma_index_lookup(entries: Seq<(Seq<char>, usize)>, path: Seq<char>, i: int)
    requires
        0 <= i <= entries.len(),
    ensures
        spec_lookup(entries, path, i) == match spec_entry_index(entries, path, i) {
            Some(k) => Some(entries[k].1),
            None => None,
        },
        match spec_entry_index(entries, path, i) {
            Some(k) => i <= k < entries.len() && is_same_path(entries[k].0, path),
            None => true,
        },
    decreases entries.len() - i,
{
    if i < entries.len() && !is_same_path(entries[i].0, path) {
        lemma_index_lookup(entries, path, i + 1);
    }
}

proof fn lemma_lookup_prefix(entries: Seq<(Seq<char>, usize)>, other: Seq<(Seq<char>, usize)>, path: Seq<char>, i: int, k: int)
    requires
        0 <= i <= k <= entries.len(),
        k <= other.len(),
        forall|j: int| i <= j < k ==> #[trigger] other[j] == entries[j] && !is_same_path(entries[j].0, path),
    ensures
        spec_lookup(other, path, i) == spec_lookup(other, path, k),
    decreases k - i,
{
    if i < k {
        assert(other[i] == entries[i]);
        lemma_lookup_prefix(entries, other, path, i + 1, k);
    }
}

proof fn lemma_entry_index_first(entries: Seq<(Seq<char>, usize)>, path: Seq<char>, i: int)
    requires
        0 <= i <= entries.len(),
    ensures
        match spec_entry_index(entries, path, i) {
            Some(k) => i <= k < entries.len() && is_same_path(entries[k].0, path) && forall|j: int|
                i <= j < k ==> !is_same_path(#[trigger] entries[j].0, path),
            None => forall|j: int| i <= j < entries.len() ==> !is_same_path(#[trigger] entries[j].0, path),
        },
    decreases entries.len() - i,
{
    if i < entries.len() && !is_same_path(entries[i].0, path) {
        lemma_entry_index_first(entries, path, i + 1);
    }
}

/// A material loaded for a path is what the cache then gives for that
/// path: after `insert(path, ..)` or a successful `get_or_load(path, ..)`
/// returned handle `h`, `lookup(path)` gives `h`, so a later
/// `get_or_load(path, ..)` returns `h` without loading again.
pub proof fn lemma_inserted_path_found(entries: Seq<(Seq<char>, usize)>, path: Seq<char>, h: usize)
    ensures
        spec_lookup(spec_record(entries, path, h), path, 0) == Some(h),
{
    lemma_entry_index_first(entries, path, 0);
    let r = spec_record(entries, path, h);
    match spec_entry_index(entries, path, 0) {
        Some(k) => {
            lemma_lookup_prefix(entries, r, path, 0, k);
        },
        None => {
            lemma_lookup_prefix(entries, r, path, 0, entries.len() as int);
            assert(r[entries.len() as int] == (path, h));
        },
    }
}

/// Loaded materials, each reachable by the handle it was given and, when
/// loaded from a file, by that file's path.
pub struct MaterialCache<M> {
    materials: Vec<M>,
    paths: Vec<(String, MaterialHandle)>,
    default_handle: Option<MaterialHandle>,
}

impl<M> MaterialCache<M> {
    /// The materials, in handle order.
    pub closed spec fn materials(&self) -> Seq<M> {
        self.materials@
    }

    /// The recorded paths with their handles.
    pub closed spec fn entries(&self) -> Seq<(Seq<char>, usize)> {
        self.paths@.map_values(|e: (String, MaterialHandle)| (e.0@, e.1.0))
    }

    /// The handle of the default material, once there is one.
    pub closed spec fn default_material(&self) -> Option<usize> {
        match self.default_handle {
            Some(h) => Some(h.0),
            None => None,
        }
    }

    /// Every handle the cache gave out refers to a material.
    #[verifier::type_invariant]
    closed spec fn well_formed(&self) -> bool {
        &&& forall|k: int| 0 <= k < self.paths@.len() ==> (#[trigger] self.paths@[k]).1.0 < self.materials@.len()
        &&& match self.default_handle {
            Some(h) => h.0 < self.materials@.len(),
            None => true,
        }
    }

    /// An empty cache.
    pub fn new() -> (c: Self)
        ensures
            c.materials() == Seq::<M>::empty(),
            c.entries() == Seq::<(Seq<char>, usize)>::empty(),
            c.default_material() is None,
    {
        let c = MaterialCache { materials: Vec::new(), paths: Vec::new(), default_handle: None };
        proof {
            assert(c.entries() =~= Seq::<(Seq<char>, usize)>::empty());
        }
        c
    }

    /// How many materials the cache holds.
    pub fn len(&self) -> (n: usize)
        ensures
            n == self.materials().len(),
    {
        self.materials.len()
    }

    /// The handle recorded for the path, if the path was loaded before.
    pub fn lookup(&self, path: &str) -> (r: Option<MaterialHandle>)
        ensures
            match r {
                Some(h) => spec_lookup(self.entries(), path@, 0) == Some(h.0) && h.0 < self.materials().len(),
                None => spec_lookup(self.entries(), path@, 0) is None,
            },
    {
        proof {
            use_type_invariant(self);
        }
        let found = self.entry_index(path);
        match found {
            Some(k) => {
                proof {
                    assert(self.entries()[k as int] == (self.paths@[k as int].0@, self.paths@[k as int].1.0));
                    assert(spec_entry_index(self.entries(), path@, 0) == Some(k as int));
                    assert(spec_lookup(self.entries(), path@, 0) == Some(self.paths@[k as int].1.0));
                    assert(self.paths@[k as int].1.0 < self.materials@.len());
                }
                Some(self.paths[k].1)
            },
            None => None,
        }
    }

    fn entry_index(&self, path: &str) -> (r: Option<usize>)
        ensures
            r == match spec_entry_index(self.entries(), path@, 0) {
                Some(k) => Some(k as usize),
                None => None::<usize>,
            },
            spec_lookup(self.entries(), path@, 0) == match spec_entry_index(self.entries(), path@, 0) {
                Some(k) => Some(self.entries()[k].1),
                None => None,
            },
            match r {
                Some(k) => k < self.paths@.len() && spec_entry_index(self.entries(), path@, 0) == Some(k as int),
                None => spec_entry_index(self.entries(), path@, 0) is None,
            },
            match spec_entry_index(self.entries(), path@, 0) {
                Some(k) => 0 <= k < self.entries().len(),
                None => true,
            },
    {
        let ghost entries = self.entries();
        proof {
            lemma_index_lookup(entries, path@, 0);
        }
        let mut i: usize = 0;
        while i < self.paths.len()
            invariant
                i <= self.paths@.len(),
                entries == self.entries(),
                entries.len() == self.paths@.len(),
                spec_entry_index(entries, path@, 0) == spec_entry_index(entries, path@, i as int),
            decreases self.paths@.len() - i,
        {
            proof {
                assert(entries[i as int].0 == self.paths@[i as int].0@);
            }
            if same_path(self.paths[i].0.as_str(), path) {
                proof {
                    lemma_index_lookup(entries, path@, 0);
                }
                return Some(i);
            }
            i = i + 1;
        }
        proof {
            lemma_index_lookup(entries, path@, 0);
        }
        None
    }

    /// Adds a material loaded from `path` and records its handle for the
    /// path; the new handle is the number of materials held before.
    pub fn insert(&mut self, path: &str, material: M) -> (h: MaterialHandle)
        ensures
            h.0 == old(self).materials().len(),
            final(self).materials() == old(self).materials().push(material),
            final(self).entries() == spec_record(old(self).entries(), path@, h.0),
            final(self).default_material() == old(self).default_material(),
    {
        proof {
            use_type_invariant(&*self);
        }
        let h = MaterialHandle(self.materials.len());
        let found = self.entry_index(path);
        let ghost entries = self.entries();
        let ghost old_materials = self.materials();
        let ghost old_default = self.default_material();
        let mut whole = MaterialCache::new();
        std::mem::swap(self, &mut whole);
        proof {
            use_type_invariant(&whole);
        }
        let MaterialCache { mut materials, mut paths, default_handle } = whole;
        materials.push(material);
        match found {
            Some(k) => {
                let key = paths[k].0.clone();
                paths.set(k, (key, h));
            },
            None => {
                paths.push((path.to_owned(), h));
            },
        }
        *self = MaterialCache { materials, paths, default_handle };
        proof {
            assert(entries == old(self).entries());
            match found {
                Some(k) => {
                    assert(spec_entry_index(entries, path@, 0) == Some(k as int));
                    assert(self.entries() =~= entries.update(k as int, (entries[k as int].0, h.0)));
                },
                None => {
                    assert(spec_entry_index(entries, path@, 0) is None);
                    assert(self.entries() =~= entries.push((path@, h.0)));
                },
            }
        }
        h
    }

    /// Adds a material that no path names, such as a built-in default.
    pub fn insert_unnamed(&mut self, material: M) -> (h: MaterialHandle)
        ensures
            h.0 == old(self).materials().len(),
            final(self).materials() == old(self).materials().push(material),
            final(self).entries() == old(self).entries(),
            final(self).default_material() == old(self).default_material(),
    {
        proof {
            use_type_invariant(&*self);
        }
        let h = MaterialHandle(self.materials.len());
        let mut whole = MaterialCache::new();
        std::mem::swap(self, &mut whole);
        proof {
            use_type_invariant(&whole);
        }
        let MaterialCache { mut materials, paths, default_handle } = whole;
        materials.push(material);
        *self = MaterialCache { materials, paths, default_handle };
        h
    }

    /// The material a handle refers to.
    pub fn get(&self, handle: MaterialHandle) -> (m: &M)
        requires
            handle.0 < self.materials().len(),
        ensures
            *m == self.materials()[handle.0 as int],
    {
        &self.materials[handle.0]
    }

    /// The handle of the default material, once one was chosen.
    pub fn default_handle(&self) -> (r: Option<MaterialHandle>)
        ensures
            match r {
                Some(h) => self.default_material() == Some(h.0) && h.0 < self.materials().len(),
                None => self.default_material() is None,
            },
    {
        proof {
            use_type_invariant(self);
        }
        self.default_handle
    }

    /// Chooses the default material.
    pub fn set_default(&mut self, handle: MaterialHandle)
        requires
            handle.0 < old(self).materials().len(),
        ensures
            final(self).default_material() == Some(handle.0),
            final(self).materials() == old(self).materials(),
            final(self).entries() == old(self).entries(),
    {
        proof {
            use_type_invariant(&*self);
        }
        self.default_handle = Some(handle);
    }

    /// The material for a path: the one loaded for it before, if any;
    /// otherwise what `load` gives, which is then cached under the path. A
    /// failed load caches nothing and its error is returned.
    pub fn get_or_load<L: FnOnce() -> Result<M, MaterialError>>(&mut self, path: &str, load: L) -> (r: Result<
        MaterialHandle,
        MaterialError,
    >)
        requires
            spec_lookup(old(self).entries(), path@, 0) is None ==> call_requires(load, ()),
        ensures
            final(self).default_material() == old(self).default_material(),
            r matches Ok(h) ==> h.0 < final(self).materials().len(),
            match spec_lookup(old(self).entries(), path@, 0) {
                Some(h) => r == Ok::<MaterialHandle, MaterialError>(MaterialHandle(h)) && final(self).materials()
                    == old(self).materials() && final(self).entries() == old(self).entries(),
                None => match r {
                    Ok(h) => h.0 == old(self).materials().len() && final(self).materials().len() == h.0 + 1
                        && final(self).materials().drop_last() == old(self).materials() && call_ensures(
                        load,
                        (),
                        Ok::<M, MaterialError>(final(self).materials().last()),
                    ) && final(self).entries() == spec_record(old(self).entries(), path@, h.0),
                    Err(e) => call_ensures(load, (), Err::<M, MaterialError>(e)) && final(self).materials()
                        == old(self).materials() && final(self).entries() == old(self).entries(),
                },
            },
    {
        if let Some(h) = self.lookup(path) {
            return Ok(h);
        }
        match load() {
            Ok(m) => {
                let h = self.insert(path, m);
                proof {
                    assert(self.materials().drop_last() =~= old(self).materials());
                }
                Ok(h)
            },
            Err(e) => Err(e),
        }
    }

    /// The default material, chosen once: the one loaded from `path`, or,
    /// when that load fails, `fallback` added under no path.
    pub fn ensure_default<L: FnOnce() -> Result<M, MaterialError>>(&mut self, path: &str, load: L, fallback: M) -> (h:
        MaterialHandle)
        requires
            old(self).default_material() is None && spec_lookup(old(self).entries(), path@, 0) is None
                ==> call_requires(load, ()),
        ensures
            final(self).default_material() == Some(h.0),
            h.0 < final(self).materials().len(),
            match old(self).default_material() {
                Some(d) => h.0 == d && final(self).materials() == old(self).materials() && final(self).entries()
                    == old(self).entries(),
                None => match spec_lookup(old(self).entries(), path@, 0) {
                    Some(k) => h.0 == k && final(self).materials() == old(self).materials()
                        && final(self).entries() == old(self).entries(),
                    None => h.0 == old(self).materials().len() && final(self).materials().len() == h.0 + 1
                        && final(self).materials().drop_last() == old(self).materials() && (call_ensures(
                        load,
                        (),
                        Ok::<M, MaterialError>(final(self).materials().last()),
                    ) && final(self).entries() == spec_record(old(self).entries(), path@, h.0) || (exists|
                        e: MaterialError,
                    | call_ensures(load, (), Err::<M, MaterialError>(e))) && final(self).materials().last()
                        == fallback && final(self).entries() == old(self).entries()),
                },
            },
    {
        if let Some(h) = self.default_handle() {
            return h;
        }
        let h = match self.get_or_load(path, load) {
            Ok(h) => h,
            Err(e) => {
                let h = self.insert_unnamed(fallback);
                proof {
                    assert(self.materials().drop_last() =~= old(self).materials());
                }
                h
            },
        };
        self.set_default(h);
        h
    }
}

} // verus!
