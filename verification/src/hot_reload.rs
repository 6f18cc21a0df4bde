//! Hot reloading: file-change notifications are gathered once per frame,
//! each changed file reloaded once, and changed scripts matched to the
//! entities running them.

use vstd::prelude::*;

use crate::paths::{path_file_name, same_path, spec_path_file_name, is_same_path};
use crate::text::{chars_eq, to_chars};

verus! {

/// A change the file watcher reports, with the path of the changed file.
#[derive(Debug, Clone)]
pub enum WatchEvent {
    ShaderChanged(String),
    SceneChanged(String),
    MaterialChanged(String),
    PipelineChanged(String),
    SplatChanged(String),
    ScriptChanged(String),
}

/// The kinds of change.
#[derive(Debug, Clone, Copy, PartialEq, Eq, Structural)]
pub enum ChangeKind {
    Shader,
    Scene,
    Material,
    Pipeline,
    Splat,
    Script,
}

/// The kind and path of a change.
pub open spec fn change_of(e: WatchEvent) -> (ChangeKind, Seq<char>) {
    match e {
        WatchEvent::ShaderChanged(p) => (ChangeKind::Shader, p@),
        WatchEvent::SceneChanged(p) => (ChangeKind::Scene, p@),
        WatchEvent::MaterialChanged(p) => (ChangeKind::Material, p@),
        WatchEvent::PipelineChanged(p) => (ChangeKind::Pipeline, p@),
        WatchEvent::SplatChanged(p) => (ChangeKind::Splat, p@),
        WatchEvent::ScriptChanged(p) => (ChangeKind::Script, p@),
    }
}

/// What a frame's changes call for: each changed shader, scene, splat and
/// script file once, and whether the pipeline file changed. Material
/// changes are only reported.
#[derive(Debug, Clone)]
pub struct ChangeBatch {
    pub shader_paths: Vec<String>,
    pub scene_paths: Vec<String>,
    pub splat_paths: Vec<String>,
    pub script_paths: Vec<String>,
    pub pipeline_changed: bool,
}

/// `paths` holds the paths of the first `n` changes of kind `k`, each
/// once as paths compare.
pub open spec fn collects_upto(paths: Seq<String>, events: Seq<WatchEvent>, k: ChangeKind, n: int) -> bool {
    &&& forall|a: int, b: int| 0 <= a < b < paths.len() ==> !is_same_path(#[trigger] paths[a]@, #[trigger] paths[b]@)
    &&& forall|a: int| 0 <= a < paths.len() ==> exists|i: int|
        0 <= i < n && #[trigger] change_of(events[i]) == (k, (#[trigger] paths[a])@)
    &&& forall|i: int| 0 <= i < n && (#[trigger] change_of(events[i])).0 == k ==> listed(paths, change_of(events[i]).1)
}

/// The path, or one the same as it, is in `paths`.
pub open spec fn listed(paths: Seq<String>, p: Seq<char>) -> bool {
    exists|a: int| 0 <= a < paths.len() && ((#[trigger] paths[a])@ == p || is_same_path(paths[a]@, p))
}

/// `paths` holds the paths of the changes of kind `k`, each once as paths
/// compare.
pub open spec fn collects(paths: Seq<String>, events: Seq<WatchEvent>, k: ChangeKind) -> bool {
    collects_upto(paths, events, k, events.len() as int)
}

/// Some change among the first `n` is of kind `k`.
pub open spec fn reported(events: Seq<WatchEvent>, k: ChangeKind, n: int) -> bool {
    exists|i: int| 0 <= i < n && (#[trigger] change_of(events[i])).0 == k
}

fn add_path(paths: &mut Vec<String>, p: &String)
    ensures
        (exists|a: int| 0 <= a < old(paths)@.len() && is_same_path(#[trigger] old(paths)@[a]@, p@)) ==> final(paths)@ == old(paths)@,
        !(exists|a: int| 0 <= a < old(paths)@.len() && is_same_path(#[trigger] old(paths)@[a]@, p@)) ==> final(paths)@ == old(paths)@.push(*p),
{
    let mut i: usize = 0;
    while i < paths.len()
        invariant
            i <= paths@.len(),
            paths@ == old(paths)@,
            forall|a: int| 0 <= a < i ==> !is_same_path(#[trigger] paths@[a]@, p@),
        decreases paths@.len() - i,
    {
        if same_path(paths[i].as_str(), p.as_str()) {
            return;
        }
        i = i + 1;
    }
    let q = p.clone();
    paths.push(q);
}

proof fn lemma_step_other(paths: Seq<String>, events: Seq<WatchEvent>, k: ChangeKind, n: int)
    requires
        0 <= n < events.len(),
        collects_upto(paths, events, k, n),
        change_of(events[n]).0 != k,
    ensures
        collects_upto(paths, events, k, n + 1),
{
    assert forall|a: int| 0 <= a < paths.len() implies exists|i: int|
        0 <= i < n + 1 && #[trigger] change_of(events[i]) == (k, (#[trigger] paths[a])@) by {
        let i = choose|i: int| 0 <= i < n && #[trigger] change_of(events[i]) == (k, paths[a]@);
        assert(change_of(events[i]) == (k, paths[a]@));
    }
}

proof fn lemma_step_same(old_paths: Seq<String>, new_paths: Seq<String>, events: Seq<WatchEvent>, k: ChangeKind, n: int, p: String)
    requires
        0 <= n < events.len(),
        collects_upto(old_paths, events, k, n),
        change_of(events[n]) == (k, p@),
        (exists|a: int| 0 <= a < old_paths.len() && is_same_path(#[trigger] old_paths[a]@, p@)) ==> new_paths
            == old_paths,
        !(exists|a: int| 0 <= a < old_paths.len() && is_same_path(#[trigger] old_paths[a]@, p@)) ==> new_paths
            == old_paths.push(p),
    ensures
        collects_upto(new_paths, events, k, n + 1),
{
    if exists|a: int| 0 <= a < old_paths.len() && is_same_path(#[trigger] old_paths[a]@, p@) {
        let a0 = choose|a: int| 0 <= a < old_paths.len() && is_same_path(#[trigger] old_paths[a]@, p@);
        assert forall|a: int| 0 <= a < new_paths.len() implies exists|i: int|
            0 <= i < n + 1 && #[trigger] change_of(events[i]) == (k, (#[trigger] new_paths[a])@) by {
            let i = choose|i: int| 0 <= i < n && #[trigger] change_of(events[i]) == (k, old_paths[a]@);
            assert(change_of(events[i]) == (k, new_paths[a]@));
        }
        assert forall|i: int| 0 <= i < n + 1 && (#[trigger] change_of(events[i])).0 == k implies listed(
            new_paths,
            change_of(events[i]).1,
        ) by {
            if i == n {
                assert(new_paths[a0]@ == p@ || is_same_path(new_paths[a0]@, p@));
            }
        }
    } else {
        let last = old_paths.len() as int;
        assert(new_paths[last] == p);
        assert forall|a: int, b: int| 0 <= a < b < new_paths.len() implies !is_same_path(
            #[trigger] new_paths[a]@,
            #[trigger] new_paths[b]@,
        ) by {
            if b == last {
                assert(new_paths[a] == old_paths[a]);
            } else {
                assert(new_paths[a] == old_paths[a]);
                assert(new_paths[b] == old_paths[b]);
            }
        }
        assert forall|a: int| 0 <= a < new_paths.len() implies exists|i: int|
            0 <= i < n + 1 && #[trigger] change_of(events[i]) == (k, (#[trigger] new_paths[a])@) by {
            if a == last {
                assert(change_of(events[n]) == (k, new_paths[a]@));
            } else {
                assert(new_paths[a] == old_paths[a]);
                let i = choose|i: int| 0 <= i < n && #[trigger] change_of(events[i]) == (k, old_paths[a]@);
                assert(change_of(events[i]) == (k, new_paths[a]@));
            }
        }
        assert forall|i: int| 0 <= i < n + 1 && (#[trigger] change_of(events[i])).0 == k implies listed(
            new_paths,
            change_of(events[i]).1,
        ) by {
            if i == n {
                assert(new_paths[last]@ == p@);
            } else {
                let a = choose|a: int| 0 <= a < old_paths.len() && ((#[trigger] old_paths[a])@ == change_of(events[i]).1
                    || is_same_path(old_paths[a]@, change_of(events[i]).1));
                assert(new_paths[a] == old_paths[a]);
            }
        }
    }
}

/// Gathers a frame's changes: every changed shader, scene, splat and script
/// file once, and whether the pipeline file changed.
pub fn batch_changes(events: &Vec<WatchEvent>) -> (b: ChangeBatch)
    ensures
        collects(b.shader_paths@, events@, ChangeKind::Shader),
        collects(b.scene_paths@, events@, ChangeKind::Scene),
        collects(b.splat_paths@, events@, ChangeKind::Splat),
        collects(b.script_paths@, events@, ChangeKind::Script),
        b.pipeline_changed == reported(events@, ChangeKind::Pipeline, events@.len() as int),
{
    let mut b = ChangeBatch {
        shader_paths: Vec::new(),
        scene_paths: Vec::new(),
        splat_paths: Vec::new(),
        script_paths: Vec::new(),
        pipeline_changed: false,
    };
    let mut n: usize = 0;
    while n < events.len()
        invariant
            n <= events@.len(),
            collects_upto(b.shader_paths@, events@, ChangeKind::Shader, n as int),
            collects_upto(b.scene_paths@, events@, ChangeKind::Scene, n as int),
            collects_upto(b.splat_paths@, events@, ChangeKind::Splat, n as int),
            collects_upto(b.script_paths@, events@, ChangeKind::Script, n as int),
            b.pipeline_changed == reported(events@, ChangeKind::Pipeline, n as int),
        decreases events@.len() - n,
    {
        let ghost before = b;
        let ghost e = events@[n as int];
        match &events[n] {
            WatchEvent::ShaderChanged(p) => {
                add_path(&mut b.shader_paths, p);
                proof {
                    lemma_step_same(before.shader_paths@, b.shader_paths@, events@, ChangeKind::Shader, n as int, *p);
                    lemma_step_other(b.scene_paths@, events@, ChangeKind::Scene, n as int);
                    lemma_step_other(b.splat_paths@, events@, ChangeKind::Splat, n as int);
                    lemma_step_other(b.script_paths@, events@, ChangeKind::Script, n as int);
                }
            },
            WatchEvent::SceneChanged(p) => {
                add_path(&mut b.scene_paths, p);
                proof {
                    lemma_step_other(b.shader_paths@, events@, ChangeKind::Shader, n as int);
                    lemma_step_same(before.scene_paths@, b.scene_paths@, events@, ChangeKind::Scene, n as int, *p);
                    lemma_step_other(b.splat_paths@, events@, ChangeKind::Splat, n as int);
                    lemma_step_other(b.script_paths@, events@, ChangeKind::Script, n as int);
                }
            },
            WatchEvent::MaterialChanged(_) => {
                proof {
                    lemma_step_other(b.shader_paths@, events@, ChangeKind::Shader, n as int);
                    lemma_step_other(b.scene_paths@, events@, ChangeKind::Scene, n as int);
                    lemma_step_other(b.splat_paths@, events@, ChangeKind::Splat, n as int);
                    lemma_step_other(b.script_paths@, events@, ChangeKind::Script, n as int);
                }
            },
            WatchEvent::PipelineChanged(_) => {
                b.pipeline_changed = true;
                proof {
                    lemma_step_other(b.shader_paths@, events@, ChangeKind::Shader, n as int);
                    lemma_step_other(b.scene_paths@, events@, ChangeKind::Scene, n as int);
                    lemma_step_other(b.splat_paths@, events@, ChangeKind::Splat, n as int);
                    lemma_step_other(b.script_paths@, events@, ChangeKind::Script, n as int);
                    assert(change_of(events@[n as int]).0 == ChangeKind::Pipeline);
                }
            },
            WatchEvent::SplatChanged(p) => {
                add_path(&mut b.splat_paths, p);
                proof {
                    lemma_step_other(b.shader_paths@, events@, ChangeKind::Shader, n as int);
                    lemma_step_other(b.scene_paths@, events@, ChangeKind::Scene, n as int);
                    lemma_step_same(before.splat_paths@, b.splat_paths@, events@, ChangeKind::Splat, n as int, *p);
                    lemma_step_other(b.script_paths@, events@, ChangeKind::Script, n as int);
                }
            },
            WatchEvent::ScriptChanged(p) => {
                add_path(&mut b.script_paths, p);
                proof {
                    lemma_step_other(b.shader_paths@, events@, ChangeKind::Shader, n as int);
                    lemma_step_other(b.scene_paths@, events@, ChangeKind::Scene, n as int);
                    lemma_step_other(b.splat_paths@, events@, ChangeKind::Splat, n as int);
                    lemma_step_same(before.script_paths@, b.script_paths@, events@, ChangeKind::Script, n as int, *p);
                }
            },
        }
        proof {
            if change_of(e).0 != ChangeKind::Pipeline {
                if reported(events@, ChangeKind::Pipeline, n + 1) {
                    let i = choose|i: int| 0 <= i < n + 1 && (#[trigger] change_of(events@[i])).0 == ChangeKind::Pipeline;
                    assert(i != n);
                }
            }
        }
        n = n + 1;
    }
    b
}

// ---------------------------------------------------------------------------
// Scripts
// ---------------------------------------------------------------------------

/// `s` ends with `suffix`.
pub open spec fn ends_with(s: Seq<char>, suffix: Seq<char>) -> bool {
    suffix.len() <= s.len() && s.subrange(s.len() - suffix.len(), s.len() as int) == suffix
}

/// A changed path concerns a script when it ends with the script's source
/// path, or with the source's file name (every path ends with the empty name
/// a source without a file name is given).
pub open spec fn concerns_script(changed: Seq<char>, source: Seq<char>) -> bool {
    ends_with(changed, source) || ends_with(
        changed,
        match spec_path_file_name(source) {
            Some(n) => n,
            None => Seq::empty(),
        },
    )
}

fn ends_with_chars(s: &Vec<char>, suffix: &Vec<char>) -> (r: bool)
    ensures
        r == ends_with(s@, suffix@),
{
    if suffix.len() > s.len() {
        return false;
    }
    chars_eq(s, s.len() - suffix.len(), s.len(), suffix)
}

/// The positions of the scripts, by source path, that one of the changed
/// paths concerns, in order.
pub fn scripts_to_reload(sources: &Vec<String>, changed: &Vec<String>) -> (r: Vec<usize>)
    ensures
        r@.map_values(|k: usize| k as int) == Seq::new(sources@.len(), |k: int| k).filter(
            |k: int| exists|c: int| 0 <= c < changed@.len() && concerns_script(#[trigger] changed@[c]@, sources@[k]@),
        ),
{
    let ghost q = |k: int| exists|c: int| 0 <= c < changed@.len() && concerns_script(#[trigger] changed@[c]@, sources@[k]@);
    let ghost all = Seq::new(sources@.len(), |k: int| k);
    let mut out: Vec<usize> = Vec::new();
    let mut k: usize = 0;
    while k < sources.len()
        invariant
            k <= sources@.len(),
            q == (|k: int| exists|c: int| 0 <= c < changed@.len() && concerns_script(#[trigger] changed@[c]@, sources@[k]@)),
            all == Seq::new(sources@.len(), |k: int| k),
            out@.map_values(|k: usize| k as int) == all.take(k as int).filter(q),
        decreases sources@.len() - k,
    {
        let ghost prev = out@.map_values(|k: usize| k as int);
        proof {
            assert(all.take(k + 1) =~= all.take(k as int).push(k as int));
            all.take(k as int).lemma_filter_push(k as int, q);
        }
        let src = to_chars(sources[k].as_str());
        let name = match path_file_name(sources[k].as_str()) {
            Some(n) => to_chars(n.as_str()),
            None => Vec::new(),
        };
        proof {
            assert(name@ == match spec_path_file_name(sources@[k as int]@) {
                Some(n) => n,
                None => Seq::<char>::empty(),
            });
        }
        let mut found = false;
        let mut c: usize = 0;
        while c < changed.len()
            invariant
                c <= changed@.len(),
                src@ == sources@[k as int]@,
                name@ == match spec_path_file_name(sources@[k as int]@) {
                    Some(n) => n,
                    None => Seq::<char>::empty(),
                },
                found == exists|j: int| 0 <= j < c && concerns_script(#[trigger] changed@[j]@, sources@[k as int]@),
            decreases changed@.len() - c,
        {
            let path = to_chars(changed[c].as_str());
            if ends_with_chars(&path, &src) || ends_with_chars(&path, &name) {
                proof {
                    assert(concerns_script(changed@[c as int]@, sources@[k as int]@));
                }
                found = true;
            }
            c = c + 1;
        }
        if found {
            out.push(k);
            proof {
                assert(out@.map_values(|k: usize| k as int) =~= prev.push(k as int));
            }
        } else {
            proof {
                assert(out@.map_values(|k: usize| k as int) =~= prev);
            }
        }
        k = k + 1;
    }
    proof {
        assert(all.take(sources@.len() as int) =~= all);
    }
    out
}

} // verus!
