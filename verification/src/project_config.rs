//! The project configuration (`naive.yaml`): where it is found, what it
//! holds, and the engine arguments it stands for.

use vstd::prelude::*;

use crate::cli::{CliArgs, OutputMode};
use crate::paths::{path_join, path_parent, spec_path_join, spec_path_parent};
use crate::text::{concat3, lex_sorted, sort_strings, starts_with_chars, to_chars, views};

verus! {

/// A game project's `naive.yaml`.
#[derive(Debug, Clone)]
pub struct NaiveConfig {
    pub name: String,
    pub version: String,
    pub engine: String,
    pub default_scene: Option<String>,
    pub default_pipeline: Option<String>,
    pub test: TestConfig,
    pub build: BuildConfig,
    pub dev_log: DevLogConfig,
}

/// Where the test scripts are.
#[derive(Debug, Clone)]
pub struct TestConfig {
    pub files: Option<Vec<String>>,
    pub directory: Option<String>,
}

impl Default for TestConfig {
    fn default() -> (c: Self)
        ensures
            c.files is None,
            c.directory is None,
    {
        TestConfig { files: None, directory: None }
    }
}

/// Build targets.
#[derive(Debug, Clone)]
pub struct BuildConfig {
    pub targets: Option<Vec<String>>,
}

impl Default for BuildConfig {
    fn default() -> (c: Self)
        ensures
            c.targets is None,
    {
        BuildConfig { targets: None }
    }
}

/// Dev-log settings.
#[derive(Debug, Clone)]
pub struct DevLogConfig {
    pub enabled: bool,
    pub submit_on_complete: bool,
}

impl Default for DevLogConfig {
    fn default() -> (c: Self)
        ensures
            !c.enabled,
            !c.submit_on_complete,
    {
        DevLogConfig { enabled: false, submit_on_complete: false }
    }
}

/// The engine a project names when it names none.
pub fn default_engine() -> (r: String)
    ensures
        r@ == "naive-runtime"@,
{
    "naive-runtime".to_owned()
}

/// Why the configuration could not be had. Reading and YAML errors carry the
/// message of the underlying error.
#[derive(Debug, Clone)]
pub enum ConfigError {
    NotFound,
    Io(String),
    Parse(String),
}

impl ConfigError {
    /// The human-readable text of the error.
    pub fn message(&self) -> (m: String)
        ensures
            m@ == match self {
                ConfigError::NotFound => "naive.yaml not found"@,
                ConfigError::Io(e) => "IO error reading naive.yaml: "@ + e@,
                ConfigError::Parse(e) => "Failed to parse naive.yaml: "@ + e@,
            },
    {
        proof {
            reveal_strlit("");
        }
        match self {
            ConfigError::NotFound => concat3("naive.yaml not found", "", ""),
            ConfigError::Io(e) => concat3("IO error reading naive.yaml: ", e.as_str(), ""),
            ConfigError::Parse(e) => concat3("Failed to parse naive.yaml: ", e.as_str(), ""),
        }
    }
}

// ---------------------------------------------------------------------------
// Finding the configuration
// ---------------------------------------------------------------------------

/// The directory and its ancestors, nearest first, following at most `k`
/// parents.
pub open spec fn ancestors(dir: Seq<char>, k: nat) -> Seq<Seq<char>>
    decreases k,
{
    if k == 0 {
        seq![dir]
    } else {
        match spec_path_parent(dir) {
            Some(p) => seq![dir] + ancestors(p, (k - 1) as nat),
            None => seq![dir],
        }
    }
}

/// Where `naive.yaml` is looked for, walking up from `start_dir`: in the
/// directory itself, then in each parent in turn.
pub open spec fn spec_config_candidates(start_dir: Seq<char>) -> Seq<Seq<char>> {
    ancestors(start_dir, start_dir.len()).map_values(|d: Seq<char>| spec_path_join(d, "naive.yaml"@))
}

/// The candidate paths for `naive.yaml`, nearest first.
pub fn config_candidates(start_dir: &str) -> (r: Vec<String>)
    ensures
        r@.map_values(|s: String| s@) == ancestors(start_dir@, start_dir@.len()).map_values(
            |d: Seq<char>| spec_path_join(d, "naive.yaml"@),
        ),
{
    let mut out: Vec<String> = Vec::new();
    let mut dir = start_dir.to_owned();
    let ghost mut steps: nat = 0;
    loop
        invariant
            steps <= start_dir@.len(),
            dir@.len() + steps <= start_dir@.len(),
            out@.map_values(|s: String| s@) + ancestors(dir@, (start_dir@.len() - steps) as nat).map_values(
                |d: Seq<char>| spec_path_join(d, "naive.yaml"@),
            ) == ancestors(start_dir@, start_dir@.len()).map_values(
                |d: Seq<char>| spec_path_join(d, "naive.yaml"@),
            ),
        decreases dir@.len(),
    {
        let ghost k = (start_dir@.len() - steps) as nat;
        let candidate = path_join(dir.as_str(), "naive.yaml");
        let ghost before = out@.map_values(|s: String| s@);
        out.push(candidate);
        proof {
            assert(out@.map_values(|s: String| s@) =~= before.push(spec_path_join(dir@, "naive.yaml"@)));
        }
        match path_parent(dir.as_str()) {
            Some(p) => {
                proof {
                    assert(k > 0);
                    assert(ancestors(dir@, k) == seq![dir@] + ancestors(p@, (k - 1) as nat));
                    let f = |d: Seq<char>| spec_path_join(d, "naive.yaml"@);
                    assert((seq![dir@] + ancestors(p@, (k - 1) as nat)).map_values(f) =~= seq![f(dir@)]
                        + ancestors(p@, (k - 1) as nat).map_values(f));
                    assert(before.push(f(dir@)) + ancestors(p@, (k - 1) as nat).map_values(f) =~= before
                        + (seq![f(dir@)] + ancestors(p@, (k - 1) as nat).map_values(f)));
                    steps = steps + 1;
                }
                dir = p;
            },
            None => {
                proof {
                    let f = |d: Seq<char>| spec_path_join(d, "naive.yaml"@);
                    if k > 0 {
                        assert(ancestors(dir@, k) == seq![dir@]);
                    }
                    assert(ancestors(dir@, k).map_values(f) =~= seq![f(dir@)]);
                    assert(out@.map_values(|s: String| s@) =~= before + seq![f(dir@)]);
                }
                return out;
            },
        }
    }
}

/// Candidate `i` exists, as `present` reports it; candidates past its end
/// are taken as missing.
pub open spec fn present_at(present: Seq<bool>, i: int) -> bool {
    0 <= i < present.len() && present[i]
}

/// The configuration file found walking up from `start_dir`: the first
/// candidate (see `config_candidates`) that `present` marks as existing.
pub fn find_config(start_dir: &str, present: &Vec<bool>) -> (r: Option<String>)
    ensures
        ({
            let c = spec_config_candidates(start_dir@);
            match r {
                Some(path) => exists|i: int|
                    0 <= i < c.len() && present_at(present@, i) && (forall|j: int| 0 <= j < i ==> !present_at(present@, j))
                        && path@ == #[trigger] c[i],
                None => forall|i: int| 0 <= i < c.len() ==> !present_at(present@, i),
            }
        }),
{
    let candidates = config_candidates(start_dir);
    let ghost c = spec_config_candidates(start_dir@);
    proof {
        assert(candidates@.len() == c.len());
    }
    let mut i: usize = 0;
    while i < candidates.len()
        invariant
            i <= candidates@.len(),
            candidates@.len() == c.len(),
            c == spec_config_candidates(start_dir@),
            candidates@.map_values(|s: String| s@) == c,
            forall|j: int| 0 <= j < i ==> !present_at(present@, j),
        decreases candidates@.len() - i,
    {
        if i < present.len() && present[i] {
            proof {
                assert(candidates@[i as int]@ == c[i as int]);
            }
            return Some(candidates[i].clone());
        }
        i = i + 1;
    }
    None
}

/// The engine arguments a project configuration stands for: its default scene
/// and pipeline, in a window, rooted at `project_root`.
pub fn to_cli_args(config: &NaiveConfig, project_root: &str) -> (a: CliArgs)
    ensures
        a.command is None,
        match (a.scene, config.default_scene) {
            (Some(x), Some(y)) => x@ == y@,
            (None, None) => true,
            _ => false,
        },
        match (a.pipeline, config.default_pipeline) {
            (Some(x), Some(y)) => x@ == y@,
            (None, None) => true,
            _ => false,
        },
        a.output == OutputMode::Window,
        a.project@ == project_root@,
        a.socket@ == "/tmp/naive-runtime.sock"@,
        !a.hud,
{
    let scene = match &config.default_scene {
        Some(s) => Some(s.clone()),
        None => None,
    };
    let pipeline = match &config.default_pipeline {
        Some(s) => Some(s.clone()),
        None => None,
    };
    CliArgs {
        command: None,
        scene,
        pipeline,
        output: OutputMode::Window,
        project: project_root.to_owned(),
        socket: "/tmp/naive-runtime.sock".to_owned(),
        hud: false,
    }
}

// ---------------------------------------------------------------------------
// Test discovery
// ---------------------------------------------------------------------------

/// Where the test scripts of a project come from.
#[derive(Debug, Clone)]
pub enum TestFileSource {
    /// The listed files, relative to the project root.
    Explicit(Vec<String>),
    /// The Lua scripts named `test_*` in this directory under the root.
    Directory(String),
}

/// An explicit file list takes priority; otherwise the configured directory,
/// by default `tests`.
pub fn test_file_source(config: &NaiveConfig) -> (r: TestFileSource)
    ensures
        match config.test.files {
            Some(files) => r matches TestFileSource::Explicit(f) && f@.map_values(|s: String| s@)
                == files@.map_values(|s: String| s@),
            None => r matches TestFileSource::Directory(d) && d@ == match config.test.directory {
                Some(dir) => dir@,
                None => "tests"@,
            },
        },
{
    match &config.test.files {
        Some(files) => {
            let mut out: Vec<String> = Vec::new();
            let mut i: usize = 0;
            while i < files.len()
                invariant
                    i <= files@.len(),
                    out@.map_values(|s: String| s@) == files@.take(i as int).map_values(|s: String| s@),
                decreases files@.len() - i,
            {
                let ghost before = out@;
                let f = files[i].clone();
                out.push(f);
                proof {
                    let a = out@.map_values(|s: String| s@);
                    let b = files@.take(i + 1).map_values(|s: String| s@);
                    let prev = files@.take(i as int).map_values(|s: String| s@);
                    assert(before.map_values(|s: String| s@).len() == prev.len());
                    assert(before.len() == i);
                    assert(out@.len() == i + 1);
                    assert(a.len() == b.len());
                    assert forall|k: int| 0 <= k < a.len() implies a[k] == b[k] by {
                        if k < i {
                            assert(a[k] == before.map_values(|s: String| s@)[k]);
                            assert(prev[k] == b[k]);
                        } else {
                            assert(a[k] == f@);
                        }
                    }
                    assert(a =~= b);
                }
                i = i + 1;
            }
            proof {
                assert(files@.take(files@.len() as int) =~= files@);
            }
            TestFileSource::Explicit(out)
        },
        None => match &config.test.directory {
            Some(d) => TestFileSource::Directory(d.clone()),
            None => TestFileSource::Directory("tests".to_owned()),
        },
    }
}

/// A test script's file name: `test_` followed by anything, with the `lua`
/// extension.
pub open spec fn spec_is_test_script(name: Seq<char>) -> bool {
    &&& name.len() >= "test_"@.len()
    &&& name.subrange(0, "test_"@.len() as int) == "test_"@
    &&& name.len() >= ".lua"@.len()
    &&& name.subrange(name.len() - ".lua"@.len(), name.len() as int) == ".lua"@
}

/// Whether a file in the test directory is a test script.
pub fn is_test_script(file_name: &str) -> (r: bool)
    ensures
        r == spec_is_test_script(file_name@),
{
    let v = to_chars(file_name);
    let prefix = to_chars("test_");
    let suffix = to_chars(".lua");
    if !starts_with_chars(&v, &prefix) || v.len() < suffix.len() {
        return false;
    }
    crate::text::chars_eq(&v, v.len() - suffix.len(), v.len(), &suffix)
}


/// The test scripts among the file names of the test directory, sorted as
/// the paths are sorted.
pub fn select_test_scripts(file_names: Vec<String>) -> (r: Vec<String>)
    ensures
        lex_sorted(views(r@)),
        views(r@).to_multiset() == views(file_names@).filter(|n: Seq<char>| spec_is_test_script(n)).to_multiset(),
{
    let ghost keep = |n: Seq<char>| spec_is_test_script(n);
    let mut kept: Vec<String> = Vec::new();
    let mut i: usize = 0;
    while i < file_names.len()
        invariant
            i <= file_names@.len(),
            keep == (|n: Seq<char>| spec_is_test_script(n)),
            views(kept@) == views(file_names@.take(i as int)).filter(keep),
        decreases file_names@.len() - i,
    {
        let ghost prev = views(kept@);
        proof {
            assert(views(file_names@.take(i + 1)) =~= views(file_names@.take(i as int)).push(file_names@[i as int]@));
            views(file_names@.take(i as int)).lemma_filter_push(file_names@[i as int]@, keep);
        }
        if is_test_script(file_names[i].as_str()) {
            kept.push(file_names[i].clone());
            proof {
                assert(views(kept@) =~= prev.push(file_names@[i as int]@));
            }
        } else {
            proof {
                assert(views(kept@) =~= prev);
            }
        }
        i = i + 1;
    }
    proof {
        assert(file_names@.take(file_names@.len() as int) =~= file_names@);
    }
    sort_strings(kept)
}

} // verus!
