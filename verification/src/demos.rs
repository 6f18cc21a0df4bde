//! The built-in demos: their catalogue, how a selector picks one, and the
//! engine arguments that launch it.

use vstd::prelude::*;

use crate::cli::{CliArgs, OutputMode};
use crate::text::{concat3, parse_usize, seq_contains_at_some, spec_parse_usize, str_contains, to_chars};

verus! {

/// One entry of the demo catalogue.
#[derive(Debug, Clone)]
pub struct DemoInfo {
    pub number: usize,
    pub slug: String,
    pub name: String,
    pub description: String,
    pub category: String,
    pub scene_filename: String,
}

fn demo(number: usize, slug: &str, name: &str, description: &str, category: &str, scene_filename: &str) -> (d: DemoInfo)
    ensures
        d.number == number,
        d.slug@ == slug@,
        d.name@ == name@,
        d.description@ == description@,
        d.category@ == category@,
        d.scene_filename@ == scene_filename@,
{
    DemoInfo {
        number,
        slug: slug.to_owned(),
        name: name.to_owned(),
        description: description.to_owned(),
        category: category.to_owned(),
        scene_filename: scene_filename.to_owned(),
    }
}

/// The catalogue entries, in menu order: slug, name, description,
/// category and scene file; the demo at position `i` has number `i + 1`.
pub open spec fn demo_entries() -> Seq<(Seq<char>, Seq<char>, Seq<char>, Seq<char>, Seq<char>)> {
    seq![
        ("impulse"@, "Impulse & Force Demo"@, "Launch spheres with impulse and force physics"@, "Physics"@, "tier25_impulse_demo.yaml"@),
        ("ccd"@, "Continuous Collision Detection"@, "Fast projectiles vs thin walls"@, "Physics"@, "tier25_ccd_demo.yaml"@),
        ("materials"@, "Material Properties Demo"@, "Restitution & friction hierarchy"@, "Physics"@, "tier25_materials_demo.yaml"@),
        ("combat"@, "Combat Demo"@, "Health, hitscan, projectiles, collision damage"@, "Combat"@, "combat_demo.yaml"@),
        ("third-person"@, "Third-Person Camera"@, "Orbit camera with wall collision"@, "Combat"@, "third_person_demo.yaml"@),
        ("particles"@, "Particle System Showcase"@, "5 emitter types with burst control"@, "Visual"@, "tier2_particle_demo.yaml"@),
        ("pbr"@, "PBR Material Gallery"@, "Metallic/roughness grid with physics"@, "Visual"@, "pbr_gallery.yaml"@),
        ("shake"@, "Camera Shake Demo"@, "Impact and explosion screen shake"@, "Visual"@, "tier25_shake_demo.yaml"@),
        ("ui"@, "UI Overlay System"@, "Text, rects, flash, progress bars"@, "UI"@, "ui_demo.yaml"@),
        ("genesis"@, "The Birth of a World"@, "Procedural creation with orbital rings"@, "Worlds"@, "genesis.yaml"@),
        ("inferno"@, "Combat Arena"@, "Fiery battleground with enemies"@, "Worlds"@, "inferno.yaml"@),
        ("titan"@, "Colosseum of Light"@, "Architectural showcase with dynamic lighting"@, "Worlds"@, "titan.yaml"@),
        ("stress"@, "Stress Test"@, "300+ dynamic entities"@, "Stress Test"@, "tier2_stress_test.yaml"@),
        ("lifecycle"@, "Entity Lifecycle"@, "Spawn, destroy, pool, query, events"@, "Stress Test"@, "tier2_lifecycle_demo.yaml"@),
    ]
}

/// The entry describes the demo: same number position and fields.
pub open spec fn describes(d: DemoInfo, i: int) -> bool {
    let e = demo_entries()[i];
    &&& d.number == i + 1
    &&& d.slug@ == e.0
    &&& d.name@ == e.1
    &&& d.description@ == e.2
    &&& d.category@ == e.3
    &&& d.scene_filename@ == e.4
}

/// The catalogue: fourteen demos numbered from 1, in menu order.
pub fn demo_catalog() -> (c: Vec<DemoInfo>)
    ensures
        c@.len() == demo_entries().len(),
        forall|i: int| 0 <= i < c@.len() ==> describes(#[trigger] c@[i], i),
{
    let mut c: Vec<DemoInfo> = Vec::new();
    c.push(demo(1, "impulse", "Impulse & Force Demo", "Launch spheres with impulse and force physics", "Physics", "tier25_impulse_demo.yaml"));
    c.push(demo(2, "ccd", "Continuous Collision Detection", "Fast projectiles vs thin walls", "Physics", "tier25_ccd_demo.yaml"));
    c.push(demo(3, "materials", "Material Properties Demo", "Restitution & friction hierarchy", "Physics", "tier25_materials_demo.yaml"));
    c.push(demo(4, "combat", "Combat Demo", "Health, hitscan, projectiles, collision damage", "Combat", "combat_demo.yaml"));
    c.push(demo(5, "third-person", "Third-Person Camera", "Orbit camera with wall collision", "Combat", "third_person_demo.yaml"));
    c.push(demo(6, "particles", "Particle System Showcase", "5 emitter types with burst control", "Visual", "tier2_particle_demo.yaml"));
    c.push(demo(7, "pbr", "PBR Material Gallery", "Metallic/roughness grid with physics", "Visual", "pbr_gallery.yaml"));
    c.push(demo(8, "shake", "Camera Shake Demo", "Impact and explosion screen shake", "Visual", "tier25_shake_demo.yaml"));
    c.push(demo(9, "ui", "UI Overlay System", "Text, rects, flash, progress bars", "UI", "ui_demo.yaml"));
    c.push(demo(10, "genesis", "The Birth of a World", "Procedural creation with orbital rings", "Worlds", "genesis.yaml"));
    c.push(demo(11, "inferno", "Combat Arena", "Fiery battleground with enemies", "Worlds", "inferno.yaml"));
    c.push(demo(12, "titan", "Colosseum of Light", "Architectural showcase with dynamic lighting", "Worlds", "titan.yaml"));
    c.push(demo(13, "stress", "Stress Test", "300+ dynamic entities", "Stress Test", "tier2_stress_test.yaml"));
    c.push(demo(14, "lifecycle", "Entity Lifecycle", "Spawn, destroy, pool, query, events", "Stress Test", "tier2_lifecycle_demo.yaml"));
    proof {
        assert forall|i: int| 0 <= i < c@.len() implies describes(#[trigger] c@[i], i) by {
            if i == 0 {} else if i == 1 {} else if i == 2 {} else if i == 3 {} else if i == 4 {}
            else if i == 5 {} else if i == 6 {} else if i == 7 {} else if i == 8 {} else if i == 9 {}
            else if i == 10 {} else if i == 11 {} else if i == 12 {} else {}
        }
    }
    c
}

// ---------------------------------------------------------------------------
// Choosing a demo
// ---------------------------------------------------------------------------

/// `c` in lower case, as `to_ascii_lowercase` leaves it: only ASCII capitals
/// change.
pub open spec fn ascii_lower(c: char) -> char {
    if 'A' <= c && c <= 'Z' {
        ((c as u32) + 32) as char
    } else {
        c
    }
}

/// The string in ASCII lower case.
pub open spec fn lower(s: Seq<char>) -> Seq<char> {
    s.map_values(|c: char| ascii_lower(c))
}

/// Equal but for ASCII case, as `eq_ignore_ascii_case` compares.
pub open spec fn eq_ignore_case(a: Seq<char>, b: Seq<char>) -> bool {
    lower(a) == lower(b)
}

/// The demo's slug or name contains the selector, ignoring ASCII case.
pub open spec fn loosely_matches(d: DemoInfo, selector: Seq<char>) -> bool {
    seq_contains_at_some(lower(d.slug@), lower(selector)) || seq_contains_at_some(lower(d.name@), lower(selector))
}

/// Index of the first demo, from `i`, that satisfies `p`.
pub open spec fn first_demo(c: Seq<DemoInfo>, p: spec_fn(DemoInfo) -> bool, i: int) -> Option<int>
    decreases c.len() - i,
{
    if i < 0 || i >= c.len() {
        None
    } else if p(c[i]) {
        Some(i)
    } else {
        first_demo(c, p, i + 1)
    }
}

/// The positions of the demos that loosely match, in order.
pub open spec fn loose_matches(c: Seq<DemoInfo>, selector: Seq<char>) -> Seq<int> {
    Seq::new(c.len(), |i: int| i).filter(|i: int| loosely_matches(c[i], selector))
}

/// What a selector picks.
#[derive(Debug, Clone)]
pub enum DemoChoice {
    /// The demo at this position of the catalogue.
    Found(usize),
    /// A number that no demo has.
    NoSuchNumber(usize),
    /// Nothing matches.
    NoMatch,
    /// Several demos match; their positions.
    Ambiguous(Vec<usize>),
}

/// How a selector picks a demo: a number picks the demo with that number;
/// otherwise a slug equal to it but for ASCII case; otherwise the one demo
/// whose slug or name contains it, ignoring ASCII case.
pub open spec fn spec_choose_demo(c: Seq<DemoInfo>, selector: Seq<char>, r: DemoChoice) -> bool {
    match spec_parse_usize(selector) {
        Some(n) => match first_demo(c, |d: DemoInfo| d.number == n, 0) {
            Some(i) => r == DemoChoice::Found(i as usize),
            None => r == DemoChoice::NoSuchNumber(n),
        },
        None => match first_demo(c, |d: DemoInfo| eq_ignore_case(d.slug@, selector), 0) {
            Some(i) => r == DemoChoice::Found(i as usize),
            None => {
                let ms = loose_matches(c, selector);
                if ms.len() == 0 {
                    r is NoMatch
                } else if ms.len() == 1 {
                    r == DemoChoice::Found(ms[0] as usize)
                } else {
                    r matches DemoChoice::Ambiguous(v) && v@.map_values(|k: usize| k as int) == ms
                }
            },
        },
    }
}

fn ascii_lower_char(c: char) -> (r: char)
    ensures
        r == ascii_lower(c),
{
    if 'A' <= c && c <= 'Z' {
        ((c as u8) + 32) as char
    } else {
        c
    }
}

fn lower_chars(s: &str) -> (r: Vec<char>)
    ensures
        r@ == lower(s@),
{
    let v = to_chars(s);
    let mut out: Vec<char> = Vec::new();
    let mut i: usize = 0;
    while i < v.len()
        invariant
            i <= v@.len(),
            v@ == s@,
            out@ == lower(s@).take(i as int),
        decreases v@.len() - i,
    {
        out.push(ascii_lower_char(v[i]));
        proof {
            assert(out@ =~= lower(s@).take(i + 1));
        }
        i = i + 1;
    }
    proof {
        assert(lower(s@).take(v@.len() as int) =~= lower(s@));
    }
    out
}

fn chars_equal(a: &Vec<char>, b: &Vec<char>) -> (r: bool)
    ensures
        r == (a@ == b@),
{
    if a.len() != b.len() {
        return false;
    }
    let mut i: usize = 0;
    while i < a.len()
        invariant
            i <= a@.len(),
            a@.len() == b@.len(),
            forall|k: int| 0 <= k < i ==> a@[k] == b@[k],
        decreases a@.len() - i,
    {
        if a[i] != b[i] {
            return false;
        }
        i = i + 1;
    }
    proof {
        assert(a@ =~= b@);
    }
    true
}

fn contains_lowered(haystack: &Vec<char>, needle: &Vec<char>) -> (r: bool)
    ensures
        r == seq_contains_at_some(haystack@, needle@),
{
    crate::text::contains_chars(haystack, needle)
}

/// Picks a demo of the catalogue by number, slug or part of its slug or name.
pub fn choose_demo(catalog: &Vec<DemoInfo>, selector: &str) -> (r: DemoChoice)
    ensures
        spec_choose_demo(catalog@, selector@, r),
{
    let ghost c = catalog@;
    match parse_usize(selector) {
        Some(n) => {
            let ghost p = |d: DemoInfo| d.number == n;
            let mut i: usize = 0;
            while i < catalog.len()
                invariant
                    i <= catalog@.len(),
                    c == catalog@,
                    p == (|d: DemoInfo| d.number == n),
                    spec_parse_usize(selector@) == Some(n),
                    first_demo(c, p, 0) == first_demo(c, p, i as int),
                decreases catalog@.len() - i,
            {
                if catalog[i].number == n {
                    proof {
                        assert(p(c[i as int]));
                        assert(first_demo(c, p, i as int) == Some(i as int));
                    }
                    return DemoChoice::Found(i);
                }
                i = i + 1;
            }
            DemoChoice::NoSuchNumber(n)
        },
        None => {
            let sel = lower_chars(selector);
            let ghost p = |d: DemoInfo| eq_ignore_case(d.slug@, selector@);
            let mut i: usize = 0;
            while i < catalog.len()
                invariant
                    i <= catalog@.len(),
                    c == catalog@,
                    sel@ == lower(selector@),
                    spec_parse_usize(selector@) is None,
                    p == (|d: DemoInfo| eq_ignore_case(d.slug@, selector@)),
                    first_demo(c, p, 0) == first_demo(c, p, i as int),
                decreases catalog@.len() - i,
            {
                let slug = lower_chars(catalog[i].slug.as_str());
                if chars_equal(&slug, &sel) {
                    proof {
                        assert(p(c[i as int]));
                        assert(first_demo(c, p, i as int) == Some(i as int));
                    }
                    return DemoChoice::Found(i);
                }
                i = i + 1;
            }
            let ghost q = |k: int| loosely_matches(c[k], selector@);
            let ghost all = Seq::new(c.len(), |k: int| k);
            let mut matches: Vec<usize> = Vec::new();
            let mut j: usize = 0;
            while j < catalog.len()
                invariant
                    j <= catalog@.len(),
                    c == catalog@,
                    sel@ == lower(selector@),
                    q == (|k: int| loosely_matches(c[k], selector@)),
                    all == Seq::new(c.len(), |k: int| k),
                    first_demo(c, p, 0) is None,
                    spec_parse_usize(selector@) is None,
                    p == (|d: DemoInfo| eq_ignore_case(d.slug@, selector@)),
                    matches@.map_values(|k: usize| k as int) == all.take(j as int).filter(q),
                decreases catalog@.len() - j,
            {
                let ghost prev = matches@.map_values(|k: usize| k as int);
                proof {
                    assert(all.take(j + 1) =~= all.take(j as int).push(j as int));
                    all.take(j as int).lemma_filter_push(j as int, q);
                }
                let slug = lower_chars(catalog[j].slug.as_str());
                let name = lower_chars(catalog[j].name.as_str());
                if contains_lowered(&slug, &sel) || contains_lowered(&name, &sel) {
                    matches.push(j);
                    proof {
                        assert(matches@.map_values(|k: usize| k as int) =~= prev.push(j as int));
                    }
                } else {
                    proof {
                        assert(matches@.map_values(|k: usize| k as int) =~= prev);
                    }
                }
                j = j + 1;
            }
            proof {
                assert(all.take(c.len() as int) =~= all);
            }
            if matches.len() == 0 {
                DemoChoice::NoMatch
            } else if matches.len() == 1 {
                DemoChoice::Found(matches[0])
            } else {
                DemoChoice::Ambiguous(matches)
            }
        },
    }
}

/// The engine arguments that run a demo extracted to `project_root`: its
/// scene under `scenes/`, the standard render pipeline, in a window.
pub fn demo_cli_args(demo: &DemoInfo, project_root: &str) -> (a: CliArgs)
    ensures
        a.command is None,
        a.scene matches Some(s) && s@ == "scenes/"@ + demo.scene_filename@,
        a.pipeline matches Some(p) && p@ == "pipelines/render.yaml"@,
        a.output == OutputMode::Window,
        a.project@ == project_root@,
        a.socket@ == "/tmp/naive-runtime.sock"@,
        !a.hud,
{
    proof {
        reveal_strlit("");
    }
    CliArgs {
        command: None,
        scene: Some(concat3("scenes/", demo.scene_filename.as_str(), "")),
        pipeline: Some("pipelines/render.yaml".to_owned()),
        output: OutputMode::Window,
        project: project_root.to_owned(),
        socket: "/tmp/naive-runtime.sock".to_owned(),
        hud: false,
    }
}

} // verus!
