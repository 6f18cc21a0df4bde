use naive::spawn::{check_mesh_spawn, check_spawn_target, collider_shape, ColliderShape};
use naive::pipeline::frame::{lights_uploaded, skips_pass};
use naive::animation::{play_transition, AnimState, SkeletonStore};
use naive::components::{find_by_tags, CameraRole, EntityId, MaterialHandle, Tags};
use naive::demos::{choose_demo, demo_catalog, demo_cli_args, DemoChoice};
use naive::dev_log::{dev_log_issue, github_token, issue_url_or_note, no_dev_log, with_submission_record};
use naive::frame_controls::{apply_debug_keys, update_cursor_capture, DebugToggles};
use naive::hot_reload::{batch_changes, scripts_to_reload, WatchEvent};
use naive::input::{InputBindings, InputState, KeyCode, MouseButton};
use naive::material::{default_back, default_opaque, MaterialCache, MaterialError};
use naive::text::{format_u64, parse_u32, parse_usize, sort_strings, trim, trim_end_char};

#[test]
fn anim_states_and_clips() {
    assert_eq!(AnimState::from_str("walk"), AnimState::Walk);
    assert_eq!(AnimState::from_str("dance"), AnimState::Custom("dance".to_string()));
    assert_eq!(AnimState::Attack.clip_name(), "attack");
    assert_eq!(AnimState::Custom("wave".to_string()).clip_name(), "wave");
    assert!(play_transition(&AnimState::Idle, AnimState::Idle).is_none());
    assert_eq!(play_transition(&AnimState::Idle, AnimState::Run), Some(AnimState::Run));

    let mut store = SkeletonStore::new();
    let h = store.add(vec!["idle".to_string(), "run".to_string(), "idle".to_string()]);
    let empty = store.add(vec![]);
    assert_eq!(store.find_clip(h, "idle"), Some(2));
    assert_eq!(store.find_clip(h, "jump"), None);
    assert_eq!(store.clip_count(h), 3);
    assert_eq!(store.resolve_clip(h, &AnimState::Run), Some(1));
    assert_eq!(store.resolve_clip(h, &AnimState::Attack), Some(0));
    assert_eq!(store.resolve_clip(empty, &AnimState::Attack), None);
}

#[test]
fn tags_add_remove_and_query() {
    let mut t = Tags(vec!["enemy".to_string()]);
    t.add_tag("boss");
    t.add_tag("boss");
    assert_eq!(t.0, vec!["enemy".to_string(), "boss".to_string()]);
    assert!(t.has_tag("boss"));
    t.remove_tag("enemy");
    assert!(!t.has_tag("enemy"));
    assert_eq!(t.first_tag(), Some("boss".to_string()));
    t.remove_tag("boss");
    assert_eq!(t.first_tag(), None);

    let entities = vec![
        (EntityId("a".to_string()), Tags(vec!["enemy".to_string(), "flying".to_string()])),
        (EntityId("b".to_string()), Tags(vec!["enemy".to_string()])),
        (EntityId("c".to_string()), Tags(vec!["flying".to_string(), "enemy".to_string()])),
    ];
    assert_eq!(find_by_tags(&entities, &vec!["enemy".to_string()]), vec!["a", "b", "c"]);
    assert_eq!(
        find_by_tags(&entities, &vec!["flying".to_string(), "enemy".to_string()]),
        vec!["a".to_string(), "c".to_string()]
    );
    assert!(CameraRole::Main.is_main());
    assert_eq!(CameraRole::Other("minimap".to_string()).name(), "minimap");
    assert_eq!(CameraRole::Main.name(), "main");
}

#[test]
fn material_cache_hands_out_handles() {
    assert_eq!(default_opaque(), "opaque");
    assert_eq!(default_back(), "back");
    assert_eq!(MaterialError::IoError("x".to_string()).message(), "Material IO error: x");
    assert_eq!(MaterialError::ParseError("y".to_string()).message(), "Material parse error: y");

    let mut cache: MaterialCache<u32> = MaterialCache::new();
    assert!(cache.lookup("assets/materials/red.yaml").is_none());
    let red = cache.insert("assets/materials/red.yaml", 7);
    assert_eq!(red, MaterialHandle(0));
    assert_eq!(cache.lookup("assets/materials/red.yaml"), Some(red));
    assert_eq!(cache.lookup("assets//materials/red.yaml"), Some(red));
    let fallback = cache.insert_unnamed(9);
    assert_eq!(fallback, MaterialHandle(1));
    assert_eq!(*cache.get(fallback), 9);
    assert!(cache.default_handle().is_none());
    cache.set_default(fallback);
    assert_eq!(cache.default_handle(), Some(fallback));
    assert_eq!(cache.len(), 2);
}

#[test]
fn demos_are_chosen_by_number_slug_or_name() {
    let c = demo_catalog();
    assert_eq!(c.len(), 14);
    match choose_demo(&c, "3") {
        DemoChoice::Found(i) => assert_eq!(c[i].slug, "materials"),
        other => panic!("unexpected {:?}", other),
    }
    match choose_demo(&c, "99") {
        DemoChoice::NoSuchNumber(n) => assert_eq!(n, 99),
        other => panic!("unexpected {:?}", other),
    }
    match choose_demo(&c, "PBR") {
        DemoChoice::Found(i) => assert_eq!(c[i].number, 7),
        other => panic!("unexpected {:?}", other),
    }
    match choose_demo(&c, "colosseum") {
        DemoChoice::Found(i) => assert_eq!(c[i].slug, "titan"),
        other => panic!("unexpected {:?}", other),
    }
    match choose_demo(&c, "demo") {
        DemoChoice::Ambiguous(v) => assert!(v.len() > 1),
        other => panic!("unexpected {:?}", other),
    }
    match choose_demo(&c, "zzz") {
        DemoChoice::NoMatch => {}
        other => panic!("unexpected {:?}", other),
    }
    let a = demo_cli_args(&c[0], "/tmp/x");
    assert_eq!(a.scene, Some("scenes/tier25_impulse_demo.yaml".to_string()));
    assert_eq!(a.pipeline, Some("pipelines/render.yaml".to_string()));
}

#[test]
fn dev_log_submission() {
    assert!(no_dev_log().starts_with("No dev.log found in project root."));
    assert!(github_token(None).is_err());
    assert!(github_token(Some(String::new())).is_err());
    assert_eq!(github_token(Some("tok".to_string())).unwrap(), "tok");
    assert_eq!(
        dev_log_issue("game", "0.1.0", "0.2.0", "2024-01-01 10:00", "  \n ").unwrap_err(),
        "dev.log is empty. Fill it out before submitting."
    );
    let issue = dev_log_issue("game", "0.1.0", "0.2.0", "2024-01-01 10:00", "\n notes \n").unwrap();
    assert_eq!(issue.title, "[Dev Log] game — v0.2.0");
    assert_eq!(
        issue.body,
        "**Project:** game v0.1.0  \n**Engine:** nAIVE v0.2.0  \n**Submitted:** 2024-01-01 10:00  \n\n---\n\nnotes"
    );
    assert_eq!(issue_url_or_note(None), "(URL not found in response)");
    assert_eq!(
        with_submission_record("log", "2024-01-01 10:00", "https://x/1"),
        "log\n\n## Submitted: 2024-01-01 10:00 — https://x/1\n"
    );
}

#[test]
fn cursor_capture_and_debug_keys() {
    let mut s = InputState::new(InputBindings::default());
    s.key_event(KeyCode::KeyW, true);
    let ch = update_cursor_capture(&mut s, false);
    assert!(ch.capture && !ch.release);
    assert!(s.cursor_captured());
    s.begin_frame();
    s.key_event(KeyCode::Escape, true);
    let ch = update_cursor_capture(&mut s, false);
    assert!(ch.release && !ch.capture);
    assert!(!s.cursor_captured());
    let ch = update_cursor_capture(&mut s, true);
    assert!(!ch.release && !ch.capture);

    let mut t = DebugToggles {
        show_hud: false,
        bloom_enabled: true,
        point_lights_enabled: true,
        emission_enabled: true,
        torch_flicker_enabled: true,
    };
    let mut k = InputState::new(InputBindings::default());
    k.key_event(KeyCode::Digit1, true);
    let c = apply_debug_keys(&mut t, &k);
    assert!(t.bloom_enabled && !c.light_intensity);
    k.key_event(KeyCode::Digit0, true);
    k.key_event(KeyCode::Digit2, true);
    let c = apply_debug_keys(&mut t, &k);
    assert!(t.show_hud && !t.bloom_enabled && c.light_intensity && !c.ambient);
    let _ = MouseButton::Left;
}

#[test]
fn change_batches_and_script_matches() {
    let events = vec![
        WatchEvent::ShaderChanged("shaders/a.slang".to_string()),
        WatchEvent::ShaderChanged("shaders/a.slang".to_string()),
        WatchEvent::MaterialChanged("m.yaml".to_string()),
        WatchEvent::PipelineChanged("pipelines/render.yaml".to_string()),
        WatchEvent::ScriptChanged("/p/logic/player.lua".to_string()),
    ];
    let b = batch_changes(&events);
    assert_eq!(b.shader_paths, vec!["shaders/a.slang".to_string()]);
    assert!(b.scene_paths.is_empty());
    assert!(b.pipeline_changed);
    assert_eq!(b.script_paths.len(), 1);
    let sources = vec!["logic/player.lua".to_string(), "logic/enemy.lua".to_string(), "other/player.lua".to_string()];
    assert_eq!(scripts_to_reload(&sources, &b.script_paths), vec![0, 2]);
}

#[test]
fn text_helpers() {
    assert_eq!(format_u64(0), "0");
    assert_eq!(format_u64(1234567890123), "1234567890123");
    assert_eq!(parse_u32("+42"), Some(42));
    assert_eq!(parse_u32("4294967296"), None);
    assert_eq!(parse_usize("007"), Some(7));
    assert_eq!(parse_usize("7a"), None);
    assert_eq!(parse_usize(""), None);
    assert_eq!(trim("\t x y \n"), "x y");
    assert_eq!(trim_end_char("a///", '/'), "a");
    assert_eq!(
        sort_strings(vec!["b".to_string(), "B".to_string(), "ab".to_string(), "a".to_string()]),
        vec!["B".to_string(), "a".to_string(), "ab".to_string(), "b".to_string()]
    );
}

#[test]
fn material_get_or_load_memoises_and_keeps_failures_out() {
    let mut cache: MaterialCache<u32> = MaterialCache::new();
    let loads = std::cell::Cell::new(0);
    let a = cache.get_or_load("mat/a.yaml", || {
        loads.set(loads.get() + 1);
        Ok(7)
    });
    assert_eq!(a.as_ref().ok().map(|h| h.0), Some(0));
    let again = cache.get_or_load("mat/a.yaml", || {
        loads.set(loads.get() + 1);
        Ok(8)
    });
    assert_eq!(again.ok().map(|h| h.0), Some(0));
    assert_eq!(loads.get(), 1);
    assert_eq!(*cache.get(a.unwrap()), 7);

    let failed = cache.get_or_load("mat/b.yaml", || Err(MaterialError::IoError("denied".to_string())));
    assert!(matches!(failed, Err(MaterialError::IoError(ref m)) if m == "denied"));
    assert_eq!(cache.len(), 1);
    assert!(cache.lookup("mat/b.yaml").is_none());

    let d = cache.ensure_default("mat/default.yaml", || Err(MaterialError::ParseError("bad".to_string())), 99);
    assert_eq!(d.0, 1);
    assert_eq!(*cache.get(d), 99);
    let d2 = cache.ensure_default("mat/default.yaml", || Ok(5), 0);
    assert_eq!(d2, d);
}

#[test]
fn mesh_spawn_checks_in_order() {
    assert_eq!(check_mesh_spawn(None, false, false, false, None, None).unwrap_err(), "Missing 'entity_id' parameter");
    assert_eq!(check_mesh_spawn(Some("e1"), false, true, true, None, None).unwrap_err(), "GPU not initialized");
    assert_eq!(check_mesh_spawn(Some("e1"), true, false, false, None, None).unwrap_err(), "Missing 'components' parameter");
    assert_eq!(
        check_mesh_spawn(Some("e1"), true, true, false, None, None).unwrap_err(),
        "Missing 'mesh_renderer' in components"
    );
    let s = check_mesh_spawn(Some("e1"), true, true, true, None, Some("mat/red.yaml")).unwrap();
    assert_eq!((s.entity_id.as_str(), s.mesh.as_str(), s.material.as_str()), ("e1", "procedural:cube", "mat/red.yaml"));
}

#[test]
fn spawn_target_and_collider_shape() {
    assert_eq!(check_spawn_target(false, true, "e1").unwrap_err(), "No scene loaded");
    assert_eq!(check_spawn_target(true, true, "e1").unwrap_err(), "Entity 'e1' already exists");
    assert!(check_spawn_target(true, false, "e1").is_ok());
    assert_eq!(collider_shape(Some("sphere")), ColliderShape::Sphere);
    assert_eq!(collider_shape(Some("capsule")), ColliderShape::Capsule);
    assert_eq!(collider_shape(Some("cone")), ColliderShape::Box);
    assert_eq!(collider_shape(None), ColliderShape::Box);
}

#[test]
fn light_cap_and_bloom_skip() {
    assert_eq!(lights_uploaded(true, 5), 5);
    assert_eq!(lights_uploaded(true, 40), 32);
    assert_eq!(lights_uploaded(false, 5), 0);
    assert!(skips_pass(false, "bloom_pass"));
    assert!(!skips_pass(true, "bloom_pass"));
    assert!(!skips_pass(false, "tonemap_pass"));
}
