use naive::pipeline::compiler::{
    compile_pass_shader, fallback_shader, fullscreen_kind, pass_targets, plan_pass, plan_pipeline, should_try_slang,
    FallbackShader, FullscreenKind, PassPipeline, ShaderSource,
};
use naive::pipeline::def::{
    build_dag, default_60, default_resolution, default_true, default_viewport, PassDef, PipelineError,
    PipelineFile, PipelineSettings, ResourceDef,
};
use naive::pipeline::graph::topological_order;
use naive::pipeline::resource::{
    format_from_string, parse_resource_size, resized_extent, resource_extent, texture_extent, PassType,
    ResourceSize, TextureFormat,
};

fn pass(name: &str, pass_type: &str, shader: &str, inputs: &[(&str, &str)], outputs: &[(&str, &str)]) -> PassDef {
    PassDef {
        name: name.to_string(),
        pass_type: pass_type.to_string(),
        shader: shader.to_string(),
        inputs: inputs.iter().map(|(k, v)| (k.to_string(), v.to_string())).collect(),
        outputs: outputs.iter().map(|(k, v)| (k.to_string(), v.to_string())).collect(),
        sort: None,
        cull: None,
        dispatch: None,
    }
}

#[test]
fn test_dag_order() {
    let passes = vec![
        pass(
            "geometry_pass",
            "rasterize",
            "gbuffer.slang",
            &[("scene_meshes", "auto")],
            &[("color", "gbuffer_albedo"), ("normal", "gbuffer_normal"), ("depth", "gbuffer_depth")],
        ),
        pass(
            "lighting_pass",
            "fullscreen",
            "deferred_light.slang",
            &[
                ("gbuffer_albedo", "gbuffer_albedo"),
                ("gbuffer_normal", "gbuffer_normal"),
                ("gbuffer_depth", "gbuffer_depth"),
            ],
            &[("color", "hdr_buffer")],
        ),
        pass("tonemap_pass", "fullscreen", "tonemap.slang", &[("hdr", "hdr_buffer")], &[("color", "swapchain")]),
    ];
    let order = build_dag(&passes).unwrap();

    let pos_geom = order.iter().position(|&x| x == 0).unwrap();
    let pos_light = order.iter().position(|&x| x == 1).unwrap();
    let pos_tone = order.iter().position(|&x| x == 2).unwrap();

    assert!(pos_geom < pos_light, "geometry must precede lighting");
    assert!(pos_light < pos_tone, "lighting must precede tonemap");
}

#[test]
fn test_dag_cycle_detection() {
    let passes = vec![
        pass("pass_a", "fullscreen", "a.slang", &[("in1", "resource_y")], &[("color", "resource_x")]),
        pass("pass_b", "fullscreen", "b.slang", &[("in1", "resource_x")], &[("color", "resource_y")]),
    ];

    let result = build_dag(&passes);
    assert!(result.is_err());
    match result {
        Err(PipelineError::DagCycle(_)) => {}
        other => panic!("Expected DagCycle error, got: {:?}", other),
    }
}

#[test]
fn test_format_from_string() {
    assert_eq!(format_from_string("rgba8").unwrap(), TextureFormat::Rgba8Unorm);
    assert_eq!(format_from_string("rgba16f").unwrap(), TextureFormat::Rgba16Float);
    assert_eq!(format_from_string("depth32f").unwrap(), TextureFormat::Depth32Float);
    assert!(format_from_string("unknown").is_err());
}

#[test]
fn test_parse_resource_size() {
    match parse_resource_size("viewport") {
        ResourceSize::Viewport => {}
        other => panic!("Expected Viewport, got: {:?}", other),
    }
    match parse_resource_size("viewport/2") {
        ResourceSize::ViewportDiv(2) => {}
        other => panic!("Expected ViewportDiv(2), got: {:?}", other),
    }
    match parse_resource_size("viewport/4") {
        ResourceSize::ViewportDiv(4) => {}
        other => panic!("Expected ViewportDiv(4), got: {:?}", other),
    }
    match parse_resource_size("[1920, 1080]") {
        ResourceSize::Fixed(1920, 1080) => {}
        other => panic!("Expected Fixed(1920, 1080), got: {:?}", other),
    }
}

#[test]
fn test_pass_type_from_str() {
    assert_eq!(PassType::from_str("rasterize"), Some(PassType::Rasterize));
    assert_eq!(PassType::from_str("fullscreen"), Some(PassType::Fullscreen));
    assert_eq!(PassType::from_str("compute"), Some(PassType::Compute));
    assert_eq!(PassType::from_str("splat"), Some(PassType::Splat));
    assert_eq!(PassType::from_str("shadow"), Some(PassType::Shadow));
    assert_eq!(PassType::from_str("invalid"), None);
}

#[test]
fn dag_orders_independent_passes_and_keeps_all() {
    let passes = vec![
        pass("a", "fullscreen", "a.slang", &[], &[("color", "x")]),
        pass("b", "fullscreen", "b.slang", &[], &[("color", "y")]),
        pass("c", "fullscreen", "c.slang", &[("p", "x"), ("q", "y")], &[("color", "z")]),
    ];
    let order = build_dag(&passes).unwrap();
    let mut sorted = order.clone();
    sorted.sort();
    assert_eq!(sorted, vec![0, 1, 2]);
    assert_eq!(*order.last().unwrap(), 2);
    // ready passes are taken most recent first
    assert_eq!(order, vec![1, 0, 2]);
    let independent = vec![
        pass("a", "fullscreen", "a.slang", &[], &[("color", "x")]),
        pass("b", "fullscreen", "b.slang", &[], &[("color", "y")]),
        pass("c", "fullscreen", "c.slang", &[], &[("color", "z")]),
    ];
    assert_eq!(build_dag(&independent).unwrap(), vec![2, 1, 0]);
}

#[test]
fn dag_cycle_error_message() {
    // a pass reading what it writes itself depends on nothing
    let solo = vec![pass("self", "fullscreen", "s.slang", &[("in", "r")], &[("color", "r")])];
    assert_eq!(build_dag(&solo).unwrap(), vec![0]);
    let passes = vec![
        pass("a", "fullscreen", "a.slang", &[("in", "y")], &[("color", "x")]),
        pass("b", "fullscreen", "b.slang", &[("in", "x")], &[("color", "y")]),
        pass("c", "fullscreen", "c.slang", &[], &[("color", "z")]),
    ];
    match build_dag(&passes) {
        Err(e @ PipelineError::DagCycle(_)) => {
            assert_eq!(e.message(), "Pipeline DAG cycle: Cycle detected in render pass dependencies");
        }
        other => panic!("expected a cycle, got {:?}", other),
    }
}

#[test]
fn topological_order_of_matrices() {
    // row v lists what v depends on: 0 needs 1, 1 needs 2
    let g = vec![vec![false, true, false], vec![false, false, true], vec![false, false, false]];
    assert_eq!(topological_order(&g), Some(vec![2, 1, 0]));
    let cyc = vec![vec![false, true], vec![true, false]];
    assert_eq!(topological_order(&cyc), None);
    let empty: Vec<Vec<bool>> = Vec::new();
    assert_eq!(topological_order(&empty), Some(vec![]));
}

#[test]
fn resource_size_variants() {
    assert_eq!(parse_resource_size("  viewport  "), ResourceSize::Viewport);
    assert_eq!(parse_resource_size("viewport/0"), ResourceSize::Viewport);
    assert_eq!(parse_resource_size("viewport/x"), ResourceSize::Viewport);
    assert_eq!(parse_resource_size("[640,480]"), ResourceSize::Fixed(640, 480));
    assert_eq!(parse_resource_size("viewport/ 3 "), ResourceSize::ViewportDiv(3));
    assert_eq!(parse_resource_size("32, 16"), ResourceSize::Fixed(32, 16));
    assert_eq!(parse_resource_size("[640]"), ResourceSize::Viewport);
    assert_eq!(parse_resource_size("garbage"), ResourceSize::Viewport);
}

#[test]
fn resource_extents() {
    assert_eq!(resource_extent(ResourceSize::Viewport, 1920, 1080), (1920, 1080));
    assert_eq!(resource_extent(ResourceSize::ViewportDiv(4), 1920, 1080), (480, 270));
    assert_eq!(resource_extent(ResourceSize::Fixed(7, 9), 1920, 1080), (7, 9));
    assert_eq!(texture_extent(ResourceSize::ViewportDiv(4), 2, 3), (1, 1));
    assert_eq!(resized_extent(ResourceSize::Fixed(7, 9), 100, 100), None);
    assert_eq!(resized_extent(ResourceSize::ViewportDiv(2), 100, 50), Some((50, 25)));
}

#[test]
fn texture_format_error_message() {
    match format_from_string("bgra9") {
        Err(PipelineError::InvalidFormat(m)) => assert_eq!(m, "Unknown texture format: 'bgra9'"),
        other => panic!("unexpected {:?}", other),
    }
    assert_eq!(format_from_string("rgb16f").unwrap(), TextureFormat::Rgba16Float);
    assert_eq!(format_from_string("depth24plus").unwrap(), TextureFormat::Depth24Plus);
}

#[test]
fn pipeline_defaults() {
    assert_eq!(default_resolution(), [1280, 720]);
    assert!(default_true());
    assert_eq!(default_60(), 60);
    assert_eq!(default_viewport(), "viewport");
    let s = PipelineSettings::default();
    assert_eq!(s.resolution, [1280, 720]);
    assert!(s.vsync);
    assert_eq!(s.max_fps, 60);
    assert!(!s.hdr);
}

#[test]
fn shader_choice_and_fallbacks() {
    assert!(should_try_slang(true, "lighting_pass"));
    assert!(!should_try_slang(true, "geometry_pass"));
    assert!(!should_try_slang(false, "lighting_pass"));
    assert_eq!(fallback_shader("splat_pass").unwrap(), FallbackShader::SplatRender);
    assert_eq!(fallback_shader("splat_lighting").unwrap(), FallbackShader::DeferredLight);
    assert_eq!(fallback_shader("bloom_pass").unwrap(), FallbackShader::Bloom);
    match compile_pass_shader("lighting_pass", Some("wgsl code".to_string())) {
        Ok(ShaderSource::Compiled(w)) => assert_eq!(w, "wgsl code"),
        other => panic!("unexpected {:?}", other),
    }
    match compile_pass_shader("tonemap_pass", None) {
        Ok(ShaderSource::Fallback(f)) => assert_eq!(f, FallbackShader::Tonemap),
        other => panic!("unexpected {:?}", other),
    }
    match compile_pass_shader("mystery", None) {
        Err(PipelineError::ShaderError(m)) => assert_eq!(m, "No fallback WGSL for pass 'mystery'"),
        other => panic!("unexpected {:?}", other),
    }
}

#[test]
fn fullscreen_kinds() {
    assert_eq!(fullscreen_kind("tonemap_pass", true), FullscreenKind::Tonemap);
    assert_eq!(fullscreen_kind("fxaa", false), FullscreenKind::Fxaa);
    assert_eq!(fullscreen_kind("bloom_pass", false), FullscreenKind::Bloom);
    assert_eq!(fullscreen_kind("lighting_pass", true), FullscreenKind::Lighting { with_splats: true });
}

#[test]
fn pass_targets_order_by_slot() {
    let outputs = vec![
        ("depth".to_string(), "gbuffer_depth".to_string()),
        ("normal".to_string(), "gbuffer_normal".to_string()),
        ("color".to_string(), "gbuffer_albedo".to_string()),
    ];
    let t = pass_targets(&outputs);
    assert_eq!(t.depth_target, Some("gbuffer_depth".to_string()));
    assert_eq!(t.color_targets, vec!["gbuffer_albedo".to_string(), "gbuffer_normal".to_string()]);
}

#[test]
fn plan_lighting_pass_with_splats() {
    let p = pass(
        "lighting_pass",
        "fullscreen",
        "deferred_light.slang",
        &[("gbuffer_albedo", "gbuffer_albedo")],
        &[("depth", "scene_depth"), ("color", "hdr_buffer")],
    );
    let plan = plan_pass(&p, None, true).unwrap();
    assert_eq!(plan.pass_type, PassType::Fullscreen);
    assert_eq!(plan.pipeline, PassPipeline::Fullscreen(FullscreenKind::Lighting { with_splats: true }));
    assert_eq!(plan.targets.color_targets, vec!["hdr_buffer".to_string()]);
    assert_eq!(plan.targets.depth_target, Some("scene_depth".to_string()));
    assert!(matches!(plan.shader, ShaderSource::Fallback(FallbackShader::DeferredLight)));
}

#[test]
fn plan_geometry_pass_uses_compiled_shader() {
    let p = pass("geometry_pass", "rasterize", "gbuffer.slang", &[], &[("color", "gbuffer_albedo")]);
    let plan = plan_pass(&p, Some("@vertex fn vs() {}".to_string()), false).unwrap();
    assert_eq!(plan.pipeline, PassPipeline::Rasterize);
    match plan.shader {
        ShaderSource::Compiled(w) => assert_eq!(w, "@vertex fn vs() {}"),
        other => panic!("unexpected shader {:?}", other),
    }
}

#[test]
fn plan_unknown_pass_type_is_refused() {
    let p = pass("tonemap_pass", "raytrace", "tonemap.slang", &[], &[("color", "swapchain")]);
    match plan_pass(&p, None, false) {
        Err(PipelineError::InvalidFormat(m)) => assert_eq!(m, "Unknown pass type: 'raytrace'"),
        other => panic!("unexpected {:?}", other),
    }
}

#[test]
fn plan_pass_without_shader_is_refused_before_compute_check() {
    let p = pass("mystery", "compute", "x.slang", &[], &[]);
    match plan_pass(&p, None, false) {
        Err(PipelineError::ShaderError(m)) => assert_eq!(m, "No fallback WGSL for pass 'mystery'"),
        other => panic!("unexpected {:?}", other),
    }
}

#[test]
fn plan_compute_pass_is_unsupported() {
    let p = pass("bloom_compute", "compute", "bloom.slang", &[], &[]);
    match plan_pass(&p, None, false) {
        Err(PipelineError::InvalidFormat(m)) => assert_eq!(m, "Compute passes not yet supported"),
        other => panic!("unexpected {:?}", other),
    }
}

#[test]
fn every_writer_runs_before_the_reader() {
    let passes = vec![
        pass("first_writer", "fullscreen", "s.slang", &[], &[("color", "x")]),
        pass("second_writer", "fullscreen", "s.slang", &[], &[("color", "x")]),
        pass("reader", "fullscreen", "s.slang", &[("src", "x")], &[]),
    ];
    assert_eq!(build_dag(&passes).unwrap(), vec![1, 0, 2]);
}

#[test]
fn writer_reader_conflict_is_a_cycle() {
    let passes = vec![
        pass("a", "fullscreen", "s.slang", &[("in", "y")], &[("color", "x")]),
        pass("b", "fullscreen", "s.slang", &[], &[("color", "x")]),
        pass("c", "fullscreen", "s.slang", &[("in", "x")], &[("color", "y")]),
    ];
    assert!(matches!(build_dag(&passes), Err(PipelineError::DagCycle(_))));
}

fn resource(name: &str, format: &str) -> ResourceDef {
    ResourceDef {
        name: name.to_string(),
        resource_type: "texture".to_string(),
        format: format.to_string(),
        size: "viewport".to_string(),
    }
}

fn pipeline_file(resources: Vec<ResourceDef>, passes: Vec<PassDef>) -> PipelineFile {
    PipelineFile { version: 1, settings: PipelineSettings::default(), resources, passes }
}

#[test]
fn plan_whole_pipeline() {
    let pf = pipeline_file(
        vec![resource("gbuffer_albedo", "rgba8"), resource("hdr_buffer", "rgba16f"), resource("splat_color", "rgba8")],
        vec![
            pass("tonemap_pass", "fullscreen", "tonemap.slang", &[("hdr", "hdr_buffer")], &[("color", "swapchain")]),
            pass("geometry_pass", "rasterize", "gbuffer.slang", &[], &[("color", "gbuffer_albedo")]),
            pass("lighting_pass", "fullscreen", "light.slang", &[("a", "gbuffer_albedo")], &[("color", "hdr_buffer")]),
        ],
    );
    let compiled = vec![None, Some("wgsl for geometry".to_string()), Some("lit".to_string())];
    let plan = plan_pipeline(&pf, &compiled).unwrap();
    assert_eq!(plan.order, vec![1, 2, 0]);
    assert!(!plan.has_splat_targets);
    assert_eq!(plan.passes.len(), 3);
    assert_eq!(plan.passes[0].pipeline, PassPipeline::Fullscreen(FullscreenKind::Tonemap));
    // geometry passes skip their SLANG output
    assert!(matches!(plan.passes[1].shader, ShaderSource::Fallback(FallbackShader::Gbuffer)));
    assert!(matches!(plan.passes[2].shader, ShaderSource::Compiled(ref w) if w == "lit"));
    assert_eq!(plan.passes[2].pipeline, PassPipeline::Fullscreen(FullscreenKind::Lighting { with_splats: false }));
}

#[test]
fn plan_pipeline_error_order() {
    let cyclic = vec![
        pass("a", "nonsense", "s.slang", &[("in", "y")], &[("color", "x")]),
        pass("c", "fullscreen", "s.slang", &[("in", "x")], &[("color", "y")]),
    ];
    let pf = pipeline_file(vec![resource("x", "weird")], cyclic);
    assert!(matches!(plan_pipeline(&pf, &vec![None, None]), Err(PipelineError::DagCycle(_))));

    let pf = pipeline_file(
        vec![resource("x", "rgba8"), resource("y", "weird"), resource("z", "odd")],
        vec![pass("a", "nonsense", "s.slang", &[], &[])],
    );
    match plan_pipeline(&pf, &vec![None]) {
        Err(PipelineError::InvalidFormat(m)) => assert_eq!(m, "Unknown texture format: 'weird'"),
        other => panic!("unexpected {:?}", other),
    }

    let pf = pipeline_file(
        vec![resource("x", "rgba8")],
        vec![pass("tonemap", "fullscreen", "t.slang", &[], &[]), pass("mystery", "rasterize", "m.slang", &[], &[])],
    );
    match plan_pipeline(&pf, &vec![None, None]) {
        Err(PipelineError::ShaderError(m)) => assert_eq!(m, "No fallback WGSL for pass 'mystery'"),
        other => panic!("unexpected {:?}", other),
    }
}

#[test]
fn gbuffer_slots_in_any_order() {
    let outputs = [("emission", "e"), ("depth", "d"), ("normal", "n"), ("color", "c")];
    let t = pass_targets(&outputs.iter().map(|(k, v)| (k.to_string(), v.to_string())).collect());
    assert_eq!(t.color_targets, vec!["c".to_string(), "n".to_string(), "e".to_string()]);
    assert_eq!(t.depth_target, Some("d".to_string()));
}
