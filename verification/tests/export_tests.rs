use naive::beautify::{
    beautify_output_path, beautify_result, check_status, cloud_ply, cloud_request, config_from_env_values,
    gateway_ply, gateway_request, BackendKind, BeautifyBackend, BeautifyConfig, BeautifyEnv, PlySource,
};
use naive::scene_export::{
    append_offset_indices, cube_indices, encode_indices, frame_glb, glb_binary_buffer, glb_layout,
    is_procedural, procedural_mesh, sphere_indices, ProceduralMesh,
};

fn empty_env() -> BeautifyEnv {
    BeautifyEnv {
        gateway_url: None,
        gateway_key: None,
        worldlabs_api_url: None,
        marble_api_url: None,
        worldlabs_api_key: None,
        marble_api_key: None,
        beautify_style: None,
    }
}

#[test]
fn test_config_from_env_defaults() {
    // With no env vars set, should get empty local GPU backend
    let config = config_from_env_values(empty_env());
    assert_eq!(config.output_ply, "assets/splats/beautified.ply");
    match config.backend {
        BeautifyBackend::LocalGpu { gateway_url, gateway_key } => {
            assert!(gateway_url.is_empty());
            assert!(gateway_key.is_empty());
        }
        other => panic!("unexpected {:?}", other),
    }
}

#[test]
fn env_selects_backends() {
    let mut env = empty_env();
    env.marble_api_url = Some("https://marble".to_string());
    env.worldlabs_api_key = Some("wl-key".to_string());
    env.marble_api_key = Some("m-key".to_string());
    env.beautify_style = Some("anime".to_string());
    let c = config_from_env_values(env.clone());
    match &c.backend {
        BeautifyBackend::CloudApi { api_url, api_key } => {
            assert_eq!(api_url, "https://marble");
            assert_eq!(api_key, "wl-key");
        }
        other => panic!("unexpected {:?}", other),
    }
    assert_eq!(c.style_prompt, Some("anime".to_string()));
    env.gateway_url = Some("http://gpu:8000/".to_string());
    match config_from_env_values(env).backend {
        BeautifyBackend::LocalGpu { gateway_url, gateway_key } => {
            assert_eq!(gateway_url, "http://gpu:8000/");
            assert_eq!(gateway_key, "");
        }
        other => panic!("unexpected {:?}", other),
    }
}

#[test]
fn default_config() {
    let c = BeautifyConfig::default();
    assert_eq!(c.output_ply, "assets/splats/beautified.ply");
    assert!(c.style_prompt.is_none());
    assert_eq!(beautify_output_path(&c, "/proj"), "/proj/assets/splats/beautified.ply");
}

#[test]
fn gateway_requests() {
    let c = BeautifyConfig::default();
    let r = gateway_request("http://gpu:8000//", "SECRET-REDACTED", b"hello", &c).unwrap();
    assert_eq!(r.url, "http://gpu:8000/beautify");
    assert_eq!(r.authorization, "Bearer SECRET-REDACTED");
    assert_eq!(r.style, "photorealistic");
    assert_eq!(r.glb_base64, "aGVsbG8=");
    assert_eq!(
        gateway_request("", "k", b"x", &c).unwrap_err(),
        "GATEWAY_URL not set. Configure it in .env for local GPU beautification."
    );
    let mut styled = BeautifyConfig::default();
    styled.style_prompt = Some("stylized anime".to_string());
    let q = cloud_request("https://api.example/v1", "k2", b"", &styled).unwrap();
    assert_eq!(q.url, "https://api.example/v1");
    assert_eq!(q.style, "stylized anime");
    assert_eq!(q.glb_base64, "");
    assert_eq!(
        cloud_request("", "k2", b"", &styled).unwrap_err(),
        "Cloud API URL not set. Set WORLDLABS_API_URL or MARBLE_API_URL in .env."
    );
}

#[test]
fn replies() {
    assert!(check_status(BackendKind::LocalGpu, 200, "").is_ok());
    assert_eq!(
        check_status(BackendKind::LocalGpu, 503, "busy").unwrap_err(),
        "Gateway returned status 503: busy"
    );
    assert_eq!(check_status(BackendKind::CloudApi, 404, "").unwrap_err(), "Cloud API returned status 404: ");
    assert_eq!(gateway_ply(Some("aGVsbG8=")).unwrap(), b"hello".to_vec());
    assert_eq!(gateway_ply(None).unwrap_err(), "Gateway response missing 'ply_data' field");
    assert!(gateway_ply(Some("!!!")).unwrap_err().starts_with("Failed to decode PLY base64: "));
    match cloud_ply(None, Some("https://dl/x.ply")).unwrap() {
        PlySource::Download(u) => assert_eq!(u, "https://dl/x.ply"),
        other => panic!("unexpected {:?}", other),
    }
    match cloud_ply(Some("AAE="), Some("https://dl/x.ply")).unwrap() {
        PlySource::Bytes(b) => assert_eq!(b, vec![0u8, 1u8]),
        other => panic!("unexpected {:?}", other),
    }
    assert_eq!(
        cloud_ply(None, None).unwrap_err(),
        "Cloud API response missing 'ply_data' or 'download_url'"
    );
    let r = beautify_result(BackendKind::LocalGpu, "/p/out.ply", Some(4_294_967_297));
    assert_eq!(r.splat_count, Some(1));
    assert_eq!(r.backend_name, "local_gpu");
    assert_eq!(r.ply_path, "/p/out.ply");
    let m = beautify_result(BackendKind::Mock, "/p/out.ply", None);
    assert_eq!(m.backend_name, "mock");
    assert!(m.splat_count.is_none());
}

#[test]
fn glb_header_and_padding() {
    let json = b"{\"a\":1}".to_vec(); // 7 bytes, padded to 8
    let bin = vec![1u8, 2, 3, 4, 5]; // 5 bytes, padded to 8
    let glb = frame_glb(&json, &bin);
    assert_eq!(&glb[0..4], b"glTF");
    assert_eq!(u32::from_le_bytes([glb[4], glb[5], glb[6], glb[7]]), 2);
    assert_eq!(u32::from_le_bytes([glb[8], glb[9], glb[10], glb[11]]) as usize, glb.len());
    assert_eq!(glb.len(), 12 + 8 + 8 + 8 + 8);
    assert_eq!(u32::from_le_bytes([glb[12], glb[13], glb[14], glb[15]]), 8);
    assert_eq!(u32::from_le_bytes([glb[16], glb[17], glb[18], glb[19]]), 0x4E4F534A);
    assert_eq!(&glb[20..27], &json[..]);
    assert_eq!(glb[27], b' ');
    assert_eq!(u32::from_le_bytes([glb[28], glb[29], glb[30], glb[31]]), 8);
    assert_eq!(u32::from_le_bytes([glb[32], glb[33], glb[34], glb[35]]), 0x004E4942);
    assert_eq!(&glb[36..41], &bin[..]);
    assert_eq!(&glb[41..44], &[0u8, 0, 0]);
}

#[test]
fn glb_buffers() {
    assert_eq!(encode_indices(&vec![1, 258]), vec![1, 0, 0, 0, 2, 1, 0, 0]);
    let l = glb_layout(3, 3);
    assert_eq!((l.position_bytes, l.normal_bytes, l.index_bytes, l.buffer_size), (36, 36, 12, 84));
    let b = glb_binary_buffer(&vec![9u8; 2], &vec![8u8; 1], &vec![7]);
    assert_eq!(b, vec![9, 9, 8, 7, 0, 0, 0]);
}

#[test]
fn cube_and_sphere_indices() {
    let cube = cube_indices();
    assert_eq!(cube.len(), 36);
    assert_eq!(&cube[0..6], &[0, 1, 2, 0, 2, 3]);
    assert_eq!(&cube[30..36], &[20, 21, 22, 20, 22, 23]);
    assert!(cube.iter().all(|&i| i < 24));

    let sphere = sphere_indices(8, 8);
    assert_eq!(sphere.len(), 6 * 8 * 8);
    assert!(!sphere.is_empty());
    assert_eq!(&sphere[0..6], &[0, 9, 1, 9, 10, 1]);
    assert!(sphere.iter().all(|&i| i < 81));
    assert!(sphere_indices(0, 5).is_empty());
}

#[test]
fn procedural_names_and_merging() {
    assert!(is_procedural("procedural:cube"));
    assert!(!is_procedural("assets/meshes/tree.glb"));
    assert_eq!(procedural_mesh("procedural:sphere"), ProceduralMesh::Sphere { stacks: 16, slices: 16 });
    assert_eq!(procedural_mesh("procedural:torus"), ProceduralMesh::Cube);
    let mut all = vec![0, 1, 2];
    append_offset_indices(&mut all, &vec![0, 2, 1], 3);
    assert_eq!(all, vec![0, 1, 2, 3, 5, 4]);
}

#[test]
fn test_generate_cube() {
    // the cube's 24 vertices (4 per face) are float data built around these
    let indices = cube_indices();
    assert_eq!(indices.len(), 36);
    assert!(indices.iter().all(|&i| i < 24));
}

#[test]
fn test_generate_sphere() {
    let indices = sphere_indices(8, 8);
    assert!(!indices.is_empty());
    assert!(indices.iter().all(|&i| i < 9 * 9));
}

#[test]
fn test_encode_glb() {
    let positions: Vec<[f32; 3]> = vec![[-1.0, 0.0, 0.0], [1.0, 0.0, 0.0], [0.0, 1.0, 0.0]];
    let normals: Vec<[f32; 3]> = vec![[0.0, 0.0, 1.0]; 3];
    let indices = vec![0u32, 1, 2];
    let bytes = |v: &Vec<[f32; 3]>| v.iter().flat_map(|p| p.iter().flat_map(|c| c.to_le_bytes())).collect::<Vec<u8>>();

    let bin = glb_binary_buffer(&bytes(&positions), &bytes(&normals), &indices);
    let glb = frame_glb(&b"{\"asset\":{\"version\":\"2.0\"}}".to_vec(), &bin);

    // Check GLB magic number
    assert_eq!(&glb[0..4], b"glTF");
    // Check version
    assert_eq!(u32::from_le_bytes([glb[4], glb[5], glb[6], glb[7]]), 2);
}
