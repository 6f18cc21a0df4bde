use naive::cli::OutputMode;
use naive::project_config::{
    config_candidates, default_engine, find_config, is_test_script, select_test_scripts, test_file_source,
    to_cli_args, BuildConfig, ConfigError, DevLogConfig, NaiveConfig, TestConfig, TestFileSource,
};

fn config(files: Option<Vec<&str>>, directory: Option<&str>) -> NaiveConfig {
    NaiveConfig {
        name: "game".to_string(),
        version: "0.1.0".to_string(),
        engine: default_engine(),
        default_scene: Some("scenes/main.yaml".to_string()),
        default_pipeline: None,
        test: TestConfig {
            files: files.map(|v| v.into_iter().map(|s| s.to_string()).collect()),
            directory: directory.map(|s| s.to_string()),
        },
        build: BuildConfig::default(),
        dev_log: DevLogConfig::default(),
    }
}

#[test]
fn candidates_walk_up_to_the_root() {
    assert_eq!(
        config_candidates("/a/b"),
        vec!["/a/b/naive.yaml".to_string(), "/a/naive.yaml".to_string(), "/naive.yaml".to_string()]
    );
}

#[test]
fn find_config_takes_the_nearest_present() {
    assert_eq!(find_config("/a/b", &vec![false, true, true]), Some("/a/naive.yaml".to_string()));
    assert_eq!(find_config("/a/b", &vec![true, false, false]), Some("/a/b/naive.yaml".to_string()));
    assert_eq!(find_config("/a/b", &vec![false, false, false]), None);
    // candidates without a flag count as missing
    assert_eq!(find_config("/a/b", &vec![false]), None);
    assert_eq!(find_config("/a/b", &vec![]), None);
}

#[test]
fn cli_args_from_config() {
    let c = config(None, None);
    let a = to_cli_args(&c, "/projects/game");
    assert!(a.command.is_none());
    assert_eq!(a.scene, Some("scenes/main.yaml".to_string()));
    assert_eq!(a.pipeline, None);
    assert_eq!(a.output, OutputMode::Window);
    assert_eq!(a.project, "/projects/game");
    assert_eq!(a.socket, "/tmp/naive-runtime.sock");
    assert!(!a.hud);
}

#[test]
fn test_sources() {
    match test_file_source(&config(Some(vec!["tests/a.lua"]), Some("other"))) {
        TestFileSource::Explicit(f) => assert_eq!(f, vec!["tests/a.lua".to_string()]),
        other => panic!("unexpected {:?}", other),
    }
    match test_file_source(&config(None, Some("spec"))) {
        TestFileSource::Directory(d) => assert_eq!(d, "spec"),
        other => panic!("unexpected {:?}", other),
    }
    match test_file_source(&config(None, None)) {
        TestFileSource::Directory(d) => assert_eq!(d, "tests"),
        other => panic!("unexpected {:?}", other),
    }
}

#[test]
fn test_scripts_are_filtered_and_sorted() {
    assert!(is_test_script("test_x.lua"));
    assert!(!is_test_script("x_test.lua"));
    assert!(!is_test_script("test_x.luac"));
    let names = vec![
        "test_zeta.lua".to_string(),
        "helper.lua".to_string(),
        "test_alpha.lua".to_string(),
        "test_notes.txt".to_string(),
    ];
    assert_eq!(select_test_scripts(names), vec!["test_alpha.lua".to_string(), "test_zeta.lua".to_string()]);
}

#[test]
fn config_defaults_and_errors() {
    assert_eq!(default_engine(), "naive-runtime");
    assert!(TestConfig::default().files.is_none());
    assert!(BuildConfig::default().targets.is_none());
    assert!(!DevLogConfig::default().enabled);
    assert_eq!(ConfigError::NotFound.message(), "naive.yaml not found");
    assert_eq!(ConfigError::Io("denied".to_string()).message(), "IO error reading naive.yaml: denied");
    assert_eq!(ConfigError::Parse("bad".to_string()).message(), "Failed to parse naive.yaml: bad");
}
