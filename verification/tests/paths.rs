use global_sync::dirs::{BinDir, DirEntryInfo, EnvDir, EnvRoot};
use global_sync::names::{EnvironmentName, ExposedName};
use global_sync::strutil::{base_name, derived_name, path_join, path_under, str_contains};

#[test]
fn bin_dir_is_bin_under_root() {
    let bin_dir = BinDir::new("/home/user/.pixi");
    assert_eq!(bin_dir.path(), "/home/user/.pixi/bin");
}

#[test]
fn env_root_is_envs_under_root() {
    let env_root = EnvRoot::new("/home/user/.pixi");
    assert_eq!(env_root.path(), "/home/user/.pixi/envs");
}

#[test]
fn env_dir_joins_environment_name() {
    let env_root = EnvRoot::new("/home/user/.pixi");
    let name = EnvironmentName::from_string("test-env".to_string()).unwrap();
    let env_dir = EnvDir::from_env_root(&env_root, &name);
    assert_eq!(env_dir.path(), "/home/user/.pixi/envs/test-env");
}

#[test]
fn test_executable_script_path() {
    let bin_dir = BinDir::new("/home/user/.pixi");
    for case in ["python3.9.1", "python3.9", "python3", "python"] {
        let exposed_name = ExposedName::from_string(case.to_string()).unwrap();
        let unix = bin_dir.executable_script_path(&exposed_name, false);
        assert_eq!(unix, format!("/home/user/.pixi/bin/{}", case));
        let windows = bin_dir.executable_script_path(&exposed_name, true);
        assert_eq!(windows, format!("/home/user/.pixi/bin/{}.bat", case));
    }
}

#[test]
fn derived_name_strips_launcher_suffixes_on_windows_only() {
    assert_eq!(derived_name("/bin/test.bat", true), "test");
    assert_eq!(derived_name("/bin/test.exe", true), "test");
    assert_eq!(derived_name("/bin/test.bat", false), "test.bat");
    assert_eq!(derived_name("/env/bin/python3.9", false), "python3.9");
    assert_eq!(derived_name("python", false), "python");
}

#[test]
fn base_name_takes_last_component() {
    assert_eq!(base_name("/a/b/c"), "c");
    assert_eq!(base_name("c"), "c");
    assert_eq!(base_name("/a/b/"), "");
}

#[test]
fn path_under_is_component_wise() {
    assert!(path_under("/envs/test/bin/x", "/envs/test"));
    assert!(path_under("/envs/test", "/envs/test"));
    assert!(!path_under("/envs/test2/bin/x", "/envs/test"));
    assert!(!path_under("/envs/te", "/envs/test"));
}

#[test]
fn join_and_contains_behave() {
    assert_eq!(path_join("/a/b", "c"), "/a/b/c");
    assert!(str_contains("https://conda.anaconda.org/conda-forge", "conda.anaconda.org"));
    assert!(!str_contains("https://prefix.dev/conda-forge", "conda.anaconda.org"));
}

#[test]
fn script_selection_wants_executable_text_files() {
    let entry = |path: &str, is_file: bool, is_dir: bool, is_executable: bool, head: Vec<u8>| {
        DirEntryInfo { path: path.to_string(), is_file, is_dir, is_executable, head }
    };
    let bin_dir = BinDir::new("/p");
    let entries = vec![
        entry("/p/bin/script", true, false, true, b"#!/bin/sh\n".to_vec()),
        entry("/p/bin/native", true, false, true, vec![0x7f, b'E', 0u8, b'F']),
        entry("/p/bin/plain", true, false, false, b"#!/bin/sh\n".to_vec()),
        entry("/p/bin/subdir", false, true, false, Vec::new()),
        entry("/p/bin/empty", true, false, true, Vec::new()),
    ];
    let selected = bin_dir.select_script_files(&entries);
    assert_eq!(selected, vec!["/p/bin/script".to_string(), "/p/bin/empty".to_string()]);

    let env_root = EnvRoot::new("/p");
    let dirs = env_root.select_directories(&entries);
    assert_eq!(dirs, vec!["/p/bin/subdir".to_string()]);
}

#[test]
fn name_validation_rejects_separators_and_empty() {
    assert!(ExposedName::from_string("python3.9".to_string()).is_some());
    assert!(ExposedName::from_string("".to_string()).is_none());
    assert!(ExposedName::from_string("a/b".to_string()).is_none());
    assert!(EnvironmentName::from_string("test".to_string()).is_some());
    assert!(EnvironmentName::from_string("a/b".to_string()).is_none());
}
