use global_sync::dirs::EnvDir;
use global_sync::names::{ExposedName, Mapping};
use global_sync::sync::{
    check_all_exposed, filter_related, sync_status, ExposureRecord, PackageBinaries,
};

fn mapping(exposed: &str, executable: &str) -> Mapping {
    Mapping::new(
        ExposedName::from_string(exposed.to_string()).unwrap(),
        executable.to_string(),
    )
}

#[test]
fn fresh_environment_nothing_declared() {
    let related: Vec<ExposureRecord> = Vec::new();
    let mappings: Vec<Mapping> = Vec::new();
    let (to_remove, to_add) = sync_status(&related, &mappings, false);
    assert!(to_remove.is_empty());
    assert!(to_add.is_empty());
}

#[test]
fn one_declared_mapping_nothing_on_disk() {
    let related: Vec<ExposureRecord> = Vec::new();
    let mappings = vec![mapping("foo", "foo-bin")];
    let (to_remove, to_add) = sync_status(&related, &mappings, false);
    assert!(to_remove.is_empty());
    assert_eq!(to_add.len(), 1);
    assert_eq!(to_add[0].as_str(), "foo");
}

#[test]
fn matching_script_present() {
    let related = vec![ExposureRecord {
        exposed_path: "/home/user/.pixi/bin/foo".to_string(),
        executable_path: "/home/user/.pixi/envs/test/bin/foo-bin".to_string(),
    }];
    let mappings = vec![mapping("foo", "foo-bin")];
    let (to_remove, to_add) = sync_status(&related, &mappings, false);
    assert!(to_remove.is_empty());
    assert!(to_add.is_empty());
}

#[test]
fn orphaned_script_is_removed() {
    let related = vec![ExposureRecord {
        exposed_path: "/home/user/.pixi/bin/foo".to_string(),
        executable_path: "/home/user/.pixi/envs/test/bin/foo-bin".to_string(),
    }];
    let mappings: Vec<Mapping> = Vec::new();
    let (to_remove, to_add) = sync_status(&related, &mappings, false);
    assert_eq!(to_remove.len(), 1);
    assert_eq!(to_remove[0], "/home/user/.pixi/bin/foo");
    assert!(to_add.is_empty());
}

#[test]
fn windows_suffixes_match_mapping_names() {
    let related = vec![ExposureRecord {
        exposed_path: "C:/pixi/bin/test.bat".to_string(),
        executable_path: "C:/pixi/envs/test/bin/test.exe".to_string(),
    }];
    let mappings = vec![mapping("test", "test")];
    let (to_remove, to_add) = sync_status(&related, &mappings, true);
    assert!(to_remove.is_empty());
    assert!(to_add.is_empty());
}

#[test]
fn retargeted_exposure_lands_in_both_sets() {
    // the on-disk foo points at another executable than the declared foo:
    // the stale script is removed and the name re-added
    let related = vec![ExposureRecord {
        exposed_path: "/p/bin/foo".to_string(),
        executable_path: "/p/envs/test/bin/old-bin".to_string(),
    }];
    let mappings = vec![mapping("foo", "new-bin")];
    let (to_remove, to_add) = sync_status(&related, &mappings, false);
    assert_eq!(to_remove.len(), 1);
    assert_eq!(to_remove[0], "/p/bin/foo");
    assert_eq!(to_add.len(), 1);
    assert_eq!(to_add[0].as_str(), "foo");
}

#[test]
fn duplicate_stale_paths_and_names_are_deduplicated() {
    let related = vec![
        ExposureRecord {
            exposed_path: "/p/bin/foo".to_string(),
            executable_path: "/p/envs/test/bin/a".to_string(),
        },
        ExposureRecord {
            exposed_path: "/p/bin/foo".to_string(),
            executable_path: "/p/envs/test/bin/b".to_string(),
        },
    ];
    let mappings = vec![mapping("bar", "bar-bin"), mapping("bar", "bar-bin")];
    let (to_remove, to_add) = sync_status(&related, &mappings, false);
    assert_eq!(to_remove.len(), 1);
    assert_eq!(to_add.len(), 1);
    assert_eq!(to_add[0].as_str(), "bar");
}

#[test]
fn filter_related_keeps_only_this_environment() {
    let records = vec![
        ExposureRecord {
            exposed_path: "/p/bin/foo".to_string(),
            executable_path: "/p/envs/test/bin/foo-bin".to_string(),
        },
        ExposureRecord {
            exposed_path: "/p/bin/bar".to_string(),
            executable_path: "/p/envs/other/bin/bar-bin".to_string(),
        },
    ];
    let env_dir = EnvDir::from_path("/p/envs/test".to_string());
    let related = filter_related(records, &env_dir);
    assert_eq!(related.len(), 1);
    assert_eq!(related[0].exposed_path, "/p/bin/foo");
}

#[test]
fn sync_applied_state_is_idempotent() {
    // apply the resolver's answer by hand, then re-run: nothing left to do
    let related = vec![
        ExposureRecord {
            exposed_path: "/p/bin/stale".to_string(),
            executable_path: "/p/envs/test/bin/gone".to_string(),
        },
        ExposureRecord {
            exposed_path: "/p/bin/keep".to_string(),
            executable_path: "/p/envs/test/bin/keep-bin".to_string(),
        },
    ];
    let mappings = vec![mapping("keep", "keep-bin"), mapping("foo", "foo-bin")];
    let (to_remove, to_add) = sync_status(&related, &mappings, false);
    assert_eq!(to_remove, vec!["/p/bin/stale".to_string()]);
    assert_eq!(to_add.len(), 1);
    assert_eq!(to_add[0].as_str(), "foo");

    let applied = vec![
        ExposureRecord {
            exposed_path: "/p/bin/keep".to_string(),
            executable_path: "/p/envs/test/bin/keep-bin".to_string(),
        },
        ExposureRecord {
            exposed_path: "/p/bin/foo".to_string(),
            executable_path: "/p/envs/test/bin/foo-bin".to_string(),
        },
    ];
    let (to_remove2, to_add2) = sync_status(&applied, &mappings, false);
    assert!(to_remove2.is_empty());
    assert!(to_add2.is_empty());
}

#[test]
fn check_all_exposed_detects_subsets() {
    let env_binaries = vec![PackageBinaries {
        package: "python".to_string(),
        executables: vec!["python".to_string(), "python3".to_string()],
    }];
    let all = vec![mapping("python", "python"), mapping("py3", "python3")];
    assert!(check_all_exposed(&env_binaries, &all));
    let subset = vec![mapping("python", "python")];
    assert!(!check_all_exposed(&env_binaries, &subset));
    let none: Vec<Mapping> = Vec::new();
    let empty: Vec<PackageBinaries> = Vec::new();
    assert!(check_all_exposed(&empty, &none));
}
