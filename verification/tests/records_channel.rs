use std::str::FromStr;

use global_sync::channel::{channel_url_to_prioritized_channel, ChannelRef};
use global_sync::ledger::PackageInfo;
use global_sync::dirs::DirEntryInfo;
use global_sync::records::{
    collect_package_records, is_metadata_file, metadata_candidates, ParsedRecord,
};
use global_sync::GlobalError;
use rattler_conda_types::NamedChannelOrUrl;
use url::Url;

#[test]
fn metadata_extension_rules() {
    assert!(is_metadata_file("/envs/test/conda-meta/python-3.13.0-h1.json"));
    assert!(!is_metadata_file("/envs/test/conda-meta/history"));
    assert!(!is_metadata_file("/envs/test/conda-meta/.json"));
    assert!(!is_metadata_file("/envs/test/conda-meta/notes.txt"));
}

#[test]
fn metadata_candidates_filter_files_with_extension() {
    let entry = |path: &str, is_file: bool| DirEntryInfo {
        path: path.to_string(),
        is_file,
        is_dir: !is_file,
        is_executable: false,
        head: Vec::new(),
    };
    let entries = vec![
        entry("/m/a-1.0-h1.json", true),
        entry("/m/history", true),
        entry("/m/cache.json", false),
        entry("/m/b-2.0-h2.json", true),
    ];
    let candidates = metadata_candidates(&entries);
    assert_eq!(
        candidates,
        vec!["/m/a-1.0-h1.json".to_string(), "/m/b-2.0-h2.json".to_string()]
    );
}

#[test]
fn collect_records_happy_path() {
    let parsed = vec![
        ParsedRecord {
            path: "/m/a.json".to_string(),
            record: Some(PackageInfo::new("a".to_string(), "1.0".to_string())),
        },
        ParsedRecord {
            path: "/m/b.json".to_string(),
            record: Some(PackageInfo::new("b".to_string(), "2.0".to_string())),
        },
    ];
    let records = collect_package_records("/m", parsed).unwrap();
    assert_eq!(records.len(), 2);
    assert_eq!(records[0].name, "a");
    assert_eq!(records[1].version, "2.0");
}

#[test]
fn collect_records_fails_on_corrupt_file() {
    let parsed = vec![
        ParsedRecord {
            path: "/m/a.json".to_string(),
            record: Some(PackageInfo::new("a".to_string(), "1.0".to_string())),
        },
        ParsedRecord { path: "/m/bad.json".to_string(), record: None },
    ];
    let err = collect_package_records("/m", parsed).unwrap_err();
    assert!(matches!(err, GlobalError::MetadataCorrupt(p) if p == "/m/bad.json"));
}

#[test]
fn collect_records_fails_on_empty_directory() {
    let err = collect_package_records("/m", Vec::new()).unwrap_err();
    assert!(matches!(err, GlobalError::NoMetadataFound(d) if d == "/m"));
}

#[test]
fn test_channel_url_to_prioritized_channel() {
    let channel_alias = Url::from_str("https://conda.anaconda.org").unwrap();

    // Same host as alias
    let channel = "https://conda.anaconda.org/conda-forge";
    let prioritized_channel =
        channel_url_to_prioritized_channel(channel, channel_alias.as_str()).unwrap();
    let expected = NamedChannelOrUrl::from_str("conda-forge").unwrap();
    assert!(matches!(&prioritized_channel.channel, ChannelRef::Name(n) if n == expected.as_str()));
    assert_eq!(prioritized_channel.priority, None);

    // Different host
    let channel = "https://prefix.dev/conda-forge";
    let prioritized_channel =
        channel_url_to_prioritized_channel(channel, channel_alias.as_str()).unwrap();
    let expected = NamedChannelOrUrl::from_str("https://prefix.dev/conda-forge").unwrap();
    assert!(matches!(&prioritized_channel.channel, ChannelRef::Url(u) if u == expected.as_str()));
    assert_eq!(prioritized_channel.priority, None);

    // File URL
    let channel = "file:///C:/Users/user/channel/output";
    let prioritized_channel =
        channel_url_to_prioritized_channel(channel, channel_alias.as_str()).unwrap();
    let expected = NamedChannelOrUrl::from_str("file:///C:/Users/user/channel/output").unwrap();
    assert!(matches!(&prioritized_channel.channel, ChannelRef::Url(u) if u == expected.as_str()));
    assert_eq!(prioritized_channel.priority, None);
}

#[test]
fn malformed_alias_channel_surfaces_as_error() {
    let channel_alias = Url::from_str("https://conda.anaconda.org").unwrap();
    // contains the alias but is not a valid URL: an error, never a panic
    let channel = "oops https://conda.anaconda.org/ bad";
    let err = channel_url_to_prioritized_channel(channel, channel_alias.as_str()).unwrap_err();
    assert!(matches!(err, GlobalError::ChannelUrlInvalid(s) if s == channel));
}
