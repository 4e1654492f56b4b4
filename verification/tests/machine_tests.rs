use bedrock_up::args::{DownloadType, UpdateArgs};
use bedrock_up::document::JsonValue;
use bedrock_up::machine::{step, Action, Event, Outcome, Step};

fn text(v: &str) -> JsonValue {
    JsonValue::Text(v.to_string())
}

fn object(pairs: Vec<(&str, JsonValue)>) -> JsonValue {
    JsonValue::Object(pairs.into_iter().map(|(k, v)| (k.to_string(), v)).collect())
}

fn links_doc(links: Vec<JsonValue>) -> JsonValue {
    JsonValue::Object(vec![(
        "result".to_string(),
        JsonValue::Object(vec![("links".to_string(), JsonValue::Array(links))]),
    )])
}

fn link(download_type: &str, download_url: &str) -> JsonValue {
    object(vec![
        ("downloadType", text(download_type)),
        ("downloadUrl", text(download_url)),
    ])
}

fn windows_doc(url: &str) -> JsonValue {
    links_doc(vec![link("serverBedrockWindows", url)])
}

fn args(force: bool) -> UpdateArgs {
    UpdateArgs {
        download_type: DownloadType::Windows,
        force,
        server_path: "/srv/bedrock".to_string(),
        cache_path: "/var/cache/links.json".to_string(),
        exclude: vec![
            "server.properties".to_string(),
            "permissions.json".to_string(),
            "allowlist.json".to_string(),
        ],
    }
}

#[test]
fn test_run_starts_with_remote_fetch() {
    let a = args(false);
    let (s, action) = step(&a, Step::Idle, Event::Start);
    assert_eq!(s, Step::FetchingRemote);
    assert_eq!(action, Action::FetchRemote);
}

#[test]
fn test_remote_absent_ends_run() {
    let a = args(false);
    let (s, action) = step(
        &a,
        Step::FetchingRemote,
        Event::RemoteFetched {
            manifest: JsonValue::Null,
        },
    );
    assert_eq!(
        s,
        Step::Finished {
            outcome: Outcome::RemoteUnavailable
        }
    );
    assert_eq!(
        action,
        Action::Report {
            outcome: Outcome::RemoteUnavailable
        }
    );
}

#[test]
fn test_remote_without_requested_link_is_unresolved() {
    let a = args(false);
    let (s, action) = step(
        &a,
        Step::FetchingRemote,
        Event::RemoteFetched {
            manifest: links_doc(vec![link("serverJar", "https://x/s.jar")]),
        },
    );
    assert_eq!(
        s,
        Step::Finished {
            outcome: Outcome::LinkUnresolved
        }
    );
    assert_eq!(
        action,
        Action::Report {
            outcome: Outcome::LinkUnresolved
        }
    );
}

#[test]
fn test_remote_resolved_loads_cache_at_cache_path() {
    let a = args(false);
    let (s, action) = step(
        &a,
        Step::FetchingRemote,
        Event::RemoteFetched {
            manifest: windows_doc("https://x/v2.zip"),
        },
    );
    assert_eq!(
        s,
        Step::LoadingCache {
            manifest: windows_doc("https://x/v2.zip"),
            web_url: "https://x/v2.zip".to_string(),
        }
    );
    assert_eq!(
        action,
        Action::LoadCache {
            path: "/var/cache/links.json".to_string()
        }
    );
}

#[test]
fn test_version_gate_proceeds_on_difference() {
    let a = args(false);
    let (s, action) = step(
        &a,
        Step::LoadingCache {
            manifest: windows_doc("https://x/v2.zip"),
            web_url: "https://x/v2.zip".to_string(),
        },
        Event::CacheLoaded {
            manifest: windows_doc("https://x/v1.zip"),
        },
    );
    assert_eq!(
        s,
        Step::Downloading {
            manifest: windows_doc("https://x/v2.zip")
        }
    );
    assert_eq!(
        action,
        Action::Download {
            url: "https://x/v2.zip".to_string()
        }
    );
}

#[test]
fn test_version_gate_skips_when_versions_agree() {
    let a = args(false);
    let (s, action) = step(
        &a,
        Step::LoadingCache {
            manifest: windows_doc("https://x/v2.zip"),
            web_url: "https://x/v2.zip".to_string(),
        },
        Event::CacheLoaded {
            manifest: windows_doc("https://x/v2.zip"),
        },
    );
    assert_eq!(
        s,
        Step::Finished {
            outcome: Outcome::UpToDate
        }
    );
    assert_eq!(
        action,
        Action::Report {
            outcome: Outcome::UpToDate
        }
    );
}

#[test]
fn test_version_gate_forced_proceeds_anyway() {
    let a = args(true);
    let (s, action) = step(
        &a,
        Step::LoadingCache {
            manifest: windows_doc("https://x/v2.zip"),
            web_url: "https://x/v2.zip".to_string(),
        },
        Event::CacheLoaded {
            manifest: windows_doc("https://x/v2.zip"),
        },
    );
    assert_eq!(
        s,
        Step::Downloading {
            manifest: windows_doc("https://x/v2.zip")
        }
    );
    assert_eq!(
        action,
        Action::Download {
            url: "https://x/v2.zip".to_string()
        }
    );
}

#[test]
fn test_cache_absent_triggers_update() {
    // No cache file: the load delivers the absent manifest and the cached
    // token defaults to "0.0.0", so any remote token proceeds.
    let a = args(false);
    let (s, action) = step(
        &a,
        Step::LoadingCache {
            manifest: windows_doc("https://x/v2.zip"),
            web_url: "https://x/v2.zip".to_string(),
        },
        Event::CacheLoaded {
            manifest: JsonValue::Null,
        },
    );
    assert_eq!(
        s,
        Step::Downloading {
            manifest: windows_doc("https://x/v2.zip")
        }
    );
    assert_eq!(
        action,
        Action::Download {
            url: "https://x/v2.zip".to_string()
        }
    );
}

#[test]
fn test_download_failure_ends_run() {
    let a = args(false);
    let (s, action) = step(
        &a,
        Step::Downloading {
            manifest: windows_doc("https://x/v2.zip"),
        },
        Event::DownloadFinished { staged: None },
    );
    assert_eq!(
        s,
        Step::Finished {
            outcome: Outcome::DownloadFailed
        }
    );
    assert_eq!(
        action,
        Action::Report {
            outcome: Outcome::DownloadFailed
        }
    );
}

#[test]
fn test_download_success_applies_with_exclusions() {
    let a = args(false);
    let (s, action) = step(
        &a,
        Step::Downloading {
            manifest: windows_doc("https://x/v2.zip"),
        },
        Event::DownloadFinished {
            staged: Some("/tmp/v2.zip".to_string()),
        },
    );
    assert_eq!(
        s,
        Step::Applying {
            manifest: windows_doc("https://x/v2.zip"),
            staged: "/tmp/v2.zip".to_string(),
        }
    );
    assert_eq!(
        action,
        Action::Apply {
            target: "/srv/bedrock".to_string(),
            staged: "/tmp/v2.zip".to_string(),
            exclude: vec![
                "server.properties".to_string(),
                "permissions.json".to_string(),
                "allowlist.json".to_string(),
            ],
        }
    );
}

#[test]
fn test_staged_archive_removed_after_successful_apply() {
    let a = args(false);
    let (s, action) = step(
        &a,
        Step::Applying {
            manifest: windows_doc("https://x/v2.zip"),
            staged: "/tmp/v2.zip".to_string(),
        },
        Event::ApplyFinished { ok: true },
    );
    assert_eq!(
        s,
        Step::RemovingStaged {
            manifest: windows_doc("https://x/v2.zip"),
            apply_ok: true,
        }
    );
    assert_eq!(
        action,
        Action::RemoveStaged {
            staged: "/tmp/v2.zip".to_string()
        }
    );
}

#[test]
fn test_staged_archive_removed_after_failed_apply() {
    let a = args(false);
    let (s, action) = step(
        &a,
        Step::Applying {
            manifest: windows_doc("https://x/v2.zip"),
            staged: "/tmp/v2.zip".to_string(),
        },
        Event::ApplyFinished { ok: false },
    );
    assert_eq!(
        s,
        Step::RemovingStaged {
            manifest: windows_doc("https://x/v2.zip"),
            apply_ok: false,
        }
    );
    assert_eq!(
        action,
        Action::RemoveStaged {
            staged: "/tmp/v2.zip".to_string()
        }
    );
}

#[test]
fn test_cache_written_with_fetched_manifest_after_cleanup() {
    let a = args(false);
    let (s, action) = step(
        &a,
        Step::RemovingStaged {
            manifest: windows_doc("https://x/v2.zip"),
            apply_ok: true,
        },
        Event::StagedRemoved,
    );
    assert_eq!(s, Step::WritingCache);
    assert_eq!(
        action,
        Action::WriteCache {
            manifest: windows_doc("https://x/v2.zip"),
            path: "/var/cache/links.json".to_string(),
        }
    );
}

#[test]
fn test_no_cache_write_after_failed_apply() {
    let a = args(false);
    let (s, action) = step(
        &a,
        Step::RemovingStaged {
            manifest: windows_doc("https://x/v2.zip"),
            apply_ok: false,
        },
        Event::StagedRemoved,
    );
    assert_eq!(
        s,
        Step::Finished {
            outcome: Outcome::ApplyFailed
        }
    );
    assert_eq!(
        action,
        Action::Report {
            outcome: Outcome::ApplyFailed
        }
    );
}

#[test]
fn test_cache_write_failure_still_reports_update_applied() {
    let a = args(false);
    let (s, action) = step(
        &a,
        Step::WritingCache,
        Event::CacheWriteFinished { ok: false },
    );
    assert_eq!(
        s,
        Step::Finished {
            outcome: Outcome::Updated {
                cache_written: false
            }
        }
    );
    assert_eq!(
        action,
        Action::Report {
            outcome: Outcome::Updated {
                cache_written: false
            }
        }
    );
}

#[test]
fn test_full_successful_run() {
    let a = args(false);
    let remote = windows_doc("https://x/v2.zip");

    let (s, action) = step(&a, Step::Idle, Event::Start);
    assert_eq!(action, Action::FetchRemote);

    let (s, action) = step(&a, s, Event::RemoteFetched { manifest: remote });
    assert!(matches!(action, Action::LoadCache { .. }));

    let (s, action) = step(
        &a,
        s,
        Event::CacheLoaded {
            manifest: JsonValue::Null,
        },
    );
    assert_eq!(
        action,
        Action::Download {
            url: "https://x/v2.zip".to_string()
        }
    );

    let (s, action) = step(
        &a,
        s,
        Event::DownloadFinished {
            staged: Some("/tmp/v2.zip".to_string()),
        },
    );
    assert!(matches!(action, Action::Apply { .. }));

    let (s, action) = step(&a, s, Event::ApplyFinished { ok: true });
    assert_eq!(
        action,
        Action::RemoveStaged {
            staged: "/tmp/v2.zip".to_string()
        }
    );

    let (s, action) = step(&a, s, Event::StagedRemoved);
    // The cache receives exactly the document the remote fetch delivered.
    assert_eq!(
        action,
        Action::WriteCache {
            manifest: windows_doc("https://x/v2.zip"),
            path: "/var/cache/links.json".to_string(),
        }
    );

    let (s, action) = step(&a, s, Event::CacheWriteFinished { ok: true });
    assert_eq!(
        s,
        Step::Finished {
            outcome: Outcome::Updated {
                cache_written: true
            }
        }
    );
    assert_eq!(
        action,
        Action::Report {
            outcome: Outcome::Updated {
                cache_written: true
            }
        }
    );
}
