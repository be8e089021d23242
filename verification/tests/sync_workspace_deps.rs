use xtask::changeset::DirListing;
use xtask::cli::{run, Command, Session};
use xtask::flow::{Level, ManifestFile, PackageListing, Reply, RequestKind};
use xtask::manifest::{extract_package_version, find_dep_version_in_workspace, sync_workspace_versions};
use xtask::sync_workspace_deps::{read_crate_versions, Outcome, SyncWorkspaceDeps};

const ROOT: &str = "[workspace]\nmembers = [\"packages/*\"]\n\n[workspace.dependencies]\nzaino-common = { path = \"packages/zaino-common\", version = \"0.1.0\" }\nzaino-fetch = { path = \"packages/zaino-fetch\", version = \"0.1.0\" }\n";

#[test]
fn finds_dep_version() {
    let toml = r#"
[workspace.dependencies]
zaino-common = { path = "packages/zaino-common", version = "0.1.0" }
zaino-fetch = { path = "packages/zaino-fetch", version = "0.1.0" }
"#;
    let (line, version) = find_dep_version_in_workspace(toml, "zaino-common").unwrap();
    assert_eq!(version, "0.1.0");
    assert!(line.contains("zaino-common"));
}

#[test]
fn extracts_package_version() {
    let toml = r#"
[package]
name = "zaino-common"
version = "0.1.1-rc.0"
edition = "2021"
"#;
    assert_eq!(extract_package_version(toml), Some("0.1.1-rc.0".to_string()));
}

#[test]
fn skips_non_package_version() {
    let toml = r#"
[package]
name = "zaino-common"
version = "0.1.0"

[dependencies]
serde = { version = "1.0" }
"#;
    assert_eq!(extract_package_version(toml), Some("0.1.0".to_string()));
}

#[test]
fn package_version_needs_package_section() {
    let toml = "[dependencies]\nversion = \"9.9.9\"\n";
    assert_eq!(extract_package_version(toml), None);
    let toml = "[package]\nname = \"x\"\n[lib]\nversion = \"1.0\"\n";
    assert_eq!(extract_package_version(toml), None);
}

#[test]
fn dep_line_needs_path_and_version() {
    let toml = "zaino-common = { version = \"0.1.0\" }\n";
    assert_eq!(find_dep_version_in_workspace(toml, "zaino-common"), None);
    assert_eq!(find_dep_version_in_workspace(ROOT, "zainod"), None);
}

#[test]
fn sync_updates_changed_versions() {
    let versions = vec![
        ("zaino-common".to_string(), "0.1.1-rc.0".to_string()),
        ("zaino-fetch".to_string(), "0.1.0".to_string()),
    ];
    let (updated, changes) = sync_workspace_versions(ROOT, &versions);
    assert_eq!(changes.len(), 1);
    assert_eq!(changes[0].name, "zaino-common");
    assert_eq!(changes[0].old_version, "0.1.0");
    assert_eq!(changes[0].new_version, "0.1.1-rc.0");
    assert!(updated.contains(
        "zaino-common = { path = \"packages/zaino-common\", version = \"0.1.1-rc.0\" }"
    ));
    assert!(updated.contains(
        "zaino-fetch = { path = \"packages/zaino-fetch\", version = \"0.1.0\" }"
    ));
}

#[test]
fn sync_in_sync_changes_nothing() {
    let versions = vec![
        ("zaino-common".to_string(), "0.1.0".to_string()),
        ("zaino-fetch".to_string(), "0.1.0".to_string()),
        ("zainod".to_string(), "2.0.0".to_string()),
    ];
    let (updated, changes) = sync_workspace_versions(ROOT, &versions);
    assert!(changes.is_empty());
    assert_eq!(updated, ROOT);
}

#[test]
fn sync_sets_every_crate_and_second_sync_changes_nothing() {
    let versions = vec![
        ("zaino-common".to_string(), "0.2.0-rc.1".to_string()),
        ("zaino-fetch".to_string(), "0.2.0-rc.1".to_string()),
    ];
    let (once, changes) = sync_workspace_versions(ROOT, &versions);
    assert_eq!(changes.len(), 2);
    for (name, version) in &versions {
        let (_, found) = find_dep_version_in_workspace(&once, name).unwrap();
        assert_eq!(&found, version);
    }
    let (twice, again) = sync_workspace_versions(&once, &versions);
    assert!(again.is_empty());
    assert_eq!(twice, once);
}

#[test]
fn sync_handles_blank_lines_crlf_and_version_before_path() {
    let root = "[workspace]\r\nmembers = [\"packages/*\"]\r\n\r\n[workspace.dependencies]\r\nzaino-common = { version = \"0.1.0\", path = \"packages/zaino-common\" }\r\n\r\nzaino-fetch = { path = \"packages/zaino-fetch\", version = \"0.1.0\" }";
    let versions = vec![
        ("zaino-common".to_string(), "0.2.0".to_string()),
        ("zaino-fetch".to_string(), "0.3.0".to_string()),
    ];
    let (once, changes) = sync_workspace_versions(root, &versions);
    assert_eq!(changes.len(), 2);
    assert_eq!(find_dep_version_in_workspace(&once, "zaino-common").unwrap().1, "0.2.0");
    assert_eq!(find_dep_version_in_workspace(&once, "zaino-fetch").unwrap().1, "0.3.0");
    assert!(once.contains("\r\n\r\n[workspace.dependencies]\r\n"));
    assert!(once.ends_with("version = \"0.3.0\" }"));
    let (twice, again) = sync_workspace_versions(&once, &versions);
    assert!(again.is_empty());
    assert_eq!(twice, once);
}

#[test]
fn sync_replaces_every_assignment_of_the_old_version_on_the_line() {
    let root = "[workspace.dependencies]\nzaino-fetch = { path = \"p\", version = \"0.1.0\", x-version = \"0.1.0\" }\n";
    let versions = vec![("zaino-fetch".to_string(), "0.2.0".to_string())];
    let (once, changes) = sync_workspace_versions(root, &versions);
    assert_eq!(changes.len(), 1);
    assert_eq!(
        once,
        "[workspace.dependencies]\nzaino-fetch = { path = \"p\", version = \"0.2.0\", x-version = \"0.2.0\" }\n"
    );
    assert_eq!(find_dep_version_in_workspace(&once, "zaino-fetch").unwrap().1, "0.2.0");
    let (_, again) = sync_workspace_versions(&once, &versions);
    assert!(again.is_empty());
}

#[test]
fn sync_also_patches_a_commented_copy_of_the_line() {
    let root = "[workspace.dependencies]\n# zaino-fetch = { path = \"p\", version = \"0.1.0\" }\nzaino-fetch = { path = \"p\", version = \"0.1.0\" }\n";
    let versions = vec![("zaino-fetch".to_string(), "0.2.0".to_string())];
    let (once, changes) = sync_workspace_versions(root, &versions);
    assert_eq!(changes.len(), 1);
    assert_eq!(
        once,
        "[workspace.dependencies]\n# zaino-fetch = { path = \"p\", version = \"0.2.0\" }\nzaino-fetch = { path = \"p\", version = \"0.2.0\" }\n"
    );
    let (_, again) = sync_workspace_versions(&once, &versions);
    assert!(again.is_empty());
}

#[test]
fn second_sync_changes_again_where_one_name_prefixes_another() {
    let root = "[workspace.dependencies]\nzaino-common = { path = \"zaino-common\", version = \"0.1.0\" }\nzaino = { path = \"zaino\", version = \"0.1.0\" }\n";
    let versions = vec![
        ("zaino".to_string(), "2.0.0".to_string()),
        ("zaino-common".to_string(), "1.0.0".to_string()),
    ];
    let (once, _) = sync_workspace_versions(root, &versions);
    let (_, again) = sync_workspace_versions(&once, &versions);
    assert!(!again.is_empty());
}

fn manifest(dir: &str, version: &str) -> ManifestFile {
    ManifestFile {
        dir_name: dir.to_string(),
        path: format!("packages/{dir}/Cargo.toml"),
        read: Ok(format!("[package]\nname = \"{dir}\"\nversion = \"{version}\"\n")),
    }
}

#[test]
fn crate_versions_sorted_by_name() {
    let listing = PackageListing {
        files: vec![manifest("zaino-fetch", "0.2.0"), manifest("zaino-common", "0.1.1")],
        failure: None,
    };
    assert_eq!(
        read_crate_versions(&listing),
        Ok(vec![
            ("zaino-common".to_string(), "0.1.1".to_string()),
            ("zaino-fetch".to_string(), "0.2.0".to_string()),
        ])
    );
}

#[test]
fn crate_versions_errors() {
    let listing = PackageListing {
        files: vec![ManifestFile {
            dir_name: "zainod".to_string(),
            path: "packages/zainod/Cargo.toml".to_string(),
            read: Err("denied".to_string()),
        }],
        failure: None,
    };
    assert_eq!(
        read_crate_versions(&listing),
        Err("cannot read packages/zainod/Cargo.toml: denied".to_string())
    );
    let listing = PackageListing {
        files: vec![],
        failure: Some(xtask::flow::DirFailure::ReadDir("gone".to_string())),
    };
    assert_eq!(read_crate_versions(&listing), Err("cannot read packages/: gone".to_string()));
}

fn sync_inputs(root: &str) -> Reply {
    Reply::SyncInputs {
        root_manifest: Ok(root.to_string()),
        packages: PackageListing {
            files: vec![manifest("zaino-common", "0.1.1-rc.0"), manifest("zaino-fetch", "0.1.0")],
            failure: None,
        },
    }
}

#[test]
fn sync_procedure_writes_root() {
    let mut sync = SyncWorkspaceDeps::new(false);
    match sync.step(Reply::Start) {
        Outcome::Continue(s) => assert_eq!(s.kind, RequestKind::ReadSyncInputs),
        Outcome::Done(..) => panic!("expected a request"),
    }
    match sync.step(sync_inputs(ROOT)) {
        Outcome::Continue(s) => {
            assert_eq!(s.kind, RequestKind::WriteRootManifest);
            assert_eq!(s.logs.len(), 1);
            assert_eq!(s.logs[0].text, "  zaino-common: 0.1.0 -> 0.1.1-rc.0");
            assert!(s.args[0].contains("version = \"0.1.1-rc.0\""));
        },
        Outcome::Done(..) => panic!("expected a write"),
    }
    match sync.step(Reply::Done(Ok(()))) {
        Outcome::Done(logs, result) => {
            assert_eq!(result, Ok(()));
            assert_eq!(logs[0].level, Level::Success);
            assert_eq!(logs[0].text, "Updated 1 workspace dependency version(s).");
        },
        Outcome::Continue(_) => panic!("expected the end"),
    }
}

#[test]
fn sync_procedure_dry_run_and_in_sync() {
    let mut sync = SyncWorkspaceDeps::new(true);
    let _ = sync.step(Reply::Start);
    match sync.step(sync_inputs(ROOT)) {
        Outcome::Done(logs, result) => {
            assert_eq!(result, Ok(()));
            assert_eq!(logs[1].text, "[dry-run] would update 1 workspace dependency version(s)");
        },
        Outcome::Continue(_) => panic!("a dry run writes nothing"),
    }
    let synced = ROOT.replace("version = \"0.1.0\" }\nzaino-fetch", "version = \"0.1.1-rc.0\" }\nzaino-fetch");
    let mut sync = SyncWorkspaceDeps::new(false);
    let _ = sync.step(Reply::Start);
    match sync.step(sync_inputs(&synced)) {
        Outcome::Done(logs, result) => {
            assert_eq!(result, Ok(()));
            assert_eq!(logs[0].text, "Workspace dependency versions already in sync.");
        },
        Outcome::Continue(_) => panic!("nothing to write"),
    }
}

#[test]
fn sync_procedure_read_error() {
    let mut sync = SyncWorkspaceDeps::new(false);
    let _ = sync.step(Reply::Start);
    let reply = Reply::SyncInputs {
        root_manifest: Err("missing".to_string()),
        packages: PackageListing { files: vec![], failure: None },
    };
    match sync.step(reply) {
        Outcome::Done(_, result) => {
            assert_eq!(result, Err("cannot read root Cargo.toml: missing".to_string()))
        },
        Outcome::Continue(_) => panic!("expected failure"),
    }
}

#[test]
fn unexpected_reply_ends_session() {
    let mut session = Session::new(Command::ChangesetValidate, false);
    let first = run(&mut session, Reply::Start);
    assert_eq!(first.kind, RequestKind::ReadKnopeConfig);
    let step = run(&mut session, Reply::Listing(DirListing::Missing));
    assert_eq!(step.kind, RequestKind::FinishErr);
    assert_eq!(step.args, vec!["unexpected reply".to_string()]);
}
