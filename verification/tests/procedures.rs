use chrono::Datelike;
use xtask::advance_rc::short_commit_of;
use xtask::changeset::DirListing;
use xtask::cli::{run, Command, Session};
use xtask::flow::{knope_packages, Level, ManifestFile, PackageListing, Reply, RequestKind, Step};
use xtask::version_table::PackageFiles;

fn day(y: i32, m: u32, d: u32) -> i32 {
    chrono::NaiveDate::from_ymd_opt(y, m, d).unwrap().num_days_from_ce()
}

fn texts(s: &Step) -> Vec<&str> {
    s.logs.iter().map(|l| l.text.as_str()).collect()
}

fn done() -> Reply {
    Reply::Done(Ok(()))
}

fn keys(names: &[&str]) -> Reply {
    Reply::KnopeKeys {
        path: "knope.toml".to_string(),
        keys: Ok(names.iter().map(|n| n.to_string()).collect()),
    }
}

fn package(name: &str, version: &str, changelog: Option<&str>) -> PackageFiles {
    PackageFiles {
        name: name.to_string(),
        manifest_path: format!("packages/{name}/Cargo.toml"),
        manifest: Ok(format!("[package]\nversion = \"{version}\"\n")),
        changelog: changelog.map(|c| c.to_string()),
    }
}

#[test]
fn changeset_validation_reports_errors() {
    let mut s = Session::new(Command::ChangesetValidate, false);
    assert_eq!(run(&mut s, Reply::Start).kind, RequestKind::ReadKnopeConfig);
    let st = run(&mut s, keys(&["zaino-state", "zainod"]));
    assert_eq!(st.kind, RequestKind::ListChangesets);
    let listing = DirListing::Entries(vec![Ok("b.md".to_string()), Ok("a.md".to_string())]);
    let st = run(&mut s, Reply::Listing(listing));
    assert_eq!(st.kind, RequestKind::ReadChangesets);
    assert_eq!(st.args, vec!["a.md".to_string(), "b.md".to_string()]);
    let st = run(
        &mut s,
        Reply::Contents(vec![
            Ok("---\nzainod: patch\n---\nFine.\n".to_string()),
            Ok("---\nnope: minor\n---\nText\n".to_string()),
        ]),
    );
    assert_eq!(st.kind, RequestKind::FinishErr);
    assert_eq!(st.args, vec!["Changeset validation failed with 1 error(s).".to_string()]);
    assert_eq!(st.logs.len(), 1);
    assert_eq!(st.logs[0].level, Level::FileError);
    assert_eq!(st.logs[0].file, "b.md");
    assert_eq!(st.logs[0].line, Some(2));
}

#[test]
fn changeset_validation_counts_files() {
    let mut s = Session::new(Command::ChangesetValidate, false);
    run(&mut s, Reply::Start);
    run(&mut s, keys(&["zainod"]));
    let listing = || DirListing::Entries(vec![Ok("a.md".to_string())]);
    run(&mut s, Reply::Listing(listing()));
    let st = run(&mut s, Reply::Contents(vec![Ok("---\nzainod: patch\n---\nFine.\n".to_string())]));
    assert_eq!(st.kind, RequestKind::ListChangesets);
    let st = run(&mut s, Reply::Listing(listing()));
    assert_eq!(st.kind, RequestKind::FinishOk);
    assert_eq!(texts(&st), vec!["Validated 1 changeset file(s)."]);
}

#[test]
fn changeset_validation_edge_cases() {
    let mut s = Session::new(Command::ChangesetValidate, false);
    run(&mut s, Reply::Start);
    let st = run(&mut s, keys(&[]));
    assert_eq!(st.args, vec!["knope.toml has no [packages.*] sections".to_string()]);

    let mut s = Session::new(Command::ChangesetValidate, false);
    run(&mut s, Reply::Start);
    run(&mut s, keys(&["zainod"]));
    let st = run(&mut s, Reply::Listing(DirListing::Missing));
    assert_eq!(st.kind, RequestKind::ListChangesets);
    let st = run(&mut s, Reply::Listing(DirListing::Missing));
    assert_eq!(texts(&st), vec!["No changeset files to validate."]);

    let mut s = Session::new(Command::ChangesetValidate, false);
    run(&mut s, Reply::Start);
    run(&mut s, keys(&["zainod"]));
    let st = run(&mut s, Reply::Listing(DirListing::ReadDirFailed("denied".to_string())));
    assert_eq!(st.kind, RequestKind::FinishErr);
    assert_eq!(st.logs[0].file, ".changeset/");
    assert_eq!(st.logs[0].text, "cannot read .changeset/: denied");
}

#[test]
fn short_commit_is_eight_bytes() {
    assert_eq!(short_commit_of("0123456789abcdef"), "01234567");
    assert_eq!(short_commit_of("abc"), "abc");
    assert_eq!(short_commit_of("ééééé"), "éééé");
}

#[test]
fn advance_rc_nothing_to_do() {
    let mut s = Session::new(Command::AdvanceRc { green_commit: "0123456789ab".to_string() }, false);
    let st = run(&mut s, Reply::Start);
    assert_eq!(st.kind, RequestKind::Check);
    assert_eq!(texts(&st), vec!["Advancing rc to green commit 0123456789ab"]);
    let st = run(&mut s, Reply::Flag(Ok(true)));
    assert_eq!(st.kind, RequestKind::FinishOk);
    assert_eq!(texts(&st), vec!["rc already contains this commit. Nothing to do."]);
}

#[test]
fn advance_rc_full_run() {
    let mut s = Session::new(Command::AdvanceRc { green_commit: "0123456789ab".to_string() }, false);
    run(&mut s, Reply::Start);
    let st = run(&mut s, Reply::Flag(Ok(false)));
    assert_eq!(st.args, vec!["git", "checkout", "rc"]);
    let st = run(&mut s, done());
    assert_eq!(st.args, vec!["git", "merge", "0123456789ab", "-m", "chore: advance rc to dev 01234567"]);
    let st = run(&mut s, done());
    assert_eq!(st.args, vec!["git", "push", "origin", "rc"]);
    let st = run(&mut s, done());
    assert_eq!(st.kind, RequestKind::ListChangesets);
    let st = run(&mut s, Reply::Listing(DirListing::Entries(vec![Ok("x.md".to_string())])));
    assert_eq!(st.kind, RequestKind::Today);
    let st = run(&mut s, Reply::Today(day(2026, 5, 3)));
    assert_eq!(st.kind, RequestKind::ListTags);
    assert_eq!(st.args, vec!["git", "tag", "-l", "2026-05-08-rc.*"]);
    let st = run(&mut s, Reply::Text(Ok("2026-05-08-rc.0\n2026-05-08-rc.1\n".to_string())));
    assert_eq!(texts(&st), vec!["Cutting RC: 2026-05-08-rc.2", "running: knope prepare-release --prerelease-label rc"]);
    let st = run(&mut s, done());
    assert_eq!(st.kind, RequestKind::ReadSyncInputs);
    assert_eq!(texts(&st), vec!["Syncing workspace dependency versions."]);
    let root = "[workspace.dependencies]\nzainod = { path = \"packages/zainod\", version = \"0.1.0\" }\n";
    let st = run(
        &mut s,
        Reply::SyncInputs {
            root_manifest: Ok(root.to_string()),
            packages: PackageListing {
                files: vec![ManifestFile {
                    dir_name: "zainod".to_string(),
                    path: "packages/zainod/Cargo.toml".to_string(),
                    read: Ok("[package]\nversion = \"0.1.0\"\n".to_string()),
                }],
                failure: None,
            },
        },
    );
    assert_eq!(st.args, vec!["git", "add", "-A"]);
    assert_eq!(texts(&st)[0], "Workspace dependency versions already in sync.");
    let st = run(&mut s, done());
    assert_eq!(st.args, vec!["git", "commit", "-m", "chore: prepare rc release"]);
    let st = run(&mut s, done());
    assert_eq!(st.args, vec!["git", "tag", "2026-05-08-rc.2"]);
    let st = run(&mut s, done());
    assert_eq!(st.args, vec!["git", "push", "origin", "2026-05-08-rc.2"]);
    let st = run(&mut s, done());
    assert_eq!(st.args, vec!["git", "push", "origin", "rc"]);
    let st = run(&mut s, done());
    assert_eq!(st.args, vec!["knope", "release"]);
    let st = run(&mut s, done());
    assert_eq!(st.kind, RequestKind::FinishOk);
    assert_eq!(texts(&st), vec!["RC release complete: 2026-05-08-rc.2"]);
}

#[test]
fn advance_rc_merge_conflict() {
    let mut s = Session::new(Command::AdvanceRc { green_commit: "abc".to_string() }, true);
    run(&mut s, Reply::Start);
    let st = run(&mut s, Reply::Flag(Ok(false)));
    assert_eq!(st.kind, RequestKind::Nothing);
    assert_eq!(texts(&st), vec!["[dry-run] would run: git checkout rc"]);
    run(&mut s, done());
    let st = run(&mut s, Reply::Done(Err("conflict".to_string())));
    assert_eq!(st.kind, RequestKind::FinishErr);
    assert_eq!(
        texts(&st),
        vec!["Merge conflict advancing rc: conflict", "Manual resolution needed. Aborting rc advancement."]
    );
    assert_eq!(st.logs[0].level, Level::Failure);
    assert_eq!(st.args, vec!["rc advancement failed due to merge conflict"]);
}

#[test]
fn advance_rc_without_changesets() {
    let mut s = Session::new(Command::AdvanceRc { green_commit: "abc".to_string() }, false);
    run(&mut s, Reply::Start);
    run(&mut s, Reply::Flag(Ok(false)));
    run(&mut s, done());
    run(&mut s, done());
    run(&mut s, done());
    let st = run(&mut s, Reply::Listing(DirListing::Missing));
    assert_eq!(st.kind, RequestKind::FinishOk);
    assert_eq!(texts(&st), vec!["No changesets found. rc advanced but no version bump."]);
}

#[test]
fn advance_rc_ancestor_check_fails() {
    let mut s = Session::new(Command::AdvanceRc { green_commit: "abc".to_string() }, false);
    run(&mut s, Reply::Start);
    let st = run(&mut s, Reply::Flag(Err("no git".to_string())));
    assert_eq!(st.args, vec!["git merge-base failed: no git"]);
}

#[test]
fn stable_release_run() {
    let mut s = Session::new(Command::ReleaseStable, false);
    let st = run(&mut s, Reply::Start);
    assert_eq!(texts(&st), vec!["Preparing stable release.", "running: knope prepare-release"]);
    let st = run(&mut s, done());
    assert_eq!(st.kind, RequestKind::ReadSyncInputs);
    let st = run(
        &mut s,
        Reply::SyncInputs {
            root_manifest: Ok(String::new()),
            packages: PackageListing { files: vec![], failure: None },
        },
    );
    assert_eq!(st.args, vec!["git", "add", "-A"]);
    let st = run(&mut s, done());
    assert_eq!(st.args, vec!["git", "commit", "-m", "chore: prepare stable release"]);
    let st = run(&mut s, done());
    assert_eq!(st.args, vec!["git", "push", "origin", "stable"]);
    let st = run(&mut s, done());
    assert_eq!(st.args, vec!["knope", "release"]);
    let st = run(&mut s, done());
    assert_eq!(st.args, vec!["cargo", "publish", "--package", "zaino-common"]);
    assert_eq!(texts(&st)[..2], ["Publishing to crates.io.", "  Publishing zaino-common..."]);
    let order = ["zaino-proto", "zaino-fetch", "zaino-state", "zaino-serve", "zainod"];
    for (i, name) in order.iter().enumerate() {
        let reply = if i == 1 { Reply::Done(Err("boom".to_string())) } else { done() };
        let st = run(&mut s, reply);
        assert_eq!(st.args, vec!["cargo", "publish", "--package", name]);
        if i == 1 {
            assert_eq!(texts(&st)[..2], ["Failed to publish zaino-proto: boom", "Continuing with remaining crates."]);
        }
    }
    let st = run(&mut s, done());
    assert_eq!(st.kind, RequestKind::ReadKnopeConfig);
    let st = run(&mut s, keys(&["zainod"]));
    assert_eq!(st.kind, RequestKind::ReadPackageFiles);
    assert_eq!(st.args, vec!["zainod"]);
    let st = run(&mut s, Reply::Packages(vec![package("zainod", "1.0.0", None)]));
    assert_eq!(st.kind, RequestKind::Today);
    let st = run(&mut s, Reply::Today(day(2026, 5, 1)));
    assert_eq!(st.kind, RequestKind::CreateRelease);
    assert_eq!(st.args[0], "2026-05-01");
    assert_eq!(st.args[1], "Release 2026-05-01");
    assert!(st.args[2].contains("| zainod | 1.0.0 |"));
    assert_eq!(texts(&st), vec!["Creating unified release: 2026-05-01"]);
    let st = run(&mut s, done());
    assert_eq!(st.args, vec!["git", "checkout", "dev"]);
    assert_eq!(texts(&st)[0], "Syncing stable to dev.");
    let st = run(&mut s, done());
    assert_eq!(st.args, vec!["git", "merge", "stable", "-m", "chore: sync stable to dev"]);
    let st = run(&mut s, done());
    assert_eq!(st.args, vec!["git", "push", "origin", "dev"]);
    let st = run(&mut s, done());
    assert_eq!(st.kind, RequestKind::FinishOk);
    assert_eq!(texts(&st), vec!["Stable release complete."]);
}

#[test]
fn stable_dry_run_release_and_sync_failure() {
    let mut s = Session::new(Command::ReleaseStable, true);
    run(&mut s, Reply::Start);
    run(&mut s, done());
    run(
        &mut s,
        Reply::SyncInputs {
            root_manifest: Ok(String::new()),
            packages: PackageListing { files: vec![], failure: None },
        },
    );
    for _ in 0..3 {
        run(&mut s, done());
    }
    let st = run(&mut s, done());
    assert_eq!(st.kind, RequestKind::Run);
    assert_eq!(st.args, vec!["cargo", "publish", "--package", "zaino-common", "--dry-run"]);
    for _ in 0..5 {
        run(&mut s, done());
    }
    run(&mut s, done());
    run(&mut s, keys(&["zainod"]));
    run(&mut s, Reply::Packages(vec![package("zainod", "1.0.0", None)]));
    let st = run(&mut s, Reply::Today(day(2026, 5, 1)));
    assert_eq!(st.kind, RequestKind::Nothing);
    assert_eq!(
        texts(&st),
        vec![
            "Creating unified release: 2026-05-01",
            "[dry-run] would create release: tag=2026-05-01 title=Release 2026-05-01"
        ]
    );
    run(&mut s, done());
    run(&mut s, done());
    let st = run(&mut s, Reply::Done(Err("conflict".to_string())));
    assert_eq!(st.args, vec!["stable→dev sync failed"]);
    assert_eq!(texts(&st), vec!["Failed to sync stable to dev: conflict", "Manual resolution needed."]);
}

#[test]
fn dashboard_texts() {
    let mut s = Session::new(Command::ReleasePrTitle, false);
    assert_eq!(run(&mut s, Reply::Start).kind, RequestKind::Today);
    let st = run(&mut s, Reply::Today(day(2026, 5, 9)));
    assert_eq!(st.kind, RequestKind::Print);
    assert_eq!(st.args, vec!["Release 2026-05-15"]);
    assert_eq!(run(&mut s, done()).kind, RequestKind::FinishOk);

    let mut s = Session::new(Command::ReleaseRcComment { short_sha: "abc1234".to_string() }, false);
    run(&mut s, Reply::Start);
    let st = run(&mut s, Reply::Today(day(2026, 5, 9)));
    assert_eq!(st.args, vec!["git", "tag", "-l", "2026-05-15-rc.*"]);
    let st = run(&mut s, Reply::Text(Ok("2026-05-15-rc.0\n".to_string())));
    assert_eq!(st.args, vec!["**2026-05-15-rc.0** (abc1234)"]);

    let mut s = Session::new(Command::ReleaseRcComment { short_sha: "abc1234".to_string() }, false);
    run(&mut s, Reply::Start);
    run(&mut s, Reply::Today(day(2026, 5, 9)));
    let st = run(&mut s, Reply::Text(Err("no git".to_string())));
    assert_eq!(st.args, vec!["RC updated (abc1234)"]);
}

#[test]
fn dashboard_pr_body() {
    let mut s = Session::new(Command::ReleasePrBody, false);
    assert_eq!(run(&mut s, Reply::Start).kind, RequestKind::ReadKnopeConfig);
    run(&mut s, keys(&["zainod"]));
    let st = run(&mut s, Reply::Packages(vec![package("zainod", "1.0.0", Some("## 1.0.0\n- New.\n"))]));
    assert_eq!(st.kind, RequestKind::Today);
    run(&mut s, Reply::Today(day(2026, 5, 1)));
    let st = run(&mut s, Reply::Text(Ok(String::new())));
    assert_eq!(st.kind, RequestKind::Print);
    assert!(st.args[0].starts_with("Merging this PR promotes **pending** to stable"));
    assert!(st.args[0].ends_with("### zainod\n\n- New.\n\n"));
}

#[test]
fn dashboard_rejects_wrong_packages() {
    let mut s = Session::new(Command::ReleasePrBody, false);
    run(&mut s, Reply::Start);
    run(&mut s, keys(&["zainod"]));
    let st = run(&mut s, Reply::Packages(vec![package("other", "1.0.0", None)]));
    assert_eq!(st.kind, RequestKind::FinishErr);
    assert_eq!(st.args, vec!["unexpected reply"]);
}

#[test]
fn out_of_range_date() {
    let mut s = Session::new(Command::ReleasePrTitle, false);
    run(&mut s, Reply::Start);
    let st = run(&mut s, Reply::Today(xtask::release::MAX_DAYS));
    assert_eq!(st.kind, RequestKind::FinishErr);
    assert_eq!(st.args, vec!["the next release date is out of range"]);
}

#[test]
fn promote_and_deploy() {
    let mut s = Session::new(Command::PromoteRc { rc_sha: "abc".to_string() }, false);
    let st = run(&mut s, Reply::Start);
    assert_eq!(st.args, vec!["git", "-c", "advice.detachedHead=false", "checkout", "-B", "validated-rc", "abc"]);
    let st = run(&mut s, done());
    assert_eq!(st.args, vec!["git", "push", "origin", "validated-rc"]);
    let st = run(&mut s, done());
    assert_eq!(texts(&st), vec!["validated-rc advanced to abc"]);

    let mut s = Session::new(
        Command::DeployHeavyTest { rc_sha: "abc".to_string(), rc_tag: "2026-05-01-rc.0".to_string() },
        false,
    );
    let st = run(&mut s, Reply::Start);
    assert_eq!(st.kind, RequestKind::ApiWithBody);
    assert_eq!(st.args[0], "repos/{owner}/{repo}/deployments");
    let st = run(&mut s, Reply::Text(Ok("{\"id\":99}".to_string())));
    assert_eq!(st.args[0], "repos/{owner}/{repo}/deployments/99/statuses");
    let st = run(&mut s, Reply::Text(Ok("{}".to_string())));
    assert_eq!(st.kind, RequestKind::FinishOk);
    assert_eq!(texts(&st)[0], "Heavy test deployment started for 2026-05-01-rc.0.");
}

#[test]
fn dry_run_changes_nothing() {
    // Every request of a dry-run advance is a query or nothing at all.
    let mut s = Session::new(Command::AdvanceRc { green_commit: "abc".to_string() }, true);
    let replies = vec![
        Reply::Start,
        Reply::Flag(Ok(false)),
        done(),
        done(),
        done(),
        Reply::Listing(DirListing::Entries(vec![Ok("x.md".to_string())])),
        Reply::Today(day(2026, 5, 3)),
        Reply::Text(Ok(String::new())),
        done(),
        Reply::SyncInputs {
            root_manifest: Ok("[workspace.dependencies]\nzainod = { path = \"p\", version = \"0.1.0\" }\n".to_string()),
            packages: PackageListing {
                files: vec![ManifestFile {
                    dir_name: "zainod".to_string(),
                    path: "packages/zainod/Cargo.toml".to_string(),
                    read: Ok("[package]\nversion = \"0.2.0\"\n".to_string()),
                }],
                failure: None,
            },
        },
        done(),
        done(),
        done(),
        done(),
        done(),
        done(),
    ];
    let mut kinds = Vec::new();
    for r in replies {
        let st = run(&mut s, r);
        kinds.push(st.kind);
    }
    assert_eq!(*kinds.last().unwrap(), RequestKind::FinishOk);
    for k in kinds {
        assert!(matches!(
            k,
            RequestKind::Nothing
                | RequestKind::Check
                | RequestKind::ListChangesets
                | RequestKind::Today
                | RequestKind::ListTags
                | RequestKind::ReadSyncInputs
                | RequestKind::FinishOk
        ));
    }
}

#[test]
fn written_changeset_is_accepted() {
    let valid = vec!["zaino-common".to_string(), "zaino-state".to_string(), "zainod".to_string()];
    let content = "---\nzaino-common: major\nzainod: patch\n---\nA description.\n";
    assert!(xtask::changeset::validate_file("c.md", &Ok(content.to_string()), &valid).is_empty());
}

#[test]
fn knope_packages_sorted_and_unique() {
    let keys = vec!["zainod".to_string(), "zaino-state".to_string(), "zainod".to_string()];
    assert_eq!(
        knope_packages("knope.toml", Ok(keys)),
        Ok(vec!["zaino-state".to_string(), "zainod".to_string()])
    );
    assert_eq!(
        knope_packages("knope.toml", Ok(vec![])),
        Err("knope.toml has no [packages.*] sections".to_string())
    );
    assert_eq!(knope_packages("knope.toml", Err("bad".to_string())), Err("bad".to_string()));
}
