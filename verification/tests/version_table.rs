use chrono::Datelike;
use xtask::release::{release_pr_body, unified_release_body, ReleaseName};
use xtask::version_table::{
    latest_changelog_section, read_version, CrateVersion, PackageFiles, VersionTable,
};

fn table() -> VersionTable {
    VersionTable {
        entries: vec![
            CrateVersion {
                name: "zaino-common".to_string(),
                version: "0.1.1".to_string(),
                changelog: Some("- Fixed a thing.".to_string()),
            },
            CrateVersion { name: "zainod".to_string(), version: "0.2.0".to_string(), changelog: None },
        ],
    }
}

#[test]
fn changelog_section_is_the_first() {
    let content = "# Changelog\n\n## 0.1.1\n\n- Fixed a thing.\n\n## 0.1.0\n\n- Old.\n";
    assert_eq!(latest_changelog_section(content), Some("- Fixed a thing.".to_string()));
    assert_eq!(latest_changelog_section("# Changelog\n\n## 0.1.0\n\n"), None);
    assert_eq!(latest_changelog_section("no sections"), None);
}

#[test]
fn version_from_manifest() {
    assert_eq!(
        read_version("p/Cargo.toml", &Ok("[package]\nversion = \"1.2.3\"\n".to_string())),
        Ok("1.2.3".to_string())
    );
    assert_eq!(
        read_version("p/Cargo.toml", &Ok("[package]\n".to_string())),
        Err("no version found in p/Cargo.toml".to_string())
    );
    assert_eq!(
        read_version("p/Cargo.toml", &Err("denied".to_string())),
        Err("cannot read p/Cargo.toml: denied".to_string())
    );
}

#[test]
fn table_from_packages() {
    let packages = vec![
        PackageFiles {
            name: "zaino-common".to_string(),
            manifest_path: "packages/zaino-common/Cargo.toml".to_string(),
            manifest: Ok("[package]\nversion = \"0.1.1\"\n".to_string()),
            changelog: Some("## 0.1.1\n- Fixed a thing.\n".to_string()),
        },
        PackageFiles {
            name: "zainod".to_string(),
            manifest_path: "packages/zainod/Cargo.toml".to_string(),
            manifest: Ok("version = \"0.2.0\"\n".to_string()),
            changelog: None,
        },
    ];
    let t = VersionTable::from_workspace(&packages).ok().expect("table");
    assert_eq!(t.entries.len(), 2);
    assert_eq!(t.entries[0].version, "0.1.1");
    assert_eq!(t.entries[0].changelog, Some("- Fixed a thing.".to_string()));
    assert_eq!(t.entries[1].changelog, None);
}

#[test]
fn table_error_stops() {
    let packages = vec![PackageFiles {
        name: "x".to_string(),
        manifest_path: "packages/x/Cargo.toml".to_string(),
        manifest: Err("gone".to_string()),
        changelog: None,
    }];
    assert_eq!(
        VersionTable::from_workspace(&packages).err(),
        Some("cannot read packages/x/Cargo.toml: gone".to_string())
    );
}

#[test]
fn markdown_renderings() {
    let t = table();
    assert_eq!(
        t.to_markdown_table(),
        "| Crate | Version |\n| ----- | ------- |\n| zaino-common | 0.1.1 |\n| zainod | 0.2.0 |\n"
    );
    assert_eq!(t.to_markdown_changelog(), "### zaino-common\n\n- Fixed a thing.\n\n");
    let none = VersionTable {
        entries: vec![CrateVersion { name: "a".to_string(), version: "1".to_string(), changelog: None }],
    };
    assert_eq!(none.to_markdown_changelog(), "");
}

#[test]
fn terminal_rendering() {
    let t = table();
    assert_eq!(t.to_terminal(), "  zaino-common  0.1.1\n  zainod        0.2.0\n");
    assert_eq!(VersionTable { entries: vec![] }.to_terminal(), "");
}

#[test]
fn pr_body_text() {
    let t = table();
    let d = chrono_day(2026, 5, 1);
    let body = release_pr_body(&Some(ReleaseName::new(d, 2)), &t);
    assert_eq!(
        body,
        "Merging this PR promotes **2026-05-01-rc.2** to stable and triggers the release workflow.\n\n---\n\n## Crate Versions\n\n| Crate | Version |\n| ----- | ------- |\n| zaino-common | 0.1.1 |\n| zainod | 0.2.0 |\n\n---\n\n## Changelog\n\n### zaino-common\n\n- Fixed a thing.\n\n"
    );
    let pending = release_pr_body(&None, &VersionTable { entries: vec![] });
    assert!(pending.starts_with("Merging this PR promotes **pending** to stable"));
    assert!(!pending.contains("## Changelog"));
}

#[test]
fn unified_release_text() {
    let body = unified_release_body(&table());
    assert_eq!(
        body,
        "## Crate Releases\n\n| Crate | Version | Links |\n| ----- | ------- | ----- |\n| zaino-common | 0.1.1 | [release](../../releases/tag/zaino-common/v0.1.1) · [crates.io](https://crates.io/crates/zaino-common/0.1.1) |\n| zainod | 0.2.0 | [release](../../releases/tag/zainod/v0.2.0) · [crates.io](https://crates.io/crates/zainod/0.2.0) |\n\n---\n\n## Changelog\n\n### zaino-common\n\n- Fixed a thing.\n\n"
    );
}

fn chrono_day(y: i32, m: u32, d: u32) -> i32 {
    chrono::NaiveDate::from_ymd_opt(y, m, d).unwrap().num_days_from_ce()
}
