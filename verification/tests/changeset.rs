use xtask::changeset::{
    changeset_files, has_changesets, is_markdown_file, split_frontmatter, validate,
    validate_file, ChangesetFile, DirListing, ValidationError,
};

fn test_crates() -> Vec<String> {
    // The configured package names, in the configuration's (sorted) order.
    vec![
        "zaino-common".to_string(),
        "zaino-state".to_string(),
        "zainod".to_string(),
    ]
}

fn check(content: &str) -> Vec<ValidationError> {
    validate_file("test.md", &Ok(content.to_string()), &test_crates())
}

#[test]
fn split_frontmatter_valid() {
    let input = "---\nzaino-state: minor\n---\n\nSome description.\n";
    let (fm, body) = split_frontmatter(input).expect("should parse");
    assert_eq!(fm, "zaino-state: minor");
    assert_eq!(body.trim(), "Some description.");
}

#[test]
fn split_frontmatter_multi_crate() {
    let input = "---\nzaino-state: minor\nzainod: patch\n---\n\nMulti-crate change.\n";
    let (fm, _body) = split_frontmatter(input).expect("should parse");
    assert!(fm.contains("zaino-state: minor"));
    assert!(fm.contains("zainod: patch"));
}

#[test]
fn split_frontmatter_missing_closing() {
    assert!(split_frontmatter("---\nno closing\n").is_none());
}

#[test]
fn split_frontmatter_no_opening() {
    assert!(split_frontmatter("no frontmatter").is_none());
}

#[test]
fn catches_bad_crate() {
    let errors = check("---\nfake-crate: minor\n---\n\nSome change.\n");
    assert_eq!(errors.len(), 1);
    assert!(errors[0].message.contains("unknown crate"));
}

#[test]
fn catches_bad_bump() {
    let errors = check("---\nzainod: huge\n---\n\nSome change.\n");
    assert_eq!(errors.len(), 1);
    assert!(errors[0].message.contains("unknown bump"));
}

#[test]
fn catches_empty_body() {
    let errors = check("---\nzainod: patch\n---\n\n");
    assert_eq!(errors.len(), 1);
    assert!(errors[0].message.contains("empty changelog"));
}

#[test]
fn accepts_valid() {
    let errors = check("---\nzaino-state: minor\nzainod: patch\n---\n\nGood change.\n");
    assert!(errors.is_empty(), "unexpected errors: {}", errors.len());
}

#[test]
fn split_frontmatter_empty_frontmatter() {
    let (fm, body) = split_frontmatter("---\n---\nBody.\n").expect("should parse");
    assert_eq!(fm, "");
    assert_eq!(body, "Body.\n");
}

#[test]
fn split_frontmatter_skips_bom_and_leading_space() {
    let (fm, body) = split_frontmatter("\u{feff}  \n---\nzainod: patch\n---\nText").expect("parse");
    assert_eq!(fm, "zainod: patch");
    assert_eq!(body, "Text");
}

#[test]
fn split_frontmatter_roundtrip_example() {
    let fm = "zaino-state: minor\nzainod: patch";
    let body = "Body text.\n";
    let content = format!("---\n{fm}\n---\n{body}");
    let (f, b) = split_frontmatter(&content).expect("parse");
    assert_eq!(f, fm);
    assert_eq!(b, body);
}

#[test]
fn unknown_crate_message_lists_valid_crates() {
    let errors = check("---\nfake-crate: minor\n---\n\nSome change.\n");
    assert_eq!(errors[0].file, "test.md");
    assert_eq!(errors[0].line, Some(2));
    assert_eq!(
        errors[0].message,
        "unknown crate 'fake-crate' (valid: zaino-common, zaino-state, zainod)"
    );
}

#[test]
fn unknown_bump_message_and_line() {
    let errors = check("---\nzaino-state: minor\n\nzainod: huge\n---\n\nSome change.\n");
    assert_eq!(errors.len(), 1);
    assert_eq!(errors[0].line, Some(4));
    assert_eq!(errors[0].message, "unknown bump 'huge' (valid: major, minor, patch)");
}

#[test]
fn reports_both_crate_and_bump() {
    let errors = check("---\nnope: huge\n---\n\nSome change.\n");
    assert_eq!(errors.len(), 2);
    assert!(errors[0].message.starts_with("unknown crate 'nope'"));
    assert!(errors[1].message.starts_with("unknown bump 'huge'"));
}

#[test]
fn invalid_frontmatter_line() {
    let errors = check("---\n# a comment\nzainod patch\n---\n\nSome change.\n");
    assert_eq!(errors.len(), 2);
    assert_eq!(errors[0].line, Some(3));
    assert_eq!(
        errors[0].message,
        "invalid frontmatter: 'zainod patch' (expected 'crate-name: bump-type')"
    );
    assert_eq!(errors[1].line, None);
    assert_eq!(errors[1].message, "no crate entries in frontmatter");
}

#[test]
fn missing_frontmatter() {
    let errors = check("Just some text.\n");
    assert_eq!(errors.len(), 1);
    assert_eq!(errors[0].line, None);
    assert_eq!(
        errors[0].message,
        "missing or malformed YAML frontmatter (must be delimited by ---)"
    );
}

#[test]
fn unreadable_file() {
    let errors = validate_file("x.md", &Err("permission denied".to_string()), &test_crates());
    assert_eq!(errors.len(), 1);
    assert_eq!(errors[0].file, "x.md");
    assert_eq!(errors[0].message, "cannot read file: permission denied");
}

#[test]
fn markdown_names() {
    assert!(is_markdown_file("a.md"));
    assert!(!is_markdown_file(".md"));
    assert!(!is_markdown_file("README"));
    assert!(!is_markdown_file("a.mdx"));
}

#[test]
fn changeset_files_sorted_and_filtered() {
    let listing = DirListing::Entries(vec![
        Ok("b.md".to_string()),
        Ok("config.json".to_string()),
        Ok("a.md".to_string()),
    ]);
    assert_eq!(
        changeset_files(&listing),
        Ok(vec!["a.md".to_string(), "b.md".to_string()])
    );
    assert_eq!(changeset_files(&DirListing::Missing), Ok(vec![]));
}

#[test]
fn changeset_files_errors() {
    assert_eq!(
        changeset_files(&DirListing::ReadDirFailed("denied".to_string())),
        Err("cannot read .changeset/: denied".to_string())
    );
    let listing = DirListing::Entries(vec![Ok("a.md".to_string()), Err("io".to_string())]);
    assert_eq!(changeset_files(&listing), Err("read_dir error: io".to_string()));
}

#[test]
fn has_changesets_skips_unreadable_entries() {
    let listing = DirListing::Entries(vec![Err("io".to_string()), Ok("x.md".to_string())]);
    assert!(has_changesets(&listing));
    let listing = DirListing::Entries(vec![Ok("README".to_string())]);
    assert!(!has_changesets(&listing));
    assert!(!has_changesets(&DirListing::Missing));
    assert!(!has_changesets(&DirListing::ReadDirFailed("denied".to_string())));
}

#[test]
fn validate_listing_error_and_files() {
    let errors = validate(&Err("cannot read .changeset/: denied".to_string()), &test_crates());
    assert_eq!(errors.len(), 1);
    assert_eq!(errors[0].file, ".changeset/");
    let files = vec![
        ChangesetFile {
            name: "a.md".to_string(),
            read: Ok("---\nzainod: patch\n---\nFine.\n".to_string()),
        },
        ChangesetFile { name: "b.md".to_string(), read: Ok("nothing".to_string()) },
    ];
    let errors = validate(&Ok(files), &test_crates());
    assert_eq!(errors.len(), 1);
    assert_eq!(errors[0].file, "b.md");
}
