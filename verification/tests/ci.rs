use xtask::ci::{
    cargo_publish, command_display, deployment_body, deployment_id, deployment_status_body,
    deployment_statuses_endpoint, git_checkout, git_is_ancestor, git_merge, gh_release_create,
    knope_prepare_release,
};
use xtask::ci::{gh_api, gh_api_result, ApiPlan, CommandOutput};

fn words(c: &[String]) -> Vec<&str> {
    c.iter().map(|s| s.as_str()).collect()
}

#[test]
fn git_commands() {
    assert_eq!(
        words(&git_is_ancestor("abc", "origin/rc")),
        vec!["git", "merge-base", "--is-ancestor", "abc", "origin/rc"]
    );
    assert_eq!(words(&git_checkout("rc", None)), vec!["git", "checkout", "rc"]);
    assert_eq!(
        words(&git_checkout("validated-rc", Some("abc"))),
        vec!["git", "-c", "advice.detachedHead=false", "checkout", "-B", "validated-rc", "abc"]
    );
    assert_eq!(words(&git_merge("stable", "msg")), vec!["git", "merge", "stable", "-m", "msg"]);
}

#[test]
fn knope_and_cargo_commands() {
    assert_eq!(
        words(&knope_prepare_release(Some("rc"))),
        vec!["knope", "prepare-release", "--prerelease-label", "rc"]
    );
    assert_eq!(words(&knope_prepare_release(None)), vec!["knope", "prepare-release"]);
    assert_eq!(
        words(&cargo_publish("zainod", true)),
        vec!["cargo", "publish", "--package", "zainod", "--dry-run"]
    );
    assert_eq!(words(&cargo_publish("zainod", false)), vec!["cargo", "publish", "--package", "zainod"]);
    assert_eq!(
        words(&gh_release_create("t", "Release t", "/tmp/n.md")),
        vec!["gh", "release", "create", "t", "--title", "Release t", "--notes-file", "/tmp/n.md"]
    );
}

#[test]
fn display_of_commands() {
    assert_eq!(command_display(&git_merge("a", "b c")), "git merge a -m b c");
    assert_eq!(command_display(&vec!["knope".to_string()]), "knope ");
    assert_eq!(command_display(&vec![]), "");
}

#[test]
fn deployment_requests() {
    assert_eq!(
        deployment_body("heavy-test", "abc", "Heavy test for t"),
        "{\"ref\":\"abc\",\"environment\":\"heavy-test\",\"description\":\"Heavy test for t\",\"auto_merge\":false,\"required_contexts\":[]}"
    );
    assert_eq!(
        deployment_status_body("in_progress", "t heavy test running"),
        "{\"state\":\"in_progress\",\"description\":\"t heavy test running\"}"
    );
    assert_eq!(
        deployment_statuses_endpoint("42"),
        "repos/{owner}/{repo}/deployments/42/statuses"
    );
}

#[test]
fn deployment_id_parsing() {
    assert_eq!(deployment_id("{\"url\":\"x\",\"id\": 12345,\"sha\":\"y\"}"), Ok("12345".to_string()));
    assert_eq!(deployment_id("{\"id\":7}"), Ok("7".to_string()));
    assert_eq!(
        deployment_id("{\"id\":\"x\"}"),
        Err("cannot parse deployment id from response".to_string())
    );
    assert_eq!(
        deployment_id("{\"message\":\"Not Found\"}"),
        Err("cannot parse deployment id from response".to_string())
    );
}

#[test]
fn other_git_commands() {
    let cs = xtask::ci::git_configure();
    assert_eq!(words(&cs[0]), vec!["git", "config", "user.name", "github-actions[bot]"]);
    assert_eq!(
        words(&cs[1]),
        vec!["git", "config", "user.email", "github-actions[bot]@users.noreply.github.com"]
    );
    assert_eq!(words(&xtask::ci::git_rev_parse("HEAD")), vec!["git", "rev-parse", "HEAD"]);
    assert_eq!(
        words(&xtask::ci::git_remote_branch_exists("rc")),
        vec!["git", "show-ref", "--verify", "--quiet", "refs/remotes/origin/rc"]
    );
}

#[test]
fn gh_api_command() {
    let fields = vec![("state".to_string(), "success".to_string())];
    let raw = vec![("auto_merge".to_string(), "false".to_string())];
    assert_eq!(
        words(&xtask::ci::gh_api_command("repos/o/r/deployments", "POST", &fields, &raw)),
        vec!["gh", "api", "repos/o/r/deployments", "--method", "POST", "-f", "state=success", "-F", "auto_merge=false"]
    );
    assert!(xtask::ci::is_mutating_method("POST"));
    assert!(!xtask::ci::is_mutating_method("GET"));
    match gh_api("repos/o/r/deployments", "POST", &fields, &raw, true) {
        ApiPlan::DryRun { log, answer } => {
            assert_eq!(
                log,
                "[dry-run] would run: gh api repos/o/r/deployments --method POST -f state=success -F auto_merge=false"
            );
            assert_eq!(answer, "{}");
        }
        ApiPlan::Run(_) => panic!("a dry run of a POST runs nothing"),
    }
    match gh_api("repos/o/r/deployments", "GET", &vec![], &vec![], true) {
        ApiPlan::Run(c) => assert_eq!(words(&c), vec!["gh", "api", "repos/o/r/deployments", "--method", "GET"]),
        ApiPlan::DryRun { .. } => panic!("a GET runs even on a dry run"),
    }
    match gh_api("e", "POST", &vec![], &vec![], false) {
        ApiPlan::Run(c) => assert_eq!(words(&c), vec!["gh", "api", "e", "--method", "POST"]),
        ApiPlan::DryRun { .. } => panic!("not a dry run"),
    }
    let ok = CommandOutput::Finished { success: true, stdout: "  {\"id\":1}\n".to_string(), stderr: String::new() };
    assert_eq!(gh_api_result("e", &ok), Ok("{\"id\":1}".to_string()));
    let failed = CommandOutput::Finished { success: false, stdout: String::new(), stderr: "HTTP 404".to_string() };
    assert_eq!(gh_api_result("e", &failed), Err("gh api e failed: HTTP 404".to_string()));
    assert_eq!(
        gh_api_result("e", &CommandOutput::NotStarted("not found".to_string())),
        Err("failed to run gh api: not found".to_string())
    );
}
