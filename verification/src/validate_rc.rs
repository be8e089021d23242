//! Heavy testing of release candidates: deploying an RC commit for the
//! external heavy test (a GitHub deployment set to `in_progress`), and
//! promoting an RC that passed by advancing the `validated-rc` branch.

use vstd::prelude::*;

use crate::ci::{
    checkout_words, deployment_body, deployment_id, deployment_id_of, deployment_json,
    deployment_status_body, deployment_statuses_endpoint, deployments_endpoint, git_checkout,
    git_push, status_json, statuses_endpoint,
};
use crate::flow::{
    error_line, finish_err, finish_ok, info, is_side_effect, log, log_str, log_views, make_finish_err,
    make_finish_ok, make_request, make_run, make_unexpected, no_logs, ok_line, request,
    run_step, unexpected_reply, Level, LogLine, LogView, Reply, RequestKind, Step, StepView,
};
use crate::text::{chars_of, push_str, string_of, string_views};

verus! {

/// The GitHub environment of the heavy test.
pub open spec fn heavy_test_environment() -> Seq<char> {
    "heavy-test"@
}

// ---------------------------------------------------------------------------
// Promote
// ---------------------------------------------------------------------------

#[derive(PartialEq, Eq, Structural, Clone, Copy, Debug)]
pub enum PromoteStage {
    Start,
    CheckingOut,
    Pushing,
    Finished,
}

/// Promoting an RC that passed heavy testing: `validated-rc` is moved to
/// the RC commit and pushed.
pub struct Promote {
    rc_sha: String,
    dry_run: bool,
    stage: PromoteStage,
}

pub struct PromoteView {
    pub rc_sha: Seq<char>,
    pub dry_run: bool,
    pub stage: PromoteStage,
}

impl View for Promote {
    type V = PromoteView;

    closed spec fn view(&self) -> PromoteView {
        PromoteView { rc_sha: self.rc_sha@, dry_run: self.dry_run, stage: self.stage }
    }
}

pub open spec fn promote_next(p: PromoteView, r: Reply) -> (PromoteView, StepView) {
    let done = PromoteView { stage: PromoteStage::Finished, ..p };
    match p.stage {
        PromoteStage::Start => (
            PromoteView { stage: PromoteStage::CheckingOut, ..p },
            run_step(
                seq![info("Promoting "@ + p.rc_sha + " to validated-rc."@)],
                p.dry_run,
                checkout_words("validated-rc"@, Some(p.rc_sha)),
            ),
        ),
        PromoteStage::CheckingOut => match r {
            Reply::Done(Err(e)) => (done, finish_err(seq![], e@)),
            Reply::Done(Ok(())) => (
                PromoteView { stage: PromoteStage::Pushing, ..p },
                run_step(seq![], p.dry_run, seq!["git"@, "push"@, "origin"@, "validated-rc"@]),
            ),
            _ => (done, finish_err(seq![], unexpected_reply())),
        },
        PromoteStage::Pushing => match r {
            Reply::Done(Err(e)) => (done, finish_err(seq![], e@)),
            Reply::Done(Ok(())) => (
                done,
                finish_ok(seq![ok_line("validated-rc advanced to "@ + p.rc_sha)]),
            ),
            _ => (done, finish_err(seq![], unexpected_reply())),
        },
        PromoteStage::Finished => (done, finish_err(seq![], unexpected_reply())),
    }
}

impl Promote {
    pub fn new(rc_sha: &str, dry_run: bool) -> (p: Self)
        ensures
            p@ == (PromoteView { rc_sha: rc_sha@, dry_run, stage: PromoteStage::Start }),
    {
        Promote { rc_sha: rc_sha.to_string(), dry_run, stage: PromoteStage::Start }
    }

    pub fn step(&mut self, reply: Reply) -> (s: Step)
        ensures
            (final(self)@, s@) == promote_next(old(self)@, reply),
    {
        let ghost spec_next = promote_next(self@, reply);
        match self.stage {
            PromoteStage::Start => {
                let mut logs = no_logs();
                let mut t = chars_of("Promoting ");
                push_str(&mut t, self.rc_sha.as_str());
                push_str(&mut t, " to validated-rc.");
                log(&mut logs, Level::Info, &t);
                let cmd = git_checkout("validated-rc", Some(self.rc_sha.as_str()));
                self.stage = PromoteStage::CheckingOut;
                make_run(logs, self.dry_run, cmd)
            },
            PromoteStage::CheckingOut => match reply {
                Reply::Done(Err(e)) => {
                    self.stage = PromoteStage::Finished;
                    make_finish_err(no_logs(), e)
                },
                Reply::Done(Ok(())) => {
                    self.stage = PromoteStage::Pushing;
                    make_run(no_logs(), self.dry_run, git_push("validated-rc"))
                },
                _ => {
                    self.stage = PromoteStage::Finished;
                    make_unexpected(no_logs())
                },
            },
            PromoteStage::Pushing => match reply {
                Reply::Done(Err(e)) => {
                    self.stage = PromoteStage::Finished;
                    make_finish_err(no_logs(), e)
                },
                Reply::Done(Ok(())) => {
                    self.stage = PromoteStage::Finished;
                    let mut logs = no_logs();
                    let mut t = chars_of("validated-rc advanced to ");
                    push_str(&mut t, self.rc_sha.as_str());
                    log(&mut logs, Level::Success, &t);
                    make_finish_ok(logs)
                },
                _ => {
                    self.stage = PromoteStage::Finished;
                    make_unexpected(no_logs())
                },
            },
            PromoteStage::Finished => make_unexpected(no_logs()),
        }
    }
}

// ---------------------------------------------------------------------------
// Deploy
// ---------------------------------------------------------------------------

#[derive(PartialEq, Eq, Structural, Clone, Copy, Debug)]
pub enum DeployStage {
    Start,
    Creating,
    Updating,
    Finished,
}

/// Deploying an RC commit for heavy testing: a GitHub deployment is created
/// and its status set to `in_progress`; the external system reports the
/// result later.
pub struct Deploy {
    rc_sha: String,
    rc_tag: String,
    dry_run: bool,
    stage: DeployStage,
    id: String,
}

pub struct DeployView {
    pub rc_sha: Seq<char>,
    pub rc_tag: Seq<char>,
    pub dry_run: bool,
    pub stage: DeployStage,
    pub id: Seq<char>,
}

impl View for Deploy {
    type V = DeployView;

    closed spec fn view(&self) -> DeployView {
        DeployView {
            rc_sha: self.rc_sha@,
            rc_tag: self.rc_tag@,
            dry_run: self.dry_run,
            stage: self.stage,
            id: self.id@,
        }
    }
}

pub open spec fn create_body(d: DeployView) -> Seq<char> {
    deployment_json(heavy_test_environment(), d.rc_sha, "Heavy test for "@ + d.rc_tag)
}

pub open spec fn status_body(d: DeployView) -> Seq<char> {
    status_json("in_progress"@, d.rc_tag + " heavy test running"@)
}

/// The lines that end a deployment: it started, and how to report the result.
pub open spec fn deploy_done_lines(tag: Seq<char>, id: Seq<char>) -> Seq<LogView> {
    seq![
        ok_line("Heavy test deployment started for "@ + tag + "."@),
        info("Report result when ready:"@),
        info(
            "  gh api repos/{owner}/{repo}/deployments/"@ + id
                + "/statuses --method POST -f state=success"@,
        ),
    ]
}

pub open spec fn deploy_next(d: DeployView, r: Reply) -> (DeployView, StepView) {
    let done = DeployView { stage: DeployStage::Finished, ..d };
    match d.stage {
        DeployStage::Start => {
            let first = info("Deploying "@ + d.rc_tag + " ("@ + d.rc_sha + ") for heavy testing."@);
            if d.dry_run {
                let id = "dry-run-id"@;
                (
                    DeployView { id: id, ..done },
                    finish_ok(
                        seq![
                            first,
                            info(
                                "[dry-run] would run: gh api "@ + deployments_endpoint()
                                    + " --method POST (body: "@ + create_body(d) + ")"@,
                            ),
                            info("Deployment created: "@ + id),
                            info(
                                "[dry-run] would run: gh api "@ + statuses_endpoint(id)
                                    + " --method POST (body: "@ + status_body(d) + ")"@,
                            ),
                        ] + deploy_done_lines(d.rc_tag, id),
                    ),
                )
            } else {
                (
                    DeployView { stage: DeployStage::Creating, ..d },
                    request(
                        seq![
                            first,
                            info("running: gh api "@ + deployments_endpoint() + " --method POST"@),
                        ],
                        RequestKind::ApiWithBody,
                        seq![deployments_endpoint(), "POST"@, create_body(d)],
                    ),
                )
            }
        },
        DeployStage::Creating => match r {
            Reply::Text(Err(e)) => (done, finish_err(seq![], e@)),
            Reply::Text(Ok(resp)) => match deployment_id_of(resp@) {
                None => (done, finish_err(seq![], "cannot parse deployment id from response"@)),
                Some(id) => (
                    DeployView { stage: DeployStage::Updating, id: id, ..d },
                    request(
                        seq![
                            info("Deployment created: "@ + id),
                            info("running: gh api "@ + statuses_endpoint(id) + " --method POST"@),
                        ],
                        RequestKind::ApiWithBody,
                        seq![statuses_endpoint(id), "POST"@, status_body(d)],
                    ),
                ),
            },
            _ => (done, finish_err(seq![], unexpected_reply())),
        },
        DeployStage::Updating => match r {
            Reply::Text(Err(e)) => (done, finish_err(seq![], e@)),
            Reply::Text(Ok(_)) => (done, finish_ok(deploy_done_lines(d.rc_tag, d.id))),
            _ => (done, finish_err(seq![], unexpected_reply())),
        },
        DeployStage::Finished => (done, finish_err(seq![], unexpected_reply())),
    }
}

fn push_done_lines(logs: &mut Vec<LogLine>, tag: &str, id: &str)
    ensures
        log_views(final(logs)@) == log_views(old(logs)@) + deploy_done_lines(tag@, id@),
{
    let ghost before = log_views(logs@);
    let mut a = chars_of("Heavy test deployment started for ");
    push_str(&mut a, tag);
    push_str(&mut a, ".");
    log(logs, Level::Success, &a);
    log_str(logs, Level::Info, "Report result when ready:");
    let mut c = chars_of("  gh api repos/{owner}/{repo}/deployments/");
    push_str(&mut c, id);
    push_str(&mut c, "/statuses --method POST -f state=success");
    log(logs, Level::Info, &c);
    assert(log_views(logs@) =~= before + deploy_done_lines(tag@, id@));
}

impl Deploy {
    pub fn new(rc_sha: &str, rc_tag: &str, dry_run: bool) -> (d: Self)
        ensures
            d@ == (DeployView {
                rc_sha: rc_sha@,
                rc_tag: rc_tag@,
                dry_run,
                stage: DeployStage::Start,
                id: Seq::empty(),
            }),
    {
        let d = Deploy {
            rc_sha: rc_sha.to_string(),
            rc_tag: rc_tag.to_string(),
            dry_run,
            stage: DeployStage::Start,
            id: String::new(),
        };
        assert(d@.id =~= Seq::<char>::empty());
        d
    }

    fn create_body(&self) -> (s: String)
        ensures
            s@ == create_body(self@),
    {
        let mut desc = chars_of("Heavy test for ");
        push_str(&mut desc, self.rc_tag.as_str());
        deployment_body("heavy-test", self.rc_sha.as_str(), string_of(&desc).as_str())
    }

    fn status_body(&self) -> (s: String)
        ensures
            s@ == status_body(self@),
    {
        let mut desc = chars_of(self.rc_tag.as_str());
        push_str(&mut desc, " heavy test running");
        deployment_status_body("in_progress", string_of(&desc).as_str())
    }

    pub fn step(&mut self, reply: Reply) -> (s: Step)
        ensures
            (final(self)@, s@) == deploy_next(old(self)@, reply),
    {
        match self.stage {
            DeployStage::Start => {
                let mut logs = no_logs();
                let mut t = chars_of("Deploying ");
                push_str(&mut t, self.rc_tag.as_str());
                push_str(&mut t, " (");
                push_str(&mut t, self.rc_sha.as_str());
                push_str(&mut t, ") for heavy testing.");
                log(&mut logs, Level::Info, &t);
                let endpoint = "repos/{owner}/{repo}/deployments";
                let body = self.create_body();
                if self.dry_run {
                    let mut a = chars_of("[dry-run] would run: gh api ");
                    push_str(&mut a, endpoint);
                    push_str(&mut a, " --method POST (body: ");
                    push_str(&mut a, body.as_str());
                    push_str(&mut a, ")");
                    log(&mut logs, Level::Info, &a);
                    let id = "dry-run-id";
                    let mut b = chars_of("Deployment created: ");
                    push_str(&mut b, id);
                    log(&mut logs, Level::Info, &b);
                    let ep = deployment_statuses_endpoint(id);
                    let sb = self.status_body();
                    let mut c = chars_of("[dry-run] would run: gh api ");
                    push_str(&mut c, ep.as_str());
                    push_str(&mut c, " --method POST (body: ");
                    push_str(&mut c, sb.as_str());
                    push_str(&mut c, ")");
                    log(&mut logs, Level::Info, &c);
                    let ghost mid = log_views(logs@);
                    push_done_lines(&mut logs, self.rc_tag.as_str(), id);
                    self.stage = DeployStage::Finished;
                    self.id = id.to_string();
                    make_finish_ok(logs)
                } else {
                    let mut a = chars_of("running: gh api ");
                    push_str(&mut a, endpoint);
                    push_str(&mut a, " --method POST");
                    log(&mut logs, Level::Info, &a);
                    let args = vec![endpoint.to_string(), "POST".to_string(), body];
                    assert(string_views(args@) =~= seq![deployments_endpoint(), "POST"@, create_body(self@)]);
                    self.stage = DeployStage::Creating;
                    make_request(logs, RequestKind::ApiWithBody, args)
                }
            },
            DeployStage::Creating => match reply {
                Reply::Text(Err(e)) => {
                    self.stage = DeployStage::Finished;
                    make_finish_err(no_logs(), e)
                },
                Reply::Text(Ok(resp)) => match deployment_id(resp.as_str()) {
                    Err(e) => {
                        self.stage = DeployStage::Finished;
                        make_finish_err(no_logs(), e)
                    },
                    Ok(id) => {
                        let mut logs = no_logs();
                        let mut a = chars_of("Deployment created: ");
                        push_str(&mut a, id.as_str());
                        log(&mut logs, Level::Info, &a);
                        let ep = deployment_statuses_endpoint(id.as_str());
                        let mut b = chars_of("running: gh api ");
                        push_str(&mut b, ep.as_str());
                        push_str(&mut b, " --method POST");
                        log(&mut logs, Level::Info, &b);
                        let sb = self.status_body();
                        let args = vec![ep, "POST".to_string(), sb];
                        self.stage = DeployStage::Updating;
                        self.id = id;
                        assert(string_views(args@) =~= seq![
                            statuses_endpoint(self@.id),
                            "POST"@,
                            status_body(old(self)@),
                        ]);
                        make_request(logs, RequestKind::ApiWithBody, args)
                    },
                },
                _ => {
                    self.stage = DeployStage::Finished;
                    make_unexpected(no_logs())
                },
            },
            DeployStage::Updating => match reply {
                Reply::Text(Err(e)) => {
                    self.stage = DeployStage::Finished;
                    make_finish_err(no_logs(), e)
                },
                Reply::Text(Ok(_)) => {
                    self.stage = DeployStage::Finished;
                    let mut logs = no_logs();
                    push_done_lines(&mut logs, self.rc_tag.as_str(), self.id.as_str());
                    make_finish_ok(logs)
                },
                _ => {
                    self.stage = DeployStage::Finished;
                    make_unexpected(no_logs())
                },
            },
            DeployStage::Finished => make_unexpected(no_logs()),
        }
    }
}

/// A dry run of the promotion asks for no side effect.
pub proof fn lemma_promote_dry_run(p: PromoteView, r: Reply)
    ensures
        promote_next(p, r).0.dry_run == p.dry_run,
        p.dry_run ==> !is_side_effect(promote_next(p, r).1.1),
{
}

/// A dry run of the deployment asks for no side effect: it creates no
/// deployment and sets no status.
pub proof fn lemma_deploy_dry_run(d: DeployView, r: Reply)
    requires
        d.dry_run ==> d.stage == DeployStage::Start || d.stage == DeployStage::Finished,
    ensures
        deploy_next(d, r).0.dry_run == d.dry_run,
        d.dry_run ==> deploy_next(d, r).0.stage == DeployStage::Finished,
        d.dry_run ==> !is_side_effect(deploy_next(d, r).1.1),
{
}

} // verus!
