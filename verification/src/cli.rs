//! The `versioning` commands and the session that runs one of them: each
//! call of [`run`] hands the reply to the last request to the command's
//! procedure and gives its next step.

use vstd::prelude::*;

use crate::advance_rc::{
    advance_consistent, advance_next, lemma_advance_dry_run, short_commit_defined, AdvanceRc,
    AdvanceStage, AdvanceView,
};
use crate::changeset_check::{check_next, ChangesetCheck, CheckStage, CheckView};
use crate::dashboard::{dashboard_next, Dashboard, DashboardStage, DashboardText, DashboardView};
use crate::ci::publish_words;
use crate::release::RELEASE_EPOCH_DAYS;
use crate::sync_workspace_deps::{SyncStage, SyncView};
use crate::flow::{is_side_effect, Reply, RequestKind, Step, StepView};
use crate::stable::{
    lemma_stable_dry_run, publish_order, stable_consistent, stable_next, StableRelease,
    StableStage, StableView,
};
use crate::validate_rc::{
    lemma_deploy_dry_run, lemma_promote_dry_run, deploy_next, promote_next, Deploy, DeployStage, DeployView, Promote, PromoteStage,
    PromoteView,
};

verus! {

/// A versioning command.
pub enum Command {
    /// Validate every `.changeset/*.md` file.
    ChangesetValidate,
    /// Advance the rc branch to a green dev commit and cut an RC release.
    AdvanceRc { green_commit: String },
    /// Deploy an RC for heavy testing (a GitHub deployment).
    DeployHeavyTest { rc_sha: String, rc_tag: String },
    /// Promote an RC that passed heavy tests (advances validated-rc).
    PromoteRc { rc_sha: String },
    /// Print the release dashboard pull request body.
    ReleasePrBody,
    /// Print the release dashboard pull request title.
    ReleasePrTitle,
    /// Print the RC comment line for a short commit SHA.
    ReleaseRcComment { short_sha: String },
    /// Run the stable release.
    ReleaseStable,
}

/// The procedure a session runs.
pub enum Procedure {
    Check(ChangesetCheck),
    Advance(AdvanceRc),
    Deploy(Deploy),
    Promote(Promote),
    Dashboard(Dashboard),
    Stable(StableRelease),
}

/// A running versioning command.
pub struct Session {
    procedure: Procedure,
}

pub enum SessionView {
    Check(CheckView),
    Advance(AdvanceView),
    Deploy(DeployView),
    Promote(PromoteView),
    Dashboard(DashboardView),
    Stable(StableView),
}

impl View for Session {
    type V = SessionView;

    closed spec fn view(&self) -> SessionView {
        match self.procedure {
            Procedure::Check(p) => SessionView::Check(p@),
            Procedure::Advance(p) => SessionView::Advance(p@),
            Procedure::Deploy(p) => SessionView::Deploy(p@),
            Procedure::Promote(p) => SessionView::Promote(p@),
            Procedure::Dashboard(p) => SessionView::Dashboard(p@),
            Procedure::Stable(p) => SessionView::Stable(p@),
        }
    }
}

/// The first state of the dashboard printing `text`.
pub open spec fn dashboard_start(text: DashboardText, short_sha: Seq<char>) -> DashboardView {
    DashboardView {
        text,
        short_sha,
        stage: DashboardStage::Start,
        names: seq![],
        rows: seq![],
        target: RELEASE_EPOCH_DAYS as int,
    }
}

/// The first state of the command's procedure.
pub open spec fn start_of(command: Command, dry_run: bool) -> SessionView {
    match command {
        Command::ChangesetValidate => SessionView::Check(
            CheckView { stage: CheckStage::Start, valid: seq![], names: seq![] },
        ),
        Command::AdvanceRc { green_commit } => SessionView::Advance(
            AdvanceView {
                green: green_commit@,
                dry_run,
                stage: AdvanceStage::Start,
                target: RELEASE_EPOCH_DAYS,
                tag: seq![],
                sync: SyncView { dry_run, stage: SyncStage::Start, changes: 0 },
            },
        ),
        Command::DeployHeavyTest { rc_sha, rc_tag } => SessionView::Deploy(
            DeployView {
                rc_sha: rc_sha@,
                rc_tag: rc_tag@,
                dry_run,
                stage: DeployStage::Start,
                id: Seq::empty(),
            },
        ),
        Command::PromoteRc { rc_sha } => SessionView::Promote(
            PromoteView { rc_sha: rc_sha@, dry_run, stage: PromoteStage::Start },
        ),
        Command::ReleasePrBody => SessionView::Dashboard(dashboard_start(DashboardText::PrBody, seq![])),
        Command::ReleasePrTitle => SessionView::Dashboard(
            dashboard_start(DashboardText::PrTitle, seq![]),
        ),
        Command::ReleaseRcComment { short_sha } => SessionView::Dashboard(
            dashboard_start(DashboardText::RcComment, short_sha@),
        ),
        Command::ReleaseStable => SessionView::Stable(
            StableView {
                dry_run,
                stage: StableStage::Start,
                index: 0,
                names: seq![],
                rows: seq![],
                sync: SyncView { dry_run, stage: SyncStage::Start, changes: 0 },
            },
        ),
    }
}

/// The command's procedure takes the reply and gives its next step.
pub open spec fn session_next(s: SessionView, r: Reply) -> (SessionView, StepView) {
    match s {
        SessionView::Check(p) => {
            let (q, st) = check_next(p, r);
            (SessionView::Check(q), st)
        },
        SessionView::Advance(p) => {
            let (q, st) = advance_next(p, r);
            (SessionView::Advance(q), st)
        },
        SessionView::Deploy(p) => {
            let (q, st) = deploy_next(p, r);
            (SessionView::Deploy(q), st)
        },
        SessionView::Promote(p) => {
            let (q, st) = promote_next(p, r);
            (SessionView::Promote(q), st)
        },
        SessionView::Dashboard(p) => {
            let (q, st) = dashboard_next(p, r);
            (SessionView::Dashboard(q), st)
        },
        SessionView::Stable(p) => {
            let (q, st) = stable_next(p, r);
            (SessionView::Stable(q), st)
        },
    }
}

impl Session {
    /// A session for `command`; `dry_run` logs what would run in place of
    /// running what changes the repository.
    pub fn new(command: Command, dry_run: bool) -> (s: Self)
        requires
            command matches Command::AdvanceRc { green_commit } ==> short_commit_defined(
                green_commit@,
            ),
        ensures
            s@ == start_of(command, dry_run),
            session_consistent(s@),
            dry_run ==> session_dry_run(s@),
    {
        let procedure = match command {
            Command::ChangesetValidate => Procedure::Check(ChangesetCheck::new()),
            Command::AdvanceRc { green_commit } => Procedure::Advance(
                AdvanceRc::new(green_commit.as_str(), dry_run),
            ),
            Command::DeployHeavyTest { rc_sha, rc_tag } => Procedure::Deploy(
                Deploy::new(rc_sha.as_str(), rc_tag.as_str(), dry_run),
            ),
            Command::PromoteRc { rc_sha } => Procedure::Promote(
                Promote::new(rc_sha.as_str(), dry_run),
            ),
            Command::ReleasePrBody => {
                proof {
                    reveal_strlit("");
                    assert(""@ =~= Seq::<char>::empty());
                }
                Procedure::Dashboard(Dashboard::new(DashboardText::PrBody, ""))
            },
            Command::ReleasePrTitle => {
                proof {
                    reveal_strlit("");
                    assert(""@ =~= Seq::<char>::empty());
                }
                Procedure::Dashboard(Dashboard::new(DashboardText::PrTitle, ""))
            },
            Command::ReleaseRcComment { short_sha } => Procedure::Dashboard(
                Dashboard::new(DashboardText::RcComment, short_sha.as_str()),
            ),
            Command::ReleaseStable => Procedure::Stable(StableRelease::new(dry_run)),
        };
        Session { procedure }
    }
}

/// Hands the reply to the last request (`Reply::Start` on the first call) to
/// the session's procedure and gives its next step.
pub fn run(session: &mut Session, reply: Reply) -> (s: Step)
    ensures
        (final(session)@, s@) == session_next(old(session)@, reply),
{
    match &mut session.procedure {
        Procedure::Check(p) => p.step(reply),
        Procedure::Advance(p) => p.step(reply),
        Procedure::Deploy(p) => p.step(reply),
        Procedure::Promote(p) => p.step(reply),
        Procedure::Dashboard(p) => p.step(reply),
        Procedure::Stable(p) => p.step(reply),
    }
}

/// Whether a session is a dry run. The changeset check and the dashboard
/// only read and print, so they count as one whatever the flag.
pub open spec fn session_dry_run(s: SessionView) -> bool {
    match s {
        SessionView::Check(_) => true,
        SessionView::Advance(a) => a.dry_run,
        SessionView::Deploy(d) => d.dry_run,
        SessionView::Promote(p) => p.dry_run,
        SessionView::Dashboard(_) => true,
        SessionView::Stable(t) => t.dry_run,
    }
}

/// What every state that a session reaches satisfies.
pub open spec fn session_consistent(s: SessionView) -> bool {
    match s {
        SessionView::Advance(a) => advance_consistent(a),
        SessionView::Deploy(d) => d.dry_run ==> d.stage == DeployStage::Start || d.stage
            == DeployStage::Finished,
        SessionView::Stable(t) => stable_consistent(t),
        _ => true,
    }
}

/// A dry run changes nothing: no step of a dry-run session asks for a side
/// effect, except publishing a crate, which runs cargo's own dry run. Every
/// step keeps the session consistent and a dry run.
#[verifier::spinoff_prover]
pub proof fn lemma_session_dry_run(s: SessionView, r: Reply)
    requires
        session_consistent(s),
        session_dry_run(s),
    ensures
        session_consistent(session_next(s, r).0),
        session_dry_run(session_next(s, r).0),
        is_side_effect(session_next(s, r).1.1) ==> session_next(s, r).1.1 == RequestKind::Run
            && exists|i: int|
            0 <= i < publish_order().len() && session_next(s, r).1.2 == publish_words(
                #[trigger] publish_order()[i],
                true,
            ),
{
    match s {
        SessionView::Check(p) => {},
        SessionView::Advance(p) => lemma_advance_dry_run(p, r),
        SessionView::Deploy(p) => lemma_deploy_dry_run(p, r),
        SessionView::Promote(p) => lemma_promote_dry_run(p, r),
        SessionView::Dashboard(p) => {},
        SessionView::Stable(p) => lemma_stable_dry_run(p, r),
    }
}

} // verus!
