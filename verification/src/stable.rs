//! The stable release: finalize versions, sync the workspace dependency
//! versions, commit and push `stable`, create the per-crate releases,
//! publish the crates in dependency order, create the unified release entry
//! and sync `stable` back to `dev`.

use vstd::prelude::*;

use crate::ci::{
    cargo_publish, checkout_words, git_add_all, git_checkout, git_commit, git_merge, git_push,
    knope_prepare_release, knope_release, prepare_release_words, publish_words,
};
use crate::flow::{
    configured_packages, date_out_of_range, is_side_effect, error_line, finish_err, finish_ok, info, keys_view,
    knope_packages, log, log_str, log_views, make_finish_err, make_finish_ok, make_request,
    make_run, make_unexpected, no_logs, ok_line, on_done, prepend_logs, release_target,
    release_target_of, request, run_outcome, run_step, unexpected_reply, with_logs, Level,
    LogLine, LogView, Reply, RequestKind, Step, StepView, no_args, copy_strings,
};
use crate::release::{
    iso_date, release_title, unified_release_body, unified_release_text, ReleaseName,
};
use crate::sync_workspace_deps::{
    lemma_sync_dry_run, sync_consistent, sync_next, Outcome, OutcomeView, SyncStage, SyncView, SyncWorkspaceDeps,
};
use crate::text::{chars_of, push_str, string_of, string_views};
use crate::version_table::{
    names_match, package_name_views, table_from, CrateVersionView, PackageFiles, VersionTable,
};

verus! {

/// The crates in the order they are published: each after the crates it
/// depends on.
pub open spec fn publish_order() -> Seq<Seq<char>> {
    seq![
        "zaino-common"@,
        "zaino-proto"@,
        "zaino-fetch"@,
        "zaino-state"@,
        "zaino-serve"@,
        "zainod"@,
    ]
}

/// The crates in the order they are published.
pub fn publish_order_list() -> (v: Vec<String>)
    ensures
        string_views(v@) == publish_order(),
{
    let v = vec![
        "zaino-common".to_string(),
        "zaino-proto".to_string(),
        "zaino-fetch".to_string(),
        "zaino-state".to_string(),
        "zaino-serve".to_string(),
        "zainod".to_string(),
    ];
    assert(string_views(v@) =~= publish_order());
    v
}

#[derive(PartialEq, Eq, Structural, Clone, Copy, Debug)]
pub enum StableStage {
    Start,
    Preparing,
    Syncing,
    Adding,
    Committing,
    PushingStable,
    Releasing,
    Publishing,
    AwaitConfig,
    AwaitPackages,
    AwaitToday,
    Creating,
    CheckingOutDev,
    MergingDev,
    PushingDev,
    Finished,
}

/// The stable release procedure.
pub struct StableRelease {
    dry_run: bool,
    stage: StableStage,
    index: usize,
    names: Vec<String>,
    table: VersionTable,
    sync: SyncWorkspaceDeps,
}

pub struct StableView {
    pub dry_run: bool,
    pub stage: StableStage,
    /// The crate being published.
    pub index: nat,
    /// The configured package names.
    pub names: Seq<Seq<char>>,
    /// The version table of the packages.
    pub rows: Seq<CrateVersionView>,
    pub sync: SyncView,
}

impl View for StableRelease {
    type V = StableView;

    closed spec fn view(&self) -> StableView {
        StableView {
            dry_run: self.dry_run,
            stage: self.stage,
            index: self.index as nat,
            names: string_views(self.names@),
            rows: self.table@,
            sync: self.sync@,
        }
    }
}

/// `  Publishing <crate>...`
pub open spec fn publishing_line(i: int) -> LogView {
    info("  Publishing "@ + publish_order()[i] + "..."@)
}

/// The lines after a crate's publication: where it failed, the failure and
/// that the others still follow.
pub open spec fn publish_result_lines(i: int, res: Result<(), String>) -> Seq<LogView> {
    match res {
        Err(e) => seq![
            error_line("Failed to publish "@ + publish_order()[i] + ": "@ + e@),
            info("Continuing with remaining crates."@),
        ],
        Ok(()) => seq![],
    }
}

/// Publishing the crate at `i` of the publish order, after the lines `logs`.
/// The command always runs: on a dry run, cargo's own dry run is asked for.
pub open spec fn publish_step(logs: Seq<LogView>, i: int, dry_run: bool) -> StepView {
    run_step(logs.push(publishing_line(i)), false, publish_words(publish_order()[i], dry_run))
}

pub open spec fn stable_after_sync(front: Seq<LogView>, s: StableView, o: OutcomeView) -> (
    StableView,
    StepView,
) {
    match o {
        OutcomeView::Continue(st) => (
            StableView { stage: StableStage::Syncing, ..s },
            with_logs(front, st),
        ),
        OutcomeView::Done(l, Err(e)) => (
            StableView { stage: StableStage::Finished, ..s },
            finish_err(front + l, e),
        ),
        OutcomeView::Done(l, Ok(())) => (
            StableView { stage: StableStage::Adding, ..s },
            run_step(front + l, s.dry_run, seq!["git"@, "add"@, "-A"@]),
        ),
    }
}

pub open spec fn stable_start_sync(s: StableView) -> (StableView, StepView) {
    let (sync, o) = sync_next(s.sync, Reply::Start);
    stable_after_sync(seq![], StableView { sync, ..s }, o)
}

/// Creating the unified release for the release on `t`, listing `rows`.
pub open spec fn unified_release_step(t: i32, rows: Seq<CrateVersionView>, dry_run: bool) -> StepView {
    let tag = iso_date(t);
    let title = release_title(t as int);
    let logs = seq![info("Creating unified release: "@ + tag)];
    if dry_run {
        request(
            logs.push(info("[dry-run] would create release: tag="@ + tag + " title="@ + title)),
            RequestKind::Nothing,
            seq![],
        )
    } else {
        request(logs, RequestKind::CreateRelease, seq![tag, title, unified_release_text(rows)])
    }
}

pub open spec fn stable_next(s: StableView, r: Reply) -> (StableView, StepView) {
    let done = StableView { stage: StableStage::Finished, ..s };
    let unexpected = (done, finish_err(seq![], unexpected_reply()));
    let dry = s.dry_run;
    match s.stage {
        StableStage::Start => (
            StableView { stage: StableStage::Preparing, ..s },
            run_step(seq![info("Preparing stable release."@)], dry, prepare_release_words(None)),
        ),
        StableStage::Preparing => on_done(r, done, stable_start_sync(s)),
        StableStage::Syncing => {
            let (sync, o) = sync_next(s.sync, r);
            stable_after_sync(seq![], StableView { sync, ..s }, o)
        },
        StableStage::Adding => on_done(
            r,
            done,
            (
                StableView { stage: StableStage::Committing, ..s },
                run_step(
                    seq![],
                    dry,
                    seq!["git"@, "commit"@, "-m"@, "chore: prepare stable release"@],
                ),
            ),
        ),
        StableStage::Committing => on_done(
            r,
            done,
            (
                StableView { stage: StableStage::PushingStable, ..s },
                run_step(seq![], dry, seq!["git"@, "push"@, "origin"@, "stable"@]),
            ),
        ),
        StableStage::PushingStable => on_done(
            r,
            done,
            (
                StableView { stage: StableStage::Releasing, ..s },
                run_step(
                    seq![info("Creating per-crate GitHub releases."@)],
                    dry,
                    seq!["knope"@, "release"@],
                ),
            ),
        ),
        StableStage::Releasing => on_done(
            r,
            done,
            (
                StableView { stage: StableStage::Publishing, index: 0, ..s },
                publish_step(seq![info("Publishing to crates.io."@)], 0, dry),
            ),
        ),
        StableStage::Publishing => match r {
            Reply::Done(res) => if s.index >= publish_order().len() {
                unexpected
            } else {
                let logs = publish_result_lines(s.index as int, res);
                if s.index + 1 < publish_order().len() {
                    (
                        StableView { index: s.index + 1, ..s },
                        publish_step(logs, s.index + 1int, dry),
                    )
                } else {
                    (
                        StableView { stage: StableStage::AwaitConfig, ..s },
                        request(logs, RequestKind::ReadKnopeConfig, seq![]),
                    )
                }
            },
            _ => unexpected,
        },
        StableStage::AwaitConfig => match r {
            Reply::KnopeKeys { path, keys } => match configured_packages(path@, keys_view(keys)) {
                Err(e) => (done, finish_err(seq![], e)),
                Ok(ks) => (
                    StableView { stage: StableStage::AwaitPackages, names: ks, ..s },
                    request(seq![], RequestKind::ReadPackageFiles, ks),
                ),
            },
            _ => unexpected,
        },
        StableStage::AwaitPackages => match r {
            Reply::Packages(ps) => if package_name_views(ps@) != s.names {
                unexpected
            } else {
                match table_from(ps@, ps@.len() as int) {
                    Err(e) => (done, finish_err(seq![], e)),
                    Ok(rows) => (
                        StableView { stage: StableStage::AwaitToday, rows, ..s },
                        request(seq![], RequestKind::Today, seq![]),
                    ),
                }
            },
            _ => unexpected,
        },
        StableStage::AwaitToday => match r {
            Reply::Today(d) => match release_target(d) {
                None => (done, finish_err(seq![], date_out_of_range())),
                Some(t) => (
                    StableView { stage: StableStage::Creating, ..s },
                    unified_release_step(t, s.rows, dry),
                ),
            },
            _ => unexpected,
        },
        StableStage::Creating => on_done(
            r,
            done,
            (
                StableView { stage: StableStage::CheckingOutDev, ..s },
                run_step(seq![info("Syncing stable to dev."@)], dry, checkout_words("dev"@, None)),
            ),
        ),
        StableStage::CheckingOutDev => on_done(
            r,
            done,
            (
                StableView { stage: StableStage::MergingDev, ..s },
                run_step(
                    seq![],
                    dry,
                    seq!["git"@, "merge"@, "stable"@, "-m"@, "chore: sync stable to dev"@],
                ),
            ),
        ),
        StableStage::MergingDev => match r {
            Reply::Done(Err(e)) => (
                done,
                finish_err(
                    seq![
                        error_line("Failed to sync stable to dev: "@ + e@),
                        info("Manual resolution needed."@),
                    ],
                    "stable→dev sync failed"@,
                ),
            ),
            Reply::Done(Ok(())) => (
                StableView { stage: StableStage::PushingDev, ..s },
                run_step(seq![], dry, seq!["git"@, "push"@, "origin"@, "dev"@]),
            ),
            _ => unexpected,
        },
        StableStage::PushingDev => on_done(
            r,
            done,
            (done, finish_ok(seq![ok_line("Stable release complete."@)])),
        ),
        StableStage::Finished => unexpected,
    }
}

impl StableRelease {
    pub fn new(dry_run: bool) -> (r: Self)
        ensures
            r@ == (StableView {
                dry_run,
                stage: StableStage::Start,
                index: 0,
                names: seq![],
                rows: seq![],
                sync: SyncView { dry_run, stage: SyncStage::Start, changes: 0 },
            }),
    {
        let r = StableRelease {
            dry_run,
            stage: StableStage::Start,
            index: 0,
            names: Vec::new(),
            table: VersionTable { entries: Vec::new() },
            sync: SyncWorkspaceDeps::new(dry_run),
        };
        assert(r@.names =~= Seq::<Seq<char>>::empty());
        assert(r@.rows =~= Seq::<CrateVersionView>::empty());
        r
    }

    fn after_sync_outcome(&mut self, front: Vec<LogLine>, o: Outcome) -> (s: Step)
        ensures
            (final(self)@, s@) == stable_after_sync(log_views(front@), old(self)@, o@),
    {
        match o {
            Outcome::Continue(st) => {
                self.stage = StableStage::Syncing;
                prepend_logs(front, st)
            },
            Outcome::Done(l, Err(e)) => {
                self.stage = StableStage::Finished;
                prepend_logs(front, make_finish_err(l, e))
            },
            Outcome::Done(l, Ok(())) => {
                self.stage = StableStage::Adding;
                prepend_logs(front, make_run(l, self.dry_run, git_add_all()))
            },
        }
    }

    fn publish(logs: Vec<LogLine>, i: usize, dry_run: bool) -> (s: Step)
        requires
            i < publish_order().len(),
        ensures
            s@ == publish_step(log_views(logs@), i as int, dry_run),
    {
        let order = publish_order_list();
        let mut logs = logs;
        let mut t = chars_of("  Publishing ");
        push_str(&mut t, order[i].as_str());
        push_str(&mut t, "...");
        assert(order@[i as int]@ == publish_order()[i as int]);
        log(&mut logs, Level::Info, &t);
        make_run(logs, false, cargo_publish(order[i].as_str(), dry_run))
    }

    fn on_published(&mut self, res: Result<(), String>) -> (s: Step)
        requires
            old(self)@.stage == StableStage::Publishing,
        ensures
            (final(self)@, s@) == stable_next(old(self)@, Reply::Done(res)),
    {
        let order = publish_order_list();
        if self.index >= order.len() {
            self.stage = StableStage::Finished;
            return make_unexpected(no_logs());
        }
        let mut logs = no_logs();
        match &res {
            Err(e) => {
                let mut t = chars_of("Failed to publish ");
                push_str(&mut t, order[self.index].as_str());
                push_str(&mut t, ": ");
                push_str(&mut t, e.as_str());
                log(&mut logs, Level::Failure, &t);
                log_str(&mut logs, Level::Info, "Continuing with remaining crates.");
            },
            Ok(()) => {},
        }
        assert(log_views(logs@) == publish_result_lines(self.index as int, res));
        if self.index + 1 < order.len() {
            self.index = self.index + 1;
            Self::publish(logs, self.index, self.dry_run)
        } else {
            self.stage = StableStage::AwaitConfig;
            make_request(logs, RequestKind::ReadKnopeConfig, no_args())
        }
    }

    fn on_packages(&mut self, ps: Vec<PackageFiles>) -> (s: Step)
        requires
            old(self)@.stage == StableStage::AwaitPackages,
        ensures
            (final(self)@, s@) == stable_next(old(self)@, Reply::Packages(ps)),
    {
        if !names_match(&ps, &self.names) {
            self.stage = StableStage::Finished;
            return make_unexpected(no_logs());
        }
        match VersionTable::from_workspace(&ps) {
            Err(e) => {
                self.stage = StableStage::Finished;
                make_finish_err(no_logs(), e)
            },
            Ok(t) => {
                self.stage = StableStage::AwaitToday;
                self.table = t;
                make_request(no_logs(), RequestKind::Today, no_args())
            },
        }
    }

    fn on_today(&mut self, d: i32) -> (s: Step)
        requires
            old(self)@.stage == StableStage::AwaitToday,
        ensures
            (final(self)@, s@) == stable_next(old(self)@, Reply::Today(d)),
    {
        match release_target_of(d) {
            None => {
                self.stage = StableStage::Finished;
                make_finish_err(no_logs(), "the next release date is out of range".to_string())
            },
            Some(t) => {
                self.stage = StableStage::Creating;
                let name = ReleaseName::new(t, 0);
                let tag = name.target();
                let title = name.pr_title();
                let mut logs = no_logs();
                let mut line = chars_of("Creating unified release: ");
                push_str(&mut line, tag.as_str());
                log(&mut logs, Level::Info, &line);
                if self.dry_run {
                    let mut m = chars_of("[dry-run] would create release: tag=");
                    push_str(&mut m, tag.as_str());
                    push_str(&mut m, " title=");
                    push_str(&mut m, title.as_str());
                    log(&mut logs, Level::Info, &m);
                    make_request(logs, RequestKind::Nothing, no_args())
                } else {
                    let body = unified_release_body(&self.table);
                    let args = vec![tag, title, body];
                    assert(string_views(args@) =~= seq![
                        iso_date(t),
                        release_title(t as int),
                        unified_release_text(self.table@),
                    ]);
                    make_request(logs, RequestKind::CreateRelease, args)
                }
            },
        }
    }

    /// The next step, given the reply to the last request.
    #[verifier::spinoff_prover]
    pub fn step(&mut self, reply: Reply) -> (s: Step)
        ensures
            (final(self)@, s@) == stable_next(old(self)@, reply),
    {
        let dry_run = self.dry_run;
        match self.stage {
            StableStage::Start => {
                self.stage = StableStage::Preparing;
                let mut logs = no_logs();
                log_str(&mut logs, Level::Info, "Preparing stable release.");
                make_run(logs, dry_run, knope_prepare_release(None))
            },
            StableStage::Preparing => match run_outcome(reply) {
                Err(st) => {
                    self.stage = StableStage::Finished;
                    st
                },
                Ok(()) => {
                    let o = self.sync.step(Reply::Start);
                    self.after_sync_outcome(no_logs(), o)
                },
            },
            StableStage::Syncing => {
                let o = self.sync.step(reply);
                self.after_sync_outcome(no_logs(), o)
            },
            StableStage::Adding => match run_outcome(reply) {
                Err(st) => {
                    self.stage = StableStage::Finished;
                    st
                },
                Ok(()) => {
                    self.stage = StableStage::Committing;
                    make_run(no_logs(), dry_run, git_commit("chore: prepare stable release"))
                },
            },
            StableStage::Committing => match run_outcome(reply) {
                Err(st) => {
                    self.stage = StableStage::Finished;
                    st
                },
                Ok(()) => {
                    self.stage = StableStage::PushingStable;
                    make_run(no_logs(), dry_run, git_push("stable"))
                },
            },
            StableStage::PushingStable => match run_outcome(reply) {
                Err(st) => {
                    self.stage = StableStage::Finished;
                    st
                },
                Ok(()) => {
                    self.stage = StableStage::Releasing;
                    let mut logs = no_logs();
                    log_str(&mut logs, Level::Info, "Creating per-crate GitHub releases.");
                    make_run(logs, dry_run, knope_release())
                },
            },
            StableStage::Releasing => match run_outcome(reply) {
                Err(st) => {
                    self.stage = StableStage::Finished;
                    st
                },
                Ok(()) => {
                    self.stage = StableStage::Publishing;
                    self.index = 0;
                    let mut logs = no_logs();
                    log_str(&mut logs, Level::Info, "Publishing to crates.io.");
                    Self::publish(logs, 0, dry_run)
                },
            },
            StableStage::Publishing => match reply {
                Reply::Done(res) => self.on_published(res),
                _ => {
                    self.stage = StableStage::Finished;
                    make_unexpected(no_logs())
                },
            },
            StableStage::AwaitConfig => match reply {
                Reply::KnopeKeys { path, keys } => match knope_packages(path.as_str(), keys) {
                    Err(e) => {
                        self.stage = StableStage::Finished;
                        make_finish_err(no_logs(), e)
                    },
                    Ok(ks) => {
                        self.stage = StableStage::AwaitPackages;
                        let args = copy_strings(&ks);
                        self.names = ks;
                        make_request(no_logs(), RequestKind::ReadPackageFiles, args)
                    },
                },
                _ => {
                    self.stage = StableStage::Finished;
                    make_unexpected(no_logs())
                },
            },
            StableStage::AwaitPackages => match reply {
                Reply::Packages(ps) => self.on_packages(ps),
                _ => {
                    self.stage = StableStage::Finished;
                    make_unexpected(no_logs())
                },
            },
            StableStage::AwaitToday => match reply {
                Reply::Today(d) => self.on_today(d),
                _ => {
                    self.stage = StableStage::Finished;
                    make_unexpected(no_logs())
                },
            },
            StableStage::Creating => match run_outcome(reply) {
                Err(st) => {
                    self.stage = StableStage::Finished;
                    st
                },
                Ok(()) => {
                    self.stage = StableStage::CheckingOutDev;
                    let mut logs = no_logs();
                    log_str(&mut logs, Level::Info, "Syncing stable to dev.");
                    make_run(logs, dry_run, git_checkout("dev", None))
                },
            },
            StableStage::CheckingOutDev => match run_outcome(reply) {
                Err(st) => {
                    self.stage = StableStage::Finished;
                    st
                },
                Ok(()) => {
                    self.stage = StableStage::MergingDev;
                    make_run(no_logs(), dry_run, git_merge("stable", "chore: sync stable to dev"))
                },
            },
            StableStage::MergingDev => match reply {
                Reply::Done(Err(e)) => {
                    self.stage = StableStage::Finished;
                    let mut logs = no_logs();
                    let mut t = chars_of("Failed to sync stable to dev: ");
                    push_str(&mut t, e.as_str());
                    log(&mut logs, Level::Failure, &t);
                    log_str(&mut logs, Level::Info, "Manual resolution needed.");
                    make_finish_err(logs, "stable→dev sync failed".to_string())
                },
                Reply::Done(Ok(())) => {
                    self.stage = StableStage::PushingDev;
                    make_run(no_logs(), dry_run, git_push("dev"))
                },
                _ => {
                    self.stage = StableStage::Finished;
                    make_unexpected(no_logs())
                },
            },
            StableStage::PushingDev => match run_outcome(reply) {
                Err(st) => {
                    self.stage = StableStage::Finished;
                    st
                },
                Ok(()) => {
                    self.stage = StableStage::Finished;
                    let mut logs = no_logs();
                    log_str(&mut logs, Level::Success, "Stable release complete.");
                    make_finish_ok(logs)
                },
            },
            StableStage::Finished => make_unexpected(no_logs()),
        }
    }
}

/// The release and its workspace sync agree on the dry run, and the sync is
/// consistent.
pub open spec fn stable_consistent(s: StableView) -> bool {
    s.sync.dry_run == s.dry_run && sync_consistent(s.sync)
}

/// A dry run of the stable release asks for no side effect but publishing,
/// which runs cargo's own dry run; every step keeps the release consistent
/// and keeps whether it is a dry run.
#[verifier::spinoff_prover]
pub proof fn lemma_stable_dry_run(s: StableView, r: Reply)
    requires
        stable_consistent(s),
    ensures
        stable_consistent(stable_next(s, r).0),
        stable_next(s, r).0.dry_run == s.dry_run,
        s.dry_run && is_side_effect(stable_next(s, r).1.1) ==> stable_next(s, r).1.1
            == RequestKind::Run && exists|i: int|
            0 <= i < publish_order().len() && stable_next(s, r).1.2 == publish_words(
                #[trigger] publish_order()[i],
                true,
            ),
{
    lemma_sync_dry_run(s.sync, r);
    lemma_sync_dry_run(s.sync, Reply::Start);
    if s.dry_run && s.stage == StableStage::Releasing {
        assert(publish_order()[0] == publish_order()[0]);
    }
    if s.dry_run && s.stage == StableStage::Publishing && s.index + 1 < publish_order().len() {
        assert(publish_order()[s.index + 1int] == publish_order()[s.index + 1int]);
    }
}

} // verus!
