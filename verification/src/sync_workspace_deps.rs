//! Syncing the root manifest's workspace dependency versions with the
//! crates' own versions after the release tool bumped them.

use vstd::prelude::*;

use crate::flow::{
    count_text, finish_err, is_side_effect, info, log, log_str, log_views, make_request, no_logs, ok_line, request,
    unexpected_reply, DirFailure, Level, LogLine, LogView, ManifestFile, PackageListing, Reply,
    RequestKind, Step, StepView,
};
use crate::manifest::{
    change_views, dep_line_in, extract_package_version, lemma_sync_all_idempotent,
    lemma_sync_all_sets_versions, package_version_in, sync_conditions, sync_upto,
    sync_workspace_versions, VersionChange,
};
use crate::text::{
    chars_of, decimal, decimal_chars, lines, pair_map, pair_views, push_all, push_str,
    sorted_entries, sorted_map_entries, string_of, string_views,
};

verus! {

// ---------------------------------------------------------------------------
// Crate versions
// ---------------------------------------------------------------------------

/// The (package, version) pairs of the first `k` manifests that give a
/// version, or the first reading error.
pub open spec fn manifest_versions(files: Seq<ManifestFile>, k: int) -> Result<
    Seq<(Seq<char>, Seq<char>)>,
    Seq<char>,
>
    decreases k,
{
    if k <= 0 {
        Ok(seq![])
    } else {
        match manifest_versions(files, k - 1) {
            Err(e) => Err(e),
            Ok(ps) => {
                let f = files[k - 1];
                match f.read {
                    Err(e) => Err("cannot read "@ + f.path@ + ": "@ + e@),
                    Ok(c) => match package_version_in(lines(c@), false) {
                        Some(v) => Ok(ps.push((f.dir_name@, v))),
                        None => Ok(ps),
                    },
                }
            },
        }
    }
}

/// Each crate's version, as a map from package directory name to version,
/// or the error that stopped reading them.
pub open spec fn crate_versions(listing: PackageListing) -> Result<Map<Seq<char>, Seq<char>>, Seq<char>> {
    match manifest_versions(listing.files@, listing.files@.len() as int) {
        Err(e) => Err(e),
        Ok(ps) => match listing.failure {
            Some(DirFailure::ReadDir(e)) => Err("cannot read packages/: "@ + e@),
            Some(DirFailure::Entry(e)) => Err("read_dir error: "@ + e@),
            None => Ok(pair_map(ps)),
        },
    }
}

proof fn lemma_versions_error_stays(files: Seq<ManifestFile>, k: int, n: int)
    requires
        0 < k <= n,
        manifest_versions(files, k) is Err,
    ensures
        manifest_versions(files, n) == manifest_versions(files, k),
    decreases n - k,
{
    if k < n {
        lemma_versions_error_stays(files, k, n - 1);
    }
}

/// Reads each crate's version from its manifest: the crates' versions in
/// name order, or the error that stopped reading them.
pub fn read_crate_versions(listing: &PackageListing) -> (r: Result<Vec<(String, String)>, String>)
    ensures
        match r {
            Ok(v) => crate_versions(*listing) matches Ok(m) && pair_views(v@) == sorted_entries(m),
            Err(e) => crate_versions(*listing) == Err::<Map<Seq<char>, Seq<char>>, Seq<char>>(e@),
        },
{
    let files = &listing.files;
    let mut pairs: Vec<(String, String)> = Vec::new();
    let mut i: usize = 0;
    assert(pair_views(pairs@) =~= Seq::<(Seq<char>, Seq<char>)>::empty());
    while i < files.len()
        invariant
            i <= files@.len(),
            files@ == listing.files@,
            manifest_versions(files@, i as int) == Ok::<Seq<(Seq<char>, Seq<char>)>, Seq<char>>(
                pair_views(pairs@),
            ),
        decreases files.len() - i,
    {
        let f = &files[i];
        match &f.read {
            Err(e) => {
                let mut m = chars_of("cannot read ");
                push_str(&mut m, f.path.as_str());
                push_str(&mut m, ": ");
                push_str(&mut m, e.as_str());
                proof {
                    assert(files@[i as int] == *f);
                    assert(manifest_versions(files@, i + 1) == Err::<
                        Seq<(Seq<char>, Seq<char>)>,
                        Seq<char>,
                    >(m@));
                    lemma_versions_error_stays(files@, i + 1, files@.len() as int);
                    assert(crate_versions(*listing) == Err::<Map<Seq<char>, Seq<char>>, Seq<char>>(
                        m@,
                    ));
                }
                return Err(string_of(&m));
            },
            Ok(c) => match extract_package_version(c.as_str()) {
                Some(v) => {
                    let ghost before = pair_views(pairs@);
                    pairs.push((f.dir_name.clone(), v));
                    assert(pair_views(pairs@) =~= before.push((f.dir_name@, pair_views(pairs@).last().1)));
                },
                None => {},
            },
        }
        i = i + 1;
    }
    match &listing.failure {
        Some(DirFailure::ReadDir(e)) => {
            let mut m = chars_of("cannot read packages/: ");
            push_str(&mut m, e.as_str());
            Err(string_of(&m))
        },
        Some(DirFailure::Entry(e)) => {
            let mut m = chars_of("read_dir error: ");
            push_str(&mut m, e.as_str());
            Err(string_of(&m))
        },
        None => Ok(sorted_map_entries(pairs)),
    }
}

// ---------------------------------------------------------------------------
// The sync procedure
// ---------------------------------------------------------------------------

#[derive(PartialEq, Eq, Structural, Clone, Copy, Debug)]
pub enum SyncStage {
    Start,
    AwaitInputs,
    AwaitWrite,
    Finished,
}

/// The sync of workspace dependency versions, a part of the release
/// procedures: read the manifests, patch the root manifest, write it back
/// unless nothing changed or on a dry run.
pub struct SyncWorkspaceDeps {
    dry_run: bool,
    stage: SyncStage,
    changes: usize,
}

pub struct SyncView {
    pub dry_run: bool,
    pub stage: SyncStage,
    pub changes: nat,
}

impl View for SyncWorkspaceDeps {
    type V = SyncView;

    closed spec fn view(&self) -> SyncView {
        SyncView { dry_run: self.dry_run, stage: self.stage, changes: self.changes as nat }
    }
}

/// What a step of a part of a procedure gives: a step to hand to the
/// caller, or the part's end, with lines to show and its outcome.
pub enum Outcome {
    Continue(Step),
    Done(Vec<LogLine>, Result<(), String>),
}

pub enum OutcomeView {
    Continue(StepView),
    Done(Seq<LogView>, Result<(), Seq<char>>),
}

impl View for Outcome {
    type V = OutcomeView;

    open spec fn view(&self) -> OutcomeView {
        match self {
            Outcome::Continue(s) => OutcomeView::Continue(s@),
            Outcome::Done(l, Ok(())) => OutcomeView::Done(log_views(l@), Ok(())),
            Outcome::Done(l, Err(e)) => OutcomeView::Done(log_views(l@), Err(e@)),
        }
    }
}

/// `  <crate>: <old> -> <new>` for each change.
pub open spec fn change_lines(changes: Seq<(Seq<char>, Seq<char>, Seq<char>)>) -> Seq<LogView>
    decreases changes.len(),
{
    if changes.len() == 0 {
        seq![]
    } else {
        change_lines(changes.drop_last()).push(
            info(
                "  "@ + changes.last().0 + ": "@ + changes.last().1 + " -> "@ + changes.last().2,
            ),
        )
    }
}

pub open spec fn sync_next(s: SyncView, r: Reply) -> (SyncView, OutcomeView) {
    let done = SyncView { stage: SyncStage::Finished, ..s };
    match s.stage {
        SyncStage::Start => (
            SyncView { stage: SyncStage::AwaitInputs, ..s },
            OutcomeView::Continue(request(seq![], RequestKind::ReadSyncInputs, seq![])),
        ),
        SyncStage::AwaitInputs => match r {
            Reply::SyncInputs { root_manifest, packages } => match root_manifest {
                Err(e) => (done, OutcomeView::Done(seq![], Err("cannot read root Cargo.toml: "@ + e@))),
                Ok(root) => match crate_versions(packages) {
                    Err(e) => (done, OutcomeView::Done(seq![], Err(e))),
                    Ok(m) => {
                        let vs = sorted_entries(m);
                        let (updated, changes) = sync_upto(root@, vs, vs.len() as int);
                        let n = changes.len();
                        let lines = change_lines(changes);
                        if n == 0 {
                            (
                                done,
                                OutcomeView::Done(
                                    lines.push(info("Workspace dependency versions already in sync."@)),
                                    Ok(()),
                                ),
                            )
                        } else if s.dry_run {
                            (
                                done,
                                OutcomeView::Done(
                                    lines.push(
                                        info(
                                            "[dry-run] would update "@ + decimal(n)
                                                + " workspace dependency version(s)"@,
                                        ),
                                    ),
                                    Ok(()),
                                ),
                            )
                        } else {
                            (
                                SyncView { stage: SyncStage::AwaitWrite, changes: n, ..s },
                                OutcomeView::Continue(
                                    request(lines, RequestKind::WriteRootManifest, seq![updated]),
                                ),
                            )
                        }
                    },
                },
            },
            _ => (done, OutcomeView::Done(seq![], Err(unexpected_reply()))),
        },
        SyncStage::AwaitWrite => match r {
            Reply::Done(Err(e)) => (
                done,
                OutcomeView::Done(seq![], Err("cannot write root Cargo.toml: "@ + e@)),
            ),
            Reply::Done(Ok(())) => (
                done,
                OutcomeView::Done(
                    seq![ok_line("Updated "@ + decimal(s.changes) + " workspace dependency version(s)."@)],
                    Ok(()),
                ),
            ),
            _ => (done, OutcomeView::Done(seq![], Err(unexpected_reply()))),
        },
        SyncStage::Finished => (done, OutcomeView::Done(seq![], Err(unexpected_reply()))),
    }
}

fn push_change_lines(logs: &mut Vec<LogLine>, changes: &Vec<VersionChange>)
    ensures
        log_views(final(logs)@) == log_views(old(logs)@) + change_lines(change_views(changes@)),
{
    let mut i: usize = 0;
    let ghost start = log_views(logs@);
    assert(change_views(changes@).take(0) =~= Seq::<(Seq<char>, Seq<char>, Seq<char>)>::empty());
    assert(start + change_lines(change_views(changes@).take(0)) =~= start);
    while i < changes.len()
        invariant
            i <= changes@.len(),
            log_views(logs@) == start + change_lines(change_views(changes@).take(i as int)),
        decreases changes.len() - i,
    {
        let c = &changes[i];
        let mut t = chars_of("  ");
        push_str(&mut t, c.name.as_str());
        push_str(&mut t, ": ");
        push_str(&mut t, c.old_version.as_str());
        push_str(&mut t, " -> ");
        push_str(&mut t, c.new_version.as_str());
        log(logs, Level::Info, &t);
        assert(change_views(changes@).take(i + 1).drop_last() =~= change_views(changes@).take(
            i as int,
        ));
        assert(change_views(changes@).take(i + 1).last() == c@);
        i = i + 1;
    }
    assert(change_views(changes@).take(changes@.len() as int) =~= change_views(changes@));
}

impl SyncWorkspaceDeps {
    pub fn new(dry_run: bool) -> (s: Self)
        ensures
            s@ == (SyncView { dry_run, stage: SyncStage::Start, changes: 0 }),
    {
        SyncWorkspaceDeps { dry_run, stage: SyncStage::Start, changes: 0 }
    }

    fn after_inputs(&mut self, root: String, packages: PackageListing) -> (o: Outcome)
        requires
            old(self)@.stage == SyncStage::AwaitInputs,
        ensures
            (final(self)@, o@) == sync_next(
                old(self)@,
                Reply::SyncInputs { root_manifest: Ok(root), packages },
            ),
    {
        let ghost expected = sync_next(
            old(self)@,
            Reply::SyncInputs { root_manifest: Ok(root), packages },
        ).1;
        match read_crate_versions(&packages) {
            Err(e) => {
                self.stage = SyncStage::Finished;
                let o = Outcome::Done(no_logs(), Err(e));
                assert(o@ == expected);
                o
            },
            Ok(vs) => {
                let (updated, changes) = sync_workspace_versions(root.as_str(), &vs);
                let ghost m = crate_versions(packages)->Ok_0;
                let ghost spec_vs = sorted_entries(m);
                proof {
                    assert(pair_views(vs@).len() == vs@.len());
                    assert(sync_upto(root@, spec_vs, spec_vs.len() as int) == (
                        updated@,
                        change_views(changes@),
                    ));
                }
                let mut logs = no_logs();
                push_change_lines(&mut logs, &changes);
                let n = changes.len();
                assert(change_views(changes@).len() == n);
                if n == 0 {
                    self.stage = SyncStage::Finished;
                    log_str(
                        &mut logs,
                        Level::Info,
                        "Workspace dependency versions already in sync.",
                    );
                    let o = Outcome::Done(logs, Ok(()));
                    assert(o@ == expected);
                    o
                } else if self.dry_run {
                    self.stage = SyncStage::Finished;
                    let t = count_text(
                        "[dry-run] would update ",
                        n,
                        " workspace dependency version(s)",
                    );
                    log(&mut logs, Level::Info, &t);
                    let o = Outcome::Done(logs, Ok(()));
                    assert(o@ == expected);
                    o
                } else {
                    self.stage = SyncStage::AwaitWrite;
                    self.changes = n;
                    let args = vec![updated];
                    assert(string_views(args@) =~= seq![updated@]);
                    let o = Outcome::Continue(
                        make_request(logs, RequestKind::WriteRootManifest, args),
                    );
                    assert(o@ == expected);
                    o
                }
            },
        }
    }

    pub fn step(&mut self, reply: Reply) -> (o: Outcome)
        ensures
            (final(self)@, o@) == sync_next(old(self)@, reply),
    {
        match self.stage {
            SyncStage::Start => {
                self.stage = SyncStage::AwaitInputs;
                let args: Vec<String> = Vec::new();
                assert(string_views(args@) =~= Seq::<Seq<char>>::empty());
                Outcome::Continue(make_request(no_logs(), RequestKind::ReadSyncInputs, args))
            },
            SyncStage::AwaitInputs => match reply {
                Reply::SyncInputs { root_manifest, packages } => match root_manifest {
                    Err(e) => {
                        self.stage = SyncStage::Finished;
                        let mut m = chars_of("cannot read root Cargo.toml: ");
                        push_str(&mut m, e.as_str());
                        Outcome::Done(no_logs(), Err(string_of(&m)))
                    },
                    Ok(root) => self.after_inputs(root, packages),
                },
                _ => {
                    self.stage = SyncStage::Finished;
                    Outcome::Done(no_logs(), Err("unexpected reply".to_string()))
                },
            },
            SyncStage::AwaitWrite => match reply {
                Reply::Done(Err(e)) => {
                    self.stage = SyncStage::Finished;
                    let mut m = chars_of("cannot write root Cargo.toml: ");
                    push_str(&mut m, e.as_str());
                    Outcome::Done(no_logs(), Err(string_of(&m)))
                },
                Reply::Done(Ok(())) => {
                    self.stage = SyncStage::Finished;
                    let mut logs = no_logs();
                    let t = count_text("Updated ", self.changes, " workspace dependency version(s).");
                    log(&mut logs, Level::Success, &t);
                    Outcome::Done(logs, Ok(()))
                },
                _ => {
                    self.stage = SyncStage::Finished;
                    Outcome::Done(no_logs(), Err("unexpected reply".to_string()))
                },
            },
            SyncStage::Finished => Outcome::Done(no_logs(), Err("unexpected reply".to_string())),
        }
    }
}

/// The sync waits for a write only when it is not a dry run.
pub open spec fn sync_consistent(s: SyncView) -> bool {
    s.stage == SyncStage::AwaitWrite ==> !s.dry_run
}

/// A dry run of the sync never asks to write the root manifest or for any
/// other side effect; every step keeps the sync consistent and keeps
/// whether it is a dry run.
pub proof fn lemma_sync_dry_run(s: SyncView, r: Reply)
    requires
        sync_consistent(s),
    ensures
        sync_consistent(sync_next(s, r).0),
        sync_next(s, r).0.dry_run == s.dry_run,
        s.dry_run ==> !(sync_next(s, r).1 matches OutcomeView::Continue(st) && is_side_effect(st.1)),
{
}

/// A real run writes a root manifest in which every crate that had a
/// workspace dependency line still has one, and it gives the crate's
/// version: where the crates' versions were read and their syncs can patch
/// the manifest in place, the manifest that the sync asks to write is one
/// whose dependency lines give those versions.
pub proof fn lemma_sync_writes_versions(s: SyncView, root: String, packages: PackageListing)
    requires
        s.stage == SyncStage::AwaitInputs,
        !s.dry_run,
        crate_versions(packages) is Ok,
        sync_conditions(root@, sorted_entries(crate_versions(packages)->Ok_0)),
    ensures
        ({
            let vs = sorted_entries(crate_versions(packages)->Ok_0);
            let out = sync_next(s, Reply::SyncInputs { root_manifest: Ok(root), packages }).1;
            &&& out matches OutcomeView::Continue(st) ==> st.1 == RequestKind::WriteRootManifest
                && st.2 == seq![sync_upto(root@, vs, vs.len() as int).0]
            &&& forall|k: int|
                0 <= k < vs.len() ==> match dep_line_in(
                    lines(sync_upto(root@, vs, vs.len() as int).0),
                    #[trigger] vs[k].0,
                ) {
                    Some((_, v)) => v == vs[k].1 && dep_line_in(lines(root@), vs[k].0) is Some,
                    None => dep_line_in(lines(root@), vs[k].0) is None,
                }
        }),
{
    let vs = sorted_entries(crate_versions(packages)->Ok_0);
    lemma_sync_all_sets_versions(root@, vs);
}

/// A second run changes nothing: run again on the manifest that a run
/// wrote, with the same crate versions, the sync reports the versions in
/// sync and asks to write nothing.
pub proof fn lemma_sync_second_run(s: SyncView, root: String, packages: PackageListing, written: String)
    requires
        s.stage == SyncStage::AwaitInputs,
        crate_versions(packages) is Ok,
        sync_conditions(root@, sorted_entries(crate_versions(packages)->Ok_0)),
        written@ == sync_upto(
            root@,
            sorted_entries(crate_versions(packages)->Ok_0),
            sorted_entries(crate_versions(packages)->Ok_0).len() as int,
        ).0,
    ensures
        sync_next(s, Reply::SyncInputs { root_manifest: Ok(written), packages }).1
            == OutcomeView::Done(
            seq![info("Workspace dependency versions already in sync."@)],
            Ok::<(), Seq<char>>(()),
        ),
{
    let vs = sorted_entries(crate_versions(packages)->Ok_0);
    lemma_sync_all_idempotent(root@, vs);
    assert(change_lines(Seq::<(Seq<char>, Seq<char>, Seq<char>)>::empty()) =~= Seq::<LogView>::empty());
    assert(Seq::<LogView>::empty().push(info("Workspace dependency versions already in sync."@))
        =~= seq![info("Workspace dependency versions already in sync."@)]);
}

} // verus!
