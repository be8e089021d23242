//! Advancing the `rc` branch to a green dev commit and cutting an RC
//! release: merge the commit into `rc`, and where changesets are pending,
//! bump versions and changelogs, sync the workspace dependency versions,
//! commit, tag the RC and release it.

use vstd::prelude::*;
use vstd::utf8::{encode_scalar, encode_utf8};

use crate::changeset::{has_changesets, listing_has_changesets};
use crate::ci::{
    checkout_words, git_add_all, git_checkout, git_commit, git_is_ancestor, git_merge, git_push,
    git_tag, knope_prepare_release, knope_release, prepare_release_words,
};
use crate::flow::{
    date_out_of_range, error_line, is_side_effect, finish_err, finish_ok, info, listing_output, log, log_str,
    log_views, make_finish_err, make_finish_ok, make_request, make_run, make_unexpected, no_logs,
    ok_line, on_done, prepend_logs, run_outcome, rc_numbers_exhausted, release_target, release_target_of,
    request, run_step, tag_list_command, tag_list_words, unexpected_reply, with_logs, Level,
    LogLine, LogView, Reply, RequestKind, Step, StepView,
};
use crate::release::{
    ReleaseName, RELEASE_EPOCH_DAYS, iso_date, latest_rc, latest_release, next_rc, next_release, rc_prefix, rc_tag_of,
    rc_tag_prefix,
};
use crate::sync_workspace_deps::{
    lemma_sync_dry_run, sync_consistent, sync_next, Outcome, OutcomeView, SyncStage, SyncView, SyncWorkspaceDeps,
};
use crate::text::{chars_of, push_str, string_of, string_views};

verus! {

// ---------------------------------------------------------------------------
// The short commit
// ---------------------------------------------------------------------------

/// The length in bytes of a char's UTF-8 encoding.
pub open spec fn char_width(c: char) -> nat {
    encode_scalar(c as u32).len()
}

/// How many leading chars of `s` fit in `budget` bytes of UTF-8.
pub open spec fn fitting_chars(s: Seq<char>, budget: int) -> nat
    decreases s.len(),
{
    if s.len() == 0 {
        0
    } else if char_width(s[0]) <= budget {
        1 + fitting_chars(s.drop_first(), budget - char_width(s[0]))
    } else {
        0
    }
}

/// The commit as the merge message shows it: its first eight bytes, or all
/// of it where it is shorter.
pub open spec fn short_commit(s: Seq<char>) -> Seq<char> {
    s.take(fitting_chars(s, 8) as int)
}

/// The first eight bytes of the commit end on a char boundary, or the
/// commit is shorter: cutting it there is defined.
pub open spec fn short_commit_defined(s: Seq<char>) -> bool {
    encode_utf8(s).len() <= 8 || encode_utf8(short_commit(s)).len() == 8
}

fn width_of(c: char) -> (w: usize)
    ensures
        w == char_width(c),
{
    proof {
        vstd::utf8::char_is_scalar(c);
    }
    let v = c as u32;
    if v <= 0x7f {
        1
    } else if v <= 0x7ff {
        2
    } else if v <= 0xffff {
        3
    } else {
        4
    }
}

/// The first eight bytes of a commit, cut after the last char that fits.
pub fn short_commit_of(s: &str) -> (r: String)
    ensures
        r@ == short_commit(s@),
{
    let cs = chars_of(s);
    let mut i: usize = 0;
    let mut used: usize = 0;
    let mut full = false;
    assert(s@.skip(0) =~= s@);
    while i < cs.len() && !full
        invariant
            i <= cs@.len(),
            used <= 8,
            cs@ == s@,
            fitting_chars(s@, 8) == i + fitting_chars(s@.skip(i as int), 8 - used),
            full ==> fitting_chars(s@.skip(i as int), 8 - used) == 0,
        decreases cs.len() - i + if full { 0int } else { 1int },
    {
        let w = width_of(cs[i]);
        assert(s@.skip(i as int)[0] == cs@[i as int]);
        assert(s@.skip(i as int).drop_first() =~= s@.skip(i + 1));
        if w > 8 - used {
            full = true;
        } else {
            used = used + w;
            i = i + 1;
        }
    }
    assert(i == cs@.len() ==> s@.skip(i as int).len() == 0);
    let mut out: Vec<char> = Vec::new();
    let mut k: usize = 0;
    while k < i
        invariant
            k <= i <= cs@.len(),
            out@ == cs@.take(k as int),
        decreases i - k,
    {
        out.push(cs[k]);
        assert(cs@.take(k + 1) =~= cs@.take(k as int).push(cs@[k as int]));
        k = k + 1;
    }
    string_of(&out)
}

// ---------------------------------------------------------------------------
// The procedure
// ---------------------------------------------------------------------------

#[derive(PartialEq, Eq, Structural, Clone, Copy, Debug)]
pub enum AdvanceStage {
    Start,
    CheckingAncestor,
    CheckingOut,
    Merging,
    PushingRc,
    ListingChangesets,
    AwaitToday,
    AwaitTags,
    Preparing,
    Syncing,
    Adding,
    Committing,
    Tagging,
    PushingTag,
    PushingRcAgain,
    Releasing,
    Finished,
}

/// Advancing `rc` to a green commit, and cutting an RC where changesets are
/// pending.
pub struct AdvanceRc {
    green: String,
    dry_run: bool,
    stage: AdvanceStage,
    target: ReleaseName,
    tag: String,
    sync: SyncWorkspaceDeps,
}

pub struct AdvanceView {
    pub green: Seq<char>,
    pub dry_run: bool,
    pub stage: AdvanceStage,
    pub target: i32,
    pub tag: Seq<char>,
    pub sync: SyncView,
}

impl View for AdvanceRc {
    type V = AdvanceView;

    closed spec fn view(&self) -> AdvanceView {
        AdvanceView {
            green: self.green@,
            dry_run: self.dry_run,
            stage: self.stage,
            target: self.target@.0 as i32,
            tag: self.tag@,
            sync: self.sync@,
        }
    }
}

pub open spec fn merge_message(green: Seq<char>) -> Seq<char> {
    "chore: advance rc to dev "@ + short_commit(green)
}

/// The step that the workspace sync's outcome leads to, with the lines
/// `front` first: its own next step, the procedure's failure, or staging
/// the changes.
pub open spec fn after_sync(front: Seq<LogView>, s: AdvanceView, o: OutcomeView) -> (
    AdvanceView,
    StepView,
) {
    match o {
        OutcomeView::Continue(st) => (
            AdvanceView { stage: AdvanceStage::Syncing, ..s },
            with_logs(front, st),
        ),
        OutcomeView::Done(l, Err(e)) => (
            AdvanceView { stage: AdvanceStage::Finished, ..s },
            finish_err(front + l, e),
        ),
        OutcomeView::Done(l, Ok(())) => (
            AdvanceView { stage: AdvanceStage::Adding, ..s },
            run_step(front + l, s.dry_run, seq!["git"@, "add"@, "-A"@]),
        ),
    }
}

/// Starting the workspace sync.
pub open spec fn start_sync(s: AdvanceView) -> (AdvanceView, StepView) {
    let (sync, o) = sync_next(s.sync, Reply::Start);
    after_sync(
        seq![info("Syncing workspace dependency versions."@)],
        AdvanceView { sync, ..s },
        o,
    )
}

pub open spec fn advance_next(s: AdvanceView, r: Reply) -> (AdvanceView, StepView) {
    let done = AdvanceView { stage: AdvanceStage::Finished, ..s };
    let unexpected = (done, finish_err(seq![], unexpected_reply()));
    let dry = s.dry_run;
    match s.stage {
        AdvanceStage::Start => (
            AdvanceView { stage: AdvanceStage::CheckingAncestor, ..s },
            request(
                seq![info("Advancing rc to green commit "@ + s.green)],
                RequestKind::Check,
                seq!["git"@, "merge-base"@, "--is-ancestor"@, s.green, "origin/rc"@],
            ),
        ),
        AdvanceStage::CheckingAncestor => match r {
            Reply::Flag(Err(e)) => (done, finish_err(seq![], "git merge-base failed: "@ + e@)),
            Reply::Flag(Ok(true)) => (
                done,
                finish_ok(seq![info("rc already contains this commit. Nothing to do."@)]),
            ),
            Reply::Flag(Ok(false)) => (
                AdvanceView { stage: AdvanceStage::CheckingOut, ..s },
                run_step(seq![], dry, checkout_words("rc"@, None)),
            ),
            _ => unexpected,
        },
        AdvanceStage::CheckingOut => on_done(
            r,
            done,
            (
                AdvanceView { stage: AdvanceStage::Merging, ..s },
                run_step(seq![], dry, seq!["git"@, "merge"@, s.green, "-m"@, merge_message(s.green)]),
            ),
        ),
        AdvanceStage::Merging => match r {
            Reply::Done(Err(e)) => (
                done,
                finish_err(
                    seq![
                        error_line("Merge conflict advancing rc: "@ + e@),
                        info("Manual resolution needed. Aborting rc advancement."@),
                    ],
                    "rc advancement failed due to merge conflict"@,
                ),
            ),
            Reply::Done(Ok(())) => (
                AdvanceView { stage: AdvanceStage::PushingRc, ..s },
                run_step(seq![], dry, seq!["git"@, "push"@, "origin"@, "rc"@]),
            ),
            _ => unexpected,
        },
        AdvanceStage::PushingRc => on_done(
            r,
            done,
            (
                AdvanceView { stage: AdvanceStage::ListingChangesets, ..s },
                request(seq![], RequestKind::ListChangesets, seq![]),
            ),
        ),
        AdvanceStage::ListingChangesets => match r {
            Reply::Listing(l) => if listing_has_changesets(l) {
                (
                    AdvanceView { stage: AdvanceStage::AwaitToday, ..s },
                    request(seq![], RequestKind::Today, seq![]),
                )
            } else {
                (
                    done,
                    finish_ok(seq![info("No changesets found. rc advanced but no version bump."@)]),
                )
            },
            _ => unexpected,
        },
        AdvanceStage::AwaitToday => match r {
            Reply::Today(d) => match release_target(d) {
                None => (done, finish_err(seq![], date_out_of_range())),
                Some(t) => (
                    AdvanceView { stage: AdvanceStage::AwaitTags, target: t, ..s },
                    request(seq![], RequestKind::ListTags, tag_list_words(rc_prefix(t as int))),
                ),
            },
            _ => unexpected,
        },
        AdvanceStage::AwaitTags => match r {
            Reply::Text(out) => {
                let o = listing_output(out);
                let p = rc_prefix(s.target as int);
                if latest_rc(o, p) == Some(0xffff_ffffnat) {
                    (done, finish_err(seq![], rc_numbers_exhausted(s.target)))
                } else {
                    let tag = rc_tag_of(s.target as int, next_rc(o, p));
                    (
                        AdvanceView { stage: AdvanceStage::Preparing, tag, ..s },
                        run_step(
                            seq![info("Cutting RC: "@ + tag)],
                            dry,
                            prepare_release_words(Some("rc"@)),
                        ),
                    )
                }
            },
            _ => unexpected,
        },
        AdvanceStage::Preparing => on_done(r, done, start_sync(s)),
        AdvanceStage::Syncing => {
            let (sync, o) = sync_next(s.sync, r);
            after_sync(seq![], AdvanceView { sync, ..s }, o)
        },
        AdvanceStage::Adding => on_done(
            r,
            done,
            (
                AdvanceView { stage: AdvanceStage::Committing, ..s },
                run_step(seq![], dry, seq!["git"@, "commit"@, "-m"@, "chore: prepare rc release"@]),
            ),
        ),
        AdvanceStage::Committing => on_done(
            r,
            done,
            (
                AdvanceView { stage: AdvanceStage::Tagging, ..s },
                run_step(seq![], dry, seq!["git"@, "tag"@, s.tag]),
            ),
        ),
        AdvanceStage::Tagging => on_done(
            r,
            done,
            (
                AdvanceView { stage: AdvanceStage::PushingTag, ..s },
                run_step(seq![], dry, seq!["git"@, "push"@, "origin"@, s.tag]),
            ),
        ),
        AdvanceStage::PushingTag => on_done(
            r,
            done,
            (
                AdvanceView { stage: AdvanceStage::PushingRcAgain, ..s },
                run_step(seq![], dry, seq!["git"@, "push"@, "origin"@, "rc"@]),
            ),
        ),
        AdvanceStage::PushingRcAgain => on_done(
            r,
            done,
            (
                AdvanceView { stage: AdvanceStage::Releasing, ..s },
                run_step(seq![], dry, seq!["knope"@, "release"@]),
            ),
        ),
        AdvanceStage::Releasing => on_done(
            r,
            done,
            (done, finish_ok(seq![ok_line("RC release complete: "@ + s.tag)])),
        ),
        AdvanceStage::Finished => unexpected,
    }
}

impl AdvanceRc {
    /// The procedure for the green commit `green_commit`.
    pub fn new(green_commit: &str, dry_run: bool) -> (a: Self)
        requires
            short_commit_defined(green_commit@),
        ensures
            a@ == (AdvanceView {
                green: green_commit@,
                dry_run,
                stage: AdvanceStage::Start,
                target: RELEASE_EPOCH_DAYS,
                tag: seq![],
                sync: SyncView { dry_run, stage: SyncStage::Start, changes: 0 },
            }),
    {
        AdvanceRc {
            green: green_commit.to_string(),
            dry_run,
            stage: AdvanceStage::Start,
            target: ReleaseName::new(RELEASE_EPOCH_DAYS, 0),
            tag: String::new(),
            sync: SyncWorkspaceDeps::new(dry_run),
        }
    }

    fn after_sync_outcome(&mut self, front: Vec<LogLine>, o: Outcome) -> (s: Step)
        ensures
            (final(self)@, s@) == after_sync(log_views(front@), old(self)@, o@),
    {
        match o {
            Outcome::Continue(st) => {
                self.stage = AdvanceStage::Syncing;
                prepend_logs(front, st)
            },
            Outcome::Done(l, Err(e)) => {
                self.stage = AdvanceStage::Finished;
                let st = prepend_logs(front, make_finish_err(l, e));
                st
            },
            Outcome::Done(l, Ok(())) => {
                self.stage = AdvanceStage::Adding;
                let st = prepend_logs(front, make_run(l, self.dry_run, git_add_all()));
                st
            },
        }
    }

    fn on_tags(&mut self, out: Result<String, String>) -> (s: Step)
        requires
            old(self)@.stage == AdvanceStage::AwaitTags,
        ensures
            (final(self)@, s@) == advance_next(old(self)@, Reply::Text(out)),
    {
        let text = match &out {
            Ok(t) => t.clone(),
            Err(_) => String::new(),
        };
        let target = self.target.target_date();
        let latest = latest_release(target, text.as_str());
        match latest {
            Some(n) => {
                if n.rc_number() == 0xffff_ffffu32 {
                    self.stage = AdvanceStage::Finished;
                    let mut m = chars_of("no RC number is left for the release on ");
                    push_str(&mut m, n.target().as_str());
                    return make_finish_err(no_logs(), string_of(&m));
                }
            },
            None => {},
        }
        let name = next_release(target, text.as_str());
        let tag = name.rc_tag();
        let mut logs = no_logs();
        let mut t = chars_of("Cutting RC: ");
        push_str(&mut t, tag.as_str());
        log(&mut logs, Level::Info, &t);
        self.stage = AdvanceStage::Preparing;
        self.tag = tag;
        make_run(logs, self.dry_run, knope_prepare_release(Some("rc")))
    }

    /// The next step, given the reply to the last request.
    #[verifier::spinoff_prover]
    pub fn step(&mut self, reply: Reply) -> (s: Step)
        ensures
            (final(self)@, s@) == advance_next(old(self)@, reply),
    {
        let dry_run = self.dry_run;
        match self.stage {
            AdvanceStage::Start => {
                let mut logs = no_logs();
                let mut t = chars_of("Advancing rc to green commit ");
                push_str(&mut t, self.green.as_str());
                log(&mut logs, Level::Info, &t);
                self.stage = AdvanceStage::CheckingAncestor;
                make_request(logs, RequestKind::Check, git_is_ancestor(self.green.as_str(), "origin/rc"))
            },
            AdvanceStage::CheckingAncestor => match reply {
                Reply::Flag(Err(e)) => {
                    self.stage = AdvanceStage::Finished;
                    let mut m = chars_of("git merge-base failed: ");
                    push_str(&mut m, e.as_str());
                    make_finish_err(no_logs(), string_of(&m))
                },
                Reply::Flag(Ok(true)) => {
                    self.stage = AdvanceStage::Finished;
                    let mut logs = no_logs();
                    log_str(&mut logs, Level::Info, "rc already contains this commit. Nothing to do.");
                    make_finish_ok(logs)
                },
                Reply::Flag(Ok(false)) => {
                    self.stage = AdvanceStage::CheckingOut;
                    make_run(no_logs(), dry_run, git_checkout("rc", None))
                },
                _ => {
                    self.stage = AdvanceStage::Finished;
                    make_unexpected(no_logs())
                },
            },
            AdvanceStage::CheckingOut => match run_outcome(reply) {
                Err(st) => {
                    self.stage = AdvanceStage::Finished;
                    st
                },
                Ok(()) => {
                    self.stage = AdvanceStage::Merging;
                    let mut m = chars_of("chore: advance rc to dev ");
                    push_str(&mut m, short_commit_of(self.green.as_str()).as_str());
                    let cmd = git_merge(self.green.as_str(), string_of(&m).as_str());
                    make_run(no_logs(), dry_run, cmd)
                },
            },
            AdvanceStage::Merging => match reply {
                Reply::Done(Err(e)) => {
                    self.stage = AdvanceStage::Finished;
                    let mut logs = no_logs();
                    let mut t = chars_of("Merge conflict advancing rc: ");
                    push_str(&mut t, e.as_str());
                    log(&mut logs, Level::Failure, &t);
                    log_str(&mut logs, Level::Info, "Manual resolution needed. Aborting rc advancement.");
                    make_finish_err(logs, "rc advancement failed due to merge conflict".to_string())
                },
                Reply::Done(Ok(())) => {
                    self.stage = AdvanceStage::PushingRc;
                    make_run(no_logs(), dry_run, git_push("rc"))
                },
                _ => {
                    self.stage = AdvanceStage::Finished;
                    make_unexpected(no_logs())
                },
            },
            AdvanceStage::PushingRc => match run_outcome(reply) {
                Err(st) => {
                    self.stage = AdvanceStage::Finished;
                    st
                },
                Ok(()) => {
                    self.stage = AdvanceStage::ListingChangesets;
                    let args: Vec<String> = Vec::new();
                    assert(string_views(args@) =~= Seq::<Seq<char>>::empty());
                    make_request(no_logs(), RequestKind::ListChangesets, args)
                },
            },
            AdvanceStage::ListingChangesets => match reply {
                Reply::Listing(l) => {
                    if has_changesets(&l) {
                        self.stage = AdvanceStage::AwaitToday;
                        let args: Vec<String> = Vec::new();
                        assert(string_views(args@) =~= Seq::<Seq<char>>::empty());
                        make_request(no_logs(), RequestKind::Today, args)
                    } else {
                        self.stage = AdvanceStage::Finished;
                        let mut logs = no_logs();
                        log_str(
                            &mut logs,
                            Level::Info,
                            "No changesets found. rc advanced but no version bump.",
                        );
                        make_finish_ok(logs)
                    }
                },
                _ => {
                    self.stage = AdvanceStage::Finished;
                    make_unexpected(no_logs())
                },
            },
            AdvanceStage::AwaitToday => match reply {
                Reply::Today(d) => match release_target_of(d) {
                    None => {
                        self.stage = AdvanceStage::Finished;
                        make_finish_err(
                            no_logs(),
                            "the next release date is out of range".to_string(),
                        )
                    },
                    Some(t) => {
                        self.target = ReleaseName::new(t, 0);
                        self.stage = AdvanceStage::AwaitTags;
                        let prefix = rc_tag_prefix(t);
                        make_request(no_logs(), RequestKind::ListTags, tag_list_command(prefix.as_str()))
                    },
                },
                _ => {
                    self.stage = AdvanceStage::Finished;
                    make_unexpected(no_logs())
                },
            },
            AdvanceStage::AwaitTags => match reply {
                Reply::Text(out) => self.on_tags(out),
                _ => {
                    self.stage = AdvanceStage::Finished;
                    make_unexpected(no_logs())
                },
            },
            AdvanceStage::Preparing => match run_outcome(reply) {
                Err(st) => {
                    self.stage = AdvanceStage::Finished;
                    st
                },
                Ok(()) => {
                    let o = self.sync.step(Reply::Start);
                    let mut front = no_logs();
                    log_str(&mut front, Level::Info, "Syncing workspace dependency versions.");
                    self.after_sync_outcome(front, o)
                },
            },
            AdvanceStage::Syncing => {
                let o = self.sync.step(reply);
                self.after_sync_outcome(no_logs(), o)
            },
            AdvanceStage::Adding => match run_outcome(reply) {
                Err(st) => {
                    self.stage = AdvanceStage::Finished;
                    st
                },
                Ok(()) => {
                    self.stage = AdvanceStage::Committing;
                    make_run(no_logs(), dry_run, git_commit("chore: prepare rc release"))
                },
            },
            AdvanceStage::Committing => match run_outcome(reply) {
                Err(st) => {
                    self.stage = AdvanceStage::Finished;
                    st
                },
                Ok(()) => {
                    self.stage = AdvanceStage::Tagging;
                    make_run(no_logs(), dry_run, git_tag(self.tag.as_str()))
                },
            },
            AdvanceStage::Tagging => match run_outcome(reply) {
                Err(st) => {
                    self.stage = AdvanceStage::Finished;
                    st
                },
                Ok(()) => {
                    self.stage = AdvanceStage::PushingTag;
                    make_run(no_logs(), dry_run, git_push(self.tag.as_str()))
                },
            },
            AdvanceStage::PushingTag => match run_outcome(reply) {
                Err(st) => {
                    self.stage = AdvanceStage::Finished;
                    st
                },
                Ok(()) => {
                    self.stage = AdvanceStage::PushingRcAgain;
                    make_run(no_logs(), dry_run, git_push("rc"))
                },
            },
            AdvanceStage::PushingRcAgain => match run_outcome(reply) {
                Err(st) => {
                    self.stage = AdvanceStage::Finished;
                    st
                },
                Ok(()) => {
                    self.stage = AdvanceStage::Releasing;
                    make_run(no_logs(), dry_run, knope_release())
                },
            },
            AdvanceStage::Releasing => match run_outcome(reply) {
                Err(st) => {
                    self.stage = AdvanceStage::Finished;
                    st
                },
                Ok(()) => {
                    self.stage = AdvanceStage::Finished;
                    let mut logs = no_logs();
                    let mut t = chars_of("RC release complete: ");
                    push_str(&mut t, self.tag.as_str());
                    log(&mut logs, Level::Success, &t);
                    make_finish_ok(logs)
                },
            },
            AdvanceStage::Finished => make_unexpected(no_logs()),
        }
    }
}

/// The advance and its workspace sync agree on the dry run, and the sync is
/// consistent.
pub open spec fn advance_consistent(s: AdvanceView) -> bool {
    s.sync.dry_run == s.dry_run && sync_consistent(s.sync)
}

/// A dry run of the advance asks for no side effect (only the ancestry
/// check and the tag listing, which change nothing, still run); every step
/// keeps the advance consistent and keeps whether it is a dry run.
#[verifier::spinoff_prover]
pub proof fn lemma_advance_dry_run(s: AdvanceView, r: Reply)
    requires
        advance_consistent(s),
    ensures
        advance_consistent(advance_next(s, r).0),
        advance_next(s, r).0.dry_run == s.dry_run,
        s.dry_run ==> !is_side_effect(advance_next(s, r).1.1),
{
    match s.stage {
        AdvanceStage::Preparing => lemma_sync_dry_run(s.sync, Reply::Start),
        AdvanceStage::Syncing => lemma_sync_dry_run(s.sync, r),
        _ => {},
    }
}

} // verus!
