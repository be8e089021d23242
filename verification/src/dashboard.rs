//! The release dashboard's texts, printed for the release pull request:
//! its body (the RC that merging promotes, the version table and the
//! changelog), its title, and the comment line of an RC update.

use vstd::prelude::*;

use crate::flow::{
    configured_packages, date_out_of_range, finish_err, finish_ok, keys_view, knope_packages,
    listing_output, make_finish_err, make_finish_ok, make_request, make_unexpected, no_logs,
    on_done, release_target, release_target_of, request, run_outcome, tag_list_command,
    tag_list_words, unexpected_reply, Reply, RequestKind, Step, StepView, no_args, copy_strings,
};
use crate::release::{
    latest_rc, latest_release, name_view, pr_body_text, rc_comment, rc_comment_text, rc_label,
    rc_prefix, rc_tag_of, rc_tag_prefix, release_pr_body, release_title, title, ReleaseName,
    RELEASE_EPOCH_DAYS,
};
use crate::text::{starts_with, string_views};
use crate::version_table::{
    names_match, package_name_views, table_from, CrateVersionView, PackageFiles, VersionTable,
};

verus! {

/// Which text the dashboard prints.
#[derive(PartialEq, Eq, Structural, Clone, Copy, Debug)]
pub enum DashboardText {
    /// The pull request body.
    PrBody,
    /// The pull request title.
    PrTitle,
    /// The comment line of an RC update.
    RcComment,
}

#[derive(PartialEq, Eq, Structural, Clone, Copy, Debug)]
pub enum DashboardStage {
    Start,
    AwaitConfig,
    AwaitPackages,
    AwaitToday,
    AwaitTags,
    Printing,
    Finished,
}

/// Printing one of the release dashboard's texts.
pub struct Dashboard {
    text: DashboardText,
    short_sha: String,
    stage: DashboardStage,
    names: Vec<String>,
    table: VersionTable,
    target: ReleaseName,
}

pub struct DashboardView {
    pub text: DashboardText,
    pub short_sha: Seq<char>,
    pub stage: DashboardStage,
    pub names: Seq<Seq<char>>,
    pub rows: Seq<CrateVersionView>,
    pub target: int,
}

impl View for Dashboard {
    type V = DashboardView;

    closed spec fn view(&self) -> DashboardView {
        DashboardView {
            text: self.text,
            short_sha: self.short_sha@,
            stage: self.stage,
            names: string_views(self.names@),
            rows: self.table@,
            target: self.target@.0,
        }
    }
}

/// The latest RC of the release on `target` in a tag listing.
pub open spec fn latest_name(target: int, listing: Seq<char>) -> Option<(int, nat)> {
    match latest_rc(listing, rc_prefix(target)) {
        Some(n) => Some((target, n)),
        None => None,
    }
}

/// The text to print, given the latest RC.
pub open spec fn dashboard_text(s: DashboardView, latest: Option<(int, nat)>) -> Seq<char> {
    match s.text {
        DashboardText::PrBody => pr_body_text(rc_label(latest), s.rows),
        _ => rc_comment_text(latest, s.short_sha),
    }
}

pub open spec fn print_step(t: Seq<char>) -> StepView {
    request(seq![], RequestKind::Print, seq![t])
}

pub open spec fn dashboard_next(s: DashboardView, r: Reply) -> (DashboardView, StepView) {
    let done = DashboardView { stage: DashboardStage::Finished, ..s };
    let unexpected = (done, finish_err(seq![], unexpected_reply()));
    match s.stage {
        DashboardStage::Start => if s.text == DashboardText::PrBody {
            (
                DashboardView { stage: DashboardStage::AwaitConfig, ..s },
                request(seq![], RequestKind::ReadKnopeConfig, seq![]),
            )
        } else {
            (
                DashboardView { stage: DashboardStage::AwaitToday, ..s },
                request(seq![], RequestKind::Today, seq![]),
            )
        },
        DashboardStage::AwaitConfig => match r {
            Reply::KnopeKeys { path, keys } => match configured_packages(path@, keys_view(keys)) {
                Err(e) => (done, finish_err(seq![], e)),
                Ok(ks) => (
                    DashboardView { stage: DashboardStage::AwaitPackages, names: ks, ..s },
                    request(seq![], RequestKind::ReadPackageFiles, ks),
                ),
            },
            _ => unexpected,
        },
        DashboardStage::AwaitPackages => match r {
            Reply::Packages(ps) => if package_name_views(ps@) != s.names {
                unexpected
            } else {
                match table_from(ps@, ps@.len() as int) {
                    Err(e) => (done, finish_err(seq![], e)),
                    Ok(rows) => (
                        DashboardView { stage: DashboardStage::AwaitToday, rows, ..s },
                        request(seq![], RequestKind::Today, seq![]),
                    ),
                }
            },
            _ => unexpected,
        },
        DashboardStage::AwaitToday => match r {
            Reply::Today(d) => match release_target(d) {
                None => (done, finish_err(seq![], date_out_of_range())),
                Some(t) => if s.text == DashboardText::PrTitle {
                    (
                        DashboardView { stage: DashboardStage::Printing, target: t as int, ..s },
                        print_step(release_title(t as int)),
                    )
                } else {
                    (
                        DashboardView { stage: DashboardStage::AwaitTags, target: t as int, ..s },
                        request(seq![], RequestKind::ListTags, tag_list_words(rc_prefix(t as int))),
                    )
                },
            },
            _ => unexpected,
        },
        DashboardStage::AwaitTags => match r {
            Reply::Text(out) => (
                DashboardView { stage: DashboardStage::Printing, ..s },
                print_step(dashboard_text(s, latest_name(s.target, listing_output(out)))),
            ),
            _ => unexpected,
        },
        DashboardStage::Printing => on_done(r, done, (done, finish_ok(seq![]))),
        DashboardStage::Finished => unexpected,
    }
}

fn print_request(t: String) -> (s: Step)
    ensures
        s@ == print_step(t@),
{
    let args = vec![t];
    assert(string_views(args@) =~= seq![t@]);
    make_request(no_logs(), RequestKind::Print, args)
}

impl Dashboard {
    /// Printing the text `text`; `short_sha` is the commit of an RC update
    /// comment.
    pub fn new(text: DashboardText, short_sha: &str) -> (d: Self)
        ensures
            d@ == (DashboardView {
                text,
                short_sha: short_sha@,
                stage: DashboardStage::Start,
                names: seq![],
                rows: seq![],
                target: RELEASE_EPOCH_DAYS as int,
            }),
    {
        let d = Dashboard {
            text,
            short_sha: short_sha.to_string(),
            stage: DashboardStage::Start,
            names: Vec::new(),
            table: VersionTable { entries: Vec::new() },
            target: ReleaseName::new(RELEASE_EPOCH_DAYS, 0),
        };
        assert(d@.names =~= Seq::<Seq<char>>::empty());
        assert(d@.rows =~= Seq::<CrateVersionView>::empty());
        d
    }

    fn on_packages(&mut self, ps: Vec<PackageFiles>) -> (s: Step)
        requires
            old(self)@.stage == DashboardStage::AwaitPackages,
        ensures
            (final(self)@, s@) == dashboard_next(old(self)@, Reply::Packages(ps)),
    {
        if !names_match(&ps, &self.names) {
            self.stage = DashboardStage::Finished;
            return make_unexpected(no_logs());
        }
        match VersionTable::from_workspace(&ps) {
            Err(e) => {
                self.stage = DashboardStage::Finished;
                make_finish_err(no_logs(), e)
            },
            Ok(t) => {
                self.stage = DashboardStage::AwaitToday;
                self.table = t;
                make_request(no_logs(), RequestKind::Today, no_args())
            },
        }
    }

    fn on_tags(&mut self, out: Result<String, String>) -> (s: Step)
        requires
            old(self)@.stage == DashboardStage::AwaitTags,
        ensures
            (final(self)@, s@) == dashboard_next(old(self)@, Reply::Text(out)),
    {
        let listing = match &out {
            Ok(t) => t.clone(),
            Err(_) => String::new(),
        };
        let target = self.target.target_date();
        let latest = latest_release(target, listing.as_str());
        assert(name_view(latest) == latest_name(self@.target, listing_output(out)));
        let text = match self.text {
            DashboardText::PrBody => release_pr_body(&latest, &self.table),
            _ => rc_comment(&latest, self.short_sha.as_str()),
        };
        self.stage = DashboardStage::Printing;
        print_request(text)
    }

    /// The next step, given the reply to the last request.
    pub fn step(&mut self, reply: Reply) -> (s: Step)
        ensures
            (final(self)@, s@) == dashboard_next(old(self)@, reply),
    {
        match self.stage {
            DashboardStage::Start => {
                if self.text == DashboardText::PrBody {
                    self.stage = DashboardStage::AwaitConfig;
                    make_request(no_logs(), RequestKind::ReadKnopeConfig, no_args())
                } else {
                    self.stage = DashboardStage::AwaitToday;
                    make_request(no_logs(), RequestKind::Today, no_args())
                }
            },
            DashboardStage::AwaitConfig => match reply {
                Reply::KnopeKeys { path, keys } => match knope_packages(path.as_str(), keys) {
                    Err(e) => {
                        self.stage = DashboardStage::Finished;
                        make_finish_err(no_logs(), e)
                    },
                    Ok(ks) => {
                        self.stage = DashboardStage::AwaitPackages;
                        let args = copy_strings(&ks);
                        self.names = ks;
                        make_request(no_logs(), RequestKind::ReadPackageFiles, args)
                    },
                },
                _ => {
                    self.stage = DashboardStage::Finished;
                    make_unexpected(no_logs())
                },
            },
            DashboardStage::AwaitPackages => match reply {
                Reply::Packages(ps) => self.on_packages(ps),
                _ => {
                    self.stage = DashboardStage::Finished;
                    make_unexpected(no_logs())
                },
            },
            DashboardStage::AwaitToday => match reply {
                Reply::Today(d) => match release_target_of(d) {
                    None => {
                        self.stage = DashboardStage::Finished;
                        make_finish_err(
                            no_logs(),
                            "the next release date is out of range".to_string(),
                        )
                    },
                    Some(t) => {
                        self.target = ReleaseName::new(t, 0);
                        if self.text == DashboardText::PrTitle {
                            self.stage = DashboardStage::Printing;
                            print_request(title(&self.target))
                        } else {
                            self.stage = DashboardStage::AwaitTags;
                            let prefix = rc_tag_prefix(t);
                            make_request(
                                no_logs(),
                                RequestKind::ListTags,
                                tag_list_command(prefix.as_str()),
                            )
                        }
                    },
                },
                _ => {
                    self.stage = DashboardStage::Finished;
                    make_unexpected(no_logs())
                },
            },
            DashboardStage::AwaitTags => match reply {
                Reply::Text(out) => self.on_tags(out),
                _ => {
                    self.stage = DashboardStage::Finished;
                    make_unexpected(no_logs())
                },
            },
            DashboardStage::Printing => match run_outcome(reply) {
                Err(st) => {
                    self.stage = DashboardStage::Finished;
                    st
                },
                Ok(()) => {
                    self.stage = DashboardStage::Finished;
                    make_finish_ok(no_logs())
                },
            },
            DashboardStage::Finished => make_unexpected(no_logs()),
        }
    }
}

/// The texts name the latest RC of the target release in the tag listing:
/// once the tags are listed, the pull request body says that merging
/// promotes `<target>-rc.<n>`, `n` being the largest RC number among the
/// listed tags of the target release, and says `pending` only where there
/// is no such tag; the RC comment line names that tag in bold, or says
/// `RC updated` where there is none.
pub proof fn lemma_texts_name_latest_rc(s: DashboardView, out: Result<String, String>)
    requires
        s.stage == DashboardStage::AwaitTags,
    ensures
        ({
            let step = dashboard_next(s, Reply::Text(out)).1;
            let latest = latest_rc(listing_output(out), rc_prefix(s.target));
            &&& step.1 == RequestKind::Print
            &&& s.text == DashboardText::PrBody ==> match latest {
                Some(n) => step.2 == seq![pr_body_text(rc_tag_of(s.target, n), s.rows)]
                    && starts_with(
                    step.2[0],
                    "Merging this PR promotes **"@ + rc_tag_of(s.target, n) + "**"@,
                ),
                None => step.2 == seq![pr_body_text("pending"@, s.rows)] && starts_with(
                    step.2[0],
                    "Merging this PR promotes **pending**"@,
                ),
            }
            &&& s.text == DashboardText::RcComment ==> match latest {
                Some(n) => step.2 == seq!["**"@ + rc_tag_of(s.target, n) + "** ("@ + s.short_sha + ")"@],
                None => step.2 == seq!["RC updated ("@ + s.short_sha + ")"@],
            }
        }),
{
    let step = dashboard_next(s, Reply::Text(out)).1;
    let latest = latest_rc(listing_output(out), rc_prefix(s.target));
    if s.text == DashboardText::PrBody {
        let label = match latest {
            Some(n) => rc_tag_of(s.target, n),
            None => "pending"@,
        };
        let p = "Merging this PR promotes **"@ + label + "**"@;
        let t = pr_body_text(label, s.rows);
        let h = "Merging this PR promotes **"@;
        let tail = "** to stable and triggers the release workflow."@;
        let a0 = h + label + tail;
        let a1 = a0 + seq!['\n', '\n'];
        let a2 = a1 + "---"@;
        let a3 = a2 + seq!['\n', '\n'];
        let a4 = a3 + "## Crate Versions"@;
        let a5 = a4 + seq!['\n', '\n'];
        let a6 = a5 + crate::version_table::markdown_table(s.rows);
        assert(t == a6 + crate::release::changelog_part(s.rows));
        assert(tail.len() >= 2 && tail[0] == '*' && tail[1] == '*') by {
            reveal_strlit("** to stable and triggers the release workflow.");
        }
        assert("**"@ =~= seq!['*', '*']) by {
            reveal_strlit("**");
        }
        assert forall|x: int| 0 <= x < p.len() implies #[trigger] t[x] == p[x] by {
            assert(t[x] == a6[x]);
            assert(a6[x] == a5[x]);
            assert(a5[x] == a4[x]);
            assert(a4[x] == a3[x]);
            assert(a3[x] == a2[x]);
            assert(a2[x] == a1[x]);
            assert(a1[x] == a0[x]);
            if x >= h.len() + label.len() {
                assert(a0[x] == tail[x - h.len() - label.len()]);
            }
        }
        assert(t.take(p.len() as int) =~= p);
        if latest is None {
            assert(p =~= "Merging this PR promotes **pending**"@) by {
                reveal_strlit("Merging this PR promotes **");
                reveal_strlit("pending");
                reveal_strlit("**");
                reveal_strlit("Merging this PR promotes **pending**");
            }
        }
    }
}

} // verus!
