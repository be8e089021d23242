//! The `changeset validate` procedure: read the release configuration's
//! package names, list the changeset directory, read and check each
//! changeset file, and report every problem found or how many files were
//! checked.

use vstd::prelude::*;

use crate::changeset::{
    changeset_files, changeset_listing, contents_errors, error_views, lemma_files_errors,
    read_fits, validate, ChangesetFile,
};
use crate::flow::{
    configured_packages, count_text, file_error_line, file_error_lines, finish_err, finish_ok,
    info, keys_view, knope_packages, log, log_file_errors, log_str, log_views, make_finish_err,
    make_finish_ok, make_request, make_unexpected, no_logs, ok_line, request, unexpected_reply,
    Level, LogLine, Reply, RequestKind, Step, StepView, no_args, copy_strings,
};
use crate::text::{chars_of, decimal, string_of, string_views};

verus! {

#[derive(PartialEq, Eq, Structural, Clone, Copy, Debug)]
pub enum CheckStage {
    Start,
    AwaitConfig,
    AwaitListing,
    AwaitContents,
    AwaitRecount,
    Finished,
}

/// Validation of every changeset file against the configured package names.
pub struct ChangesetCheck {
    stage: CheckStage,
    valid: Vec<String>,
    names: Vec<String>,
}

pub struct CheckView {
    pub stage: CheckStage,
    pub valid: Seq<Seq<char>>,
    pub names: Seq<Seq<char>>,
}

impl View for ChangesetCheck {
    type V = CheckView;

    closed spec fn view(&self) -> CheckView {
        CheckView {
            stage: self.stage,
            valid: string_views(self.valid@),
            names: string_views(self.names@),
        }
    }
}

/// `Changeset validation failed with <n> error(s).`
pub open spec fn failed_message(n: nat) -> Seq<char> {
    "Changeset validation failed with "@ + decimal(n) + " error(s)."@
}

pub open spec fn too_large_message() -> Seq<char> {
    "a changeset file is too large to number its lines"@
}

/// Every file read is short enough for its line numbers to be counted.
pub open spec fn all_fit(reads: Seq<Result<String, String>>) -> bool {
    forall|i: int| 0 <= i < reads.len() ==> read_fits(#[trigger] reads[i])
}

/// The summary of a successful validation, given the number of changeset
/// files.
pub open spec fn summary(n: nat) -> Seq<crate::flow::LogView> {
    if n == 0 {
        seq![info("No changeset files to validate."@)]
    } else {
        seq![ok_line("Validated "@ + decimal(n) + " changeset file(s)."@)]
    }
}

pub open spec fn check_next(s: CheckView, r: Reply) -> (CheckView, StepView) {
    let done = CheckView { stage: CheckStage::Finished, ..s };
    let unexpected = (done, finish_err(seq![], unexpected_reply()));
    match s.stage {
        CheckStage::Start => (
            CheckView { stage: CheckStage::AwaitConfig, ..s },
            request(seq![], RequestKind::ReadKnopeConfig, seq![]),
        ),
        CheckStage::AwaitConfig => match r {
            Reply::KnopeKeys { path, keys } => match configured_packages(path@, keys_view(keys)) {
                Err(e) => (done, finish_err(seq![], e)),
                Ok(ks) => (
                    CheckView { stage: CheckStage::AwaitListing, valid: ks, ..s },
                    request(seq![], RequestKind::ListChangesets, seq![]),
                ),
            },
            _ => unexpected,
        },
        CheckStage::AwaitListing => match r {
            Reply::Listing(l) => match changeset_listing(l) {
                Err(m) => (
                    done,
                    finish_err(seq![file_error_line((".changeset/"@, None, m))], failed_message(1)),
                ),
                Ok(names) => if names.len() == 0 {
                    (
                        CheckView { stage: CheckStage::AwaitRecount, ..s },
                        request(seq![], RequestKind::ListChangesets, seq![]),
                    )
                } else {
                    (
                        CheckView { stage: CheckStage::AwaitContents, names, ..s },
                        request(seq![], RequestKind::ReadChangesets, names),
                    )
                },
            },
            _ => unexpected,
        },
        CheckStage::AwaitContents => match r {
            Reply::Contents(cs) => if cs@.len() != s.names.len() {
                unexpected
            } else if !all_fit(cs@) {
                (done, finish_err(seq![], too_large_message()))
            } else {
                let errs = contents_errors(s.names, cs@, s.valid, cs@.len() as int);
                if errs.len() == 0 {
                    (
                        CheckView { stage: CheckStage::AwaitRecount, ..s },
                        request(seq![], RequestKind::ListChangesets, seq![]),
                    )
                } else {
                    (done, finish_err(file_error_lines(errs), failed_message(errs.len())))
                }
            },
            _ => unexpected,
        },
        CheckStage::AwaitRecount => match r {
            Reply::Listing(l) => match changeset_listing(l) {
                Err(m) => (done, finish_err(seq![], m)),
                Ok(names) => (done, finish_ok(summary(names.len()))),
            },
            _ => unexpected,
        },
        CheckStage::Finished => unexpected,
    }
}

impl ChangesetCheck {
    pub fn new() -> (c: Self)
        ensures
            c@ == (CheckView { stage: CheckStage::Start, valid: seq![], names: seq![] }),
    {
        let c = ChangesetCheck { stage: CheckStage::Start, valid: Vec::new(), names: Vec::new() };
        assert(c@.valid =~= Seq::<Seq<char>>::empty());
        assert(c@.names =~= Seq::<Seq<char>>::empty());
        c
    }

    fn on_contents(&mut self, cs: Vec<Result<String, String>>) -> (s: Step)
        requires
            old(self)@.stage == CheckStage::AwaitContents,
        ensures
            (final(self)@, s@) == check_next(old(self)@, Reply::Contents(cs)),
    {
        if cs.len() != self.names.len() {
            self.stage = CheckStage::Finished;
            return make_unexpected(no_logs());
        }
        let mut files: Vec<ChangesetFile> = Vec::new();
        let mut i: usize = 0;
        let ghost start = self@;
        while i < cs.len()
            invariant
                self@ == start,
                start == old(self)@,
                start.stage == CheckStage::AwaitContents,
                i <= cs@.len() == self.names@.len(),
                files@.len() == i,
                forall|j: int| 0 <= j < i ==> read_fits(#[trigger] cs@[j]),
                forall|j: int|
                    0 <= j < i ==> (#[trigger] files@[j]).name@ == string_views(self.names@)[j]
                        && files@[j].read == cs@[j],
            decreases cs.len() - i,
        {
            let fits = match &cs[i] {
                Ok(c) => chars_of(c.as_str()).len() < usize::MAX - 1,
                Err(_) => true,
            };
            if !fits {
                assert(!read_fits(cs@[i as int]));
                assert(!all_fit(cs@));
                self.stage = CheckStage::Finished;
                let m = string_of(&chars_of("a changeset file is too large to number its lines"));
                return make_finish_err(no_logs(), m);
            }
            let read = match &cs[i] {
                Ok(c) => Ok(c.clone()),
                Err(e) => Err(e.clone()),
            };
            files.push(ChangesetFile { name: self.names[i].clone(), read });
            i = i + 1;
        }
        proof {
            lemma_files_errors(
                files@,
                string_views(self.names@),
                cs@,
                string_views(self.valid@),
                cs@.len() as int,
            );
        }
        let ghost fs = files@;
        let listing = Ok(files);
        let errors = validate(&listing, &self.valid);
        proof {
            assert(all_fit(cs@));
            assert(error_views(errors@) == contents_errors(
                string_views(self.names@),
                cs@,
                string_views(self.valid@),
                cs@.len() as int,
            ));
            assert(error_views(errors@).len() == errors@.len());
        }
        if errors.len() == 0 {
            self.stage = CheckStage::AwaitRecount;
            make_request(no_logs(), RequestKind::ListChangesets, no_args())
        } else {
            self.stage = CheckStage::Finished;
            let mut logs = no_logs();
            log_file_errors(&mut logs, &errors);
            let t = count_text("Changeset validation failed with ", errors.len(), " error(s).");
            make_finish_err(logs, string_of(&t))
        }
    }

    /// The next step, given the reply to the last request.
    pub fn step(&mut self, reply: Reply) -> (s: Step)
        ensures
            (final(self)@, s@) == check_next(old(self)@, reply),
    {
        match self.stage {
            CheckStage::Start => {
                self.stage = CheckStage::AwaitConfig;
                make_request(no_logs(), RequestKind::ReadKnopeConfig, no_args())
            },
            CheckStage::AwaitConfig => match reply {
                Reply::KnopeKeys { path, keys } => match knope_packages(path.as_str(), keys) {
                    Err(e) => {
                        self.stage = CheckStage::Finished;
                        make_finish_err(no_logs(), e)
                    },
                    Ok(ks) => {
                        self.stage = CheckStage::AwaitListing;
                        self.valid = ks;
                        make_request(no_logs(), RequestKind::ListChangesets, no_args())
                    },
                },
                _ => {
                    self.stage = CheckStage::Finished;
                    make_unexpected(no_logs())
                },
            },
            CheckStage::AwaitListing => match reply {
                Reply::Listing(l) => match changeset_files(&l) {
                    Err(m) => {
                        self.stage = CheckStage::Finished;
                        let mut logs = no_logs();
                        let ghost before = log_views(logs@);
                        logs.push(
                            LogLine {
                                level: Level::FileError,
                                file: ".changeset/".to_string(),
                                line: None,
                                text: m,
                            },
                        );
                        assert(log_views(logs@) =~= seq![
                            file_error_line((".changeset/"@, None, changeset_listing(l)->Err_0)),
                        ]);
                        let t = count_text("Changeset validation failed with ", 1, " error(s).");
                        make_finish_err(logs, string_of(&t))
                    },
                    Ok(names) => {
                        if names.len() == 0 {
                            self.stage = CheckStage::AwaitRecount;
                            make_request(no_logs(), RequestKind::ListChangesets, no_args())
                        } else {
                            self.stage = CheckStage::AwaitContents;
                            let args = copy_strings(&names);
                            self.names = names;
                            make_request(no_logs(), RequestKind::ReadChangesets, args)
                        }
                    },
                },
                _ => {
                    self.stage = CheckStage::Finished;
                    make_unexpected(no_logs())
                },
            },
            CheckStage::AwaitContents => match reply {
                Reply::Contents(cs) => self.on_contents(cs),
                _ => {
                    self.stage = CheckStage::Finished;
                    make_unexpected(no_logs())
                },
            },
            CheckStage::AwaitRecount => match reply {
                Reply::Listing(l) => match changeset_files(&l) {
                    Err(m) => {
                        self.stage = CheckStage::Finished;
                        make_finish_err(no_logs(), m)
                    },
                    Ok(names) => {
                        self.stage = CheckStage::Finished;
                        let mut logs = no_logs();
                        if names.len() == 0 {
                            log_str(&mut logs, Level::Info, "No changeset files to validate.");
                        } else {
                            let t = count_text("Validated ", names.len(), " changeset file(s).");
                            log(&mut logs, Level::Success, &t);
                        }
                        make_finish_ok(logs)
                    },
                },
                _ => {
                    self.stage = CheckStage::Finished;
                    make_unexpected(no_logs())
                },
            },
            CheckStage::Finished => make_unexpected(no_logs()),
        }
    }
}

} // verus!
