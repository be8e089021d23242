//! The shared vocabulary of the release procedures.
//!
//! Each procedure is a state machine: given the reply to its last request,
//! it gives the next step, which is a list of log lines and one request.
//! The caller performs the request (runs a command, reads files, prints)
//! and hands back the reply. A procedure ends with a `FinishOk` or
//! `FinishErr` request.

use vstd::prelude::*;

use crate::changeset::{error_views, DirListing, ErrorView, ValidationError};
use crate::ci::{command_display, display, git_tag_list, words, CommandLine};
use crate::release::{
    date_in_range, iso_date, next_release_date, release_date_after, schedule_in_range, MAX_DAYS,
};
use crate::text::{
    chars_of, decimal, decimal_chars, eq_chars, lemma_sorted_strings, push_all, push_str, sort_strings,
    sorted_strings, string_of, string_views,
};

verus! {

/// The kinds of log line.
#[derive(PartialEq, Eq, Structural, Clone, Copy, Debug)]
pub enum Level {
    /// A success line.
    Success,
    /// An informational line.
    Info,
    /// An error summary.
    Failure,
    /// An error located in a file (and line).
    FileError,
}

/// A line for the user: its level, and for a file error the file and line.
pub struct LogLine {
    pub level: Level,
    pub file: String,
    pub line: Option<usize>,
    pub text: String,
}

pub type LogView = (Level, Seq<char>, Option<usize>, Seq<char>);

impl View for LogLine {
    type V = LogView;

    open spec fn view(&self) -> LogView {
        (self.level, self.file@, self.line, self.text@)
    }
}

pub open spec fn log_views(v: Seq<LogLine>) -> Seq<LogView> {
    v.map_values(|l: LogLine| l@)
}

pub open spec fn info(t: Seq<char>) -> LogView {
    (Level::Info, seq![], None, t)
}

pub open spec fn ok_line(t: Seq<char>) -> LogView {
    (Level::Success, seq![], None, t)
}

pub open spec fn error_line(t: Seq<char>) -> LogView {
    (Level::Failure, seq![], None, t)
}

/// What the caller is asked to do next.
#[derive(PartialEq, Eq, Structural, Clone, Copy, Debug)]
pub enum RequestKind {
    /// Nothing (a step of a dry run); reply `Done(Ok(()))`.
    Nothing,
    /// Run the command line in the arguments with inherited output; reply
    /// `Done` with the failure's text when it cannot start or fails.
    Run,
    /// Run the command line and reply `Flag` with whether it succeeded.
    Check,
    /// Run the command line and reply `Text` with its standard output.
    ListTags,
    /// `gh api <endpoint> --method <method> --input -` with the body on
    /// standard input (arguments: endpoint, method, body); reply `Text`.
    ApiWithBody,
    /// Create a GitHub release (arguments: tag, title, notes); reply `Done`.
    CreateRelease,
    /// Reply `Today` with the local date's day number.
    Today,
    /// Read the release configuration's package names; reply `KnopeKeys`.
    ReadKnopeConfig,
    /// Read the manifest and changelog of each package named in the
    /// arguments; reply `Packages`.
    ReadPackageFiles,
    /// List the changeset directory; reply `Listing`.
    ListChangesets,
    /// Read each changeset file named in the arguments; reply `Contents`.
    ReadChangesets,
    /// Read the root manifest and the package manifests; reply `SyncInputs`.
    ReadSyncInputs,
    /// Write the first argument as the root manifest; reply `Done`.
    WriteRootManifest,
    /// Print the first argument to standard output; reply `Done`.
    Print,
    /// The procedure succeeded.
    FinishOk,
    /// The procedure failed with the first argument as its message.
    FinishErr,
}

/// One step of a procedure: lines to show, then a request.
pub struct Step {
    pub logs: Vec<LogLine>,
    pub kind: RequestKind,
    pub args: Vec<String>,
}

pub type StepView = (Seq<LogView>, RequestKind, Seq<Seq<char>>);

impl View for Step {
    type V = StepView;

    open spec fn view(&self) -> StepView {
        (log_views(self.logs@), self.kind, string_views(self.args@))
    }
}

/// A step that asks for `kind` with `args` after the lines `logs`.
pub open spec fn request(logs: Seq<LogView>, kind: RequestKind, args: Seq<Seq<char>>) -> StepView {
    (logs, kind, args)
}

pub open spec fn finish_ok(logs: Seq<LogView>) -> StepView {
    (logs, RequestKind::FinishOk, seq![])
}

pub open spec fn finish_err(logs: Seq<LogView>, message: Seq<char>) -> StepView {
    (logs, RequestKind::FinishErr, seq![message])
}

/// Running a command: on a dry run, a line saying what would run and no
/// request; otherwise a line saying what runs, and the request to run it.
pub open spec fn run_step(logs: Seq<LogView>, dry_run: bool, cmd: Seq<Seq<char>>) -> StepView {
    if dry_run {
        request(logs.push(info("[dry-run] would run: "@ + display(cmd))), RequestKind::Nothing, seq![])
    } else {
        request(logs.push(info("running: "@ + display(cmd))), RequestKind::Run, cmd)
    }
}

/// A request that changes something outside the procedure: runs a command
/// that acts on the repository or a remote, calls the GitHub API, creates
/// a release, or writes the root manifest.
pub open spec fn is_side_effect(kind: RequestKind) -> bool {
    ||| kind == RequestKind::Run
    ||| kind == RequestKind::ApiWithBody
    ||| kind == RequestKind::CreateRelease
    ||| kind == RequestKind::WriteRootManifest
}

/// The message of a reply that the request did not call for.
pub open spec fn unexpected_reply() -> Seq<char> {
    "unexpected reply"@
}

pub fn log(logs: &mut Vec<LogLine>, level: Level, text: &Vec<char>)
    ensures
        log_views(final(logs)@) == log_views(old(logs)@).push((level, seq![], None, text@)),
{
    let ghost before = log_views(logs@);
    logs.push(LogLine { level, file: String::new(), line: None, text: string_of(text) });
    assert(log_views(logs@) =~= before.push((level, seq![], None, text@)));
}

pub fn log_str(logs: &mut Vec<LogLine>, level: Level, text: &str)
    ensures
        log_views(final(logs)@) == log_views(old(logs)@).push((level, seq![], None, text@)),
{
    log(logs, level, &chars_of(text));
}

pub fn make_request(logs: Vec<LogLine>, kind: RequestKind, args: Vec<String>) -> (s: Step)
    ensures
        s@ == request(log_views(logs@), kind, string_views(args@)),
{
    Step { logs, kind, args }
}

pub fn make_finish_ok(logs: Vec<LogLine>) -> (s: Step)
    ensures
        s@ == finish_ok(log_views(logs@)),
{
    let s = Step { logs, kind: RequestKind::FinishOk, args: Vec::new() };
    assert(s@ =~= finish_ok(log_views(logs@)));
    s
}

pub fn make_finish_err(logs: Vec<LogLine>, message: String) -> (s: Step)
    ensures
        s@ == finish_err(log_views(logs@), message@),
{
    let args = vec![message];
    assert(string_views(args@) =~= seq![message@]);
    Step { logs, kind: RequestKind::FinishErr, args }
}

pub fn make_run(logs: Vec<LogLine>, dry_run: bool, cmd: CommandLine) -> (s: Step)
    ensures
        s@ == run_step(log_views(logs@), dry_run, words(cmd@)),
{
    let mut logs = logs;
    let shown = command_display(&cmd);
    if dry_run {
        let mut t = chars_of("[dry-run] would run: ");
        push_str(&mut t, shown.as_str());
        log(&mut logs, Level::Info, &t);
        let args: Vec<String> = Vec::new();
        assert(string_views(args@) =~= Seq::<Seq<char>>::empty());
        make_request(logs, RequestKind::Nothing, args)
    } else {
        let mut t = chars_of("running: ");
        push_str(&mut t, shown.as_str());
        log(&mut logs, Level::Info, &t);
        make_request(logs, RequestKind::Run, cmd)
    }
}

pub fn make_unexpected(logs: Vec<LogLine>) -> (s: Step)
    ensures
        s@ == finish_err(log_views(logs@), unexpected_reply()),
{
    make_finish_err(logs, "unexpected reply".to_string())
}

pub fn no_logs() -> (v: Vec<LogLine>)
    ensures
        log_views(v@) == Seq::<LogView>::empty(),
{
    let v: Vec<LogLine> = Vec::new();
    assert(log_views(v@) =~= Seq::<LogView>::empty());
    v
}

/// A step with the lines `front` shown before its own.
pub open spec fn with_logs(front: Seq<LogView>, s: StepView) -> StepView {
    (front + s.0, s.1, s.2)
}

/// Puts the lines `front` before the step's own lines.
pub fn prepend_logs(front: Vec<LogLine>, s: Step) -> (r: Step)
    ensures
        r@ == with_logs(log_views(front@), s@),
{
    let mut logs = front;
    let ghost head = log_views(logs@);
    let mut rest = s.logs;
    let ghost tail = log_views(rest@);
    logs.append(&mut rest);
    assert(log_views(logs@) =~= head + tail);
    Step { logs, kind: s.kind, args: s.args }
}

/// `<count text>`: a prefix, a number in decimal and a suffix.
pub fn count_text(prefix: &str, n: usize, suffix: &str) -> (t: Vec<char>)
    ensures
        t@ == prefix@ + decimal(n as nat) + suffix@,
{
    let mut t = chars_of(prefix);
    push_all(&mut t, &decimal_chars(n as u64));
    push_str(&mut t, suffix);
    t
}

/// A line for an error located in a file (and line).
pub open spec fn file_error_line(e: ErrorView) -> LogView {
    (Level::FileError, e.0, e.1, e.2)
}

pub open spec fn file_error_lines(es: Seq<ErrorView>) -> Seq<LogView> {
    es.map_values(|e: ErrorView| file_error_line(e))
}

/// A file error line for each validation error, in order.
pub fn log_file_errors(logs: &mut Vec<LogLine>, errors: &Vec<ValidationError>)
    ensures
        log_views(final(logs)@) == log_views(old(logs)@) + file_error_lines(error_views(errors@)),
{
    let ghost start = log_views(logs@);
    let mut i: usize = 0;
    while i < errors.len()
        invariant
            i <= errors@.len(),
            log_views(logs@) == start + file_error_lines(error_views(errors@).take(i as int)),
        decreases errors.len() - i,
    {
        let e = &errors[i];
        let ghost before = log_views(logs@);
        logs.push(
            LogLine {
                level: Level::FileError,
                file: e.file.clone(),
                line: e.line,
                text: e.message.clone(),
            },
        );
        assert(log_views(logs@) =~= before.push(file_error_line(e@)));
        assert(error_views(errors@).take(i + 1) =~= error_views(errors@).take(i as int).push(e@));
        assert(file_error_lines(error_views(errors@).take(i + 1)) =~= file_error_lines(
            error_views(errors@).take(i as int),
        ).push(file_error_line(e@)));
        i = i + 1;
    }
    assert(error_views(errors@).take(errors@.len() as int) =~= error_views(errors@));
}

/// The strings of a list with each run of equal neighbours kept once.
pub open spec fn dedup_adjacent(s: Seq<Seq<char>>) -> Seq<Seq<char>>
    decreases s.len(),
{
    if s.len() == 0 {
        seq![]
    } else {
        let d = dedup_adjacent(s.drop_last());
        if d.len() > 0 && d.last() == s.last() {
            d
        } else {
            d.push(s.last())
        }
    }
}

/// The package names of the release configuration at `path` as a set
/// gives them (sorted, each once), or the error of reading or parsing it;
/// a configuration without packages is an error too.
pub open spec fn configured_packages(path: Seq<char>, keys: Result<Seq<Seq<char>>, Seq<char>>) -> Result<
    Seq<Seq<char>>,
    Seq<char>,
> {
    match keys {
        Err(e) => Err(e),
        Ok(ks) => if ks.len() == 0 {
            Err(path + " has no [packages.*] sections"@)
        } else {
            Ok(dedup_adjacent(sorted_strings(ks)))
        },
    }
}

pub open spec fn keys_view(keys: Result<Vec<String>, String>) -> Result<Seq<Seq<char>>, Seq<char>> {
    match keys {
        Ok(ks) => Ok(string_views(ks@)),
        Err(e) => Err(e@),
    }
}

/// The strings of a list with each run of equal neighbours kept once.
fn dedup_strings(v: &Vec<String>) -> (r: Vec<String>)
    ensures
        string_views(r@) == dedup_adjacent(string_views(v@)),
{
    let mut out: Vec<String> = Vec::new();
    let mut i: usize = 0;
    assert(string_views(out@) =~= dedup_adjacent(string_views(v@).take(0)));
    while i < v.len()
        invariant
            i <= v@.len(),
            string_views(out@) == dedup_adjacent(string_views(v@).take(i as int)),
        decreases v.len() - i,
    {
        let ghost before = string_views(out@);
        assert(string_views(v@).take(i + 1).drop_last() =~= string_views(v@).take(i as int));
        assert(string_views(v@).take(i + 1).last() == v@[i as int]@);
        let n = out.len();
        let keep = if n == 0 {
            true
        } else {
            !eq_chars(&chars_of(out[n - 1].as_str()), &chars_of(v[i].as_str()))
        };
        if keep {
            out.push(v[i].clone());
            assert(string_views(out@) =~= before.push(v@[i as int]@));
        }
        i = i + 1;
    }
    assert(string_views(v@).take(v@.len() as int) =~= string_views(v@));
    out
}

/// The versioned package names from what reading and parsing the release
/// configuration at `path` gave: sorted, each once.
pub fn knope_packages(path: &str, keys: Result<Vec<String>, String>) -> (r: Result<
    Vec<String>,
    String,
>)
    ensures
        match r {
            Ok(ks) => configured_packages(path@, keys_view(keys)) == Ok::<
                Seq<Seq<char>>,
                Seq<char>,
            >(string_views(ks@)),
            Err(e) => configured_packages(path@, keys_view(keys)) == Err::<
                Seq<Seq<char>>,
                Seq<char>,
            >(e@),
        },
{
    match keys {
        Err(e) => Err(e),
        Ok(ks) => {
            if ks.len() == 0 {
                let mut m = chars_of(path);
                push_str(&mut m, " has no [packages.*] sections");
                Err(string_of(&m))
            } else {
                let ghost views = string_views(ks@);
                let sorted = sort_strings(ks);
                proof {
                    lemma_sorted_strings(views, string_views(sorted@));
                }
                Ok(dedup_strings(&sorted))
            }
        },
    }
}

/// The release target date for the day `today`, where it can be rendered.
pub open spec fn release_target(today: i32) -> Option<i32> {
    if release_date_after(today as int) <= MAX_DAYS {
        Some(release_date_after(today as int) as i32)
    } else {
        None
    }
}

pub open spec fn date_out_of_range() -> Seq<char> {
    "the next release date is out of range"@
}

pub fn release_target_of(today: i32) -> (r: Option<i32>)
    ensures
        r == release_target(today),
        r matches Some(d) ==> date_in_range(d as int),
{
    if schedule_in_range(today) {
        let d = next_release_date(today);
        Some(d)
    } else {
        None
    }
}

/// What a tag listing printed; nothing where it failed.
pub open spec fn listing_output(r: Result<String, String>) -> Seq<char> {
    match r {
        Ok(s) => s@,
        Err(_) => seq![],
    }
}

/// `git tag -l <prefix>*`.
pub open spec fn tag_list_words(prefix: Seq<char>) -> Seq<Seq<char>> {
    seq!["git"@, "tag"@, "-l"@, prefix + "*"@]
}

pub fn tag_list_command(prefix: &str) -> (c: CommandLine)
    ensures
        words(c@) == tag_list_words(prefix@),
{
    let mut pattern = chars_of(prefix);
    push_str(&mut pattern, "*");
    git_tag_list(string_of(&pattern).as_str())
}

pub open spec fn rc_numbers_exhausted(target: i32) -> Seq<char> {
    "no RC number is left for the release on "@ + iso_date(target)
}

/// The step after a run: the procedure fails with the run's error, goes on
/// with `next` where it succeeded, and fails on any other reply.
pub open spec fn on_done<V>(r: Reply, failed: V, next: (V, StepView)) -> (V, StepView) {
    match r {
        Reply::Done(Err(e)) => (failed, finish_err(seq![], e@)),
        Reply::Done(Ok(())) => next,
        _ => (failed, finish_err(seq![], unexpected_reply())),
    }
}

/// Whether a reply to a run lets the procedure go on (`Ok`), or the step
/// that ends it (`Err`).
pub fn run_outcome(reply: Reply) -> (r: Result<(), Step>)
    ensures
        r is Ok <==> reply matches Reply::Done(Ok(_)),
        r matches Err(st) ==> st@ == on_done(
            reply,
            false,
            (false, request(seq![], RequestKind::Nothing, seq![])),
        ).1,
{
    match reply {
        Reply::Done(Ok(())) => Ok(()),
        Reply::Done(Err(e)) => Err(make_finish_err(no_logs(), e)),
        _ => Err(make_unexpected(no_logs())),
    }
}

/// No arguments.
pub fn no_args() -> (v: Vec<String>)
    ensures
        string_views(v@) == Seq::<Seq<char>>::empty(),
{
    let v: Vec<String> = Vec::new();
    assert(string_views(v@) =~= Seq::<Seq<char>>::empty());
    v
}

/// A copy of a list of strings.
pub fn copy_strings(v: &Vec<String>) -> (r: Vec<String>)
    ensures
        string_views(r@) == string_views(v@),
{
    let mut r: Vec<String> = Vec::new();
    let mut i: usize = 0;
    while i < v.len()
        invariant
            i <= v@.len(),
            string_views(r@) == string_views(v@).take(i as int),
        decreases v.len() - i,
    {
        let ghost before = string_views(r@);
        let w = v[i].clone();
        r.push(w);
        assert(string_views(r@) =~= before.push(v@[i as int]@));
        assert(string_views(v@).take(i + 1) =~= string_views(v@).take(i as int).push(v@[i as int]@));
        i = i + 1;
    }
    assert(string_views(v@).take(v@.len() as int) =~= string_views(v@));
    r
}

/// A package manifest found under the packages directory: the package's
/// directory name, the manifest's path (for messages), what reading gave.
pub struct ManifestFile {
    pub dir_name: String,
    pub path: String,
    pub read: Result<String, String>,
}

/// Why listing a directory stopped.
pub enum DirFailure {
    /// The directory could not be read (the error's text).
    ReadDir(String),
    /// An entry could not be read (the error's text).
    Entry(String),
}

/// The package manifests, as the caller found them: the packages that have
/// a manifest, in directory order, up to where listing the directory
/// stopped, if it did.
pub struct PackageListing {
    pub files: Vec<ManifestFile>,
    pub failure: Option<DirFailure>,
}

/// The caller's answer to the last request.
pub enum Reply {
    /// The first call of a procedure.
    Start,
    Done(Result<(), String>),
    Flag(Result<bool, String>),
    Text(Result<String, String>),
    Today(i32),
    /// The release configuration's path (for messages) and its package
    /// names, or the error of reading or parsing it.
    KnopeKeys { path: String, keys: Result<Vec<String>, String> },
    Packages(Vec<crate::version_table::PackageFiles>),
    Listing(DirListing),
    Contents(Vec<Result<String, String>>),
    SyncInputs { root_manifest: Result<String, String>, packages: PackageListing },
}

} // verus!
