//! Release naming and the release pull request and release note texts.
//!
//! Releases follow a weekly schedule anchored on a Friday. A release is
//! named by its target date (`2026-05-01`); release candidates within a
//! period are numbered sequentially (`2026-05-01-rc.0`, `2026-05-01-rc.1`).
//! Dates are day numbers in the proleptic Gregorian calendar, January 1 of
//! year 1 being day 1 (chrono's `num_days_from_ce`).

use vstd::prelude::*;

use crate::text::{
    chars_of, decimal, decimal_chars, lemma_decimal_roundtrip, lines, lines_of, parse_unsigned,
    parse_unsigned_chars, push_all, push_str, starts_with, starts_with_chars, string_of, views,
};
use crate::version_table::{
    markdown_changelog, markdown_table, CrateVersion, CrateVersionView, VersionTable,
};

verus! {

/// The first release day: 2026-05-01, a Friday.
pub const RELEASE_EPOCH_DAYS: i32 = 739737;

/// The first release day renders as `2026-05-01`.
pub proof fn lemma_epoch_date()
    ensures
        iso_date(RELEASE_EPOCH_DAYS) == "2026-05-01"@,
{
    reveal(iso_date);
    reveal_strlit("2026-05-01");
    assert(civil_date(739737) == (2026int, 5int, 1int));
    assert(decimal(2) == seq!['2']);
    assert(decimal(20) == seq!['2', '0']);
    assert(decimal(202) == seq!['2', '0', '2']);
    assert(decimal(2026) == seq!['2', '0', '2', '6']);
    assert(zero_padded(2026, 4) == seq!['2', '0', '2', '6']);
    assert(zero_padded(5, 2) =~= seq!['0', '5']);
    assert(zero_padded(1, 2) =~= seq!['0', '1']);
    assert(iso_date(RELEASE_EPOCH_DAYS) =~= "2026-05-01"@);
}

/// Weeks between two releases.
pub const RELEASE_CADENCE_WEEKS: i32 = 1;

/// The first day that chrono's `NaiveDate` can hold (January 1, 262144 BCE).
pub const MIN_DAYS: i32 = -95746129;

/// The last day that chrono's `NaiveDate` can hold (December 31, 262142).
pub const MAX_DAYS: i32 = 95745399;

/// `n` in decimal, zero-padded on the left to at least `width` digits.
pub open spec fn zero_padded(n: nat, width: nat) -> Seq<char> {
    let d = decimal(n);
    if d.len() < width {
        Seq::new((width - d.len()) as nat, |_i: int| '0') + d
    } else {
        d
    }
}

/// The proleptic Gregorian year, month and day of the day numbered `days`
/// (day 1 being January 1 of year 1; year 0 is 1 BCE), counted in 400-year
/// eras of years that start on March 1.
pub open spec fn civil_date(days: int) -> (int, int, int) {
    let z = days + 305;
    let era = z / 146097;
    let doe = z - era * 146097;
    let yoe = (doe - doe / 1460 + doe / 36524 - doe / 146096) / 365;
    let doy = doe - (365 * yoe + yoe / 4 - yoe / 100);
    let mp = (5 * doy + 2) / 153;
    let day = doy - (153 * mp + 2) / 5 + 1;
    let month = if mp < 10 {
        mp + 3
    } else {
        mp - 9
    };
    (yoe + era * 400 + if month <= 2 {
        1int
    } else {
        0int
    }, month, day)
}

/// A year as `%Y` writes it: zero-padded to four digits, with a sign
/// before years outside 0 to 9999.
pub open spec fn year_text(y: int) -> Seq<char> {
    if 0 <= y <= 9999 {
        zero_padded(y as nat, 4)
    } else if y < 0 {
        seq!['-'] + zero_padded((-y) as nat, 4)
    } else {
        seq!['+'] + zero_padded(y as nat, 4)
    }
}

/// The date of day number `days` as `YYYY-MM-DD`.
#[verifier::opaque]
pub open spec fn iso_date(days: i32) -> Seq<char> {
    let (y, m, d) = civil_date(days as int);
    year_text(y) + seq!['-'] + zero_padded(m as nat, 2) + seq!['-'] + zero_padded(d as nat, 2)
}

/// Renders a day number as `YYYY-MM-DD`: chrono's
/// `NaiveDate::from_num_days_from_ce_opt`, then `format("%Y-%m-%d")`.
/// Claims that a date exists exactly for the day numbers from `MIN_DAYS` to
/// `MAX_DAYS` (chrono's `NaiveDate::MIN` and `MAX`), and that its text is
/// `iso_date(days)`: the proleptic Gregorian date, the year as `%Y` writes
/// it, month and day zero-padded to two digits.
#[verifier::external_body]
fn format_date(days: i32) -> (r: Option<String>)
    ensures
        r is Some <==> MIN_DAYS <= days <= MAX_DAYS,
        r matches Some(s) ==> s@ == iso_date(days),
{
    match chrono::NaiveDate::from_num_days_from_ce_opt(days) {
        Some(d) => Some(d.format("%Y-%m-%d").to_string()),
        None => None,
    }
}

// ---------------------------------------------------------------------------
// Schedule
// ---------------------------------------------------------------------------

pub open spec fn cadence_days() -> int {
    RELEASE_CADENCE_WEEKS * 7
}

/// The release date for a given day: the epoch until it has passed, then
/// the first scheduled day strictly after `today`.
pub open spec fn release_date_after(today: int) -> int {
    if today <= RELEASE_EPOCH_DAYS {
        RELEASE_EPOCH_DAYS as int
    } else {
        RELEASE_EPOCH_DAYS + ((today - RELEASE_EPOCH_DAYS) / cadence_days() + 1) * cadence_days()
    }
}

/// Whether the release date for `today` is a date that can be rendered.
pub fn schedule_in_range(today: i32) -> (b: bool)
    ensures
        b == (release_date_after(today as int) <= MAX_DAYS),
{
    if today <= RELEASE_EPOCH_DAYS {
        true
    } else {
        let periods = (today as i64 - RELEASE_EPOCH_DAYS as i64) / 7;
        RELEASE_EPOCH_DAYS as i64 + (periods + 1) * 7 <= MAX_DAYS as i64
    }
}

/// The next release date (a day number) for the day `today`.
pub fn next_release_date(today: i32) -> (r: i32)
    requires
        release_date_after(today as int) <= MAX_DAYS,
    ensures
        r == release_date_after(today as int),
        r >= today,
        r >= RELEASE_EPOCH_DAYS,
        (r - RELEASE_EPOCH_DAYS) % 7 == 0,
        today > RELEASE_EPOCH_DAYS ==> today < r <= today + cadence_days(),
{
    proof {
        lemma_release_date(today as int);
    }
    if today <= RELEASE_EPOCH_DAYS {
        RELEASE_EPOCH_DAYS
    } else {
        let periods = (today - RELEASE_EPOCH_DAYS) / 7;
        proof {
            lemma_div7((today - RELEASE_EPOCH_DAYS) as int);
        }
        RELEASE_EPOCH_DAYS + (periods + 1) * 7
    }
}

proof fn lemma_div7(x: int)
    requires
        x >= 0,
    ensures
        (x / 7) * 7 <= x < (x / 7) * 7 + 7,
        x / 7 >= 0,
        (((x / 7) + 1) * 7) % 7 == 0,
{
    assert((x / 7) * 7 <= x < (x / 7) * 7 + 7) by (nonlinear_arith)
        requires
            x >= 0,
    ;
    assert(x / 7 >= 0) by (nonlinear_arith)
        requires
            x >= 0,
    ;
    assert((((x / 7) + 1) * 7) % 7 == 0) by (nonlinear_arith);
}

/// The release date is never before the day it is computed for, always
/// falls on the epoch's weekday (a Friday), and after the epoch is the
/// first scheduled day after that day.
pub proof fn lemma_release_date(today: int)
    ensures
        release_date_after(today) >= today,
        release_date_after(today) >= RELEASE_EPOCH_DAYS,
        (release_date_after(today) - RELEASE_EPOCH_DAYS) % cadence_days() == 0,
        today > RELEASE_EPOCH_DAYS ==> today < release_date_after(today) <= today + cadence_days(),
{
    assert(cadence_days() == 7);
    if today > RELEASE_EPOCH_DAYS {
        lemma_div7(today - RELEASE_EPOCH_DAYS);
    }
}

// ---------------------------------------------------------------------------
// Release candidate numbers
// ---------------------------------------------------------------------------

/// The RC number of a tag listing line for the tag prefix `prefix`.
pub open spec fn rc_of_line(line: Seq<char>, prefix: Seq<char>) -> Option<nat> {
    if starts_with(line, prefix) {
        parse_unsigned(line.skip(prefix.len() as int), 0xffff_ffff)
    } else {
        None
    }
}

/// The largest RC number among the first `k` lines.
pub open spec fn max_rc(ls: Seq<Seq<char>>, prefix: Seq<char>, k: int) -> Option<nat>
    decreases k,
{
    if k <= 0 {
        None
    } else {
        let m = max_rc(ls, prefix, k - 1);
        match rc_of_line(ls[k - 1], prefix) {
            Some(n) => match m {
                Some(x) => if n > x {
                    Some(n)
                } else {
                    Some(x)
                },
                None => Some(n),
            },
            None => m,
        }
    }
}

proof fn lemma_max_rc(ls: Seq<Seq<char>>, prefix: Seq<char>, k: int)
    requires
        0 <= k <= ls.len(),
    ensures
        match max_rc(ls, prefix, k) {
            Some(m) => (exists|i: int|
                0 <= i < k && starts_with(#[trigger] ls[i], prefix) && parse_unsigned(
                    ls[i].skip(prefix.len() as int),
                    0xffff_ffff,
                ) == Some(m)) && forall|i: int|
                0 <= i < k && starts_with(#[trigger] ls[i], prefix) ==> (parse_unsigned(
                    ls[i].skip(prefix.len() as int),
                    0xffff_ffff,
                ) matches Some(x) ==> x <= m),
            None => forall|i: int|
                0 <= i < k && starts_with(#[trigger] ls[i], prefix) ==> parse_unsigned(
                    ls[i].skip(prefix.len() as int),
                    0xffff_ffff,
                ) is None,
        },
    decreases k,
{
    if k > 0 {
        lemma_max_rc(ls, prefix, k - 1);
    }
}

/// The latest RC of a tag listing is the largest RC number among its
/// lines: where there is one, some line is the prefix followed by that
/// number and no line is the prefix followed by a larger one; where there
/// is none, no line is the prefix followed by a number.
pub proof fn lemma_latest_rc_is_largest(output: Seq<char>, prefix: Seq<char>)
    ensures
        ({
            let ls = lines(output);
            match latest_rc(output, prefix) {
                Some(m) => (exists|i: int|
                    0 <= i < ls.len() && starts_with(#[trigger] ls[i], prefix) && parse_unsigned(
                        ls[i].skip(prefix.len() as int),
                        0xffff_ffff,
                    ) == Some(m)) && forall|i: int|
                    0 <= i < ls.len() && starts_with(#[trigger] ls[i], prefix) ==> (parse_unsigned(
                        ls[i].skip(prefix.len() as int),
                        0xffff_ffff,
                    ) matches Some(x) ==> x <= m),
                None => forall|i: int|
                    0 <= i < ls.len() && starts_with(#[trigger] ls[i], prefix) ==> parse_unsigned(
                        ls[i].skip(prefix.len() as int),
                        0xffff_ffff,
                    ) is None,
            }
        }),
{
    lemma_max_rc(lines(output), prefix, lines(output).len() as int);
}

/// The largest RC number that the tag listing `output` holds for `prefix`.
pub open spec fn latest_rc(output: Seq<char>, prefix: Seq<char>) -> Option<nat> {
    max_rc(lines(output), prefix, lines(output).len() as int)
}

/// The largest RC number in a tag listing (one tag per line) among the tags
/// that start with `prefix` followed by a number.
pub fn latest_rc_number(output: &str, prefix: &str) -> (r: Option<u32>)
    ensures
        match r {
            Some(n) => latest_rc(output@, prefix@) == Some(n as nat),
            None => latest_rc(output@, prefix@) is None,
        },
{
    let chars = chars_of(output);
    let p = chars_of(prefix);
    let ls = lines_of(&chars);
    let ghost lv = lines(output@);
    let mut best: Option<u32> = None;
    let mut i: usize = 0;
    while i < ls.len()
        invariant
            i <= ls@.len(),
            views(ls@) == lv,
            lv == lines(output@),
            p@ == prefix@,
            match best {
                Some(n) => max_rc(lv, p@, i as int) == Some(n as nat),
                None => max_rc(lv, p@, i as int) is None,
            },
        decreases ls.len() - i,
    {
        assert(lv.len() == ls@.len());
        assert(lv[i as int] == ls@[i as int]@);
        let line = &ls[i];
        if starts_with_chars(line, &p) {
            let n = line.len();
            let rest = crate::text::slice(line, p.len(), n);
            assert(rest@ =~= line@.skip(p@.len() as int));
            match parse_unsigned_chars(&rest, 0xffff_ffff) {
                Some(v) => {
                    let v = v as u32;
                    best = match best {
                        Some(x) => if v > x {
                            Some(v)
                        } else {
                            Some(x)
                        },
                        None => Some(v),
                    };
                },
                None => {},
            }
        }
        i = i + 1;
    }
    best
}

/// The number of the next RC: one more than the latest, or 0.
pub open spec fn next_rc(output: Seq<char>, prefix: Seq<char>) -> nat {
    match latest_rc(output, prefix) {
        Some(n) => n + 1,
        None => 0,
    }
}

proof fn lemma_max_rc_bound(ls: Seq<Seq<char>>, prefix: Seq<char>, k: int, j: int)
    requires
        0 <= j < k <= ls.len(),
        rc_of_line(ls[j], prefix) is Some,
    ensures
        max_rc(ls, prefix, k) matches Some(m) && rc_of_line(ls[j], prefix)->0 <= m,
    decreases k,
{
    if j < k - 1 {
        lemma_max_rc_bound(ls, prefix, k - 1, j);
    }
}

/// The next RC number exceeds every RC number already tagged for the prefix,
/// so the next RC tag is new.
pub proof fn lemma_next_rc_is_fresh(output: Seq<char>, prefix: Seq<char>, j: int)
    requires
        0 <= j < lines(output).len(),
        rc_of_line(lines(output)[j], prefix) is Some,
    ensures
        rc_of_line(lines(output)[j], prefix)->0 < next_rc(output, prefix),
{
    lemma_max_rc_bound(lines(output), prefix, lines(output).len() as int, j);
}

// ---------------------------------------------------------------------------
// Release names
// ---------------------------------------------------------------------------

/// A release name: the release target date and an RC number within it.
pub struct ReleaseName {
    target_date: i32,
    rc_number: u32,
}

impl View for ReleaseName {
    type V = (int, nat);

    closed spec fn view(&self) -> (int, nat) {
        (self.target_date as int, self.rc_number as nat)
    }
}

pub open spec fn date_in_range(days: int) -> bool {
    MIN_DAYS <= days <= MAX_DAYS
}

/// `<target>-rc.`: the prefix of the RC tags of a release.
pub open spec fn rc_prefix(days: int) -> Seq<char> {
    iso_date(days as i32) + "-rc."@
}

/// `<target>-rc.<n>`.
pub open spec fn rc_tag_of(days: int, n: nat) -> Seq<char> {
    rc_prefix(days) + decimal(n)
}

/// `Release <target>`.
pub open spec fn release_title(days: int) -> Seq<char> {
    "Release "@ + iso_date(days as i32)
}

impl ReleaseName {
    #[verifier::type_invariant]
    spec fn renderable(self) -> bool {
        date_in_range(self.target_date as int)
    }

    /// A release name for the target date `target_date` (a day number).
    pub fn new(target_date: i32, rc_number: u32) -> (r: Self)
        requires
            date_in_range(target_date as int),
        ensures
            r@ == (target_date as int, rc_number as nat),
    {
        ReleaseName { target_date, rc_number }
    }

    pub fn target_date(&self) -> (d: i32)
        ensures
            d == self@.0,
            date_in_range(d as int),
    {
        proof {
            use_type_invariant(self);
        }
        self.target_date
    }

    /// The release target date (e.g. `2026-05-01`).
    pub fn target(&self) -> (s: String)
        ensures
            s@ == iso_date(self@.0 as i32),
    {
        proof {
            use_type_invariant(self);
        }
        match format_date(self.target_date) {
            Some(s) => s,
            None => String::new(),
        }
    }

    /// The RC number within this release period.
    pub fn rc_number(&self) -> (n: u32)
        ensures
            n == self@.1,
    {
        self.rc_number
    }

    /// The full RC tag (e.g. `2026-05-01-rc.0`).
    pub fn rc_tag(&self) -> (s: String)
        ensures
            s@ == rc_tag_of(self@.0, self@.1),
    {
        let mut out = chars_of(self.target().as_str());
        push_str(&mut out, "-rc.");
        let n = decimal_chars(self.rc_number as u64);
        push_all(&mut out, &n);
        string_of(&out)
    }

    /// The pull request title for this release (e.g. `Release 2026-05-01`).
    pub fn pr_title(&self) -> (s: String)
        ensures
            s@ == release_title(self@.0),
    {
        let mut out = chars_of("Release ");
        push_str(&mut out, self.target().as_str());
        string_of(&out)
    }
}

/// The tag prefix of the RCs of the release on `target_date`.
pub fn rc_tag_prefix(target_date: i32) -> (s: String)
    requires
        date_in_range(target_date as int),
    ensures
        s@ == rc_prefix(target_date as int),
{
    let name = ReleaseName::new(target_date, 0);
    let mut out = chars_of(name.target().as_str());
    push_str(&mut out, "-rc.");
    string_of(&out)
}

/// The latest RC of the release on `target_date`, from the listing of the
/// tags that start with the release's RC prefix; `None` before the first RC.
pub fn latest_release(target_date: i32, tags: &str) -> (r: Option<ReleaseName>)
    requires
        date_in_range(target_date as int),
    ensures
        match r {
            Some(n) => latest_rc(tags@, rc_prefix(target_date as int)) == Some(n@.1)
                && n@.0 == target_date,
            None => latest_rc(tags@, rc_prefix(target_date as int)) is None,
        },
{
    let prefix = rc_tag_prefix(target_date);
    match latest_rc_number(tags, prefix.as_str()) {
        Some(n) => Some(ReleaseName::new(target_date, n)),
        None => None,
    }
}

/// The next RC of the release on `target_date`: numbered one past the
/// latest tagged RC, or 0.
pub fn next_release(target_date: i32, tags: &str) -> (r: ReleaseName)
    requires
        date_in_range(target_date as int),
        latest_rc(tags@, rc_prefix(target_date as int)) != Some(0xffff_ffffnat),
    ensures
        r@ == (target_date as int, next_rc(tags@, rc_prefix(target_date as int))),
{
    match latest_release(target_date, tags) {
        Some(n) => {
            let k = n.rc_number();
            ReleaseName::new(target_date, k + 1)
        },
        None => ReleaseName::new(target_date, 0),
    }
}

/// An RC tag read back from a tag listing gives its number: a listing that
/// holds the tag of RC `n` gives an RC number of at least `n`, so the next
/// RC is numbered above `n`.
pub proof fn lemma_rc_tag_roundtrip(days: int, n: nat)
    requires
        n <= 0xffff_ffff,
    ensures
        rc_of_line(rc_tag_of(days, n), rc_prefix(days)) == Some(n),
{
    let p = rc_prefix(days);
    let t = rc_tag_of(days, n);
    assert(t.take(p.len() as int) =~= p);
    assert(t.skip(p.len() as int) =~= decimal(n));
    lemma_decimal_roundtrip(n);
}

// ---------------------------------------------------------------------------
// Pull request and release texts
// ---------------------------------------------------------------------------

/// The release pull request's title for the next release.
pub fn title(next: &ReleaseName) -> (s: String)
    ensures
        s@ == release_title(next@.0),
{
    next.pr_title()
}

/// The RC comment for the pull request trail: `**<rc tag>** (<sha>)` for the
/// latest RC, or `RC updated (<sha>)` before the first one.
pub open spec fn rc_comment_text(latest: Option<(int, nat)>, short_sha: Seq<char>) -> Seq<char> {
    match latest {
        Some((d, n)) => "**"@ + rc_tag_of(d, n) + "** ("@ + short_sha + ")"@,
        None => "RC updated ("@ + short_sha + ")"@,
    }
}

pub open spec fn name_view(n: Option<ReleaseName>) -> Option<(int, nat)> {
    match n {
        Some(r) => Some(r@),
        None => None,
    }
}

/// The RC comment line for a short commit SHA.
pub fn rc_comment(latest: &Option<ReleaseName>, short_sha: &str) -> (s: String)
    ensures
        s@ == rc_comment_text(name_view(*latest), short_sha@),
{
    let mut out = match latest {
        Some(name) => {
            let mut o = chars_of("**");
            push_str(&mut o, name.rc_tag().as_str());
            push_str(&mut o, "** (");
            o
        },
        None => chars_of("RC updated ("),
    };
    push_str(&mut out, short_sha);
    push_str(&mut out, ")");
    string_of(&out)
}

/// The changelog part of a release text: a rule and a `## Changelog`
/// heading before the changelog blocks, or nothing where there are none.
pub open spec fn changelog_part(rows: Seq<CrateVersionView>) -> Seq<char> {
    let cl = markdown_changelog(rows);
    if cl.len() == 0 {
        seq![]
    } else {
        seq!['\n'] + "---"@ + seq!['\n', '\n'] + "## Changelog"@ + seq!['\n', '\n'] + cl
    }
}

/// The release pull request body: which RC merging promotes, the version
/// table, and the changelog sections.
pub open spec fn pr_body_text(rc_label: Seq<char>, rows: Seq<CrateVersionView>) -> Seq<char> {
    "Merging this PR promotes **"@ + rc_label
        + "** to stable and triggers the release workflow."@ + seq!['\n', '\n'] + "---"@
        + seq!['\n', '\n'] + "## Crate Versions"@ + seq!['\n', '\n'] + markdown_table(rows)
        + changelog_part(rows)
}

pub open spec fn rc_label(latest: Option<(int, nat)>) -> Seq<char> {
    match latest {
        Some((d, n)) => rc_tag_of(d, n),
        None => "pending"@,
    }
}

fn push_changelog_part(out: &mut Vec<char>, table: &VersionTable)
    ensures
        final(out)@ == old(out)@ + changelog_part(table@),
{
    let changelog = table.to_markdown_changelog();
    if changelog.as_str().is_empty() {
        assert(old(out)@ + changelog_part(table@) =~= old(out)@);
    } else {
        out.push('\n');
        push_str(out, "---");
        out.push('\n');
        out.push('\n');
        push_str(out, "## Changelog");
        out.push('\n');
        out.push('\n');
        push_str(out, changelog.as_str());
    }
}

/// The release pull request body for the latest RC (`pending` before the
/// first one) and the version table.
pub fn release_pr_body(latest: &Option<ReleaseName>, table: &VersionTable) -> (s: String)
    ensures
        s@ == pr_body_text(rc_label(name_view(*latest)), table@),
{
    let label = match latest {
        Some(name) => name.rc_tag(),
        None => "pending".to_string(),
    };
    let mut out = chars_of("Merging this PR promotes **");
    push_str(&mut out, label.as_str());
    push_str(&mut out, "** to stable and triggers the release workflow.");
    out.push('\n');
    out.push('\n');
    push_str(&mut out, "---");
    out.push('\n');
    out.push('\n');
    push_str(&mut out, "## Crate Versions");
    out.push('\n');
    out.push('\n');
    push_str(&mut out, table.to_markdown_table().as_str());
    push_changelog_part(&mut out, table);
    string_of(&out)
}

/// One row of the unified release's crate table, with links to the crate's
/// own release and its crates.io page.
pub open spec fn release_row(e: CrateVersionView) -> Seq<char> {
    "| "@ + e.0 + " | "@ + e.1 + " | [release](../../releases/tag/"@ + e.0 + "/v"@ + e.1
        + ") · [crates.io](https://crates.io/crates/"@ + e.0 + "/"@ + e.1 + ") |"@ + seq!['\n']
}

pub open spec fn release_rows(rows: Seq<CrateVersionView>) -> Seq<char>
    decreases rows.len(),
{
    if rows.len() == 0 {
        seq![]
    } else {
        release_rows(rows.drop_last()) + release_row(rows.last())
    }
}

/// The unified release's notes: the crate table with links, and the
/// changelog sections.
pub open spec fn unified_release_text(rows: Seq<CrateVersionView>) -> Seq<char> {
    "## Crate Releases"@ + seq!['\n', '\n'] + "| Crate | Version | Links |"@ + seq!['\n']
        + "| ----- | ------- | ----- |"@ + seq!['\n'] + release_rows(rows) + changelog_part(rows)
}

fn release_row_chars(e: &CrateVersion) -> (r: Vec<char>)
    ensures
        r@ == release_row(e@),
{
    let name = e.name.as_str();
    let version = e.version.as_str();
    let mut out = chars_of("| ");
    push_str(&mut out, name);
    push_str(&mut out, " | ");
    push_str(&mut out, version);
    push_str(&mut out, " | [release](../../releases/tag/");
    push_str(&mut out, name);
    push_str(&mut out, "/v");
    push_str(&mut out, version);
    push_str(&mut out, ") · [crates.io](https://crates.io/crates/");
    push_str(&mut out, name);
    push_str(&mut out, "/");
    push_str(&mut out, version);
    push_str(&mut out, ") |");
    out.push('\n');
    assert(out@ =~= release_row(e@));
    out
}

/// The notes of the unified release entry that links every crate's release.
pub fn unified_release_body(table: &VersionTable) -> (s: String)
    ensures
        s@ == unified_release_text(table@),
{
    let mut out = chars_of("## Crate Releases");
    out.push('\n');
    out.push('\n');
    push_str(&mut out, "| Crate | Version | Links |");
    out.push('\n');
    push_str(&mut out, "| ----- | ------- | ----- |");
    out.push('\n');
    let ghost head = out@;
    let n = table.entries.len();
    let mut k: usize = 0;
    assert(out@ =~= head + release_rows(table@.take(0)));
    while k < n
        invariant
            k <= n == table@.len(),
            out@ == head + release_rows(table@.take(k as int)),
        decreases n - k,
    {
        let e = &table.entries[k];
        let row = release_row_chars(e);
        assert(table@.take(k + 1).drop_last() =~= table@.take(k as int));
        assert(table@.take(k + 1).last() == e@);
        push_all(&mut out, &row);
        k = k + 1;
    }
    assert(table@.take(n as int) =~= table@);
    push_changelog_part(&mut out, table);
    string_of(&out)
}

} // verus!
