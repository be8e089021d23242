//! Changeset file validation.
//!
//! Changeset files (`.changeset/*.md`) hold YAML frontmatter that maps crate
//! names to bump types, followed by a markdown changelog description. The
//! validation checks that every entry names a crate declared in the
//! workspace's release configuration and uses a valid bump type, before the
//! release tool reads the files.

use vstd::prelude::*;

use crate::text::{
    chars_of, contains, contains_string, eq_chars, find, find_chars, is_blank, is_blank_chars,
    is_space, join, join_chars, lead_ws, lemma_find_bounds, lemma_find_first,
    lemma_lead_ws_bound, lines, lines_of, occurs_at, push_all, push_str, slice, split_once,
    split_once_chars, starts_with, starts_with_chars, string_of, string_views, trim, trim_chars,
    trim_start, trim_start_chars, views, sorted, sort_strings, sorted_strings, lemma_sorted_strings,
    first_at, lemma_join_front, lemma_join_newlines, lemma_lead_ws, lemma_lines_join,
    lemma_sorted_exists, lemma_trail_ws, plain_line,
};

verus! {

// ---------------------------------------------------------------------------
// Frontmatter
// ---------------------------------------------------------------------------

pub open spec fn dashes() -> Seq<char> {
    seq!['-', '-', '-']
}

pub open spec fn closing_delimiter() -> Seq<char> {
    seq!['\n', '-', '-', '-']
}

/// `s.strip_prefix(p).unwrap_or(s)`.
pub open spec fn strip_prefix_or_self(s: Seq<char>, p: Seq<char>) -> Seq<char> {
    if starts_with(s, p) {
        s.skip(p.len() as int)
    } else {
        s
    }
}

/// `s` without one leading line feed.
pub open spec fn strip_newline(s: Seq<char>) -> Seq<char> {
    strip_prefix_or_self(s, seq!['\n'])
}

/// The frontmatter and body of a changeset file: after an optional byte
/// order mark and leading whitespace, a `---` line opens the frontmatter,
/// and the first line that starts with `---` closes it. With the closing
/// delimiter right after the opening one, the frontmatter is empty.
pub open spec fn frontmatter_split(content: Seq<char>) -> Option<(Seq<char>, Seq<char>)> {
    let c = trim_start(strip_prefix_or_self(content, seq!['\u{feff}']));
    if !starts_with(c, dashes()) {
        None
    } else {
        let rest = strip_newline(c.skip(3));
        if starts_with(rest, dashes()) {
            Some((Seq::empty(), strip_newline(rest.skip(3))))
        } else {
            match find(rest, closing_delimiter()) {
                Some(i) => Some((rest.take(i), strip_newline(rest.skip(i + 4)))),
                None => None,
            }
        }
    }
}

/// Leading whitespace does not change what text trims to at its start.
proof fn lemma_trim_start_blank_prefix(w: Seq<char>, s: Seq<char>)
    requires
        is_blank(w),
    ensures
        trim_start(w + s) == trim_start(s),
{
    crate::text::lemma_lead_ws_chars(s);
    let t = w + s;
    let n: int = (w.len() + lead_ws(s)) as int;
    assert forall|j: int| 0 <= j < n implies is_space(#[trigger] t[j]) by {
        if j < w.len() {
            assert(t[j] == w[j]);
        } else {
            assert(t[j] == s[j - w.len()]);
        }
    }
    if n < t.len() {
        assert(t[n] == s[lead_ws(s) as int]);
    }
    lemma_lead_ws(t, n);
    assert(t.skip(n) =~= s.skip(lead_ws(s) as int));
}

/// One leading byte order mark and leading whitespace do not change how a
/// changeset file splits: for text `s` that does not itself start with a
/// byte order mark and whitespace `w`, `s`, `w + s` and a byte order mark
/// followed by `w + s` split alike.
pub proof fn lemma_frontmatter_ignores_bom_and_whitespace(w: Seq<char>, s: Seq<char>)
    requires
        !starts_with(s, seq!['\u{feff}']),
        is_blank(w),
    ensures
        frontmatter_split(w + s) == frontmatter_split(s),
        frontmatter_split(seq!['\u{feff}'] + w + s) == frontmatter_split(s),
{
    let bom = seq!['\u{feff}'];
    lemma_trim_start_blank_prefix(w, s);
    assert(!starts_with(w + s, bom)) by {
        if w.len() > 0 {
            assert((w + s)[0] == w[0]);
            assert(is_space(w[0]));
            assert((w + s).take(1)[0] == (w + s)[0]);
        } else {
            assert(w + s =~= s);
        }
    }
    assert(strip_prefix_or_self(w + s, bom) == w + s);
    assert(strip_prefix_or_self(s, bom) == s);
    let b = bom + w + s;
    assert(b.take(1) =~= bom);
    assert(b.skip(1) =~= w + s);
    assert(strip_prefix_or_self(b, bom) == w + s);
}

fn strip_prefix_chars(s: Vec<char>, p: &Vec<char>) -> (r: Vec<char>)
    ensures
        r@ == strip_prefix_or_self(s@, p@),
{
    if starts_with_chars(&s, p) {
        let n = s.len();
        slice(&s, p.len(), n)
    } else {
        s
    }
}

/// Splits a changeset file into its frontmatter and its body, or `None`
/// where the frontmatter is missing or not closed.
pub fn split_frontmatter(content: &str) -> (r: Option<(String, String)>)
    ensures
        match r {
            Some((fm, body)) => frontmatter_split(content@) == Some((fm@, body@)),
            None => frontmatter_split(content@) is None,
        },
{
    let chars = chars_of(content);
    let bom = vec!['\u{feff}'];
    assert(bom@ =~= seq!['\u{feff}']);
    let nl = vec!['\n'];
    assert(nl@ =~= seq!['\n']);
    let three = vec!['-', '-', '-'];
    assert(three@ =~= dashes());
    let closing = vec!['\n', '-', '-', '-'];
    assert(closing@ =~= closing_delimiter());

    let c = trim_start_chars(&strip_prefix_chars(chars, &bom));
    if !starts_with_chars(&c, &three) {
        return None;
    }
    let cn = c.len();
    let rest = strip_prefix_chars(slice(&c, 3, cn), &nl);
    if starts_with_chars(&rest, &three) {
        let rn = rest.len();
        let body = strip_prefix_chars(slice(&rest, 3, rn), &nl);
        let empty: Vec<char> = Vec::new();
        assert(empty@ =~= Seq::<char>::empty());
        return Some((string_of(&empty), string_of(&body)));
    }
    match find_chars(&rest, &closing) {
        Some(i) => {
            proof {
                lemma_find_bounds(rest@, closing@);
            }
            let rn = rest.len();
            let fm = slice(&rest, 0, i);
            let body = strip_prefix_chars(slice(&rest, i + 4, rn), &nl);
            assert(fm@ =~= rest@.take(i as int));
            assert(rest@.subrange(i + 4, rn as int) =~= rest@.skip(i + 4));
            Some((string_of(&fm), string_of(&body)))
        },
        None => None,
    }
}

/// A file made of an opening `---` line, the frontmatter, a closing `---`
/// line and a body splits back into that frontmatter and body, provided the
/// frontmatter neither starts with `---` nor holds a line starting with `---`.
pub proof fn lemma_frontmatter_roundtrip(fm: Seq<char>, body: Seq<char>)
    requires
        !starts_with(fm, dashes()),
        !contains(fm, closing_delimiter()),
    ensures
        frontmatter_split(seq!['-', '-', '-', '\n'] + fm + seq!['\n', '-', '-', '-', '\n'] + body)
            == Some((fm, body)),
{
    let content = seq!['-', '-', '-', '\n'] + fm + seq!['\n', '-', '-', '-', '\n'] + body;
    let bom = seq!['\u{feff}'];
    assert(!starts_with(content, bom)) by {
        assert(content.take(1)[0] == '-');
    }
    assert(!is_space(content[0]));
    assert(lead_ws(content) == 0);
    assert(content.skip(0) =~= content);
    let c = trim_start(strip_prefix_or_self(content, bom));
    assert(c == content);
    assert(c.take(3) =~= dashes());
    let after = c.skip(3);
    assert(after.take(1) =~= seq!['\n']);
    let rest = strip_newline(after);
    assert(rest =~= fm + seq!['\n', '-', '-', '-', '\n'] + body);
    let n = fm.len() as int;
    // the rest does not start with `---`
    if starts_with(rest, dashes()) {
        if n >= 3 {
            assert(rest.take(3) =~= fm.take(3));
        } else {
            assert(rest.take(3)[n] == '\n');
        }
    }
    // the closing delimiter is found right after the frontmatter
    assert(rest.subrange(n, n + 4) =~= closing_delimiter());
    assert forall|j: int| 0 <= j < n implies !occurs_at(rest, closing_delimiter(), j) by {
        if occurs_at(rest, closing_delimiter(), j) {
            if j + 4 <= n {
                assert(rest.subrange(j, j + 4) =~= fm.subrange(j, j + 4));
                assert(occurs_at(fm, closing_delimiter(), j));
            } else {
                let k = n - j;
                assert(rest.subrange(j, j + 4)[k] == rest[n]);
                assert(rest[n] == '\n');
                assert(closing_delimiter()[k] == '-');
            }
        }
    }
    lemma_find_first(rest, closing_delimiter(), n);
    assert(rest.take(n) =~= fm);
    let tail = rest.skip(n + 4);
    assert(tail =~= seq!['\n'] + body);
    assert(tail.take(1) =~= seq!['\n']);
    assert(tail.skip(1) =~= body);
}

// ---------------------------------------------------------------------------
// Validation
// ---------------------------------------------------------------------------

/// A problem found in a changeset file: the file's name, the 1-based line
/// in the file where one applies, and what is wrong.
pub struct ValidationError {
    pub file: String,
    pub line: Option<usize>,
    pub message: String,
}

/// The view of a [`ValidationError`]: file, line, message.
pub type ErrorView = (Seq<char>, Option<usize>, Seq<char>);

impl View for ValidationError {
    type V = ErrorView;

    open spec fn view(&self) -> ErrorView {
        (self.file@, self.line, self.message@)
    }
}

pub open spec fn error_views(v: Seq<ValidationError>) -> Seq<ErrorView> {
    v.map_values(|e: ValidationError| e@)
}

/// The bump types a changeset entry may name.
pub open spec fn is_valid_bump(b: Seq<char>) -> bool {
    b == "major"@ || b == "minor"@ || b == "patch"@
}

pub open spec fn read_error_message(e: Seq<char>) -> Seq<char> {
    "cannot read file: "@ + e
}

pub open spec fn malformed_message() -> Seq<char> {
    "missing or malformed YAML frontmatter (must be delimited by ---)"@
}

pub open spec fn invalid_line_message(line: Seq<char>) -> Seq<char> {
    "invalid frontmatter: '"@ + line + "' (expected 'crate-name: bump-type')"@
}

pub open spec fn unknown_crate_message(name: Seq<char>, valid: Seq<Seq<char>>) -> Seq<char> {
    "unknown crate '"@ + name + "' (valid: "@ + join(valid, ", "@) + ")"@
}

pub open spec fn unknown_bump_message(bump: Seq<char>) -> Seq<char> {
    "unknown bump '"@ + bump + "' (valid: major, minor, patch)"@
}

pub open spec fn no_entries_message() -> Seq<char> {
    "no crate entries in frontmatter"@
}

pub open spec fn empty_body_message() -> Seq<char> {
    "empty changelog description after frontmatter"@
}

/// A frontmatter line that is ignored: blank, or a `#` comment.
pub open spec fn is_ignored_line(line: Seq<char>) -> bool {
    let t = trim(line);
    t.len() == 0 || t[0] == '#'
}

/// A frontmatter line that counts as an entry: not ignored, with a colon.
pub open spec fn is_entry_line(line: Seq<char>) -> bool {
    !is_ignored_line(line) && split_once(trim(line), ':') is Some
}

/// The errors of the frontmatter line with 0-based index `idx` (line
/// `idx + 2` of the file).
pub open spec fn line_errors(name: Seq<char>, valid: Seq<Seq<char>>, idx: int, line: Seq<char>) -> Seq<
    ErrorView,
> {
    let t = trim(line);
    let at = Some((idx + 2) as usize);
    if is_ignored_line(line) {
        seq![]
    } else {
        match split_once(t, ':') {
            None => seq![(name, at, invalid_line_message(t))],
            Some((c, b)) => {
                let krate = trim(c);
                let bump = trim(b);
                (if valid.contains(krate) {
                    seq![]
                } else {
                    seq![(name, at, unknown_crate_message(krate, valid))]
                }) + (if is_valid_bump(bump) {
                    seq![]
                } else {
                    seq![(name, at, unknown_bump_message(bump))]
                })
            },
        }
    }
}

/// The errors of the first `k` frontmatter lines, in order.
pub open spec fn lines_errors(name: Seq<char>, valid: Seq<Seq<char>>, ls: Seq<Seq<char>>, k: int) -> Seq<
    ErrorView,
>
    decreases k,
{
    if k <= 0 {
        seq![]
    } else {
        lines_errors(name, valid, ls, k - 1) + line_errors(name, valid, k - 1, ls[k - 1])
    }
}

pub open spec fn has_entry(ls: Seq<Seq<char>>) -> bool {
    exists|i: int| 0 <= i < ls.len() && is_entry_line(#[trigger] ls[i])
}

/// The errors of a changeset file with the given name, whose reading gave
/// `read` (its content, or the reading error's text), checked against the
/// declared crate names `valid`.
pub open spec fn file_errors(name: Seq<char>, read: Result<Seq<char>, Seq<char>>, valid: Seq<Seq<char>>) -> Seq<
    ErrorView,
> {
    match read {
        Err(e) => seq![(name, None, read_error_message(e))],
        Ok(content) => match frontmatter_split(content) {
            None => seq![(name, None, malformed_message())],
            Some((fm, body)) => {
                let ls = lines(fm);
                lines_errors(name, valid, ls, ls.len() as int) + (if has_entry(ls) {
                    seq![]
                } else {
                    seq![(name, None, no_entries_message())]
                }) + (if is_blank(body) {
                    seq![(name, None, empty_body_message())]
                } else {
                    seq![]
                })
            },
        },
    }
}

/// A frontmatter line that passes: ignored, or an entry that names a
/// declared crate and a valid bump.
pub open spec fn line_ok(line: Seq<char>, valid: Seq<Seq<char>>) -> bool {
    ||| is_ignored_line(line)
    ||| (split_once(trim(line), ':') matches Some((c, b)) && valid.contains(trim(c))
        && is_valid_bump(trim(b)))
}

/// A changeset that the validation accepts: delimited frontmatter whose
/// lines all pass and hold at least one entry, and a description that is
/// not blank.
pub open spec fn accepted(content: Seq<char>, valid: Seq<Seq<char>>) -> bool {
    match frontmatter_split(content) {
        None => false,
        Some((fm, body)) => {
            let ls = lines(fm);
            &&& forall|i: int| 0 <= i < ls.len() ==> line_ok(#[trigger] ls[i], valid)
            &&& has_entry(ls)
            &&& !is_blank(body)
        },
    }
}

proof fn lemma_line_errors_empty(name: Seq<char>, valid: Seq<Seq<char>>, idx: int, line: Seq<char>)
    ensures
        line_errors(name, valid, idx, line).len() == 0 <==> line_ok(line, valid),
{
}

proof fn lemma_lines_errors_empty(name: Seq<char>, valid: Seq<Seq<char>>, ls: Seq<Seq<char>>, k: int)
    requires
        0 <= k <= ls.len(),
    ensures
        lines_errors(name, valid, ls, k).len() == 0 <==> forall|i: int|
            0 <= i < k ==> line_ok(#[trigger] ls[i], valid),
    decreases k,
{
    if k > 0 {
        lemma_lines_errors_empty(name, valid, ls, k - 1);
        lemma_line_errors_empty(name, valid, k - 1, ls[k - 1]);
        if lines_errors(name, valid, ls, k).len() == 0 {
            assert forall|i: int| 0 <= i < k implies line_ok(#[trigger] ls[i], valid) by {
                if i < k - 1 {
                    assert(lines_errors(name, valid, ls, k - 1).len() == 0);
                }
            }
        }
    }
}

proof fn lemma_lines_errors_hold(name: Seq<char>, valid: Seq<Seq<char>>, ls: Seq<Seq<char>>, k: int, idx: int)
    requires
        0 <= idx < k <= ls.len(),
    ensures
        forall|e: ErrorView| line_errors(name, valid, idx, ls[idx]).contains(e) ==> lines_errors(
            name,
            valid,
            ls,
            k,
        ).contains(e),
    decreases k,
{
    let a = lines_errors(name, valid, ls, k - 1);
    let b = line_errors(name, valid, k - 1, ls[k - 1]);
    assert(lines_errors(name, valid, ls, k) == a + b);
    let le = line_errors(name, valid, idx, ls[idx]);
    if idx < k - 1 {
        lemma_lines_errors_hold(name, valid, ls, k - 1, idx);
        assert forall|e: ErrorView| le.contains(e) implies (a + b).contains(e) by {
            assert(a.contains(e));
            let x = choose|x: int| 0 <= x < a.len() && a[x] == e;
            assert((a + b)[x] == e);
        }
    } else {
        assert(le == b);
        assert forall|e: ErrorView| le.contains(e) implies (a + b).contains(e) by {
            let x = choose|x: int| 0 <= x < b.len() && b[x] == e;
            assert((a + b)[a.len() + x] == e);
        }
    }
}

/// A frontmatter entry names a crate only by its exact name: where an entry
/// line's crate name (trimmed, before the first colon) is none of the
/// declared names `valid` (even where it is part of one), the file's errors
/// hold `unknown crate '<name>' (valid: <the declared names>)` at that
/// line (the frontmatter's line `idx` being the file's line `idx + 2`).
pub proof fn lemma_undeclared_crate_is_reported(
    name: Seq<char>,
    content: Seq<char>,
    valid: Seq<Seq<char>>,
    idx: int,
)
    requires
        frontmatter_split(content) is Some,
        0 <= idx < lines((frontmatter_split(content)->0).0).len(),
        ({
            let line = lines((frontmatter_split(content)->0).0)[idx];
            &&& trim(line).len() > 0
            &&& trim(line)[0] != '#'
            &&& split_once(trim(line), ':') matches Some((c, _)) && !valid.contains(trim(c))
        }),
    ensures
        ({
            let line = lines((frontmatter_split(content)->0).0)[idx];
            let krate = trim((split_once(trim(line), ':')->0).0);
            file_errors(name, Ok(content), valid).contains(
                (
                    name,
                    Some((idx + 2) as usize),
                    "unknown crate '"@ + krate + "' (valid: "@ + join(valid, ", "@) + ")"@,
                ),
            )
        }),
{
    let fm = (frontmatter_split(content)->0).0;
    let body = (frontmatter_split(content)->0).1;
    let ls = lines(fm);
    let line = ls[idx];
    let krate = trim((split_once(trim(line), ':')->0).0);
    let e = (name, Some((idx + 2) as usize), "unknown crate '"@ + krate + "' (valid: "@ + join(valid, ", "@) + ")"@);
    let le = line_errors(name, valid, idx, line);
    assert(le[0] == e);
    assert(le.contains(e));
    lemma_lines_errors_hold(name, valid, ls, ls.len() as int, idx);
    let a = lines_errors(name, valid, ls, ls.len() as int);
    assert(a.contains(e));
    let x = choose|x: int| 0 <= x < a.len() && a[x] == e;
    let all = file_errors(name, Ok(content), valid);
    let e1: Seq<ErrorView> = if has_entry(ls) {
        seq![]
    } else {
        seq![(name, None, no_entries_message())]
    };
    let e2: Seq<ErrorView> = if is_blank(body) {
        seq![(name, None, empty_body_message())]
    } else {
        seq![]
    };
    assert(all == a + e1 + e2);
    assert(all[x] == e);
}

/// A changeset file without errors names only declared crates and valid
/// bumps: every frontmatter line that is not blank and not a `#` comment
/// and holds a colon has, trimmed, a declared crate name before the colon
/// and `major`, `minor` or `patch` after it.
pub proof fn lemma_no_errors_names_declared_crates(name: Seq<char>, content: Seq<char>, valid: Seq<Seq<char>>)
    requires
        file_errors(name, Ok(content), valid).len() == 0,
    ensures
        frontmatter_split(content) is Some,
        forall|i: int|
            0 <= i < lines((frontmatter_split(content)->0).0).len() ==> {
                let line = #[trigger] lines((frontmatter_split(content)->0).0)[i];
                trim(line).len() > 0 && trim(line)[0] != '#' && split_once(trim(line), ':') is Some
                    ==> valid.contains(trim((split_once(trim(line), ':')->0).0)) && {
                    let b = trim((split_once(trim(line), ':')->0).1);
                    b == "major"@ || b == "minor"@ || b == "patch"@
                }
            },
{
    let fm = (frontmatter_split(content)->0).0;
    let body = (frontmatter_split(content)->0).1;
    let ls = lines(fm);
    let a = lines_errors(name, valid, ls, ls.len() as int);
    let e1: Seq<ErrorView> = if has_entry(ls) {
        seq![]
    } else {
        seq![(name, None, no_entries_message())]
    };
    let e2: Seq<ErrorView> = if is_blank(body) {
        seq![(name, None, empty_body_message())]
    } else {
        seq![]
    };
    assert(file_errors(name, Ok(content), valid) == a + e1 + e2);
    assert(a.len() == 0);
    assert forall|i: int| 0 <= i < ls.len() implies {
        let line = #[trigger] ls[i];
        trim(line).len() > 0 && trim(line)[0] != '#' && split_once(trim(line), ':') is Some
            ==> valid.contains(trim((split_once(trim(line), ':')->0).0)) && {
            let b = trim((split_once(trim(line), ':')->0).1);
            b == "major"@ || b == "minor"@ || b == "patch"@
        }
    } by {
        lemma_lines_errors_hold(name, valid, ls, ls.len() as int, i);
        let le = line_errors(name, valid, i, ls[i]);
        if le.len() > 0 {
            assert(le.contains(le[0]));
            assert(a.contains(le[0]));
        }
        assert(le.len() == 0);
    }
}

/// A changeset file whose frontmatter lines are each blank, a `#` comment,
/// or an entry naming a declared crate and `major`, `minor` or `patch`,
/// with at least one entry, and whose description is not blank, has no
/// errors.
pub proof fn lemma_declared_entries_pass(name: Seq<char>, content: Seq<char>, valid: Seq<Seq<char>>)
    requires
        frontmatter_split(content) is Some,
        ({
            let ls = lines((frontmatter_split(content)->0).0);
            &&& forall|i: int|
                0 <= i < ls.len() ==> {
                    let t = trim(#[trigger] ls[i]);
                    t.len() == 0 || t[0] == '#' || (split_once(t, ':') matches Some((c, b))
                        && valid.contains(trim(c)) && (trim(b) == "major"@ || trim(b) == "minor"@
                        || trim(b) == "patch"@))
                }
            &&& exists|i: int|
                0 <= i < ls.len() && {
                    let t = trim(#[trigger] ls[i]);
                    t.len() > 0 && t[0] != '#' && split_once(t, ':') is Some
                }
            &&& exists|j: int|
                0 <= j < (frontmatter_split(content)->0).1.len() && !is_space(
                    #[trigger] (frontmatter_split(content)->0).1[j],
                )
        }),
    ensures
        file_errors(name, Ok(content), valid).len() == 0,
{
    let fm = (frontmatter_split(content)->0).0;
    let body = (frontmatter_split(content)->0).1;
    let ls = lines(fm);
    assert forall|i: int| 0 <= i < ls.len() implies line_ok(#[trigger] ls[i], valid) by {
        let t = trim(ls[i]);
    }
    lemma_lines_errors_empty(name, valid, ls, ls.len() as int);
    let i = choose|i: int| 0 <= i < ls.len() && {
        let t = trim(#[trigger] ls[i]);
        t.len() > 0 && t[0] != '#' && split_once(t, ':') is Some
    };
    assert(is_entry_line(ls[i]));
    assert(has_entry(ls));
    let j = choose|j: int| 0 <= j < body.len() && !is_space(#[trigger] body[j]);
    assert(!is_blank(body));
}

/// A changeset file that could be read has no errors exactly when the
/// validation accepts it: its frontmatter is delimited, every frontmatter
/// line is blank, a comment, or an entry naming a declared crate and a
/// valid bump, at least one entry is there, and the description is not
/// blank.
pub proof fn lemma_no_errors_iff_accepted(name: Seq<char>, content: Seq<char>, valid: Seq<Seq<char>>)
    ensures
        file_errors(name, Ok(content), valid).len() == 0 <==> accepted(content, valid),
{
    match frontmatter_split(content) {
        None => {},
        Some((fm, body)) => {
            let ls = lines(fm);
            lemma_lines_errors_empty(name, valid, ls, ls.len() as int);
        },
    }
}

/// A crate name that can start a frontmatter line as it is: not empty,
/// without whitespace or colons, and not starting with `-` or `#`.
pub open spec fn plain_name(n: Seq<char>) -> bool {
    &&& n.len() > 0
    &&& n[0] != '-'
    &&& n[0] != '#'
    &&& forall|i: int| 0 <= i < n.len() ==> !is_space(#[trigger] n[i]) && n[i] != ':'
}

/// The frontmatter line `<crate>: <bump>`.
pub open spec fn entry_line(e: (Seq<char>, Seq<char>)) -> Seq<char> {
    e.0 + seq![':', ' '] + e.1
}

pub open spec fn entry_lines(entries: Seq<(Seq<char>, Seq<char>)>) -> Seq<Seq<char>> {
    entries.map_values(|e: (Seq<char>, Seq<char>)| entry_line(e))
}

/// A changeset written from its entries and its description: an opening
/// `---` line, one `<crate>: <bump>` line per entry, a closing `---` line,
/// then the description.
pub open spec fn written_changeset(entries: Seq<(Seq<char>, Seq<char>)>, body: Seq<char>) -> Seq<
    char,
> {
    seq!['-', '-', '-', '\n'] + join(entry_lines(entries), seq!['\n']) + seq!['\n', '-', '-', '-', '\n']
        + body
}

proof fn lemma_bump_chars(b: Seq<char>)
    requires
        is_valid_bump(b),
    ensures
        b.len() > 0,
        !is_space(b[0]),
        !is_space(b.last()),
        b.last() != '\r',
        forall|j: int| 0 <= j < b.len() ==> #[trigger] b[j] != '\n',
{
    reveal_strlit("major");
    reveal_strlit("minor");
    reveal_strlit("patch");
}

#[verifier::spinoff_prover]
proof fn lemma_entry_line(n: Seq<char>, b: Seq<char>, valid: Seq<Seq<char>>)
    requires
        plain_name(n),
        valid.contains(n),
        is_valid_bump(b),
    ensures
        line_ok(entry_line((n, b)), valid),
        is_entry_line(entry_line((n, b))),
        entry_line((n, b)).len() > 0,
        entry_line((n, b))[0] == n[0],
        entry_line((n, b)).last() != '\r',
        forall|j: int|
            0 <= j < entry_line((n, b)).len() ==> #[trigger] entry_line((n, b))[j] != '\n',
{
    let l = entry_line((n, b));
    lemma_bump_chars(b);
    assert(l.last() == b.last());
    assert forall|j: int| 0 <= j < l.len() implies #[trigger] l[j] != '\n' by {
        if j < n.len() {
            assert(l[j] == n[j]);
        } else if j >= n.len() + 2 {
            assert(l[j] == b[j - n.len() - 2]);
        }
    }
    // The line is its own trim.
    lemma_lead_ws(l, 0);
    lemma_trail_ws(l, l.len() as int);
    assert(trim(l) =~= l);
    // It splits at the colon after the name.
    let colon = seq![':'];
    assert(l.subrange(n.len() as int, n.len() + 1int) =~= colon);
    assert forall|j: int| 0 <= j < n.len() implies !occurs_at(l, colon, j) by {
        if occurs_at(l, colon, j) {
            assert(l.subrange(j, j + 1)[0] == l[j]);
            assert(l[j] == n[j]);
        }
    }
    assert(first_at(l, colon, n.len() as int));
    lemma_find_first(l, colon, n.len() as int);
    let c = l.take(n.len() as int);
    let rest = l.skip(n.len() + 1int);
    assert(c =~= n);
    assert(rest =~= seq![' '] + b);
    // The name and the bump are their own trims.
    lemma_lead_ws(n, 0);
    lemma_trail_ws(n, n.len() as int);
    assert(trim(n) =~= n);
    assert(is_space(rest[0]));
    assert(rest[1] == b[0]);
    lemma_lead_ws(rest, 1);
    assert(rest.skip(1) =~= b);
    lemma_trail_ws(b, b.len() as int);
    assert(trim(rest) =~= b);
}

/// A changeset written from entries that each name a declared crate (in
/// plain form) and a valid bump, with a description that is not blank, is
/// accepted: its validation finds no error.
#[verifier::spinoff_prover]
pub proof fn lemma_written_changeset_accepted(
    entries: Seq<(Seq<char>, Seq<char>)>,
    body: Seq<char>,
    valid: Seq<Seq<char>>,
)
    requires
        entries.len() > 0,
        forall|i: int|
            0 <= i < entries.len() ==> plain_name((#[trigger] entries[i]).0) && valid.contains(
                entries[i].0,
            ) && is_valid_bump(entries[i].1),
        !is_blank(body),
    ensures
        accepted(written_changeset(entries, body), valid),
        forall|name: Seq<char>|
            #[trigger] file_errors(name, Ok(written_changeset(entries, body)), valid)
                == Seq::<ErrorView>::empty(),
{
    let ls = entry_lines(entries);
    let fm = join(ls, seq!['\n']);
    assert forall|i: int| 0 <= i < ls.len() implies line_ok(#[trigger] ls[i], valid)
        && is_entry_line(ls[i]) && plain_line(ls[i]) && ls[i][0] != '-' by {
        let e = entries[i];
        assert(ls[i] == entry_line(e));
        lemma_entry_line(e.0, e.1, valid);
    }
    lemma_lines_join(ls);
    lemma_join_newlines(ls);
    assert(!contains(fm, closing_delimiter())) by {
        if contains(fm, closing_delimiter()) {
            let p = choose|p: int| occurs_at(fm, closing_delimiter(), p);
            assert(fm.subrange(p, p + 4)[0] == fm[p]);
            assert(fm.subrange(p, p + 4)[1] == fm[p + 1]);
            let k = choose|k: int| 1 <= k < ls.len() && fm[p + 1] == (#[trigger] ls[k])[0];
        }
    }
    assert(fm[0] == ls[0][0]) by {
        if ls.len() >= 2 {
            lemma_join_front(ls, seq!['\n']);
        }
    }
    assert(!starts_with(fm, dashes())) by {
        if starts_with(fm, dashes()) {
            assert(fm.take(3)[0] == fm[0]);
        }
    }
    lemma_frontmatter_roundtrip(fm, body);
    assert(written_changeset(entries, body) =~= seq!['-', '-', '-', '\n'] + fm + seq![
        '\n',
        '-',
        '-',
        '-',
        '\n',
    ] + body);
    assert(is_entry_line(ls[0]));
    assert forall|name: Seq<char>|
        #[trigger] file_errors(name, Ok(written_changeset(entries, body)), valid)
            == Seq::<ErrorView>::empty() by {
        lemma_no_errors_iff_accepted(name, written_changeset(entries, body), valid);
        assert(file_errors(name, Ok(written_changeset(entries, body)), valid) =~= Seq::<
            ErrorView,
        >::empty());
    }
}

pub open spec fn read_view(read: Result<String, String>) -> Result<Seq<char>, Seq<char>> {
    match read {
        Ok(c) => Ok(c@),
        Err(e) => Err(e@),
    }
}

fn error_at(name: &str, line: Option<usize>, message: &Vec<char>) -> (e: ValidationError)
    ensures
        e@ == (name@, line, message@),
{
    ValidationError { file: name.to_string(), line, message: string_of(message) }
}

fn is_bump(b: &Vec<char>) -> (r: bool)
    ensures
        r == is_valid_bump(b@),
{
    eq_chars(b, &chars_of("major")) || eq_chars(b, &chars_of("minor")) || eq_chars(
        b,
        &chars_of("patch"),
    )
}

/// The errors of one frontmatter line.
fn check_line(name: &str, valid: &Vec<String>, idx: usize, line: &Vec<char>, out: &mut Vec<
    ValidationError,
>) -> (entry: bool)
    requires
        idx + 2 <= usize::MAX,
    ensures
        error_views(final(out)@) == error_views(old(out)@) + line_errors(
            name@,
            string_views(valid@),
            idx as int,
            line@,
        ),
        entry == is_entry_line(line@),
{
    let ghost before = old(out)@;
    let t = trim_chars(line);
    let at = Some(idx + 2);
    if t.len() == 0 || t[0] == '#' {
        assert(error_views(out@) =~= error_views(before) + Seq::<ErrorView>::empty());
        return false;
    }
    match split_once_chars(&t, ':') {
        None => {
            let mut m = chars_of("invalid frontmatter: '");
            push_all(&mut m, &t);
            push_str(&mut m, "' (expected 'crate-name: bump-type')");
            out.push(error_at(name, at, &m));
            assert(error_views(out@) =~= error_views(before) + line_errors(
                name@,
                string_views(valid@),
                idx as int,
                line@,
            ));
            false
        },
        Some((c, b)) => {
            let krate = trim_chars(&c);
            let bump = trim_chars(&b);
            let ghost crate_errs: Seq<ErrorView> = if string_views(valid@).contains(krate@) {
                seq![]
            } else {
                seq![(name@, at, unknown_crate_message(krate@, string_views(valid@)))]
            };
            let ghost bump_errs: Seq<ErrorView> = if is_valid_bump(bump@) {
                seq![]
            } else {
                seq![(name@, at, unknown_bump_message(bump@))]
            };
            if !contains_string(valid, &krate) {
                let mut m = chars_of("unknown crate '");
                push_all(&mut m, &krate);
                push_str(&mut m, "' (valid: ");
                let list = join_chars(valid, ", ");
                push_all(&mut m, &list);
                push_str(&mut m, ")");
                out.push(error_at(name, at, &m));
            }
            assert(error_views(out@) =~= error_views(before) + crate_errs);
            if !is_bump(&bump) {
                let mut m = chars_of("unknown bump '");
                push_all(&mut m, &bump);
                push_str(&mut m, "' (valid: major, minor, patch)");
                out.push(error_at(name, at, &m));
            }
            assert(error_views(out@) =~= error_views(before) + crate_errs + bump_errs);
            true
        },
    }
}

/// Checks one changeset file, named `name`, whose reading gave `read`
/// (its content, or the text of the reading error), against the declared
/// crate names `valid_crates` (listed in the messages in the given order).
pub fn validate_file(name: &str, read: &Result<String, String>, valid_crates: &Vec<String>) -> (r: Vec<
    ValidationError,
>)
    requires
        read matches Ok(content) ==> content@.len() + 2 <= usize::MAX,
    ensures
        error_views(r@) == file_errors(name@, read_view(*read), string_views(valid_crates@)),
{
    let mut errors: Vec<ValidationError> = Vec::new();
    let content = match read {
        Ok(c) => c,
        Err(e) => {
            let mut m = chars_of("cannot read file: ");
            push_str(&mut m, e.as_str());
            errors.push(error_at(name, None, &m));
            assert(error_views(errors@) =~= file_errors(name@, read_view(*read), string_views(valid_crates@)));
            return errors;
        },
    };
    let (fm, body) = match split_frontmatter(content.as_str()) {
        Some(parts) => parts,
        None => {
            let m = chars_of("missing or malformed YAML frontmatter (must be delimited by ---)");
            errors.push(error_at(name, None, &m));
            assert(error_views(errors@) =~= file_errors(name@, read_view(*read), string_views(valid_crates@)));
            return errors;
        },
    };
    let fm_chars = chars_of(fm.as_str());
    let ls = lines_of(&fm_chars);
    proof {
        lemma_frontmatter_shorter(content@);
        lemma_lines_len(fm@);
    }
    let ghost lv = lines(fm@);
    let mut has_entries = false;
    let mut idx: usize = 0;
    assert(error_views(errors@) =~= Seq::<ErrorView>::empty());
    while idx < ls.len()
        invariant
            idx <= ls@.len(),
            views(ls@) == lv,
            lv.len() + 2 <= usize::MAX,
            error_views(errors@) == lines_errors(name@, string_views(valid_crates@), lv, idx as int),
            has_entries == exists|j: int| 0 <= j < idx && is_entry_line(#[trigger] lv[j]),
        decreases ls.len() - idx,
    {
        assert(ls@[idx as int]@ == lv[idx as int]);
        let entry = check_line(name, valid_crates, idx, &ls[idx], &mut errors);
        if entry {
            has_entries = true;
        }
        idx = idx + 1;
    }
    assert(has_entries == has_entry(lv));
    let ghost before_tail = error_views(errors@);
    if !has_entries {
        let m = chars_of("no crate entries in frontmatter");
        errors.push(error_at(name, None, &m));
    }
    let body_chars = chars_of(body.as_str());
    if is_blank_chars(&body_chars) {
        let m = chars_of("empty changelog description after frontmatter");
        errors.push(error_at(name, None, &m));
    }
    assert(error_views(errors@) =~= file_errors(name@, read_view(*read), string_views(valid_crates@)));
    errors
}

/// The frontmatter is no longer than the file.
proof fn lemma_frontmatter_shorter(content: Seq<char>)
    ensures
        frontmatter_split(content) matches Some((fm, _)) ==> fm.len() <= content.len(),
{
    let s = strip_prefix_or_self(content, seq!['\u{feff}']);
    lemma_lead_ws_bound(s);
    lemma_find_bounds(strip_newline(trim_start(s).skip(3)), closing_delimiter());
}

/// There are no more lines than characters.
pub proof fn lemma_lines_len(s: Seq<char>)
    ensures
        lines(s).len() <= s.len(),
    decreases s.len(),
{
    if s.len() > 0 {
        lemma_find_bounds(s, seq!['\n']);
        if let Some(i) = find(s, seq!['\n']) {
            lemma_lines_len(s.skip(i + 1));
        }
    }
}

// ---------------------------------------------------------------------------
// The changeset directory
// ---------------------------------------------------------------------------

/// A file name whose extension is `md` (`Path::extension`): it ends with
/// `.md` after at least one other character.
pub open spec fn is_markdown_name(n: Seq<char>) -> bool {
    n.len() >= 4 && n.skip(n.len() - 3) == ".md"@
}

pub fn is_markdown_file(name: &str) -> (b: bool)
    ensures
        b == is_markdown_name(name@),
{
    let n = chars_of(name);
    let len = n.len();
    if len < 4 {
        return false;
    }
    let tail = slice(&n, len - 3, len);
    assert(tail@ =~= n@.skip(len - 3));
    eq_chars(&tail, &chars_of(".md"))
}

/// The entries of a directory, as the caller found them.
pub enum DirListing {
    /// There is no such directory.
    Missing,
    /// The directory could not be read (the error's text).
    ReadDirFailed(String),
    /// Each entry's file name, or the error of reading that entry, in the
    /// directory's order.
    Entries(Vec<Result<String, String>>),
}

/// The first error among the first `k` entries.
pub open spec fn entry_error(es: Seq<Result<String, String>>, k: int) -> Option<Seq<char>>
    decreases k,
{
    if k <= 0 {
        None
    } else {
        match entry_error(es, k - 1) {
            Some(e) => Some(e),
            None => match es[k - 1] {
                Err(e) => Some(e@),
                Ok(_) => None,
            },
        }
    }
}

/// The names with the `md` extension among the first `k` entries, in order.
pub open spec fn markdown_names(es: Seq<Result<String, String>>, k: int) -> Seq<Seq<char>>
    decreases k,
{
    if k <= 0 {
        seq![]
    } else {
        let prev = markdown_names(es, k - 1);
        match es[k - 1] {
            Ok(n) => if is_markdown_name(n@) {
                prev.push(n@)
            } else {
                prev
            },
            Err(_) => prev,
        }
    }
}

/// The changeset files of the directory listing, sorted, or the error that
/// stopped listing it. A missing directory holds none.
pub open spec fn changeset_listing(l: DirListing) -> Result<Seq<Seq<char>>, Seq<char>> {
    match l {
        DirListing::Missing => Ok(seq![]),
        DirListing::ReadDirFailed(e) => Err("cannot read .changeset/: "@ + e@),
        DirListing::Entries(es) => match entry_error(es@, es@.len() as int) {
            Some(e) => Err("read_dir error: "@ + e),
            None => Ok(sorted_strings(markdown_names(es@, es@.len() as int))),
        },
    }
}

/// Whether the listing shows a changeset file among the entries that could
/// be read; a directory that is missing or cannot be read shows none.
pub open spec fn listing_has_changesets(l: DirListing) -> bool {
    match l {
        DirListing::Entries(es) => exists|i: int|
            0 <= i < es@.len() && (#[trigger] es@[i] matches Ok(n) && is_markdown_name(n@)),
        _ => false,
    }
}

proof fn lemma_markdown_names_nonempty(es: Seq<Result<String, String>>, k: int)
    requires
        0 <= k <= es.len(),
    ensures
        markdown_names(es, k).len() > 0 <==> exists|i: int|
            0 <= i < k && (#[trigger] es[i] matches Ok(n) && is_markdown_name(n@)),
    decreases k,
{
    if k > 0 {
        lemma_markdown_names_nonempty(es, k - 1);
        if markdown_names(es, k).len() > 0 && markdown_names(es, k - 1).len() == 0 {
            assert(es[k - 1] matches Ok(n) && is_markdown_name(n@));
        }
        if exists|i: int| 0 <= i < k && (#[trigger] es[i] matches Ok(n) && is_markdown_name(n@)) {
            let i = choose|i: int|
                0 <= i < k && (#[trigger] es[i] matches Ok(n) && is_markdown_name(n@));
            if i < k - 1 {
                assert(markdown_names(es, k - 1).len() > 0);
            }
        }
    }
}

/// The directory listing and the check for pending changesets agree: where
/// the listing gives the changeset files, there are some exactly when the
/// check finds one.
#[verifier::spinoff_prover]
pub proof fn lemma_listing_agrees_with_check(l: DirListing)
    requires
        changeset_listing(l) is Ok,
    ensures
        changeset_listing(l)->Ok_0.len() > 0 <==> listing_has_changesets(l),
{
    broadcast use vstd::seq_lib::group_to_multiset_ensures;

    match l {
        DirListing::Entries(es) => {
            let ms = markdown_names(es@, es@.len() as int);
            let t = sorted_strings(ms);
            lemma_sorted_exists(ms);
            assert(t.len() == t.to_multiset().len());
            assert(ms.len() == ms.to_multiset().len());
            lemma_markdown_names_nonempty(es@, es@.len() as int);
        },
        _ => {},
    }
}

/// The changeset files of a directory listing: the entries with the `md`
/// extension, sorted by name, or the error that stopped the listing.
pub fn changeset_files(listing: &DirListing) -> (r: Result<Vec<String>, String>)
    ensures
        match r {
            Ok(v) => changeset_listing(*listing) == Ok::<Seq<Seq<char>>, Seq<char>>(
                string_views(v@),
            ),
            Err(e) => changeset_listing(*listing) == Err::<Seq<Seq<char>>, Seq<char>>(e@),
        },
{
    match listing {
        DirListing::Missing => {
            let v: Vec<String> = Vec::new();
            assert(string_views(v@) =~= Seq::<Seq<char>>::empty());
            Ok(v)
        },
        DirListing::ReadDirFailed(e) => {
            let mut m = chars_of("cannot read .changeset/: ");
            push_str(&mut m, e.as_str());
            Err(string_of(&m))
        },
        DirListing::Entries(es) => {
            let mut picked: Vec<String> = Vec::new();
            let mut i: usize = 0;
            assert(string_views(picked@) =~= Seq::<Seq<char>>::empty());
            while i < es.len()
                invariant
                    i <= es@.len(),
                    *listing == DirListing::Entries(*es),
                    entry_error(es@, i as int) is None,
                    string_views(picked@) == markdown_names(es@, i as int),
                decreases es.len() - i,
            {
                match &es[i] {
                    Err(e) => {
                        proof {
                            assert(entry_error(es@, i + 1) == Some(e@));
                            lemma_entry_error_stays(es@, i + 1, es@.len() as int);
                        }
                        let mut m = chars_of("read_dir error: ");
                        push_str(&mut m, e.as_str());
                        return Err(string_of(&m));
                    },
                    Ok(n) => {
                        if is_markdown_file(n.as_str()) {
                            let ghost before = string_views(picked@);
                            picked.push(n.clone());
                            assert(string_views(picked@) =~= before.push(n@));
                        }
                    },
                }
                i = i + 1;
            }
            let r = sort_strings(picked);
            proof {
                lemma_sorted_strings(markdown_names(es@, es@.len() as int), string_views(r@));
            }
            Ok(r)
        },
    }
}

proof fn lemma_entry_error_stays(es: Seq<Result<String, String>>, k: int, n: int)
    requires
        0 < k <= n,
        entry_error(es, k) is Some,
    ensures
        entry_error(es, n) == entry_error(es, k),
    decreases n - k,
{
    if k < n {
        lemma_entry_error_stays(es, k, n - 1);
    }
}

/// Whether the directory listing shows any changeset file.
pub fn has_changesets(listing: &DirListing) -> (b: bool)
    ensures
        b == listing_has_changesets(*listing),
{
    match listing {
        DirListing::Entries(es) => {
            let mut i: usize = 0;
            while i < es.len()
                invariant
                    i <= es@.len(),
                    *listing == DirListing::Entries(*es),
                    forall|j: int|
                        0 <= j < i ==> !(#[trigger] es@[j] matches Ok(n) && is_markdown_name(n@)),
                decreases es.len() - i,
            {
                match &es[i] {
                    Ok(n) => {
                        if is_markdown_file(n.as_str()) {
                            assert(es@[i as int] matches Ok(n) && is_markdown_name(n@));
                            return true;
                        }
                    },
                    Err(_) => {},
                }
                i = i + 1;
            }
            false
        },
        _ => false,
    }
}

/// A changeset file's name and what reading it gave.
pub struct ChangesetFile {
    pub name: String,
    pub read: Result<String, String>,
}

/// What was read is short enough for its line numbers to fit in `usize`.
pub open spec fn read_fits(read: Result<String, String>) -> bool {
    match read {
        Ok(c) => c@.len() + 2 <= usize::MAX,
        Err(_) => true,
    }
}

/// The errors of the first `k` files, in order.
pub open spec fn files_errors(files: Seq<ChangesetFile>, valid: Seq<Seq<char>>, k: int) -> Seq<
    ErrorView,
>
    decreases k,
{
    if k <= 0 {
        seq![]
    } else {
        files_errors(files, valid, k - 1) + file_errors(
            files[k - 1].name@,
            read_view(files[k - 1].read),
            valid,
        )
    }
}

/// The errors of a whole changeset directory: the listing's error, or every
/// file's errors in order.
pub open spec fn listing_errors(listing: Result<Seq<ChangesetFile>, Seq<char>>, valid: Seq<Seq<char>>) -> Seq<
    ErrorView,
> {
    match listing {
        Err(m) => seq![(".changeset/"@, None, m)],
        Ok(files) => files_errors(files, valid, files.len() as int),
    }
}

/// The errors of the first `k` files, given by their names and what reading
/// each gave, in order.
pub open spec fn contents_errors(
    names: Seq<Seq<char>>,
    reads: Seq<Result<String, String>>,
    valid: Seq<Seq<char>>,
    k: int,
) -> Seq<ErrorView>
    decreases k,
{
    if k <= 0 {
        seq![]
    } else {
        contents_errors(names, reads, valid, k - 1) + file_errors(
            names[k - 1],
            read_view(reads[k - 1]),
            valid,
        )
    }
}

pub proof fn lemma_files_errors(
    files: Seq<ChangesetFile>,
    names: Seq<Seq<char>>,
    reads: Seq<Result<String, String>>,
    valid: Seq<Seq<char>>,
    k: int,
)
    requires
        0 <= k <= files.len(),
        files.len() == names.len(),
        files.len() == reads.len(),
        forall|i: int|
            0 <= i < files.len() ==> (#[trigger] files[i]).name@ == names[i] && files[i].read
                == reads[i],
    ensures
        files_errors(files, valid, k) == contents_errors(names, reads, valid, k),
    decreases k,
{
    if k > 0 {
        lemma_files_errors(files, names, reads, valid, k - 1);
        assert(files[k - 1].name@ == names[k - 1]);
    }
}

pub open spec fn listing_view(listing: Result<Vec<ChangesetFile>, String>) -> Result<
    Seq<ChangesetFile>,
    Seq<char>,
> {
    match listing {
        Ok(v) => Ok(v@),
        Err(m) => Err(m@),
    }
}

/// Checks every changeset file; a directory that could not be listed gives
/// one error.
pub fn validate(listing: &Result<Vec<ChangesetFile>, String>, valid_crates: &Vec<String>) -> (r: Vec<
    ValidationError,
>)
    requires
        listing matches Ok(files) ==> forall|i: int|
            0 <= i < files@.len() ==> read_fits(#[trigger] files@[i].read),
    ensures
        error_views(r@) == listing_errors(listing_view(*listing), string_views(valid_crates@)),
{
    match listing {
        Err(m) => {
            let e = ValidationError { file: ".changeset/".to_string(), line: None, message: m.clone() };
            let out = vec![e];
            assert(error_views(out@) =~= listing_errors(
                listing_view(*listing),
                string_views(valid_crates@),
            ));
            out
        },
        Ok(files) => {
            let mut out: Vec<ValidationError> = Vec::new();
            let mut i: usize = 0;
            assert(error_views(out@) =~= Seq::<ErrorView>::empty());
            while i < files.len()
                invariant
                    i <= files@.len(),
                    forall|j: int| 0 <= j < files@.len() ==> read_fits(#[trigger] files@[j].read),
                    error_views(out@) == files_errors(files@, string_views(valid_crates@), i as int),
                decreases files.len() - i,
            {
                let f = &files[i];
                let mut errs = validate_file(f.name.as_str(), &f.read, valid_crates);
                let ghost before = error_views(out@);
                let ghost added = error_views(errs@);
                out.append(&mut errs);
                assert(error_views(out@) =~= before + added);
                i = i + 1;
            }
            out
        },
    }
}

} // verus!
