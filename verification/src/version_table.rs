//! A snapshot of per-crate versions with their latest changelog sections,
//! and its renderings for pull request bodies, release notes and the
//! terminal.

use vstd::prelude::*;

use crate::manifest::{first_version_line, manifest_version};
use crate::text::{
    chars_of, eq_chars, lines, lines_of, push_all, push_str, starts_with, starts_with_chars,
    string_of, string_views, trim, trim_chars, views, is_blank, is_space,
};

verus! {

/// One crate's row: name, version and latest changelog section.
pub struct CrateVersion {
    pub name: String,
    pub version: String,
    pub changelog: Option<String>,
}

pub type CrateVersionView = (Seq<char>, Seq<char>, Option<Seq<char>>);

impl View for CrateVersion {
    type V = CrateVersionView;

    open spec fn view(&self) -> CrateVersionView {
        (
            self.name@,
            self.version@,
            match self.changelog {
                Some(c) => Some(c@),
                None => None,
            },
        )
    }
}

/// A snapshot of crate versions and their latest changelog entries.
pub struct VersionTable {
    pub entries: Vec<CrateVersion>,
}

impl View for VersionTable {
    type V = Seq<CrateVersionView>;

    open spec fn view(&self) -> Seq<CrateVersionView> {
        self.entries@.map_values(|e: CrateVersion| e@)
    }
}

/// What is known of one package before the table is built: its name, the
/// path of its manifest (for messages), what reading the manifest gave,
/// and the text of its changelog where that could be read.
pub struct PackageFiles {
    pub name: String,
    pub manifest_path: String,
    pub manifest: Result<String, String>,
    pub changelog: Option<String>,
}

// ---------------------------------------------------------------------------
// Reading
// ---------------------------------------------------------------------------

/// The text of the first `## ` section among the lines `ls` (each line
/// followed by a line feed), where `in_section` says whether the lines
/// start inside it.
pub open spec fn section_text(ls: Seq<Seq<char>>, in_section: bool) -> Seq<char>
    decreases ls.len(),
{
    if ls.len() == 0 {
        seq![]
    } else if starts_with(ls[0], "## "@) {
        if in_section {
            seq![]
        } else {
            section_text(ls.drop_first(), true)
        }
    } else if in_section {
        ls[0] + seq!['\n'] + section_text(ls.drop_first(), true)
    } else {
        section_text(ls.drop_first(), false)
    }
}

/// The latest changelog section: the trimmed text under the first `## `
/// heading, up to the next one, or `None` where that text is blank.
pub open spec fn latest_section(content: Seq<char>) -> Option<Seq<char>> {
    let t = trim(section_text(lines(content), false));
    if t.len() == 0 {
        None
    } else {
        Some(t)
    }
}

/// Lines, each followed by a line feed.
pub open spec fn line_fed(ls: Seq<Seq<char>>) -> Seq<char>
    decreases ls.len(),
{
    if ls.len() == 0 {
        seq![]
    } else {
        ls[0] + seq!['\n'] + line_fed(ls.drop_first())
    }
}

proof fn lemma_section_body(body: Seq<Seq<char>>, rest: Seq<Seq<char>>)
    requires
        forall|i: int| 0 <= i < body.len() ==> !starts_with(#[trigger] body[i], "## "@),
        rest.len() == 0 || starts_with(rest[0], "## "@),
    ensures
        section_text(body + rest, true) == line_fed(body),
    decreases body.len(),
{
    if body.len() == 0 {
        assert(body + rest =~= rest);
    } else {
        let tail = body.drop_first();
        assert forall|i: int| 0 <= i < tail.len() implies !starts_with(#[trigger] tail[i], "## "@) by {
            assert(tail[i] == body[i + 1]);
        }
        lemma_section_body(tail, rest);
        assert((body + rest)[0] == body[0]);
        assert(!starts_with(body[0], "## "@));
        assert((body + rest).drop_first() =~= tail + rest);
    }
}

proof fn lemma_section_before(pre: Seq<Seq<char>>, after: Seq<Seq<char>>)
    requires
        forall|i: int| 0 <= i < pre.len() ==> !starts_with(#[trigger] pre[i], "## "@),
    ensures
        section_text(pre + after, false) == section_text(after, false),
    decreases pre.len(),
{
    if pre.len() == 0 {
        assert(pre + after =~= after);
    } else {
        let tail = pre.drop_first();
        assert forall|i: int| 0 <= i < tail.len() implies !starts_with(#[trigger] tail[i], "## "@) by {
            assert(tail[i] == pre[i + 1]);
        }
        lemma_section_before(tail, after);
        assert((pre + after)[0] == pre[0]);
        assert(!starts_with(pre[0], "## "@));
        assert((pre + after).drop_first() =~= tail + after);
    }
}

proof fn lemma_line_fed_holds(ls: Seq<Seq<char>>, i: int, j: int)
    requires
        0 <= i < ls.len(),
        0 <= j < ls[i].len(),
    ensures
        exists|o: int| 0 <= o < line_fed(ls).len() && #[trigger] line_fed(ls)[o] == ls[i][j],
    decreases ls.len(),
{
    let f = line_fed(ls);
    if i == 0 {
        assert(f[j] == ls[0][j]);
    } else {
        let tail = ls.drop_first();
        lemma_line_fed_holds(tail, i - 1, j);
        let o = choose|o: int| 0 <= o < line_fed(tail).len() && #[trigger] line_fed(tail)[o] == tail[i - 1][j];
        let o2 = ls[0].len() + 1 + o;
        assert(f[o2] == line_fed(tail)[o]);
    }
}

/// Only a line starting with `## ` opens or closes a changelog section: for
/// a changelog whose lines are some lines before the first `## ` heading,
/// that heading, lines none of which starts with `## ` (subsection
/// headings `### ...` among them), and then nothing or the next `## `
/// heading, the latest section is the trimmed text of those lines, each
/// followed by a line feed, or `None` where it is blank; it is `Some` when
/// any of those lines is not blank.
pub proof fn lemma_latest_section_is_first_section(
    content: Seq<char>,
    pre: Seq<Seq<char>>,
    heading: Seq<char>,
    body: Seq<Seq<char>>,
    rest: Seq<Seq<char>>,
)
    requires
        lines(content) == pre + seq![heading] + body + rest,
        forall|i: int| 0 <= i < pre.len() ==> !starts_with(#[trigger] pre[i], "## "@),
        starts_with(heading, "## "@),
        forall|i: int| 0 <= i < body.len() ==> !starts_with(#[trigger] body[i], "## "@),
        rest.len() == 0 || starts_with(rest[0], "## "@),
    ensures
        latest_section(content) == (if trim(line_fed(body)).len() == 0 {
            None
        } else {
            Some(trim(line_fed(body)))
        }),
        (exists|i: int| 0 <= i < body.len() && !is_blank(#[trigger] body[i])) ==> latest_section(
            content,
        ) is Some,
{
    let after = seq![heading] + body + rest;
    assert(pre + seq![heading] + body + rest =~= pre + after);
    lemma_section_before(pre, after);
    assert(after[0] == heading);
    assert(after.drop_first() =~= body + rest);
    lemma_section_body(body, rest);
    assert(section_text(after, false) == section_text(body + rest, true));
    if exists|i: int| 0 <= i < body.len() && !is_blank(#[trigger] body[i]) {
        let i = choose|i: int| 0 <= i < body.len() && !is_blank(#[trigger] body[i]);
        let j = choose|j: int| 0 <= j < body[i].len() && !is_space(#[trigger] body[i][j]);
        lemma_line_fed_holds(body, i, j);
        let o = choose|o: int| 0 <= o < line_fed(body).len() && #[trigger] line_fed(body)[o] == body[i][j];
        assert(!is_blank(line_fed(body)));
        crate::text::lemma_blank_iff_trim_empty(line_fed(body));
    }
}

/// A changelog without a `## ` heading has no latest section.
pub proof fn lemma_no_heading_no_section(content: Seq<char>)
    requires
        forall|i: int| 0 <= i < lines(content).len() ==> !starts_with(#[trigger] lines(content)[i], "## "@),
    ensures
        latest_section(content) is None,
{
    let ls = lines(content);
    lemma_section_before(ls, Seq::empty());
    assert(ls + Seq::<Seq<char>>::empty() =~= ls);
    assert(trim(Seq::<char>::empty()) =~= Seq::<char>::empty());
}

/// The latest section of a changelog's text.
pub fn latest_changelog_section(content: &str) -> (r: Option<String>)
    ensures
        match r {
            Some(s) => latest_section(content@) == Some(s@),
            None => latest_section(content@) is None,
        },
{
    let chars = chars_of(content);
    let ls = lines_of(&chars);
    let ghost lv = lines(content@);
    let heading = chars_of("## ");
    let mut section: Vec<char> = Vec::new();
    let mut in_section = false;
    let mut i: usize = 0;
    assert(lv.skip(0) =~= lv);
    assert(section@ + section_text(lv, false) =~= section_text(lv, false));
    while i < ls.len()
        invariant
            i <= ls@.len(),
            views(ls@) == lv,
            lv == lines(content@),
            heading@ == "## "@,
            section_text(lv, false) == section@ + section_text(lv.skip(i as int), in_section),
        ensures
            section_text(lv, false) == section@,
        decreases ls.len() - i,
    {
        let ghost rest = lv.skip(i as int);
        assert(lv.len() == ls@.len());
        assert(rest[0] == ls@[i as int]@);
        assert(rest.drop_first() =~= lv.skip(i + 1));
        if i + 1 == ls.len() {
            assert(lv.skip(i + 1).len() == 0);
        }
        if starts_with_chars(&ls[i], &heading) {
            if in_section {
                assert(section@ + Seq::<char>::empty() =~= section@);
                break;
            }
            assert(section_text(rest, false) == section_text(lv.skip(i + 1), true));
            in_section = true;
        } else if in_section {
            let ghost before = section@;
            push_all(&mut section, &ls[i]);
            section.push('\n');
            assert(before + section_text(rest, true) =~= section@ + section_text(lv.skip(i + 1), true));
        }
        i = i + 1;
    }
    let t = trim_chars(&section);
    if t.len() == 0 {
        None
    } else {
        Some(string_of(&t))
    }
}

pub open spec fn no_version_message(path: Seq<char>) -> Seq<char> {
    "no version found in "@ + path
}

pub open spec fn cannot_read_message(path: Seq<char>, e: Seq<char>) -> Seq<char> {
    "cannot read "@ + path + ": "@ + e
}

/// A crate's version as read from its manifest: the first `version = "..."`
/// line, or an error naming the manifest's path.
pub open spec fn version_from(path: Seq<char>, read: Result<Seq<char>, Seq<char>>) -> Result<
    Seq<char>,
    Seq<char>,
> {
    match read {
        Err(e) => Err(cannot_read_message(path, e)),
        Ok(content) => match first_version_line(lines(content)) {
            Some(v) => Ok(v),
            None => Err(no_version_message(path)),
        },
    }
}

/// A crate's version from what reading its manifest (at `path`) gave.
pub fn read_version(path: &str, read: &Result<String, String>) -> (r: Result<String, String>)
    ensures
        match r {
            Ok(v) => version_from(path@, crate::changeset::read_view(*read)) == Ok::<
                Seq<char>,
                Seq<char>,
            >(v@),
            Err(m) => version_from(path@, crate::changeset::read_view(*read)) == Err::<
                Seq<char>,
                Seq<char>,
            >(m@),
        },
{
    match read {
        Err(e) => {
            let mut m = chars_of("cannot read ");
            push_str(&mut m, path);
            push_str(&mut m, ": ");
            push_str(&mut m, e.as_str());
            Err(string_of(&m))
        },
        Ok(content) => match manifest_version(content.as_str()) {
            Some(v) => Ok(v),
            None => {
                let mut m = chars_of("no version found in ");
                push_str(&mut m, path);
                Err(string_of(&m))
            },
        },
    }
}

pub open spec fn package_name_views(p: Seq<PackageFiles>) -> Seq<Seq<char>> {
    p.map_values(|f: PackageFiles| f.name@)
}

/// The table built from the first `k` packages, or the first error.
pub open spec fn table_from(packages: Seq<PackageFiles>, k: int) -> Result<Seq<CrateVersionView>, Seq<char>>
    decreases k,
{
    if k <= 0 {
        Ok(seq![])
    } else {
        match table_from(packages, k - 1) {
            Err(e) => Err(e),
            Ok(rows) => {
                let p = packages[k - 1];
                match version_from(p.manifest_path@, crate::changeset::read_view(p.manifest)) {
                    Err(e) => Err(e),
                    Ok(v) => Ok(
                        rows.push(
                            (
                                p.name@,
                                v,
                                match p.changelog {
                                    Some(c) => latest_section(c@),
                                    None => None,
                                },
                            ),
                        ),
                    ),
                }
            },
        }
    }
}

/// Whether the packages read are the ones asked for, in order.
pub fn names_match(ps: &Vec<PackageFiles>, names: &Vec<String>) -> (b: bool)
    ensures
        b == (package_name_views(ps@) == string_views(names@)),
{
    if ps.len() != names.len() {
        assert(package_name_views(ps@).len() != string_views(names@).len());
        return false;
    }
    let mut i: usize = 0;
    while i < ps.len()
        invariant
            i <= ps@.len() == names@.len(),
            forall|j: int| 0 <= j < i ==> ps@[j].name@ == #[trigger] names@[j]@,
        decreases ps.len() - i,
    {
        if !eq_chars(&chars_of(ps[i].name.as_str()), &chars_of(names[i].as_str())) {
            assert(package_name_views(ps@)[i as int] != string_views(names@)[i as int]);
            return false;
        }
        i = i + 1;
    }
    assert(package_name_views(ps@) =~= string_views(names@));
    true
}

impl VersionTable {
    /// Builds the table from each package's manifest and changelog, in the
    /// given order; a manifest that cannot be read or gives no version is an
    /// error. A changelog that could not be read gives no section.
    pub fn from_workspace(packages: &Vec<PackageFiles>) -> (r: Result<VersionTable, String>)
        ensures
            match r {
                Ok(t) => table_from(packages@, packages@.len() as int) == Ok::<
                    Seq<CrateVersionView>,
                    Seq<char>,
                >(t@),
                Err(e) => table_from(packages@, packages@.len() as int) == Err::<
                    Seq<CrateVersionView>,
                    Seq<char>,
                >(e@),
            },
    {
        let mut entries: Vec<CrateVersion> = Vec::new();
        let mut i: usize = 0;
        assert(entries@.map_values(|e: CrateVersion| e@) =~= Seq::<CrateVersionView>::empty());
        while i < packages.len()
            invariant
                i <= packages@.len(),
                table_from(packages@, i as int) == Ok::<Seq<CrateVersionView>, Seq<char>>(
                    entries@.map_values(|e: CrateVersion| e@),
                ),
            decreases packages.len() - i,
        {
            let p = &packages[i];
            let version = match read_version(p.manifest_path.as_str(), &p.manifest) {
                Ok(v) => v,
                Err(e) => {
                    proof {
                        lemma_table_error_stays(packages@, i as int + 1, packages@.len() as int);
                    }
                    return Err(e);
                },
            };
            let changelog = match &p.changelog {
                Some(text) => latest_changelog_section(text.as_str()),
                None => None,
            };
            let ghost before = entries@.map_values(|e: CrateVersion| e@);
            entries.push(CrateVersion { name: p.name.clone(), version, changelog });
            assert(entries@.map_values(|e: CrateVersion| e@) =~= before.push(entries@.last()@));
            i = i + 1;
        }
        Ok(VersionTable { entries })
    }
}

proof fn lemma_table_error_stays(packages: Seq<PackageFiles>, k: int, n: int)
    requires
        0 < k <= n,
        table_from(packages, k) is Err,
    ensures
        table_from(packages, n) == table_from(packages, k),
    decreases n - k,
{
    if k < n {
        lemma_table_error_stays(packages, k, n - 1);
    }
}

// ---------------------------------------------------------------------------
// Rendering
// ---------------------------------------------------------------------------

/// `| <name> | <version> |` and a line feed.
pub open spec fn table_row(e: CrateVersionView) -> Seq<char> {
    "| "@ + e.0 + " | "@ + e.1 + " |"@ + seq!['\n']
}

pub open spec fn table_rows(rows: Seq<CrateVersionView>) -> Seq<char>
    decreases rows.len(),
{
    if rows.len() == 0 {
        seq![]
    } else {
        table_rows(rows.drop_last()) + table_row(rows.last())
    }
}

pub open spec fn table_header() -> Seq<char> {
    "| Crate | Version |"@ + seq!['\n'] + "| ----- | ------- |"@ + seq!['\n']
}

/// The markdown version table: a header, then one row per crate in order.
pub open spec fn markdown_table(rows: Seq<CrateVersionView>) -> Seq<char> {
    table_header() + table_rows(rows)
}

/// `### <name>`, a blank line, the section and a blank line, for a crate
/// with a changelog section; nothing for one without.
pub open spec fn changelog_block(e: CrateVersionView) -> Seq<char> {
    match e.2 {
        Some(cl) => "### "@ + e.0 + seq!['\n', '\n'] + cl + seq!['\n', '\n'],
        None => seq![],
    }
}

pub open spec fn markdown_changelog(rows: Seq<CrateVersionView>) -> Seq<char>
    decreases rows.len(),
{
    if rows.len() == 0 {
        seq![]
    } else {
        markdown_changelog(rows.drop_last()) + changelog_block(rows.last())
    }
}

/// The width of the name column: the longest name's length in bytes, or
/// 10 for an empty table.
pub open spec fn name_width(rows: Seq<CrateVersionView>) -> nat
    decreases rows.len(),
{
    if rows.len() == 0 {
        10
    } else if rows.len() == 1 {
        utf8_len(rows[0].0) as nat
    } else {
        let w = name_width(rows.drop_last());
        let l = utf8_len(rows.last().0) as nat;
        if l > w {
            l
        } else {
            w
        }
    }
}

pub open spec fn spaces(n: nat) -> Seq<char> {
    Seq::new(n, |_i: int| ' ')
}

/// `s` padded with spaces on the right to `width` characters.
pub open spec fn pad_right(s: Seq<char>, width: nat) -> Seq<char> {
    if s.len() < width {
        s + spaces((width - s.len()) as nat)
    } else {
        s
    }
}

pub open spec fn terminal_line(e: CrateVersionView, width: nat) -> Seq<char> {
    "  "@ + pad_right(e.0, width) + "  "@ + e.1 + seq!['\n']
}

pub open spec fn terminal_lines(rows: Seq<CrateVersionView>, width: nat) -> Seq<char>
    decreases rows.len(),
{
    if rows.len() == 0 {
        seq![]
    } else {
        terminal_lines(rows.drop_last(), width) + terminal_line(rows.last(), width)
    }
}

/// The length in bytes of a string's UTF-8 encoding (`str::len`).
pub open spec fn utf8_len(s: Seq<char>) -> usize {
    vstd::utf8::encode_utf8(s).len() as usize
}

fn byte_len(s: &String) -> (n: usize)
    ensures
        n == utf8_len(s@),
{
    s.as_str().len()
}

impl VersionTable {
    /// The table as aligned terminal lines: two spaces, the name padded to
    /// the name column's width, two spaces, the version.
    pub fn to_terminal(&self) -> (r: String)
        ensures
            r@ == terminal_lines(self@, name_width(self@)),
    {
        let n = self.entries.len();
        let mut width: usize = 10;
        let mut i: usize = 0;
        while i < n
            invariant
                i <= n == self@.len(),
                i > 0 ==> width == name_width(self@.take(i as int)),
            decreases n - i,
        {
            let l = byte_len(&self.entries[i].name);
            assert(self@.take(i + 1).drop_last() =~= self@.take(i as int));
            assert(self@.take(i + 1).last() == self.entries@[i as int]@);
            if i == 0 || l > width {
                width = l;
            }
            i = i + 1;
        }
        assert(n > 0 ==> self@.take(n as int) =~= self@);
        let mut out: Vec<char> = Vec::new();
        let mut k: usize = 0;
        assert(out@ =~= terminal_lines(self@.take(0), width as nat));
        while k < n
            invariant
                k <= n == self@.len(),
                out@ == terminal_lines(self@.take(k as int), width as nat),
            decreases n - k,
        {
            let e = &self.entries[k];
            let name = chars_of(e.name.as_str());
            let ghost before = out@;
            push_str(&mut out, "  ");
            push_all(&mut out, &name);
            let mut pad = name.len();
            while pad < width
                invariant
                    name@.len() <= pad <= width || (pad == name@.len() && pad >= width),
                    out@ == before + "  "@ + name@ + spaces((pad - name@.len()) as nat),
                decreases width - pad,
            {
                out.push(' ');
                pad = pad + 1;
                assert(out@ =~= before + "  "@ + name@ + spaces((pad - name@.len()) as nat));
            }
            push_str(&mut out, "  ");
            push_str(&mut out, e.version.as_str());
            out.push('\n');
            assert(self@.take(k + 1).drop_last() =~= self@.take(k as int));
            assert(self@.take(k + 1).last() == e@);
            proof {
                if name@.len() >= width {
                    assert(spaces(0) =~= Seq::<char>::empty());
                }
            }
            assert(out@ =~= before + terminal_line(e@, width as nat));
            k = k + 1;
        }
        assert(self@.take(n as int) =~= self@);
        string_of(&out)
    }

    /// The version table as markdown.
    pub fn to_markdown_table(&self) -> (r: String)
        ensures
            r@ == markdown_table(self@),
    {
        let mut out = chars_of("| Crate | Version |");
        out.push('\n');
        push_str(&mut out, "| ----- | ------- |");
        out.push('\n');
        let n = self.entries.len();
        let mut k: usize = 0;
        assert(out@ =~= table_header() + table_rows(self@.take(0)));
        while k < n
            invariant
                k <= n == self@.len(),
                out@ == table_header() + table_rows(self@.take(k as int)),
            decreases n - k,
        {
            let e = &self.entries[k];
            let ghost before = out@;
            push_str(&mut out, "| ");
            push_str(&mut out, e.name.as_str());
            push_str(&mut out, " | ");
            push_str(&mut out, e.version.as_str());
            push_str(&mut out, " |");
            out.push('\n');
            assert(self@.take(k + 1).drop_last() =~= self@.take(k as int));
            assert(self@.take(k + 1).last() == e@);
            assert(out@ =~= before + table_row(e@));
            k = k + 1;
        }
        assert(self@.take(n as int) =~= self@);
        string_of(&out)
    }

    /// The changelog sections as markdown, one block per crate that has one.
    pub fn to_markdown_changelog(&self) -> (r: String)
        ensures
            r@ == markdown_changelog(self@),
            r@.len() == 0 <==> forall|i: int| 0 <= i < self@.len() ==> self@[i].2 is None,
    {
        let mut out: Vec<char> = Vec::new();
        let n = self.entries.len();
        let mut k: usize = 0;
        assert(out@ =~= markdown_changelog(self@.take(0)));
        while k < n
            invariant
                k <= n == self@.len(),
                out@ == markdown_changelog(self@.take(k as int)),
                out@.len() == 0 <==> forall|i: int| 0 <= i < k ==> self@[i].2 is None,
            decreases n - k,
        {
            let e = &self.entries[k];
            let ghost before = out@;
            if let Some(cl) = &e.changelog {
                push_str(&mut out, "### ");
                push_str(&mut out, e.name.as_str());
                out.push('\n');
                out.push('\n');
                push_str(&mut out, cl.as_str());
                out.push('\n');
                out.push('\n');
            }
            assert(self@.take(k + 1).drop_last() =~= self@.take(k as int));
            assert(self@.take(k + 1).last() == e@);
            assert(out@ =~= before + changelog_block(e@));
            assert(self@[k as int] == e@);
            k = k + 1;
        }
        assert(self@.take(n as int) =~= self@);
        string_of(&out)
    }
}

} // verus!
