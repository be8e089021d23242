//! Cargo manifest lookups and the workspace dependency version sync.
//!
//! The release tool bumps each crate's own `version`; the root manifest's
//! `[workspace.dependencies]` lines must then follow, or Cargo rejects the
//! pre-release versions. These functions read the versions and compute the
//! patched root manifest.

use vstd::prelude::*;

use crate::text::{
    chars_of, contains, contains_chars, eq_chars, find, find_chars, first_at, is_space,
    lemma_find_bounds, lemma_find_first, lemma_no_newline,
    lemma_join_front, lemma_replace_single, join, lines, lines_of, occurs_at, strip_cr,
    pair_views, push_all, push_str, quoted, quoted_chars, replace, replace_chars, slice,
    starts_with, starts_with_chars, string_of, trim, trim_chars, views,
};

verus! {

/// The `version` line prefix.
pub open spec fn version_key() -> Seq<char> {
    seq!['v', 'e', 'r', 's', 'i', 'o', 'n']
}

/// The version of a manifest line whose trimmed text starts with `version`:
/// the text between the first two double quotes after that prefix.
pub open spec fn version_of_line(t: Seq<char>) -> Option<Seq<char>> {
    if starts_with(t, version_key()) {
        quoted(t.skip(7))
    } else {
        None
    }
}

/// The `[package]` section's version among the manifest lines `ls`, where
/// `in_package` says whether the lines start inside that section.
pub open spec fn package_version_in(ls: Seq<Seq<char>>, in_package: bool) -> Option<Seq<char>>
    decreases ls.len(),
{
    if ls.len() == 0 {
        None
    } else {
        let t = trim(ls[0]);
        if t == "[package]"@ {
            package_version_in(ls.drop_first(), true)
        } else if starts_with(t, seq!['[']) {
            package_version_in(ls.drop_first(), false)
        } else if in_package && version_of_line(t) is Some {
            version_of_line(t)
        } else {
            package_version_in(ls.drop_first(), in_package)
        }
    }
}

fn version_of_line_chars(t: &Vec<char>) -> (r: Option<Vec<char>>)
    ensures
        match r {
            Some(v) => version_of_line(t@) == Some(v@),
            None => version_of_line(t@) is None,
        },
{
    let key = vec!['v', 'e', 'r', 's', 'i', 'o', 'n'];
    assert(key@ =~= version_key());
    if starts_with_chars(t, &key) {
        let n = t.len();
        let rest = slice(t, 7, n);
        assert(rest@ =~= t@.skip(7));
        quoted_chars(&rest)
    } else {
        None
    }
}

/// The version that a crate manifest gives in its `[package]` section: the
/// first `version = "..."` line after a `[package]` header and before the
/// next section header.
pub fn extract_package_version(cargo_toml_content: &str) -> (r: Option<String>)
    ensures
        match r {
            Some(v) => package_version_in(lines(cargo_toml_content@), false) == Some(v@),
            None => package_version_in(lines(cargo_toml_content@), false) is None,
        },
{
    let content = chars_of(cargo_toml_content);
    let ls = lines_of(&content);
    let ghost lv = lines(cargo_toml_content@);
    let header = chars_of("[package]");
    let mut in_package = false;
    let mut i: usize = 0;
    assert(lv.skip(0) =~= lv);
    while i < ls.len()
        invariant
            i <= ls@.len(),
            views(ls@) == lv,
            lv == lines(cargo_toml_content@),
            header@ == "[package]"@,
            package_version_in(lv, false) == package_version_in(lv.skip(i as int), in_package),
        decreases ls.len() - i,
    {
        let ghost rest = lv.skip(i as int);
        assert(lv.len() == ls@.len());
        assert(rest.len() > 0);
        assert(rest[0] == ls@[i as int]@);
        assert(rest.drop_first() =~= lv.skip(i + 1));
        let t = trim_chars(&ls[i]);
        if eq_chars(&t, &header) {
            in_package = true;
        } else if t.len() > 0 && t[0] == '[' {
            assert(t@.take(1) =~= seq!['[']);
            in_package = false;
        } else {
            proof {
                if starts_with(t@, seq!['[']) {
                    assert(t@.take(1)[0] == t@[0]);
                }
            }
            if in_package {
                if let Some(v) = version_of_line_chars(&t) {
                    return Some(string_of(&v));
                }
            }
        }
        i = i + 1;
    }
    None
}

/// The first line of `content` whose trimmed text starts with `version`
/// and holds a double-quoted value, and that value.
pub open spec fn first_version_line(ls: Seq<Seq<char>>) -> Option<Seq<char>>
    decreases ls.len(),
{
    if ls.len() == 0 {
        None
    } else if version_of_line(trim(ls[0])) is Some {
        version_of_line(trim(ls[0]))
    } else {
        first_version_line(ls.drop_first())
    }
}

/// The version that a manifest gives on its first `version = "..."` line.
pub fn manifest_version(content: &str) -> (r: Option<String>)
    ensures
        match r {
            Some(v) => first_version_line(lines(content@)) == Some(v@),
            None => first_version_line(lines(content@)) is None,
        },
{
    let chars = chars_of(content);
    let ls = lines_of(&chars);
    let ghost lv = lines(content@);
    let mut i: usize = 0;
    assert(lv.skip(0) =~= lv);
    while i < ls.len()
        invariant
            i <= ls@.len(),
            views(ls@) == lv,
            lv == lines(content@),
            first_version_line(lv) == first_version_line(lv.skip(i as int)),
        decreases ls.len() - i,
    {
        let ghost rest = lv.skip(i as int);
        assert(lv.len() == ls@.len());
        assert(rest.len() > 0);
        assert(rest[0] == ls@[i as int]@);
        assert(rest.drop_first() =~= lv.skip(i + 1));
        let t = trim_chars(&ls[i]);
        if let Some(v) = version_of_line_chars(&t) {
            return Some(string_of(&v));
        }
        i = i + 1;
    }
    None
}

// ---------------------------------------------------------------------------
// Workspace dependency lines
// ---------------------------------------------------------------------------

/// The `version = "` marker on a dependency line.
pub open spec fn version_marker() -> Seq<char> {
    "version = \""@
}

/// The version on a workspace dependency line for `name`: the trimmed line
/// starts with `name`, mentions `path` and `version`, and holds
/// `version = "..."` with a closing quote.
pub open spec fn dep_version_of_line(line: Seq<char>, name: Seq<char>) -> Option<Seq<char>> {
    let t = trim(line);
    if starts_with(t, name) && contains(t, "path"@) && contains(t, "version"@) {
        match find(t, version_marker()) {
            Some(vs) => {
                let after = t.skip(vs + version_marker().len());
                match find(after, seq!['"']) {
                    Some(end) => Some(after.take(end)),
                    None => None,
                }
            },
            None => None,
        }
    } else {
        None
    }
}

/// The first workspace dependency line for `name` among `ls`, and its version.
pub open spec fn dep_line_in(ls: Seq<Seq<char>>, name: Seq<char>) -> Option<(Seq<char>, Seq<char>)>
    decreases ls.len(),
{
    if ls.len() == 0 {
        None
    } else {
        match dep_version_of_line(ls[0], name) {
            Some(v) => Some((ls[0], v)),
            None => dep_line_in(ls.drop_first(), name),
        }
    }
}

fn dep_version_of_line_chars(line: &Vec<char>, name: &Vec<char>) -> (r: Option<Vec<char>>)
    ensures
        match r {
            Some(v) => dep_version_of_line(line@, name@) == Some(v@),
            None => dep_version_of_line(line@, name@) is None,
        },
{
    let t = trim_chars(line);
    let path = chars_of("path");
    let version = chars_of("version");
    if !(starts_with_chars(&t, name) && contains_chars(&t, &path) && contains_chars(
        &t,
        &version,
    )) {
        return None;
    }
    let marker = chars_of("version = \"");
    match find_chars(&t, &marker) {
        Some(vs) => {
            proof {
                lemma_find_bounds(t@, marker@);
            }
            let n = t.len();
            let after = slice(&t, vs + marker.len(), n);
            assert(after@ =~= t@.skip(vs + marker@.len()));
            let quote = vec!['"'];
            assert(quote@ =~= seq!['"']);
            match find_chars(&after, &quote) {
                Some(end) => {
                    proof {
                        lemma_find_bounds(after@, quote@);
                    }
                    let v = slice(&after, 0, end);
                    assert(v@ =~= after@.take(end as int));
                    Some(v)
                },
                None => None,
            }
        },
        None => None,
    }
}

fn dep_line_chars(content: &Vec<char>, name: &Vec<char>) -> (r: Option<(Vec<char>, Vec<char>)>)
    ensures
        match r {
            Some((l, v)) => dep_line_in(lines(content@), name@) == Some((l@, v@)),
            None => dep_line_in(lines(content@), name@) is None,
        },
{
    let ls = lines_of(content);
    let ghost lv = lines(content@);
    let mut i: usize = 0;
    assert(lv.skip(0) =~= lv);
    while i < ls.len()
        invariant
            i <= ls@.len(),
            views(ls@) == lv,
            lv == lines(content@),
            dep_line_in(lv, name@) == dep_line_in(lv.skip(i as int), name@),
        decreases ls.len() - i,
    {
        let ghost rest = lv.skip(i as int);
        assert(lv.len() == ls@.len());
        assert(rest.len() > 0);
        assert(rest[0] == ls@[i as int]@);
        assert(rest.drop_first() =~= lv.skip(i + 1));
        if let Some(v) = dep_version_of_line_chars(&ls[i], name) {
            let l = slice(&ls[i], 0, ls[i].len());
            assert(l@ =~= ls@[i as int]@);
            return Some((l, v));
        }
        i = i + 1;
    }
    None
}

/// Finds the workspace dependency line for a crate in the root manifest:
/// the whole line, and the version it gives.
pub fn find_dep_version_in_workspace(root_toml: &str, crate_name: &str) -> (r: Option<(String, String)>)
    ensures
        match r {
            Some((l, v)) => dep_line_in(lines(root_toml@), crate_name@) == Some((l@, v@)),
            None => dep_line_in(lines(root_toml@), crate_name@) is None,
        },
{
    let content = chars_of(root_toml);
    let name = chars_of(crate_name);
    match dep_line_chars(&content, &name) {
        Some((l, v)) => Some((string_of(&l), string_of(&v))),
        None => None,
    }
}

// ---------------------------------------------------------------------------
// Syncing workspace dependency versions
// ---------------------------------------------------------------------------

/// One workspace dependency version that the sync changes.
pub struct VersionChange {
    pub name: String,
    pub old_version: String,
    pub new_version: String,
}

impl View for VersionChange {
    type V = (Seq<char>, Seq<char>, Seq<char>);

    open spec fn view(&self) -> (Seq<char>, Seq<char>, Seq<char>) {
        (self.name@, self.old_version@, self.new_version@)
    }
}

pub open spec fn change_views(v: Seq<VersionChange>) -> Seq<(Seq<char>, Seq<char>, Seq<char>)> {
    v.map_values(|c: VersionChange| c@)
}

/// `version = "<v>"`.
pub open spec fn version_assignment(v: Seq<char>) -> Seq<char> {
    version_marker() + v + seq!['"']
}

/// Syncing one crate: where the root manifest has a dependency line for
/// `name` with another version than `version`, that line (everywhere it
/// occurs) gets `version = "<version>"` in place of the old assignment;
/// gives the new manifest and the old version.
pub open spec fn sync_one(content: Seq<char>, name: Seq<char>, version: Seq<char>) -> Option<
    (Seq<char>, Seq<char>),
> {
    match dep_line_in(lines(content), name) {
        Some((line, old)) => if old != version {
            let new_line = replace(line, version_assignment(old), version_assignment(version));
            Some((replace(content, line, new_line), old))
        } else {
            None
        },
        None => None,
    }
}

/// Syncing the first `k` crates of `versions` in order: the new manifest
/// and the changes made, as (crate, old version, new version).
pub open spec fn sync_upto(content: Seq<char>, versions: Seq<(Seq<char>, Seq<char>)>, k: int) -> (
    Seq<char>,
    Seq<(Seq<char>, Seq<char>, Seq<char>)>,
)
    decreases k,
{
    if k <= 0 {
        (content, seq![])
    } else {
        let (c, changes) = sync_upto(content, versions, k - 1);
        let (name, version) = versions[k - 1];
        match sync_one(c, name, version) {
            Some((c2, old)) => (c2, changes.push((name, old, version))),
            None => (c, changes),
        }
    }
}

proof fn lemma_trim_len(s: Seq<char>)
    ensures
        trim(s).len() <= s.len(),
{
    crate::text::lemma_lead_ws_bound(s);
    crate::text::lemma_trail_ws_bound(s.skip(crate::text::lead_ws(s) as int));
}

proof fn lemma_dep_line_nonempty(ls: Seq<Seq<char>>, name: Seq<char>)
    ensures
        dep_line_in(ls, name) matches Some((line, _)) ==> line.len() > 0,
    decreases ls.len(),
{
    if ls.len() > 0 {
        if dep_version_of_line(ls[0], name) is Some {
            let t = trim(ls[0]);
            lemma_find_bounds(t, version_marker());
            lemma_trim_len(ls[0]);
        } else {
            lemma_dep_line_nonempty(ls.drop_first(), name);
        }
    }
}

/// Updates the workspace dependency versions in the root manifest
/// `root_content` to the crate versions `crate_versions` (crate name,
/// version), in the given order; gives the new manifest and the changes.
pub fn sync_workspace_versions(root_content: &str, crate_versions: &Vec<(String, String)>) -> (r: (
    String,
    Vec<VersionChange>,
))
    ensures
        (r.0@, change_views(r.1@)) == sync_upto(
            root_content@,
            pair_views(crate_versions@),
            crate_versions@.len() as int,
        ),
{
    let mut updated = chars_of(root_content);
    let mut changes: Vec<VersionChange> = Vec::new();
    let ghost vs = pair_views(crate_versions@);
    let mut i: usize = 0;
    assert(change_views(changes@) =~= Seq::<(Seq<char>, Seq<char>, Seq<char>)>::empty());
    while i < crate_versions.len()
        invariant
            i <= crate_versions@.len(),
            vs == pair_views(crate_versions@),
            (updated@, change_views(changes@)) == sync_upto(root_content@, vs, i as int),
        decreases crate_versions.len() - i,
    {
        let name = chars_of(crate_versions[i].0.as_str());
        let version = chars_of(crate_versions[i].1.as_str());
        assert(vs[i as int] == (name@, version@));
        match dep_line_chars(&updated, &name) {
            Some((old_line, old_version)) => {
                if !eq_chars(&version, &old_version) {
                    proof {
                        lemma_dep_line_nonempty(lines(updated@), name@);
                    }
                    let mut from = chars_of("version = \"");
                    push_all(&mut from, &old_version);
                    from.push('"');
                    let mut to = chars_of("version = \"");
                    push_all(&mut to, &version);
                    to.push('"');
                    assert(from@ =~= version_assignment(old_version@));
                    assert(to@ =~= version_assignment(version@));
                    let new_line = replace_chars(&old_line, &from, &to);
                    updated = replace_chars(&updated, &old_line, &new_line);
                    let change = VersionChange {
                        name: string_of(&name),
                        old_version: string_of(&old_version),
                        new_version: string_of(&version),
                    };
                    let ghost before = change_views(changes@);
                    changes.push(change);
                    assert(change_views(changes@) =~= before.push(
                        (name@, old_version@, version@),
                    ));
                }
            },
            None => {},
        }
        i = i + 1;
    }
    (string_of(&updated), changes)
}

/// When every crate's workspace dependency line already gives the crate's
/// version (or there is none), the sync changes nothing.
pub proof fn lemma_sync_in_sync_is_identity(
    content: Seq<char>,
    versions: Seq<(Seq<char>, Seq<char>)>,
    k: int,
)
    requires
        0 <= k <= versions.len(),
        forall|j: int|
            0 <= j < k ==> match #[trigger] dep_line_in(lines(content), versions[j].0) {
                Some((_, old)) => old == versions[j].1,
                None => true,
            },
    ensures
        sync_upto(content, versions, k) == (content, Seq::<(Seq<char>, Seq<char>, Seq<char>)>::empty()),
    decreases k,
{
    if k > 0 {
        lemma_sync_in_sync_is_identity(content, versions, k - 1);
        let _ = dep_line_in(lines(content), versions[k - 1].0);
    }
}

// ---------------------------------------------------------------------------
// What syncing one crate does to its dependency line
// ---------------------------------------------------------------------------

/// The version assignment of a trimmed dependency line: where it sits.
#[verifier::spinoff_prover]
proof fn lemma_assignment_at(t: Seq<char>, old: Seq<char>)
    requires
        find(t, version_marker()) matches Some(vs) && find(
            t.skip(vs + version_marker().len()),
            seq!['"'],
        ) matches Some(e) && old == t.skip(vs + version_marker().len()).take(e),
    ensures
        ({
            let vs = find(t, version_marker())->0;
            &&& first_at(t, version_marker(), vs)
            &&& vs + version_assignment(old).len() <= t.len()
            &&& t.subrange(vs, vs + version_assignment(old).len()) == version_assignment(old)
        }),
{
    let m = version_marker();
    let a_old = version_assignment(old);
    assert(m.len() == 11) by {
        reveal_strlit("version = \"");
    }
    let vs = find(t, m)->0;
    lemma_find_bounds(t, m);
    crate::text::lemma_find_some(t, m);
    let after = t.skip(vs + m.len());
    let e = find(after, seq!['"'])->0;
    lemma_find_bounds(after, seq!['"']);
    crate::text::lemma_find_some(after, seq!['"']);
    assert(after.subrange(e, e + 1) =~= seq!['"']);
    assert(after[e] == '"') by {
        assert(after.subrange(e, e + 1)[0] == after[e]);
    }
    assert(t.subrange(vs, vs + 11) =~= m) by {
        reveal_strlit("version = \"");
    }
    let w = t.subrange(vs, vs + a_old.len());
    assert forall|x: int| 0 <= x < a_old.len() implies #[trigger] w[x] == a_old[x] by {
        if x < 11 {
            assert(w[x] == t.subrange(vs, vs + 11)[x]);
        } else if x < 11 + e {
            assert(w[x] == after[x - 11]);
        } else {
            assert(w[x] == after[e]);
        }
    }
    assert(w =~= a_old);
}

/// In a trimmed dependency line with its first assignment replaced, the
/// marker's first occurrence stays where that assignment starts.
#[verifier::spinoff_prover]
proof fn lemma_patched_marker(t: Seq<char>, old: Seq<char>, new: Seq<char>, vs: int, sfx: Seq<char>)
    requires
        first_at(t, version_marker(), vs),
        vs + version_assignment(old).len() <= t.len(),
        t.subrange(vs, vs + version_assignment(old).len()) == version_assignment(old),
    ensures
        find(t.take(vs) + version_assignment(new) + sfx, version_marker()) == Some(vs),
{
    let m = version_marker();
    let a_old = version_assignment(old);
    let a_new = version_assignment(new);
    let tp = t.take(vs) + a_new + sfx;
    assert(m.len() == 11) by {
        reveal_strlit("version = \"");
    }
    assert(tp.subrange(vs, vs + 11) =~= m);
    assert forall|x: int| 0 <= x < vs implies !occurs_at(tp, m, x) by {
        assert(!occurs_at(t, m, x));
        if occurs_at(tp, m, x) {
            let st = t.subrange(x, x + 11);
            let sp = tp.subrange(x, x + 11);
            assert forall|y: int| 0 <= y < 11 implies #[trigger] sp[y] == st[y] by {
                if x + y >= vs {
                    assert(sp[y] == a_new[x + y - vs]);
                    assert(st[y] == t.subrange(vs, vs + a_old.len())[x + y - vs]);
                } else {
                    assert(sp[y] == t[x + y]);
                }
            }
            assert(st =~= sp);
        }
    }
    assert(first_at(tp, m, vs));
    lemma_find_first(tp, m, vs);
}

/// After the marker of a replaced assignment come the new version and its
/// closing quote.
#[verifier::spinoff_prover]
proof fn lemma_patched_value(t: Seq<char>, new: Seq<char>, vs: int, sfx: Seq<char>)
    requires
        0 <= vs <= t.len(),
        forall|i: int| 0 <= i < new.len() ==> #[trigger] new[i] != '"',
    ensures
        ({
            let tp = t.take(vs) + version_assignment(new) + sfx;
            &&& find(tp.skip(vs + version_marker().len()), seq!['"']) == Some(new.len() as int)
            &&& tp.skip(vs + version_marker().len()).take(new.len() as int) == new
        }),
{
    let tp = t.take(vs) + version_assignment(new) + sfx;
    assert(version_marker().len() == 11) by {
        reveal_strlit("version = \"");
    }
    let after2 = tp.skip(vs + 11);
    assert(after2 =~= new + seq!['"'] + sfx);
    assert forall|x: int| 0 <= x < new.len() implies !occurs_at(after2, seq!['"'], x) by {
        if occurs_at(after2, seq!['"'], x) {
            assert(after2.subrange(x, x + 1)[0] == after2[x]);
        }
    }
    assert(after2.subrange(new.len() as int, new.len() + 1int) =~= seq!['"']);
    assert(first_at(after2, seq!['"'], new.len() as int));
    lemma_find_first(after2, seq!['"'], new.len() as int);
    assert(after2.take(new.len() as int) =~= new);
}

/// What replacing gives: no line feed where neither the text nor the
/// replacement holds one, and text that ends as the original did or as the
/// replacement does.
#[verifier::spinoff_prover]
proof fn lemma_replace_shape(s: Seq<char>, pat: Seq<char>, rep: Seq<char>)
    requires
        pat.len() > 0,
    ensures
        no_newline(s) && no_newline(rep) ==> no_newline(replace(s, pat, rep)),
        s.len() > 0 && rep.len() > 0 ==> replace(s, pat, rep).len() > 0 && (replace(s, pat, rep).last()
            == s.last() || replace(s, pat, rep).last() == rep.last()),
    decreases s.len(),
{
    lemma_find_bounds(s, pat);
    if find(s, pat) is Some {
        let f = find(s, pat)->0;
        let s2 = s.skip(f + pat.len());
        lemma_replace_shape(s2, pat, rep);
        let r2 = replace(s2, pat, rep);
        let r = s.take(f) + rep + r2;
        assert(replace(s, pat, rep) == r);
        if no_newline(s) && no_newline(rep) {
            assert forall|j: int| 0 <= j < s2.len() implies #[trigger] s2[j] != '\n' by {
                assert(s2[j] == s[j + f + pat.len()]);
            }
            assert forall|j: int| 0 <= j < r.len() implies #[trigger] r[j] != '\n' by {
                if j < f {
                    assert(r[j] == s[j]);
                } else if j < f + rep.len() {
                    assert(r[j] == rep[j - f]);
                } else {
                    assert(r[j] == r2[j - f - rep.len()]);
                }
            }
        }
        if s.len() > 0 && rep.len() > 0 {
            if s2.len() > 0 {
                assert(r.last() == r2.last());
                assert(s2.last() == s.last());
            } else {
                crate::text::lemma_find_none(s2, pat);
                assert(r2 == s2);
                assert(r.last() == rep.last());
            }
        }
    }
}

/// Replacing keeps an occurrence of `x` that no occurrence of the pattern
/// overlaps.
#[verifier::spinoff_prover]
proof fn lemma_replace_keeps(s: Seq<char>, pat: Seq<char>, rep: Seq<char>, x: Seq<char>, j: int)
    requires
        pat.len() > 0,
        occurs_at(s, x, j),
        forall|i: int| occurs_at(s, pat, i) ==> i + pat.len() <= j || j + x.len() <= i,
    ensures
        contains(replace(s, pat, rep), x),
    decreases s.len(),
{
    lemma_find_bounds(s, pat);
    if find(s, pat) is Some {
        crate::text::lemma_find_some(s, pat);
        let f = find(s, pat)->0;
        let s2 = s.skip(f + pat.len());
        let r2 = replace(s2, pat, rep);
        let r = s.take(f) + rep + r2;
        assert(replace(s, pat, rep) == r);
        if j + x.len() <= f {
            assert(r.subrange(j, j + x.len()) =~= s.subrange(j, j + x.len()));
            assert(occurs_at(r, x, j));
        } else {
            let j2 = j - f - pat.len();
            assert(s2.subrange(j2, j2 + x.len()) =~= s.subrange(j, j + x.len()));
            assert forall|i: int| occurs_at(s2, pat, i) implies i + pat.len() <= j2 || j2 + x.len() <= i by {
                assert(s.subrange(i + f + pat.len(), i + f + pat.len() + pat.len()) =~= s2.subrange(
                    i,
                    i + pat.len(),
                ));
                assert(occurs_at(s, pat, i + f + pat.len()));
            }
            lemma_replace_keeps(s2, pat, rep, x, j2);
            let q = choose|q: int| occurs_at(r2, x, q);
            let q2 = f + rep.len() + q;
            assert(r.subrange(q2, q2 + x.len()) =~= r2.subrange(q, q + x.len()));
            assert(occurs_at(r, x, q2));
        }
    }
}

/// Replacing in text followed by more text that no occurrence of the
/// pattern reaches leaves the rest as it is.
#[verifier::spinoff_prover]
proof fn lemma_replace_before(y: Seq<char>, z: Seq<char>, pat: Seq<char>, rep: Seq<char>)
    requires
        pat.len() > 0,
        forall|i: int| occurs_at(y + z, pat, i) ==> i + pat.len() <= y.len(),
    ensures
        replace(y + z, pat, rep) == replace(y, pat, rep) + z,
    decreases y.len(),
{
    let s = y + z;
    assert forall|i: int| occurs_at(s, pat, i) implies occurs_at(y, pat, i) by {
        assert(s.subrange(i, i + pat.len()) =~= y.subrange(i, i + pat.len()));
    }
    assert forall|i: int| occurs_at(y, pat, i) implies occurs_at(s, pat, i) by {
        assert(s.subrange(i, i + pat.len()) =~= y.subrange(i, i + pat.len()));
    }
    lemma_find_bounds(y, pat);
    if find(y, pat) is Some {
        crate::text::lemma_find_some(y, pat);
        let f = find(y, pat)->0;
        assert(first_at(s, pat, f));
        lemma_find_first(s, pat, f);
        let y2 = y.skip(f + pat.len());
        assert(s.skip(f + pat.len()) =~= y2 + z);
        assert(s.take(f) =~= y.take(f));
        assert forall|i: int| occurs_at(y2 + z, pat, i) implies i + pat.len() <= y2.len() by {
            assert(s.subrange(i + f + pat.len(), i + f + pat.len() + pat.len()) =~= (y2 + z).subrange(
                i,
                i + pat.len(),
            ));
            assert(occurs_at(s, pat, i + f + pat.len()));
        }
        lemma_replace_before(y2, z, pat, rep);
        assert(y.take(f) + rep + (replace(y2, pat, rep) + z) =~= (y.take(f) + rep + replace(
            y2,
            pat,
            rep,
        )) + z);
    } else {
        assert forall|i: int| !occurs_at(s, pat, i) by {
            if occurs_at(s, pat, i) {
                crate::text::lemma_first_exists(y, pat, i);
            }
        }
        crate::text::lemma_find_none(s, pat);
    }
}

/// In text holding a version assignment at `i` and `path` at `j`, the two
/// do not overlap unless the version itself holds `path`.
proof fn lemma_path_apart(s: Seq<char>, old: Seq<char>, i: int, j: int)
    requires
        occurs_at(s, version_assignment(old), i),
        occurs_at(s, "path"@, j),
        !contains(old, "path"@),
    ensures
        i + version_assignment(old).len() <= j || j + 4 <= i,
{
    let a = version_assignment(old);
    reveal_strlit("path");
    reveal_strlit("version = \"");
    let m = version_marker();
    assert(m =~= seq!['v', 'e', 'r', 's', 'i', 'o', 'n', ' ', '=', ' ', '"']);
    let w = s.subrange(j, j + 4);
    let v = s.subrange(i, i + a.len());
    assert(w =~= seq!['p', 'a', 't', 'h']);
    if j < i < j + 4 {
        assert(s[i] == v[0]);
        assert(v[0] == 'v');
        assert(s[i] == w[i - j]);
    } else if i <= j < i + 11 {
        assert(s[j] == w[0]);
        assert(s[j] == v[j - i]);
        assert(v[j - i] == m[j - i]);
    } else if i + 11 <= j < i + 11 + old.len() {
        if j + 4 <= i + 11 + old.len() {
            let o = j - i - 11;
            assert(old.subrange(o, o + 4) =~= w) by {
                assert forall|y: int| 0 <= y < 4 implies #[trigger] old.subrange(o, o + 4)[y] == w[y] by {
                    assert(v[j - i + y] == a[j - i + y]);
                    assert(a[j - i + y] == old[o + y]);
                    assert(s[j + y] == v[j - i + y]);
                    assert(s[j + y] == w[y]);
                }
            }
            assert(occurs_at(old, "path"@, o));
        } else {
            let e = i + 11 + old.len();
            assert(s[e] == v[e - i]);
            assert(v[e - i] == a[11 + old.len() as int]);
            assert(s[e] == w[e - j]);
        }
    } else if j == i + 11 + old.len() {
        assert(s[j] == v[j - i]);
        assert(s[j] == w[0]);
    }
}

/// The line split around its trimmed part: leading whitespace, the trimmed
/// text, trailing whitespace.
proof fn lemma_trim_parts(line: Seq<char>)
    ensures
        ({
            let lw = crate::text::lead_ws(line) as int;
            let u = line.skip(lw);
            let tw = crate::text::trail_ws(u) as int;
            &&& 0 <= lw <= line.len()
            &&& 0 <= tw <= u.len()
            &&& line == line.take(lw) + trim(line) + u.skip(u.len() - tw)
            &&& trim(line) == u.take(u.len() - tw)
            &&& forall|j: int| 0 <= j < lw ==> is_space(#[trigger] line[j])
            &&& forall|j: int| 0 <= j < tw ==> is_space(#[trigger] u.skip(u.len() - tw)[j])
            &&& trim(line).len() > 0 ==> !is_space(trim(line)[0]) && !is_space(trim(line).last())
        }),
{
    let lw = crate::text::lead_ws(line) as int;
    crate::text::lemma_lead_ws_chars(line);
    let u = line.skip(lw);
    let tw = crate::text::trail_ws(u) as int;
    crate::text::lemma_trail_ws_chars(u);
    let t = trim(line);
    assert(t =~= u.take(u.len() - tw));
    assert(line =~= line.take(lw) + t + u.skip(u.len() - tw));
    assert forall|j: int| 0 <= j < tw implies is_space(#[trigger] u.skip(u.len() - tw)[j]) by {
        assert(u.skip(u.len() - tw)[j] == u[u.len() - tw + j]);
    }
    if t.len() > 0 {
        assert(t[0] == line[lw]);
        assert(t.last() == u[u.len() - tw - 1]);
    }
}

/// The first version assignment in a dependency line is the one the marker
/// starts, so replacing the assignments replaces that one first.
#[verifier::spinoff_prover]
proof fn lemma_first_assignment(line: Seq<char>, name: Seq<char>, old: Seq<char>, new: Seq<char>)
    requires
        dep_version_of_line(line, name) == Some(old),
    ensures
        ({
            let a_old = version_assignment(old);
            let k = crate::text::lead_ws(line) + find(trim(line), version_marker())->0;
            &&& 0 <= k && k + a_old.len() <= line.len()
            &&& replace(line, a_old, version_assignment(new)) == line.take(k) + version_assignment(new)
                + replace(line.skip(k + a_old.len()), a_old, version_assignment(new))
        }),
{
    let m = version_marker();
    let a_old = version_assignment(old);
    let t = trim(line);
    let lw = crate::text::lead_ws(line) as int;
    let vs = find(t, m)->0;
    lemma_assignment_at(t, old);
    lemma_trim_parts(line);
    reveal_strlit("version = \"");
    assert(m.len() == 11);
    assert(a_old[0] == 'v');
    let k = lw + vs;
    assert(line.subrange(k, k + a_old.len()) =~= t.subrange(vs, vs + a_old.len()));
    assert forall|i: int| 0 <= i < k implies !occurs_at(line, a_old, i) by {
        if occurs_at(line, a_old, i) {
            if i < lw {
                assert(line[i] == line.subrange(i, i + a_old.len())[0]);
            } else {
                assert(t.subrange(i - lw, i - lw + 11) =~= line.subrange(i, i + 11));
                assert(line.subrange(i, i + 11) =~= m) by {
                    assert forall|y: int| 0 <= y < 11 implies #[trigger] line.subrange(i, i + 11)[y]
                        == m[y] by {
                        assert(line.subrange(i, i + a_old.len())[y] == line[i + y]);
                        assert(a_old[y] == m[y]);
                    }
                }
                assert(occurs_at(t, m, i - lw));
            }
        }
    }
    assert(first_at(line, a_old, k));
    lemma_find_first(line, a_old, k);
}

/// A patched dependency line: its leading whitespace, the trimmed part with
/// the first assignment replaced and the rest of it patched, its trailing
/// whitespace.
#[verifier::spinoff_prover]
#[verifier::rlimit(40)]
proof fn lemma_patched_layout(line: Seq<char>, name: Seq<char>, old: Seq<char>, new: Seq<char>)
    requires
        dep_version_of_line(line, name) == Some(old),
    ensures
        ({
            let a_old = version_assignment(old);
            let a_new = version_assignment(new);
            let lw = crate::text::lead_ws(line) as int;
            let u = line.skip(lw);
            let w = u.skip(u.len() - crate::text::trail_ws(u));
            let t = trim(line);
            let vs = find(t, version_marker())->0;
            let trest = t.skip(vs + a_old.len());
            &&& 0 <= vs && vs + a_old.len() <= t.len()
            &&& replace(line, a_old, a_new) == line.take(lw) + (t.take(vs) + a_new + replace(
                trest,
                a_old,
                a_new,
            )) + w
        }),
{
    let m = version_marker();
    let a_old = version_assignment(old);
    let a_new = version_assignment(new);
    let t = trim(line);
    let lw = crate::text::lead_ws(line) as int;
    let vs = find(t, m)->0;
    lemma_assignment_at(t, old);
    lemma_trim_parts(line);
    lemma_first_assignment(line, name, old, new);
    let u = line.skip(lw);
    let tw = crate::text::trail_ws(u) as int;
    let w = u.skip(u.len() - tw);
    reveal_strlit("version = \"");
    assert(a_old.last() == '"');
    let k = lw + vs;
    let rest = line.skip(k + a_old.len());
    let trest = t.skip(vs + a_old.len());
    assert(rest =~= trest + w);
    assert forall|i: int| occurs_at(trest + w, a_old, i) implies i + a_old.len() <= trest.len() by {
        if i + a_old.len() > trest.len() {
            let e = i + a_old.len() - 1;
            assert((trest + w)[e] == (trest + w).subrange(i, i + a_old.len())[a_old.len() - 1]);
            assert((trest + w)[e] == w[e - trest.len()]);
        }
    }
    lemma_replace_before(trest, w, a_old, a_new);
    assert(line.take(k) =~= line.take(lw) + t.take(vs));
    let r = replace(trest, a_old, a_new);
    assert(line.take(k) + a_new + (r + w) =~= line.take(lw) + (t.take(vs) + a_new + r) + w);
}

/// Where a dependency line's version assignment comes after the crate's
/// name, and the line names `path` before it, or after it with a version
/// that does not itself hold `path`, replacing the line's assignments of
/// that version with another's gives a line whose version is the new one.
#[verifier::spinoff_prover]
#[verifier::rlimit(40)]
proof fn lemma_patched_line(line: Seq<char>, name: Seq<char>, old: Seq<char>, new: Seq<char>)
    requires
        dep_version_of_line(line, name) == Some(old),
        find(trim(line), version_marker()) matches Some(vs) && name.len() <= vs && (contains(
            trim(line).take(vs),
            "path"@,
        ) || (contains(trim(line).skip(vs + version_assignment(old).len()), "path"@) && !contains(
            old,
            "path"@,
        ))),
        forall|i: int| 0 <= i < new.len() ==> #[trigger] new[i] != '"',
    ensures
        dep_version_of_line(replace(line, version_assignment(old), version_assignment(new)), name)
            == Some(new),
{
    let m = version_marker();
    let a_old = version_assignment(old);
    let a_new = version_assignment(new);
    let t = trim(line);
    let vs = find(t, m)->0;
    lemma_assignment_at(t, old);
    lemma_patched_layout(line, name, old, new);
    let trest = t.skip(vs + a_old.len());
    let r = replace(trest, a_old, a_new);
    let tp = t.take(vs) + a_new + r;
    reveal_strlit("version = \"");
    lemma_replace_shape(trest, a_old, a_new);
    if trest.len() == 0 {
        crate::text::lemma_find_none(trest, a_old);
    }
    assert(a_new[0] == 'v');
    assert(a_new.last() == '"');
    assert(trest =~= t.skip(t.len() - trest.len()));
    lemma_patched_trims(line, tp, r, trest, a_new);
    assert(tp.take(name.len() as int) =~= t.take(name.len() as int));
    lemma_patched_path(t, old, new, vs, r);
    reveal_strlit("version");
    assert(tp.subrange(vs, vs + 7) =~= "version"@);
    assert(occurs_at(tp, "version"@, vs));
    lemma_patched_marker(t, old, new, vs, r);
    lemma_patched_value(t, new, vs, r);
}

/// The patched trimmed line still names `path`.
#[verifier::spinoff_prover]
proof fn lemma_patched_path(t: Seq<char>, old: Seq<char>, new: Seq<char>, vs: int, r: Seq<char>)
    requires
        0 <= vs,
        vs + version_assignment(old).len() <= t.len(),
        r == replace(t.skip(vs + version_assignment(old).len()), version_assignment(old), version_assignment(new)),
        contains(t.take(vs), "path"@) || (contains(t.skip(vs + version_assignment(old).len()), "path"@)
            && !contains(old, "path"@)),
    ensures
        contains(t.take(vs) + version_assignment(new) + r, "path"@),
{
    let a_old = version_assignment(old);
    let a_new = version_assignment(new);
    let trest = t.skip(vs + a_old.len());
    let tp = t.take(vs) + a_new + r;
    reveal_strlit("path");
    reveal_strlit("version = \"");
    assert(a_old.len() > 0);
    if contains(t.take(vs), "path"@) {
        let j = choose|j: int| occurs_at(t.take(vs), "path"@, j);
        assert(tp.subrange(j, j + 4) =~= t.take(vs).subrange(j, j + 4));
        assert(occurs_at(tp, "path"@, j));
    } else {
        let j = choose|j: int| occurs_at(trest, "path"@, j);
        assert forall|i: int| occurs_at(trest, a_old, i) implies i + a_old.len() <= j || j + 4 <= i by {
            lemma_path_apart(trest, old, i, j);
        }
        lemma_replace_keeps(trest, a_old, a_new, "path"@, j);
        let q = choose|q: int| occurs_at(r, "path"@, q);
        assert(tp.subrange(vs + a_new.len() + q, vs + a_new.len() + q + 4) =~= r.subrange(q, q + 4));
        assert(occurs_at(tp, "path"@, vs + a_new.len() + q));
    }
}

/// The patched line trims to its patched trimmed part.
#[verifier::spinoff_prover]
proof fn lemma_patched_trims(line: Seq<char>, tp: Seq<char>, r: Seq<char>, trest: Seq<char>, a_new: Seq<char>)
    requires
        ({
            let lw = crate::text::lead_ws(line) as int;
            let u = line.skip(lw);
            let w = u.skip(u.len() - crate::text::trail_ws(u));
            let t = trim(line);
            let vs = tp.len() - a_new.len() - r.len();
            &&& 0 <= vs <= t.len()
            &&& tp == t.take(vs) + a_new + r
            &&& trest == t.skip(t.len() - trest.len())
            &&& trest.len() <= t.len()
            &&& a_new.len() > 0 && !is_space(a_new[0]) && a_new.last() == '"'
            &&& trest.len() > 0 ==> r.len() > 0 && (r.last() == trest.last() || r.last() == a_new.last())
            &&& trest.len() == 0 ==> r.len() == 0
        }),
    ensures
        ({
            let lw = crate::text::lead_ws(line) as int;
            let u = line.skip(lw);
            let w = u.skip(u.len() - crate::text::trail_ws(u));
            trim(line.take(lw) + tp + w) == tp
        }),
{
    let lw = crate::text::lead_ws(line) as int;
    lemma_trim_parts(line);
    let u = line.skip(lw);
    let tw = crate::text::trail_ws(u) as int;
    let w = u.skip(u.len() - tw);
    let t = trim(line);
    let vs = tp.len() - a_new.len() - r.len();
    let patched = line.take(lw) + tp + w;
    assert(!is_space(tp[0])) by {
        if vs > 0 {
            assert(tp[0] == t[0]);
        } else {
            assert(tp[0] == a_new[0]);
        }
    }
    assert(!is_space(tp.last())) by {
        if trest.len() > 0 {
            assert(trest.last() == t.last());
            assert(tp.last() == r.last());
        } else {
            assert(tp.last() == a_new.last());
        }
    }
    assert forall|j: int| 0 <= j < lw implies is_space(#[trigger] patched[j]) by {
        assert(patched[j] == line[j]);
    }
    assert(patched[lw] == tp[0]);
    crate::text::lemma_lead_ws(patched, lw);
    let up = patched.skip(lw);
    assert(up =~= tp + w);
    assert forall|j: int| tp.len() <= j < up.len() implies is_space(#[trigger] up[j]) by {
        assert(up[j] == w[j - tp.len()]);
    }
    assert(up[tp.len() - 1] == tp.last());
    crate::text::lemma_trail_ws(up, tp.len() as int);
    assert(trim(patched) =~= tp);
}

// ---------------------------------------------------------------------------
// Syncing every crate
// ---------------------------------------------------------------------------

/// The text holds no line feed.
pub open spec fn no_newline(s: Seq<char>) -> bool {
    forall|j: int| 0 <= j < s.len() ==> #[trigger] s[j] != '\n'
}

/// The pieces of `c` between its line feeds, in order: one more than there
/// are line feeds, none holding a line feed.
pub open spec fn pieces(c: Seq<char>) -> Seq<Seq<char>>
    decreases c.len(),
{
    match find(c, seq!['\n']) {
        Some(i) => if 0 <= i < c.len() {
            seq![c.take(i)] + pieces(c.skip(i + 1))
        } else {
            seq![c]
        },
        None => seq![c],
    }
}

#[verifier::spinoff_prover]
#[verifier::rlimit(40)]
proof fn lemma_pieces(c: Seq<char>)
    ensures
        pieces(c).len() >= 1,
        join(pieces(c), seq!['\n']) == c,
        forall|i: int| 0 <= i < pieces(c).len() ==> no_newline(#[trigger] pieces(c)[i]),
    decreases c.len(),
{
    let nl = seq!['\n'];
    lemma_find_bounds(c, nl);
    if find(c, nl) is Some {
        crate::text::lemma_find_some(c, nl);
        let i = find(c, nl)->0;
        let rest = c.skip(i + 1);
        lemma_pieces(rest);
        let ps = pieces(c);
        assert(ps == seq![c.take(i)] + pieces(rest));
        lemma_join_front(ps, nl);
        assert(ps.drop_first() =~= pieces(rest));
        assert(c[i] == '\n') by {
            assert(c.subrange(i, i + 1)[0] == c[i]);
        }
        assert(c.take(i) + nl + rest =~= c);
        assert forall|j: int| 0 <= j < c.take(i).len() implies #[trigger] c.take(i)[j] != '\n' by {
            assert(!occurs_at(c, nl, j));
            if c[j] == '\n' {
                assert(c.subrange(j, j + 1) =~= nl);
            }
        }
        assert forall|k: int| 0 <= k < ps.len() implies no_newline(#[trigger] ps[k]) by {
            if k > 0 {
                assert(ps[k] == pieces(rest)[k - 1]);
            }
        }
    } else {
        assert forall|j: int| 0 <= j < c.len() implies #[trigger] c[j] != '\n' by {
            if c[j] == '\n' {
                assert(c.subrange(j, j + 1) =~= nl);
                crate::text::lemma_first_exists(c, nl, j);
            }
        }
        assert(pieces(c)[0] == c);
    }
}

/// The line that `str::lines` gives for piece `i`: without one trailing
/// carriage return, except for the last piece, which no line feed ends.
pub open spec fn piece_line(ps: Seq<Seq<char>>, i: int) -> Seq<char> {
    if i < ps.len() - 1 {
        strip_cr(ps[i])
    } else {
        ps[i]
    }
}

/// The lines of text with these pieces: one per piece, but none for an
/// empty last piece.
pub open spec fn piece_lines(ps: Seq<Seq<char>>) -> Seq<Seq<char>> {
    let n = if ps.len() > 0 && ps.last().len() == 0 {
        ps.len() - 1
    } else {
        ps.len() as int
    };
    Seq::new(n as nat, |i: int| piece_line(ps, i))
}

proof fn lemma_lines_piece(l: Seq<char>, rest: Seq<char>)
    requires
        no_newline(l),
    ensures
        lines(l + seq!['\n'] + rest) == seq![strip_cr(l)] + lines(rest),
{
    let t = l + seq!['\n'] + rest;
    assert(t[l.len() as int] == '\n');
    assert forall|j: int| 0 <= j < l.len() implies t[j] != '\n' by {
        assert(t[j] == l[j]);
    }
    crate::text::lemma_first_newline(t, l.len() as int);
    assert(t.take(l.len() as int) =~= l);
    assert(t.skip(l.len() + 1int) =~= rest);
}

#[verifier::spinoff_prover]
#[verifier::rlimit(40)]
proof fn lemma_piece_lines(ps: Seq<Seq<char>>)
    requires
        ps.len() >= 1,
        forall|i: int| 0 <= i < ps.len() ==> no_newline(#[trigger] ps[i]),
    ensures
        lines(join(ps, seq!['\n'])) == piece_lines(ps),
    decreases ps.len(),
{
    let nl = seq!['\n'];
    if ps.len() == 1 {
        let s = ps[0];
        assert(no_newline(s));
        assert(join(ps, nl) == s);
        if s.len() == 0 {
            assert(lines(s) =~= Seq::<Seq<char>>::empty());
            assert(piece_lines(ps) =~= Seq::<Seq<char>>::empty());
        } else {
            lemma_no_newline(s);
            assert(lines(s) =~= seq![s]);
            assert(piece_lines(ps) =~= seq![s]);
        }
    } else {
        let rest = ps.drop_first();
        assert forall|i: int| 0 <= i < rest.len() implies no_newline(#[trigger] rest[i]) by {
            assert(rest[i] == ps[i + 1]);
        }
        lemma_piece_lines(rest);
        lemma_join_front(ps, nl);
        assert(no_newline(ps[0]));
        lemma_lines_piece(ps[0], join(rest, nl));
        assert(ps.last() == rest.last());
        assert(piece_lines(ps) =~= seq![strip_cr(ps[0])] + piece_lines(rest)) by {
            assert forall|i: int| 1 <= i < piece_lines(ps).len() implies piece_lines(ps)[i]
                == piece_lines(rest)[i - 1] by {
                assert(ps[i] == rest[i - 1]);
            }
        }
    }
}

/// `str::replace` within pieces of text, where the pattern holds no line
/// feed: every piece alone.
pub open spec fn replaced_pieces(ps: Seq<Seq<char>>, pat: Seq<char>, rep: Seq<char>) -> Seq<Seq<char>> {
    ps.map_values(|s: Seq<char>| replace(s, pat, rep))
}

#[verifier::spinoff_prover]
#[verifier::rlimit(40)]
proof fn lemma_replace_glue(a: Seq<char>, b: Seq<char>, pat: Seq<char>, rep: Seq<char>)
    requires
        pat.len() > 0,
        no_newline(pat),
        no_newline(a),
    ensures
        replace(a + seq!['\n'] + b, pat, rep) == replace(a, pat, rep) + seq!['\n'] + replace(
            b,
            pat,
            rep,
        ),
    decreases a.len(),
{
    let nl = seq!['\n'];
    let s = a + nl + b;
    assert forall|j: int| occurs_at(s, pat, j) && j <= a.len() implies j + pat.len() <= a.len() by {
        if j + pat.len() > a.len() {
            let q = a.len() - j;
            assert(s[a.len() as int] == '\n');
            assert(pat[q] == s.subrange(j, j + pat.len())[q]);
        }
    }
    lemma_find_bounds(a, pat);
    if find(a, pat) is Some {
        crate::text::lemma_find_some(a, pat);
        let i = find(a, pat)->0;
        assert(s.subrange(i, i + pat.len()) =~= a.subrange(i, i + pat.len()));
        assert forall|j: int| 0 <= j < i implies !occurs_at(s, pat, j) by {
            assert(!occurs_at(a, pat, j));
            if occurs_at(s, pat, j) {
                assert(s.subrange(j, j + pat.len()) =~= a.subrange(j, j + pat.len()));
            }
        }
        assert(first_at(s, pat, i));
        lemma_find_first(s, pat, i);
        let a2 = a.skip(i + pat.len());
        assert(s.skip(i + pat.len()) =~= a2 + nl + b);
        assert forall|j: int| 0 <= j < a2.len() implies #[trigger] a2[j] != '\n' by {
            assert(a2[j] == a[j + i + pat.len()]);
        }
        lemma_replace_glue(a2, b, pat, rep);
        assert(s.take(i) =~= a.take(i));
        assert(a.take(i) + rep + (replace(a2, pat, rep) + nl + replace(b, pat, rep)) =~= (a.take(i)
            + rep + replace(a2, pat, rep)) + nl + replace(b, pat, rep));
    } else {
        lemma_find_bounds(b, pat);
        if find(b, pat) is Some {
            crate::text::lemma_find_some(b, pat);
            let k = find(b, pat)->0;
            let i = a.len() + 1 + k;
            assert(s.subrange(i, i + pat.len()) =~= b.subrange(k, k + pat.len()));
            assert forall|j: int| 0 <= j < i implies !occurs_at(s, pat, j) by {
                if occurs_at(s, pat, j) {
                    if j <= a.len() {
                        assert(s.subrange(j, j + pat.len()) =~= a.subrange(j, j + pat.len()));
                        crate::text::lemma_first_exists(a, pat, j);
                    } else {
                        assert(s.subrange(j, j + pat.len()) =~= b.subrange(
                            j - a.len() - 1,
                            j - a.len() - 1 + pat.len(),
                        ));
                        assert(!occurs_at(b, pat, j - a.len() - 1));
                    }
                }
            }
            assert(first_at(s, pat, i));
            lemma_find_first(s, pat, i);
            assert(s.take(i) =~= a + nl + b.take(k));
            assert(s.skip(i + pat.len()) =~= b.skip(k + pat.len()));
            assert((a + nl + b.take(k)) + rep + replace(b.skip(k + pat.len()), pat, rep) =~= a + nl
                + (b.take(k) + rep + replace(b.skip(k + pat.len()), pat, rep)));
        } else {
            assert forall|j: int| !occurs_at(s, pat, j) by {
                if occurs_at(s, pat, j) {
                    if j <= a.len() {
                        assert(s.subrange(j, j + pat.len()) =~= a.subrange(j, j + pat.len()));
                        crate::text::lemma_first_exists(a, pat, j);
                    } else {
                        assert(s.subrange(j, j + pat.len()) =~= b.subrange(
                            j - a.len() - 1,
                            j - a.len() - 1 + pat.len(),
                        ));
                        crate::text::lemma_first_exists(b, pat, j - a.len() - 1);
                    }
                }
            }
            crate::text::lemma_find_none(s, pat);
        }
    }
}

/// Replacing a pattern without line feeds in text replaces it in each piece
/// between the line feeds.
#[verifier::spinoff_prover]
#[verifier::rlimit(40)]
proof fn lemma_replace_pieces(ps: Seq<Seq<char>>, pat: Seq<char>, rep: Seq<char>)
    requires
        ps.len() >= 1,
        forall|i: int| 0 <= i < ps.len() ==> no_newline(#[trigger] ps[i]),
        pat.len() > 0,
        no_newline(pat),
    ensures
        replace(join(ps, seq!['\n']), pat, rep) == join(replaced_pieces(ps, pat, rep), seq!['\n']),
    decreases ps.len(),
{
    let nl = seq!['\n'];
    let qs = replaced_pieces(ps, pat, rep);
    if ps.len() == 1 {
        assert(join(ps, nl) == ps[0]);
        assert(join(qs, nl) == qs[0]);
    } else {
        let rest = ps.drop_first();
        assert forall|i: int| 0 <= i < rest.len() implies no_newline(#[trigger] rest[i]) by {
            assert(rest[i] == ps[i + 1]);
        }
        lemma_replace_pieces(rest, pat, rep);
        lemma_join_front(ps, nl);
        lemma_join_front(qs, nl);
        assert(qs.drop_first() =~= replaced_pieces(rest, pat, rep));
        assert(no_newline(ps[0]));
        lemma_replace_glue(ps[0], join(rest, nl), pat, rep);
    }
}

proof fn lemma_replace_absent(s: Seq<char>, pat: Seq<char>, rep: Seq<char>)
    requires
        pat.len() > 0,
        !contains(s, pat),
    ensures
        replace(s, pat, rep) == s,
{
    crate::text::lemma_find_none(s, pat);
}

proof fn lemma_contains_more(s: Seq<char>, x: Seq<char>, t: Seq<char>)
    requires
        contains(s, x),
    ensures
        contains(s + t, x),
{
    let j = choose|j: int| occurs_at(s, x, j);
    assert((s + t).subrange(j, j + x.len()) =~= s.subrange(j, j + x.len()));
    assert(occurs_at(s + t, x, j));
}

/// The line of a piece of text: the piece, or without its carriage return.
pub open spec fn line_of_piece(piece: Seq<char>, last: bool) -> Seq<char> {
    if last {
        piece
    } else {
        strip_cr(piece)
    }
}

proof fn lemma_piece_holds_line(piece: Seq<char>, last: bool)
    ensures
        contains(piece, line_of_piece(piece, last)),
        piece == line_of_piece(piece, last) || piece == line_of_piece(piece, last) + seq!['\r'],
{
    let line = line_of_piece(piece, last);
    if piece != line {
        assert(piece =~= line + seq!['\r']);
    }
    assert(piece.subrange(0, line.len() as int) =~= line);
    assert(occurs_at(piece, line, 0));
}

/// A patched dependency line holds no line feed, and ends as the line did
/// or with the closing quote of its new version.
#[verifier::spinoff_prover]
proof fn lemma_patched_plain(line: Seq<char>, name: Seq<char>, old: Seq<char>, new: Seq<char>)
    requires
        no_newline(line),
        dep_version_of_line(line, name) == Some(old),
        find(trim(line), version_marker()) matches Some(vs) && name.len() <= vs && (contains(
            trim(line).take(vs),
            "path"@,
        ) || (contains(trim(line).skip(vs + version_assignment(old).len()), "path"@) && !contains(
            old,
            "path"@,
        ))),
        forall|i: int| 0 <= i < new.len() ==> #[trigger] new[i] != '"' && new[i] != '\n',
    ensures
        ({
            let patched = replace(line, version_assignment(old), version_assignment(new));
            &&& line.len() > 0
            &&& no_newline(patched)
            &&& patched.len() > 0
            &&& (patched.last() == line.last() || patched.last() == '"')
            &&& dep_version_of_line(patched, name) == Some(new)
        }),
{
    let a_old = version_assignment(old);
    let a_new = version_assignment(new);
    lemma_patched_line(line, name, old, new);
    lemma_assignment_at(trim(line), old);
    lemma_trim_len(line);
    reveal_strlit("version = \"");
    assert(a_new.len() == 12 + new.len());
    assert forall|j: int| 0 <= j < a_new.len() implies #[trigger] a_new[j] != '\n' by {
        if 11 <= j < 11 + new.len() {
            assert(a_new[j] == new[j - 11]);
        }
    }
    lemma_replace_shape(line, a_old, a_new);
}

/// A dependency line followed by a carriage return holds the line only at
/// its start.
proof fn lemma_line_once_before_cr(line: Seq<char>)
    requires
        contains(trim(line), "path"@),
    ensures
        forall|j: int| occurs_at(line + seq!['\r'], line, j) ==> j == 0,
{
    let piece = line + seq!['\r'];
    let t = trim(line);
    let q = choose|q: int| occurs_at(t, "path"@, q);
    reveal_strlit("path");
    let lw = crate::text::lead_ws(line) as int;
    crate::text::lemma_lead_ws_chars(line);
    crate::text::lemma_trail_ws_chars(line.skip(lw));
    assert(t[q] == 'p' && t[q + 1] == 'a') by {
        assert(t.subrange(q, q + 4)[0] == t[q]);
        assert(t.subrange(q, q + 4)[1] == t[q + 1]);
    }
    assert(t[q] == line[lw + q]);
    assert(t[q + 1] == line[lw + q + 1]);
    assert forall|j: int| occurs_at(piece, line, j) implies j == 0 by {
        if j == 1 {
            assert(piece.subrange(1, 1 + line.len() as int)[lw + q] == line[lw + q]);
            assert(piece[lw + q + 1] == line[lw + q + 1]);
        }
    }
}

/// Patching the dependency line of a piece of text: the piece's line
/// becomes the patched line, which gives the new version.
#[verifier::spinoff_prover]
proof fn lemma_piece_patch(piece: Seq<char>, last: bool, name: Seq<char>, old: Seq<char>, new: Seq<char>)
    requires
        no_newline(piece),
        dep_version_of_line(line_of_piece(piece, last), name) == Some(old),
        find(trim(line_of_piece(piece, last)), version_marker()) matches Some(vs) && name.len()
            <= vs && (contains(trim(line_of_piece(piece, last)).take(vs), "path"@) || (contains(
            trim(line_of_piece(piece, last)).skip(vs + version_assignment(old).len()),
            "path"@,
        ) && !contains(old, "path"@))),
        forall|i: int| 0 <= i < new.len() ==> #[trigger] new[i] != '"' && new[i] != '\n',
    ensures
        ({
            let line = line_of_piece(piece, last);
            let patched = replace(line, version_assignment(old), version_assignment(new));
            let r = replace(piece, line, patched);
            &&& line.len() > 0
            &&& no_newline(line)
            &&& no_newline(r)
            &&& r.len() > 0
            &&& line_of_piece(r, last) == patched
            &&& (r == patched || r == patched + seq!['\r'])
            &&& dep_version_of_line(patched, name) == Some(new)
        }),
{
    let line = line_of_piece(piece, last);
    let patched = replace(line, version_assignment(old), version_assignment(new));
    lemma_piece_holds_line(piece, last);
    assert forall|j: int| 0 <= j < line.len() implies #[trigger] line[j] != '\n' by {
        assert(line[j] == piece[j]);
    }
    lemma_patched_plain(line, name, old, new);
    if piece == line {
        assert forall|j: int| occurs_at(piece, line, j) implies j == 0 by {}
        lemma_replace_single(piece, line, patched, 0);
        assert(piece.take(0) + patched + piece.skip(line.len() as int) =~= patched);
        if !last {
            assert(strip_cr(piece) == piece);
            assert(patched.last() != '\r');
        }
    } else {
        assert(piece =~= line + seq!['\r']);
        lemma_line_once_before_cr(line);
        lemma_replace_single(piece, line, patched, 0);
        assert(piece.take(0) + patched + piece.skip(line.len() as int) =~= patched + seq!['\r']);
        assert((patched + seq!['\r']).drop_last() =~= patched);
        let r = patched + seq!['\r'];
        assert forall|j: int| 0 <= j < r.len() implies #[trigger] r[j] != '\n' by {
            if j < patched.len() {
                assert(r[j] == patched[j]);
            }
        }
    }
}

/// The index of the first dependency line for `name` among `ls`.
pub open spec fn first_dep(ls: Seq<Seq<char>>, name: Seq<char>) -> int
    decreases ls.len(),
{
    if ls.len() == 0 {
        0
    } else if dep_version_of_line(ls[0], name) is Some {
        0
    } else {
        1 + first_dep(ls.drop_first(), name)
    }
}
proof fn lemma_first_dep(ls: Seq<Seq<char>>, name: Seq<char>)
    ensures
        match dep_line_in(ls, name) {
            Some((line, v)) => {
                let i = first_dep(ls, name);
                &&& 0 <= i < ls.len()
                &&& line == ls[i]
                &&& dep_version_of_line(ls[i], name) == Some(v)
                &&& forall|j: int| 0 <= j < i ==> dep_version_of_line(#[trigger] ls[j], name) is None
            },
            None => forall|j: int|
                0 <= j < ls.len() ==> dep_version_of_line(#[trigger] ls[j], name) is None,
        },
    decreases ls.len(),
{
    if ls.len() > 0 {
        let rest = ls.drop_first();
        lemma_first_dep(rest, name);
        if dep_version_of_line(ls[0], name) is None {
            assert forall|j: int| 1 <= j < ls.len() implies ls[j] == rest[j - 1] by {}
            match dep_line_in(rest, name) {
                Some((line, v)) => {
                    let i = first_dep(ls, name);
                    assert forall|j: int| 0 <= j < i implies dep_version_of_line(
                        #[trigger] ls[j],
                        name,
                    ) is None by {
                        if j > 0 {
                            assert(ls[j] == rest[j - 1]);
                        }
                    }
                    assert(ls[i] == rest[i - 1]);
                },
                None => {
                    assert forall|j: int| 0 <= j < ls.len() implies dep_version_of_line(
                        #[trigger] ls[j],
                        name,
                    ) is None by {
                        if j > 0 {
                            assert(ls[j] == rest[j - 1]);
                        }
                    }
                },
            }
        }
    }
}

proof fn lemma_dep_line_in_none(ls: Seq<Seq<char>>, name: Seq<char>)
    requires
        forall|j: int| 0 <= j < ls.len() ==> dep_version_of_line(#[trigger] ls[j], name) is None,
    ensures
        dep_line_in(ls, name) is None,
{
    lemma_first_dep(ls, name);
}

/// The first dependency line for `name`, found by its index.
proof fn lemma_dep_line_at(ls: Seq<Seq<char>>, name: Seq<char>, i: int, v: Seq<char>)
    requires
        0 <= i < ls.len(),
        dep_version_of_line(ls[i], name) == Some(v),
        forall|j: int| 0 <= j < i ==> dep_version_of_line(#[trigger] ls[j], name) is None,
    ensures
        dep_line_in(ls, name) == Some((ls[i], v)),
        first_dep(ls, name) == i,
{
    lemma_first_dep(ls, name);
    if dep_line_in(ls, name) is None {
        assert(dep_version_of_line(ls[i], name) is None);
    } else {
        let f = first_dep(ls, name);
        if f < i {
            assert(dep_version_of_line(ls[f], name) is None);
        } else if f > i {
            assert(dep_version_of_line(ls[i], name) is None);
        }
    }
}

/// Changes that leave each line a non-dependency line for `name`, or that
/// come after its first dependency line, leave that first line in place.
proof fn lemma_dep_line_in_pointwise(ls: Seq<Seq<char>>, ls2: Seq<Seq<char>>, name: Seq<char>)
    requires
        ls2.len() == ls.len(),
        forall|i: int|
            0 <= i < ls.len() ==> ls2[i] == ls[i] || (dep_version_of_line(#[trigger] ls[i], name) is None
                && dep_version_of_line(ls2[i], name) is None) || (dep_line_in(ls, name) is Some && i
                > first_dep(ls, name)),
    ensures
        dep_line_in(ls2, name) == dep_line_in(ls, name),
        dep_line_in(ls, name) is Some ==> first_dep(ls2, name) == first_dep(ls, name),
{
    lemma_first_dep(ls, name);
    lemma_first_dep(ls2, name);
    match dep_line_in(ls, name) {
        Some((line, v)) => {
            let f = first_dep(ls, name);
            assert forall|j: int| 0 <= j < f implies dep_version_of_line(#[trigger] ls2[j], name) is None by {
                assert(dep_version_of_line(ls[j], name) is None);
            }
            assert(dep_version_of_line(ls[f], name) is Some);
            assert(ls2[f] == ls[f]);
            lemma_dep_line_at(ls2, name, f, v);
        },
        None => {
            assert forall|j: int| 0 <= j < ls2.len() implies dep_version_of_line(#[trigger] ls2[j], name)
                is None by {
                assert(dep_version_of_line(ls[j], name) is None);
            }
            lemma_dep_line_in_none(ls2, name);
        },
    }
}

/// The line that a crate's sync changes in the manifest lines `ls`, and
/// the line it becomes: `None` where the crate `versions[k]` names has no
/// dependency line, or its line already gives the version.
pub open spec fn synced_change(
    ls: Seq<Seq<char>>,
    versions: Seq<(Seq<char>, Seq<char>)>,
    k: int,
) -> Option<(Seq<char>, Seq<char>)> {
    match dep_line_in(ls, versions[k].0) {
        Some((line, old)) => if old != versions[k].1 {
            Some((line, replace(line, version_assignment(old), version_assignment(versions[k].1))))
        } else {
            None
        },
        None => None,
    }
}

/// Where the sync changes the line of crate `versions[k]` in the manifest
/// `content`: the new version holds no double quote or line feed; the
/// crate's name ends before the line's version assignment; the line names
/// `path` before that assignment, or after it with an old version that does
/// not itself hold `path`; and every other piece of the text between line
/// feeds that holds the line (and so changes with it) is, before and after
/// the change, no dependency line of any crate, and after the change holds
/// no line that another crate's sync changes.
pub open spec fn sync_patchable(
    content: Seq<char>,
    versions: Seq<(Seq<char>, Seq<char>)>,
    k: int,
) -> bool {
    let ls = lines(content);
    let ps = pieces(content);
    match synced_change(ls, versions, k) {
        Some((line, patched)) => {
            let name = versions[k].0;
            let new = versions[k].1;
            let old = dep_version_of_line(line, name)->0;
            &&& forall|i: int| 0 <= i < new.len() ==> #[trigger] new[i] != '"' && new[i] != '\n'
            &&& find(trim(line), version_marker()) matches Some(vs) && name.len() <= vs && (contains(
                trim(line).take(vs),
                "path"@,
            ) || (contains(trim(line).skip(vs + version_assignment(old).len()), "path"@)
                && !contains(old, "path"@)))
            &&& forall|i: int|
                0 <= i < ps.len() && i != first_dep(ls, name) && contains(#[trigger] ps[i], line)
                    ==> copy_stays_apart(content, versions, k, i)
        },
        None => true,
    }
}

/// A piece `i` of the manifest text, other than the crate's dependency line,
/// holding the line that the sync of crate `versions[k]` changes: before
/// and after the change it is no dependency line of any crate, and after
/// the change it holds no line that another crate's sync changes.
pub open spec fn copy_stays_apart(
    content: Seq<char>,
    versions: Seq<(Seq<char>, Seq<char>)>,
    k: int,
    i: int,
) -> bool {
    let ls = lines(content);
    let ps = pieces(content);
    let last = i == ps.len() - 1;
    let line = (synced_change(ls, versions, k)->0).0;
    let changed = replace(ps[i], line, (synced_change(ls, versions, k)->0).1);
    &&& forall|j: int|
        0 <= j < versions.len() ==> dep_version_of_line(line_of_piece(ps[i], last), #[trigger] versions[j].0)
            is None && dep_version_of_line(line_of_piece(changed, last), versions[j].0) is None
    &&& forall|m: int|
        0 <= m < versions.len() && m != k && #[trigger] synced_change(ls, versions, m) is Some
            ==> !contains(changed, (synced_change(ls, versions, m)->0).0)
}

/// The sync of crate `versions[j]` stays clear of crate `versions[m]`:
/// where it changes a line, that line, before and after the change, is no
/// dependency line for the other crate, unless the other crate's own
/// dependency line comes first; and the changed line, even followed by a
/// carriage return, does not contain the line that the other crate's sync
/// changes.
pub open spec fn sync_apart(
    content: Seq<char>,
    versions: Seq<(Seq<char>, Seq<char>)>,
    j: int,
    m: int,
) -> bool {
    let ls = lines(content);
    match synced_change(ls, versions, j) {
        Some((line, patched)) => {
            &&& (dep_line_in(ls, versions[m].0) is Some && first_dep(ls, versions[m].0) < first_dep(
                ls,
                versions[j].0,
            )) || (dep_version_of_line(line, versions[m].0) is None && dep_version_of_line(
                patched,
                versions[m].0,
            ) is None)
            &&& synced_change(ls, versions, m) matches Some((other, _)) ==> !contains(
                patched + seq!['\r'],
                other,
            )
        },
        None => true,
    }
}

/// Each line that the sync of `content` changes can be patched in place,
/// and the crates' syncs stay clear of each other.
pub open spec fn sync_conditions(content: Seq<char>, versions: Seq<(Seq<char>, Seq<char>)>) -> bool {
    &&& forall|j: int| 0 <= j < versions.len() ==> #[trigger] sync_patchable(content, versions, j)
    &&& forall|j: int, m: int|
        0 <= j < versions.len() && 0 <= m < versions.len() && j != m ==> #[trigger] sync_apart(
            content,
            versions,
            j,
            m,
        )
}

/// The pieces of the manifest text after syncing the first `k` crates.
spec fn synced_pieces(content: Seq<char>, versions: Seq<(Seq<char>, Seq<char>)>, k: int) -> Seq<
    Seq<char>,
>
    decreases k,
{
    if k <= 0 {
        pieces(content)
    } else {
        let prev = synced_pieces(content, versions, k - 1);
        match synced_change(lines(content), versions, k - 1) {
            Some((line, patched)) => replaced_pieces(prev, line, patched),
            None => prev,
        }
    }
}

/// What holds after syncing the first `k` crates.
spec fn sync_state(content: Seq<char>, versions: Seq<(Seq<char>, Seq<char>)>, k: int) -> bool {
    let ls = lines(content);
    let ps = pieces(content);
    let pk = synced_pieces(content, versions, k);
    let lk = piece_lines(pk);
    &&& pk.len() == ps.len()
    &&& forall|i: int| 0 <= i < pk.len() ==> no_newline(#[trigger] pk[i])
    &&& sync_upto(content, versions, k).0 == join(pk, seq!['\n'])
    &&& lk.len() == ls.len()
    &&& forall|j: int|
        0 <= j < versions.len() ==> ((dep_line_in(lk, #[trigger] versions[j].0) is Some)
            == (dep_line_in(ls, versions[j].0) is Some)) && (dep_line_in(ls, versions[j].0) is Some
            ==> first_dep(lk, versions[j].0) == first_dep(ls, versions[j].0))
    &&& forall|j: int|
        k <= j < versions.len() ==> dep_line_in(lk, #[trigger] versions[j].0) == dep_line_in(
            ls,
            versions[j].0,
        )
    &&& forall|j: int|
        0 <= j < k ==> (dep_line_in(lk, #[trigger] versions[j].0) matches Some((_, v)) ==> v
            == versions[j].1)
    &&& forall|m: int|
        k <= m < versions.len() && #[trigger] synced_change(ls, versions, m) is Some ==> pk[first_dep(
            ls,
            versions[m].0,
        )] == ps[first_dep(ls, versions[m].0)]
    &&& forall|m: int, i: int|
        #![trigger pk[i], synced_change(ls, versions, m)]
        k <= m < versions.len() && synced_change(ls, versions, m) is Some && 0 <= i < pk.len()
            && contains(pk[i], (synced_change(ls, versions, m)->0).0) ==> pk[i] == ps[i]
}

#[verifier::spinoff_prover]
#[verifier::rlimit(40)]
proof fn lemma_sync_start(content: Seq<char>, versions: Seq<(Seq<char>, Seq<char>)>)
    ensures
        sync_state(content, versions, 0),
{
    let ls = lines(content);
    let ps = pieces(content);
    lemma_pieces(content);
    lemma_piece_lines(ps);
    assert(synced_pieces(content, versions, 0) == ps);
}

/// One crate's sync where it changes a line: the text and its pieces.
#[verifier::spinoff_prover]
#[verifier::rlimit(60)]
proof fn lemma_sync_change_text(content: Seq<char>, versions: Seq<(Seq<char>, Seq<char>)>, k: int)
    requires
        sync_conditions(content, versions),
        0 <= k < versions.len(),
        sync_state(content, versions, k),
        synced_change(lines(content), versions, k) is Some,
    ensures
        ({
            let ls = lines(content);
            let ps = pieces(content);
            let prev = synced_pieces(content, versions, k);
            let next = synced_pieces(content, versions, k + 1);
            let fd = first_dep(ls, versions[k].0);
            let line = (synced_change(ls, versions, k)->0).0;
            let patched = (synced_change(ls, versions, k)->0).1;
            &&& 0 <= fd < ls.len()
            &&& next.len() == prev.len()
            &&& forall|i: int| 0 <= i < next.len() ==> no_newline(#[trigger] next[i])
            &&& sync_upto(content, versions, k + 1).0 == join(next, seq!['\n'])
            &&& piece_lines(next).len() == piece_lines(prev).len()
            &&& piece_lines(next)[fd] == patched
            &&& (next[fd] == patched || next[fd] == patched + seq!['\r'])
            &&& piece_lines(prev)[fd] == line
            &&& dep_version_of_line(patched, versions[k].0) == Some(versions[k].1)
            &&& forall|i: int|
                0 <= i < next.len() && i != fd ==> (next[i] == prev[i] || (prev[i] == ps[i] && contains(
                    ps[i],
                    line,
                ) && #[trigger] next[i] == replace(ps[i], line, patched)))
        }),
{
    let ls = lines(content);
    let ps = pieces(content);
    let prev = synced_pieces(content, versions, k);
    let lk = piece_lines(prev);
    let name = versions[k].0;
    let v = versions[k].1;
    let line = (synced_change(ls, versions, k)->0).0;
    let patched = (synced_change(ls, versions, k)->0).1;
    let old = (dep_line_in(ls, name)->0).1;
    lemma_first_dep(ls, name);
    let fd = first_dep(ls, name);
    assert(dep_line_in(lk, name) == dep_line_in(ls, name));
    assert(first_dep(lk, name) == fd);
    lemma_first_dep(lk, name);
    assert(lk[fd] == line);
    assert(prev[fd] == ps[fd]);
    let last = fd == prev.len() - 1;
    assert(piece_line(prev, fd) == line);
    assert(line_of_piece(prev[fd], last) == line);
    assert(sync_patchable(content, versions, k));
    assert(dep_version_of_line(line, name) == Some(old));
    lemma_piece_patch(prev[fd], last, name, old, v);
    let r = replace(prev[fd], line, patched);
    let ck = join(prev, seq!['\n']);
    lemma_pieces(content);
    lemma_piece_lines(prev);
    assert(lines(ck) == lk);
    assert(sync_one(ck, name, v) == Some((replace(ck, line, patched), old)));
    lemma_replace_pieces(prev, line, patched);
    let next = replaced_pieces(prev, line, patched);
    assert(synced_pieces(content, versions, k + 1) == next);
    assert(sync_upto(content, versions, k + 1).0 == join(next, seq!['\n']));
    assert(next[fd] == r);
    assert forall|i: int| 0 <= i < next.len() && i != fd implies (next[i] == prev[i] || (prev[i] == ps[i]
        && contains(ps[i], line) && #[trigger] next[i] == replace(ps[i], line, patched))) by {
        if !contains(prev[i], line) {
            lemma_replace_absent(prev[i], line, patched);
        } else {
            assert(contains(prev[i], (synced_change(ls, versions, k)->0).0));
        }
    }
    assert forall|i: int| 0 <= i < next.len() implies no_newline(#[trigger] next[i]) by {
        assert(no_newline(prev[i]));
        lemma_replace_shape(prev[i], line, patched);
    }
    // The last piece stays empty, or not.
    let n = prev.len();
    lemma_replace_shape(prev[n - 1], line, patched);
    if prev[n - 1].len() == 0 {
        crate::text::lemma_find_none(prev[n - 1], line);
    }
    assert(next.last() == next[n - 1]);
    assert(piece_lines(next).len() == piece_lines(prev).len());
    assert(piece_lines(next)[fd] == piece_line(next, fd));
}

/// One crate's sync where it changes a line.
#[verifier::spinoff_prover]
#[verifier::rlimit(60)]
proof fn lemma_sync_change(content: Seq<char>, versions: Seq<(Seq<char>, Seq<char>)>, k: int)
    requires
        sync_conditions(content, versions),
        0 <= k < versions.len(),
        sync_state(content, versions, k),
        synced_change(lines(content), versions, k) is Some,
    ensures
        sync_state(content, versions, k + 1),
{
    let ls = lines(content);
    let ps = pieces(content);
    let prev = synced_pieces(content, versions, k);
    let next = synced_pieces(content, versions, k + 1);
    let lk = piece_lines(prev);
    let lk1 = piece_lines(next);
    let name = versions[k].0;
    let v = versions[k].1;
    let line = (synced_change(ls, versions, k)->0).0;
    let patched = (synced_change(ls, versions, k)->0).1;
    lemma_sync_change_text(content, versions, k);
    let fd = first_dep(ls, name);
    assert(sync_patchable(content, versions, k));
    // Each line changes only at the crate's line, or where a copy of it
    // changes, which is no dependency line before or after.
    assert forall|i: int| 0 <= i < lk.len() && i != fd && lk1[i] != lk[i] implies copy_stays_apart(
        content,
        versions,
        k,
        i,
    ) && lk[i] == line_of_piece(ps[i], i == ps.len() - 1) && lk1[i] == line_of_piece(
        replace(ps[i], line, patched),
        i == ps.len() - 1,
    ) by {
        assert(lk1[i] == piece_line(next, i));
        assert(lk[i] == piece_line(prev, i));
        assert(next[i] != prev[i]);
        assert(next[i] == replace(ps[i], line, patched));
    }
    // The other crates' first dependency lines stay where they were.
    assert forall|j: int| 0 <= j < versions.len() && j != k implies dep_line_in(
        lk1,
        #[trigger] versions[j].0,
    ) == dep_line_in(lk, versions[j].0) && (dep_line_in(lk, versions[j].0) is Some ==> first_dep(
        lk1,
        versions[j].0,
    ) == first_dep(lk, versions[j].0)) by {
        assert(sync_apart(content, versions, k, j));
        assert forall|i: int| 0 <= i < lk.len() implies lk1[i] == lk[i] || (dep_version_of_line(
            #[trigger] lk[i],
            versions[j].0,
        ) is None && dep_version_of_line(lk1[i], versions[j].0) is None) || (dep_line_in(
            lk,
            versions[j].0,
        ) is Some && i > first_dep(lk, versions[j].0)) by {
            if i != fd && lk1[i] != lk[i] {
                assert(copy_stays_apart(content, versions, k, i));
            }
        }
        lemma_dep_line_in_pointwise(lk, lk1, versions[j].0);
    }
    // This crate's line now gives its version.
    assert(first_dep(lk, name) == fd);
    lemma_first_dep(lk, name);
    assert forall|j: int| 0 <= j < fd implies dep_version_of_line(#[trigger] lk1[j], name) is None by {
        if lk1[j] != lk[j] {
            assert(copy_stays_apart(content, versions, k, j));
        }
    }
    lemma_dep_line_at(lk1, name, fd, v);
    // The lines that later syncs change are still where they were, and
    // any piece holding one is as it was.
    assert forall|m: int|
        k + 1 <= m < versions.len() && #[trigger] synced_change(ls, versions, m) is Some implies next[first_dep(
        ls,
        versions[m].0,
    )] == ps[first_dep(ls, versions[m].0)] by {
        let fm = first_dep(ls, versions[m].0);
        assert(sync_apart(content, versions, k, m));
        lemma_first_dep(ls, versions[m].0);
        lemma_first_dep(ls, name);
        assert(fm != fd);
        if next[fm] != prev[fm] {
            assert(copy_stays_apart(content, versions, k, fm));
            lemma_pieces(content);
            lemma_piece_lines(ps);
            assert(ls[fm] == piece_line(ps, fm));
        }
    }
    assert forall|m: int, i: int|
        #![trigger next[i], synced_change(ls, versions, m)]
        k + 1 <= m < versions.len() && synced_change(ls, versions, m) is Some && 0 <= i < next.len()
            && contains(next[i], (synced_change(ls, versions, m)->0).0) implies next[i] == ps[i] by {
        let other = (synced_change(ls, versions, m)->0).0;
        if i == fd {
            assert(sync_apart(content, versions, k, m));
            assert(!contains(patched + seq!['\r'], other));
            if contains(patched, other) {
                lemma_contains_more(patched, other, seq!['\r']);
            }
        } else if next[i] != prev[i] {
            assert(copy_stays_apart(content, versions, k, i));
        }
    }
}

proof fn lemma_sync_steps(content: Seq<char>, versions: Seq<(Seq<char>, Seq<char>)>, k: int)
    requires
        sync_conditions(content, versions),
        0 <= k <= versions.len(),
    ensures
        sync_state(content, versions, k),
    decreases k,
{
    if k == 0 {
        lemma_sync_start(content, versions);
    } else {
        lemma_sync_steps(content, versions, k - 1);
        if synced_change(lines(content), versions, k - 1) is Some {
            lemma_sync_change(content, versions, k - 1);
        } else {
            lemma_sync_keep(content, versions, k - 1);
        }
    }
}

/// One crate's sync where its line already gives its version, or it has
/// none.
#[verifier::spinoff_prover]
#[verifier::rlimit(40)]
proof fn lemma_sync_keep(content: Seq<char>, versions: Seq<(Seq<char>, Seq<char>)>, k: int)
    requires
        0 <= k < versions.len(),
        sync_state(content, versions, k),
        synced_change(lines(content), versions, k) is None,
    ensures
        sync_state(content, versions, k + 1),
{
    let ls = lines(content);
    let prev = synced_pieces(content, versions, k);
    let lk = piece_lines(prev);
    let name = versions[k].0;
    lemma_pieces(content);
    lemma_piece_lines(prev);
    let ck = join(prev, seq!['\n']);
    assert(lines(ck) == lk);
    assert(dep_line_in(lk, name) == dep_line_in(ls, name));
    assert(sync_one(ck, name, versions[k].1) is None);
    assert(synced_pieces(content, versions, k + 1) == prev);
}

/// Syncing every crate gives each crate's workspace dependency line the
/// crate's version: for any manifest text where each line that the sync
/// changes can be patched in place and the crates' syncs stay clear of each
/// other, a crate with a dependency line before the sync has one after it,
/// and it gives the crate's version.
pub proof fn lemma_sync_all_sets_versions(content: Seq<char>, versions: Seq<(Seq<char>, Seq<char>)>)
    requires
        sync_conditions(content, versions),
    ensures
        forall|k: int|
            0 <= k < versions.len() ==> match dep_line_in(
                lines(sync_upto(content, versions, versions.len() as int).0),
                #[trigger] versions[k].0,
            ) {
                Some((_, v)) => v == versions[k].1 && dep_line_in(lines(content), versions[k].0) is Some,
                None => dep_line_in(lines(content), versions[k].0) is None,
            },
{
    let n = versions.len() as int;
    lemma_sync_steps(content, versions, n);
    lemma_pieces(content);
    lemma_piece_lines(synced_pieces(content, versions, n));
}

/// A second sync changes nothing: after syncing every crate, under the same
/// conditions, syncing the same versions again leaves the manifest as it is
/// and reports no change.
pub proof fn lemma_sync_all_idempotent(content: Seq<char>, versions: Seq<(Seq<char>, Seq<char>)>)
    requires
        sync_conditions(content, versions),
    ensures
        sync_upto(sync_upto(content, versions, versions.len() as int).0, versions, versions.len() as int)
            == (
            sync_upto(content, versions, versions.len() as int).0,
            Seq::<(Seq<char>, Seq<char>, Seq<char>)>::empty(),
        ),
{
    let n = versions.len() as int;
    let synced = sync_upto(content, versions, n).0;
    lemma_sync_all_sets_versions(content, versions);
    assert forall|j: int| 0 <= j < n implies match #[trigger] dep_line_in(lines(synced), versions[j].0) {
        Some((_, old)) => old == versions[j].1,
        None => true,
    } by {
        let _ = versions[j];
    }
    lemma_sync_in_sync_is_identity(synced, versions, n);
}

} // verus!
