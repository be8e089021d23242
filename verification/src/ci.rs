//! The command lines of the release procedures (git, knope, cargo, gh), and
//! the GitHub deployment requests.
//!
//! A command line is a list of words: the program, then its arguments.

use vstd::prelude::*;

use crate::text::{
    all_digits, chars_of, eq_chars, pair_views, find, find_chars, is_digit, join, join_chars, lemma_find_bounds,
    push_all, push_str, slice, string_of, string_views, trim, trim_chars, contains, occurs_at,
    first_at, lemma_find_first, is_space,
};

verus! {

/// A command line: the program and its arguments.
pub type CommandLine = Vec<String>;

pub open spec fn words(c: Seq<String>) -> Seq<Seq<char>> {
    string_views(c)
}

/// `<program> <arg> <arg> ...`: how a command line is shown in logs.
pub open spec fn display(words: Seq<Seq<char>>) -> Seq<char> {
    if words.len() == 0 {
        seq![]
    } else {
        words[0] + seq![' '] + join(words.drop_first(), " "@)
    }
}

/// How a command line is shown in logs.
pub fn command_display(cmd: &CommandLine) -> (s: String)
    ensures
        s@ == display(words(cmd@)),
{
    if cmd.len() == 0 {
        return String::new();
    }
    let mut out = chars_of(cmd[0].as_str());
    out.push(' ');
    let mut rest: Vec<String> = Vec::new();
    let mut i: usize = 1;
    while i < cmd.len()
        invariant
            1 <= i <= cmd@.len(),
            string_views(rest@) == words(cmd@).drop_first().take(i - 1),
        decreases cmd.len() - i,
    {
        let ghost before = string_views(rest@);
        let w = cmd[i].clone();
        assert(w@ == cmd@[i as int]@);
        rest.push(w);
        assert(string_views(rest@) =~= before.push(cmd@[i as int]@));
        assert(words(cmd@).drop_first().take(i as int) =~= words(cmd@).drop_first().take(i - 1).push(
            cmd@[i as int]@,
        ));
        i = i + 1;
    }
    assert(words(cmd@).drop_first().take(cmd@.len() - 1) =~= words(cmd@).drop_first());
    let joined = join_chars(&rest, " ");
    push_all(&mut out, &joined);
    string_of(&out)
}

fn words_of(ws: Vec<&str>) -> (r: CommandLine)
    ensures
        words(r@) == ws@.map_values(|w: &str| w@),
{
    let mut out: Vec<String> = Vec::new();
    let mut i: usize = 0;
    while i < ws.len()
        invariant
            i <= ws@.len(),
            words(out@) == ws@.take(i as int).map_values(|w: &str| w@),
        decreases ws.len() - i,
    {
        let ghost before = words(out@);
        let w = ws[i].to_string();
        assert(w@ == ws@[i as int]@);
        out.push(w);
        assert(words(out@) =~= before.push(ws@[i as int]@));
        assert(ws@.take(i + 1) =~= ws@.take(i as int).push(ws@[i as int]));
        assert(words(out@) =~= ws@.take(i + 1).map_values(|w: &str| w@));
        i = i + 1;
    }
    assert(ws@.take(ws@.len() as int) =~= ws@);
    out
}

// ---------------------------------------------------------------------------
// git
// ---------------------------------------------------------------------------

/// `git merge-base --is-ancestor <ancestor> <branch>`.
pub fn git_is_ancestor(ancestor: &str, branch: &str) -> (c: CommandLine)
    ensures
        words(c@) == seq!["git"@, "merge-base"@, "--is-ancestor"@, ancestor@, branch@],
{
    let c = words_of(vec!["git", "merge-base", "--is-ancestor", ancestor, branch]);
    assert(words(c@) =~= seq!["git"@, "merge-base"@, "--is-ancestor"@, ancestor@, branch@]);
    c
}

/// The commands that set the CI bot's identity for commits:
/// `git config user.name ...` and `git config user.email ...`.
pub fn git_configure() -> (cs: Vec<CommandLine>)
    ensures
        cs@.len() == 2,
        words(cs@[0]@) == seq!["git"@, "config"@, "user.name"@, "github-actions[bot]"@],
        words(cs@[1]@) == seq![
            "git"@,
            "config"@,
            "user.email"@,
            "github-actions[bot]@users.noreply.github.com"@,
        ],
{
    let name = words_of(vec!["git", "config", "user.name", "github-actions[bot]"]);
    let email = words_of(
        vec!["git", "config", "user.email", "github-actions[bot]@users.noreply.github.com"],
    );
    assert(words(name@) =~= seq!["git"@, "config"@, "user.name"@, "github-actions[bot]"@]);
    assert(words(email@) =~= seq![
        "git"@,
        "config"@,
        "user.email"@,
        "github-actions[bot]@users.noreply.github.com"@,
    ]);
    vec![name, email]
}

/// `git rev-parse <ref>`: the SHA of a ref.
pub fn git_rev_parse(refspec: &str) -> (c: CommandLine)
    ensures
        words(c@) == seq!["git"@, "rev-parse"@, refspec@],
{
    let c = words_of(vec!["git", "rev-parse", refspec]);
    assert(words(c@) =~= seq!["git"@, "rev-parse"@, refspec@]);
    c
}

/// `git show-ref --verify --quiet refs/remotes/origin/<branch>`: whether a
/// remote branch exists.
pub fn git_remote_branch_exists(branch: &str) -> (c: CommandLine)
    ensures
        words(c@) == seq![
            "git"@,
            "show-ref"@,
            "--verify"@,
            "--quiet"@,
            "refs/remotes/origin/"@ + branch@,
        ],
{
    let mut r = chars_of("refs/remotes/origin/");
    push_str(&mut r, branch);
    let reference = string_of(&r);
    let c = words_of(vec!["git", "show-ref", "--verify", "--quiet", reference.as_str()]);
    assert(words(c@) =~= seq![
        "git"@,
        "show-ref"@,
        "--verify"@,
        "--quiet"@,
        "refs/remotes/origin/"@ + branch@,
    ]);
    c
}

/// `git checkout <branch>`, or with a start point
/// `git -c advice.detachedHead=false checkout -B <branch> <start>`.
pub open spec fn checkout_words(branch: Seq<char>, create_at: Option<Seq<char>>) -> Seq<Seq<char>> {
    match create_at {
        Some(start) => seq![
            "git"@,
            "-c"@,
            "advice.detachedHead=false"@,
            "checkout"@,
            "-B"@,
            branch,
            start,
        ],
        None => seq!["git"@, "checkout"@, branch],
    }
}

pub fn git_checkout(branch: &str, create_at: Option<&str>) -> (c: CommandLine)
    ensures
        words(c@) == checkout_words(
            branch@,
            match create_at {
                Some(s) => Some(s@),
                None => None,
            },
        ),
{
    match create_at {
        Some(start) => {
            let c = words_of(
                vec!["git", "-c", "advice.detachedHead=false", "checkout", "-B", branch, start],
            );
            assert(words(c@) =~= checkout_words(branch@, Some(start@)));
            c
        },
        None => {
            let c = words_of(vec!["git", "checkout", branch]);
            assert(words(c@) =~= checkout_words(branch@, None));
            c
        },
    }
}

/// `git merge <ref> -m <message>`.
pub fn git_merge(ref_: &str, message: &str) -> (c: CommandLine)
    ensures
        words(c@) == seq!["git"@, "merge"@, ref_@, "-m"@, message@],
{
    let c = words_of(vec!["git", "merge", ref_, "-m", message]);
    assert(words(c@) =~= seq!["git"@, "merge"@, ref_@, "-m"@, message@]);
    c
}

/// `git add -A`.
pub fn git_add_all() -> (c: CommandLine)
    ensures
        words(c@) == seq!["git"@, "add"@, "-A"@],
{
    let c = words_of(vec!["git", "add", "-A"]);
    assert(words(c@) =~= seq!["git"@, "add"@, "-A"@]);
    c
}

/// `git commit -m <message>`.
pub fn git_commit(message: &str) -> (c: CommandLine)
    ensures
        words(c@) == seq!["git"@, "commit"@, "-m"@, message@],
{
    let c = words_of(vec!["git", "commit", "-m", message]);
    assert(words(c@) =~= seq!["git"@, "commit"@, "-m"@, message@]);
    c
}

/// `git push origin <branch or tag>`.
pub fn git_push(target: &str) -> (c: CommandLine)
    ensures
        words(c@) == seq!["git"@, "push"@, "origin"@, target@],
{
    let c = words_of(vec!["git", "push", "origin", target]);
    assert(words(c@) =~= seq!["git"@, "push"@, "origin"@, target@]);
    c
}

/// `git tag <tag>`.
pub fn git_tag(tag: &str) -> (c: CommandLine)
    ensures
        words(c@) == seq!["git"@, "tag"@, tag@],
{
    let c = words_of(vec!["git", "tag", tag]);
    assert(words(c@) =~= seq!["git"@, "tag"@, tag@]);
    c
}

/// `git tag -l <pattern>`.
pub fn git_tag_list(pattern: &str) -> (c: CommandLine)
    ensures
        words(c@) == seq!["git"@, "tag"@, "-l"@, pattern@],
{
    let c = words_of(vec!["git", "tag", "-l", pattern]);
    assert(words(c@) =~= seq!["git"@, "tag"@, "-l"@, pattern@]);
    c
}

// ---------------------------------------------------------------------------
// knope, cargo, gh
// ---------------------------------------------------------------------------

/// `knope prepare-release`, with `--prerelease-label <label>` for a
/// pre-release.
pub open spec fn prepare_release_words(label: Option<Seq<char>>) -> Seq<Seq<char>> {
    match label {
        Some(l) => seq!["knope"@, "prepare-release"@, "--prerelease-label"@, l],
        None => seq!["knope"@, "prepare-release"@],
    }
}

pub fn knope_prepare_release(label: Option<&str>) -> (c: CommandLine)
    ensures
        words(c@) == prepare_release_words(
            match label {
                Some(l) => Some(l@),
                None => None,
            },
        ),
{
    match label {
        Some(l) => {
            let c = words_of(vec!["knope", "prepare-release", "--prerelease-label", l]);
            assert(words(c@) =~= prepare_release_words(Some(l@)));
            c
        },
        None => {
            let c = words_of(vec!["knope", "prepare-release"]);
            assert(words(c@) =~= prepare_release_words(None));
            c
        },
    }
}

/// `knope release`.
pub fn knope_release() -> (c: CommandLine)
    ensures
        words(c@) == seq!["knope"@, "release"@],
{
    let c = words_of(vec!["knope", "release"]);
    assert(words(c@) =~= seq!["knope"@, "release"@]);
    c
}

/// `cargo publish --package <crate>`, with `--dry-run` on a dry run.
pub open spec fn publish_words(krate: Seq<char>, dry_run: bool) -> Seq<Seq<char>> {
    if dry_run {
        seq!["cargo"@, "publish"@, "--package"@, krate, "--dry-run"@]
    } else {
        seq!["cargo"@, "publish"@, "--package"@, krate]
    }
}

pub fn cargo_publish(krate: &str, dry_run: bool) -> (c: CommandLine)
    ensures
        words(c@) == publish_words(krate@, dry_run),
{
    if dry_run {
        let c = words_of(vec!["cargo", "publish", "--package", krate, "--dry-run"]);
        assert(words(c@) =~= publish_words(krate@, dry_run));
        c
    } else {
        let c = words_of(vec!["cargo", "publish", "--package", krate]);
        assert(words(c@) =~= publish_words(krate@, dry_run));
        c
    }
}

/// `gh release create <tag> --title <title> --notes-file <path>`.
pub fn gh_release_create(tag: &str, title: &str, notes_path: &str) -> (c: CommandLine)
    ensures
        words(c@) == seq![
            "gh"@,
            "release"@,
            "create"@,
            tag@,
            "--title"@,
            title@,
            "--notes-file"@,
            notes_path@,
        ],
{
    let c = words_of(vec!["gh", "release", "create", tag, "--title", title, "--notes-file", notes_path]);
    assert(words(c@) =~= seq![
        "gh"@,
        "release"@,
        "create"@,
        tag@,
        "--title"@,
        title@,
        "--notes-file"@,
        notes_path@,
    ]);
    c
}

/// Whether a `gh api` call with this method changes anything (every method
/// but `GET`).
pub open spec fn is_mutating(method: Seq<char>) -> bool {
    method != "GET"@
}

pub fn is_mutating_method(method: &str) -> (b: bool)
    ensures
        b == is_mutating(method@),
{
    !eq_chars(&chars_of(method), &chars_of("GET"))
}

/// `<key>=<value>` for each field, after the flag `flag`.
pub open spec fn field_words(flag: Seq<char>, fields: Seq<(Seq<char>, Seq<char>)>) -> Seq<Seq<char>>
    decreases fields.len(),
{
    if fields.len() == 0 {
        seq![]
    } else {
        field_words(flag, fields.drop_last()) + seq![
            flag,
            fields.last().0 + seq!['='] + fields.last().1,
        ]
    }
}

fn push_fields(c: &mut CommandLine, flag: &str, fields: &Vec<(String, String)>)
    ensures
        words(final(c)@) == words(old(c)@) + field_words(flag@, pair_views(fields@)),
{
    let ghost start = words(c@);
    let mut i: usize = 0;
    while i < fields.len()
        invariant
            i <= fields@.len(),
            words(c@) == start + field_words(flag@, pair_views(fields@).take(i as int)),
        decreases fields.len() - i,
    {
        let (k, v) = &fields[i];
        let mut kv = chars_of(k.as_str());
        kv.push('=');
        push_str(&mut kv, v.as_str());
        assert(kv@ == fields@[i as int].0@ + seq!['='] + fields@[i as int].1@);
        let ghost before = words(c@);
        let f = flag.to_string();
        assert(f@ == flag@);
        c.push(f);
        c.push(string_of(&kv));
        assert(words(c@) =~= before + seq![flag@, fields@[i as int].0@ + seq!['='] + fields@[i as int].1@]);
        assert(pair_views(fields@).take(i + 1).drop_last() =~= pair_views(fields@).take(i as int));
        assert(pair_views(fields@).take(i + 1).last() == (fields@[i as int].0@, fields@[i as int].1@));
        i = i + 1;
    }
    assert(pair_views(fields@).take(fields@.len() as int) =~= pair_views(fields@));
}

/// `gh api <endpoint> --method <method>`, then `-f <key>=<value>` for each
/// string field and `-F <key>=<value>` for each typed field.
pub open spec fn gh_api_words(
    endpoint: Seq<char>,
    method: Seq<char>,
    fields: Seq<(Seq<char>, Seq<char>)>,
    raw_fields: Seq<(Seq<char>, Seq<char>)>,
) -> Seq<Seq<char>> {
    seq!["gh"@, "api"@, endpoint, "--method"@, method] + field_words("-f"@, fields) + field_words(
        "-F"@,
        raw_fields,
    )
}

/// The `gh api` command line.
pub fn gh_api_command(endpoint: &str, method: &str, fields: &Vec<(String, String)>, raw_fields: &Vec<
    (String, String),
>) -> (c: CommandLine)
    ensures
        words(c@) == gh_api_words(endpoint@, method@, pair_views(fields@), pair_views(raw_fields@)),
{
    let mut c = words_of(vec!["gh", "api", endpoint, "--method", method]);
    assert(words(c@) =~= seq!["gh"@, "api"@, endpoint@, "--method"@, method@]);
    push_fields(&mut c, "-f", fields);
    push_fields(&mut c, "-F", raw_fields);
    c
}

/// What a `gh api` call comes to before anything runs.
pub enum ApiPlan {
    /// A dry run of a call that changes something: the line saying what
    /// would run, and the answer given in place of the API's (`{}`).
    DryRun { log: String, answer: String },
    /// The command to run.
    Run(CommandLine),
}

/// A `gh api` call: on a dry run of a call that changes something (any
/// method but `GET`), nothing runs; the line
/// `[dry-run] would run: gh api ...` is logged and the answer is `{}`.
/// Otherwise the command runs, read-only calls even on a dry run.
pub fn gh_api(
    endpoint: &str,
    method: &str,
    fields: &Vec<(String, String)>,
    raw_fields: &Vec<(String, String)>,
    dry_run: bool,
) -> (r: ApiPlan)
    ensures
        match r {
            ApiPlan::DryRun { log, answer } => dry_run && is_mutating(method@) && log@
                == "[dry-run] would run: "@ + display(
                gh_api_words(endpoint@, method@, pair_views(fields@), pair_views(raw_fields@)),
            ) && answer@ == "{}"@,
            ApiPlan::Run(c) => !(dry_run && is_mutating(method@)) && words(c@) == gh_api_words(
                endpoint@,
                method@,
                pair_views(fields@),
                pair_views(raw_fields@),
            ),
        },
{
    let c = gh_api_command(endpoint, method, fields, raw_fields);
    if dry_run && is_mutating_method(method) {
        let mut log = chars_of("[dry-run] would run: ");
        push_str(&mut log, command_display(&c).as_str());
        ApiPlan::DryRun { log: string_of(&log), answer: "{}".to_string() }
    } else {
        ApiPlan::Run(c)
    }
}

/// What running a command gave: it could not start (the error's text), or
/// it finished, successfully or not, with what it printed.
pub enum CommandOutput {
    NotStarted(String),
    Finished { success: bool, stdout: String, stderr: String },
}

/// The answer of a `gh api` call from what running it gave: the trimmed
/// standard output of a successful run, or an error naming the endpoint and
/// giving the standard error.
pub open spec fn api_answer(endpoint: Seq<char>, out: CommandOutput) -> Result<Seq<char>, Seq<char>> {
    match out {
        CommandOutput::NotStarted(e) => Err("failed to run gh api: "@ + e@),
        CommandOutput::Finished { success, stdout, stderr } => if success {
            Ok(trim(stdout@))
        } else {
            Err("gh api "@ + endpoint + " failed: "@ + stderr@)
        },
    }
}

/// The answer of a `gh api` call, from what running it gave.
pub fn gh_api_result(endpoint: &str, out: &CommandOutput) -> (r: Result<String, String>)
    ensures
        match r {
            Ok(a) => api_answer(endpoint@, *out) == Ok::<Seq<char>, Seq<char>>(a@),
            Err(e) => api_answer(endpoint@, *out) == Err::<Seq<char>, Seq<char>>(e@),
        },
{
    match out {
        CommandOutput::NotStarted(e) => {
            let mut m = chars_of("failed to run gh api: ");
            push_str(&mut m, e.as_str());
            Err(string_of(&m))
        },
        CommandOutput::Finished { success, stdout, stderr } => {
            if *success {
                Ok(string_of(&trim_chars(&chars_of(stdout.as_str()))))
            } else {
                let mut m = chars_of("gh api ");
                push_str(&mut m, endpoint);
                push_str(&mut m, " failed: ");
                push_str(&mut m, stderr.as_str());
                Err(string_of(&m))
            }
        },
    }
}

// ---------------------------------------------------------------------------
// GitHub deployments
// ---------------------------------------------------------------------------

/// The deployments endpoint of the current repository.
pub open spec fn deployments_endpoint() -> Seq<char> {
    "repos/{owner}/{repo}/deployments"@
}

/// The JSON body that creates a deployment of `ref_` to `environment`.
pub open spec fn deployment_json(environment: Seq<char>, ref_: Seq<char>, description: Seq<char>) -> Seq<
    char,
> {
    "{\"ref\":\""@ + ref_ + "\",\"environment\":\""@ + environment + "\",\"description\":\""@
        + description + "\",\"auto_merge\":false,\"required_contexts\":[]}"@
}

pub fn deployment_body(environment: &str, ref_: &str, description: &str) -> (s: String)
    ensures
        s@ == deployment_json(environment@, ref_@, description@),
{
    let mut out = chars_of("{\"ref\":\"");
    push_str(&mut out, ref_);
    push_str(&mut out, "\",\"environment\":\"");
    push_str(&mut out, environment);
    push_str(&mut out, "\",\"description\":\"");
    push_str(&mut out, description);
    push_str(&mut out, "\",\"auto_merge\":false,\"required_contexts\":[]}");
    string_of(&out)
}

/// The statuses endpoint of a deployment.
pub open spec fn statuses_endpoint(id: Seq<char>) -> Seq<char> {
    "repos/{owner}/{repo}/deployments/"@ + id + "/statuses"@
}

pub fn deployment_statuses_endpoint(id: &str) -> (s: String)
    ensures
        s@ == statuses_endpoint(id@),
{
    let mut out = chars_of("repos/{owner}/{repo}/deployments/");
    push_str(&mut out, id);
    push_str(&mut out, "/statuses");
    string_of(&out)
}

/// The JSON body of a deployment status.
pub open spec fn status_json(state: Seq<char>, description: Seq<char>) -> Seq<char> {
    "{\"state\":\""@ + state + "\",\"description\":\""@ + description + "\"}"@
}

pub fn deployment_status_body(state: &str, description: &str) -> (s: String)
    ensures
        s@ == status_json(state@, description@),
{
    let mut out = chars_of("{\"state\":\"");
    push_str(&mut out, state);
    push_str(&mut out, "\",\"description\":\"");
    push_str(&mut out, description);
    push_str(&mut out, "\"}");
    string_of(&out)
}

/// The longest prefix of ASCII digits.
pub open spec fn digit_prefix_len(s: Seq<char>) -> nat
    decreases s.len(),
{
    if s.len() > 0 && is_digit(s[0]) {
        1 + digit_prefix_len(s.drop_first())
    } else {
        0
    }
}

/// The deployment id in a response to a deployment request: after the
/// first `"id":`, up to the next one, trimmed, the leading run of ASCII
/// digits; `None` without an `"id":` or where no digit follows it.
pub open spec fn deployment_id_of(response: Seq<char>) -> Option<Seq<char>> {
    let key = "\"id\":"@;
    match find(response, key) {
        Some(i) => {
            let rest = response.skip(i + key.len());
            let piece = match find(rest, key) {
                Some(j) => rest.take(j),
                None => rest,
            };
            let t = trim(piece);
            if digit_prefix_len(t) > 0 {
                Some(t.take(digit_prefix_len(t) as int))
            } else {
                None
            }
        },
        None => None,
    }
}

proof fn lemma_digit_prefix(s: Seq<char>, k: int)
    requires
        0 <= k <= s.len(),
        forall|j: int| 0 <= j < k ==> is_digit(#[trigger] s[j]),
        k == s.len() || !is_digit(s[k]),
    ensures
        digit_prefix_len(s) == k,
    decreases k,
{
    if k > 0 {
        let t = s.drop_first();
        assert forall|j: int| 0 <= j < k - 1 implies is_digit(#[trigger] t[j]) by {
            assert(t[j] == s[j + 1]);
        }
        lemma_digit_prefix(t, k - 1);
    }
}

/// The first `"id":` of `p + "id": + r`, where `p` holds none, is the one
/// after `p`.
#[verifier::spinoff_prover]
proof fn lemma_first_id_key(p: Seq<char>, r: Seq<char>)
    requires
        !contains(p, "\"id\":"@),
    ensures
        find(p + "\"id\":"@ + r, "\"id\":"@) == Some(p.len() as int),
{
    let key = "\"id\":"@;
    reveal_strlit("\"id\":");
    assert(key =~= seq!['"', 'i', 'd', '"', ':']);
    let s = p + key + r;
    let pl = p.len() as int;
    assert(s.subrange(pl, pl + 5) =~= key);
    assert forall|x: int| 0 <= x < pl implies !occurs_at(s, key, x) by {
        if occurs_at(s, key, x) {
            let w = s.subrange(x, x + 5);
            if x + 5 <= pl {
                assert(p.subrange(x, x + 5) =~= w);
                assert(occurs_at(p, key, x));
            } else {
                let d = pl - x;
                assert(s[pl] == '"');
                assert(s[pl + 1] == 'i');
                assert(w[d] == s[pl]);
                if d == 3 {
                    assert(w[4] == s[pl + 1]);
                }
            }
        }
    }
    assert(first_at(s, key, pl));
    lemma_find_first(s, key, pl);
}

/// Digits followed by a non-digit (or nothing): the id read after the key
/// is those digits.
#[verifier::spinoff_prover]
proof fn lemma_id_digits(n: Seq<char>, q: Seq<char>)
    requires
        n.len() > 0,
        forall|i: int| 0 <= i < n.len() ==> is_digit(#[trigger] n[i]),
        q.len() == 0 || !is_digit(q[0]),
    ensures
        ({
            let rest = n + q;
            let key = "\"id\":"@;
            let piece = match find(rest, key) {
                Some(j) => rest.take(j),
                None => rest,
            };
            let t = trim(piece);
            digit_prefix_len(t) == n.len() && t.take(n.len() as int) == n
        }),
{
    let key = "\"id\":"@;
    reveal_strlit("\"id\":");
    assert(key =~= seq!['"', 'i', 'd', '"', ':']);
    let rest = n + q;
    assert forall|x: int| 0 <= x < n.len() implies !occurs_at(rest, key, x) by {
        if occurs_at(rest, key, x) {
            assert(rest[x] == rest.subrange(x, x + 5)[0]);
            assert(rest[x] == n[x]);
        }
    }
    lemma_find_bounds(rest, key);
    let piece = match find(rest, key) {
        Some(j) => rest.take(j),
        None => rest,
    };
    if find(rest, key) is Some {
        crate::text::lemma_find_some(rest, key);
        let j = find(rest, key)->0;
        assert(j >= n.len());
    }
    assert(piece.len() >= n.len());
    assert(piece.take(n.len() as int) =~= n);
    assert(piece[0] == n[0]);
    assert(!is_space(piece[0]));
    crate::text::lemma_lead_ws(piece, 0);
    assert(piece.skip(0) =~= piece);
    crate::text::lemma_trail_ws_chars(piece);
    let tw = crate::text::trail_ws(piece) as int;
    assert(tw <= piece.len() - n.len()) by {
        if tw > piece.len() - n.len() {
            assert(piece[n.len() - 1] == n[n.len() - 1]);
        }
    }
    let t = trim(piece);
    assert(t =~= piece.take(piece.len() - tw));
    assert forall|i: int| 0 <= i < n.len() implies is_digit(#[trigger] t[i]) by {
        assert(t[i] == n[i]);
    }
    if n.len() < t.len() {
        assert(t[n.len() as int] == q[0]);
    }
    lemma_digit_prefix(t, n.len() as int);
    assert(t.take(n.len() as int) =~= n);
}

/// The deployment id is the run of digits right after the first `"id":`
/// of the response, whatever follows: for a response `p + "id": + n + q`
/// where `p` holds no `"id":`, `n` is a run of digits and `q` is empty or
/// starts with something other than a digit (a later object's own `"id":`
/// among it), the id is `n`.
pub proof fn lemma_deployment_id_is_first(p: Seq<char>, n: Seq<char>, q: Seq<char>)
    requires
        !contains(p, "\"id\":"@),
        n.len() > 0,
        forall|i: int| 0 <= i < n.len() ==> is_digit(#[trigger] n[i]),
        q.len() == 0 || !is_digit(q[0]),
    ensures
        deployment_id_of(p + "\"id\":"@ + n + q) == Some(n),
{
    let key = "\"id\":"@;
    let s = p + key + n + q;
    lemma_first_id_key(p, n + q);
    assert(s =~= p + key + (n + q));
    reveal_strlit("\"id\":");
    assert(s.skip((p.len() + key.len()) as int) =~= n + q);
    lemma_id_digits(n, q);
}

/// Reads the id of a created deployment from the API's response: a
/// non-empty run of ASCII digits, or the parse error.
pub fn deployment_id(response: &str) -> (r: Result<String, String>)
    ensures
        match r {
            Ok(id) => deployment_id_of(response@) == Some(id@) && id@.len() > 0 && forall|i: int|
                0 <= i < id@.len() ==> is_digit(#[trigger] id@[i]),
            Err(e) => deployment_id_of(response@) is None && e@
                == "cannot parse deployment id from response"@,
        },
{
    let s = chars_of(response);
    let key = chars_of("\"id\":");
    match find_chars(&s, &key) {
        Some(i) => {
            proof {
                lemma_find_bounds(s@, key@);
            }
            let n = s.len();
            let rest = slice(&s, i + key.len(), n);
            assert(rest@ =~= s@.skip(i + key@.len()));
            let piece = match find_chars(&rest, &key) {
                Some(j) => {
                    proof {
                        lemma_find_bounds(rest@, key@);
                    }
                    let p = slice(&rest, 0, j);
                    assert(p@ =~= rest@.take(j as int));
                    p
                },
                None => rest,
            };
            let t = trim_chars(&piece);
            let mut k: usize = 0;
            while k < t.len() && 48 <= (t[k] as u32) && (t[k] as u32) <= 57
                invariant
                    k <= t@.len(),
                    forall|j: int| 0 <= j < k ==> is_digit(#[trigger] t@[j]),
                decreases t.len() - k,
            {
                k = k + 1;
            }
            proof {
                lemma_digit_prefix(t@, k as int);
            }
            if k == 0 {
                return Err("cannot parse deployment id from response".to_string());
            }
            let id = slice(&t, 0, k);
            assert(id@ =~= t@.take(k as int));
            Ok(string_of(&id))
        },
        None => Err("cannot parse deployment id from response".to_string()),
    }
}

} // verus!
