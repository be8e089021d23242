//! Character-level text model shared by the parsers of this crate.
//!
//! Text is modelled as `Seq<char>`, the view of `str` and `String`; the
//! executable code works on `Vec<char>`. The spec functions here say what
//! the `str` methods that the parsers rely on (`trim`, `lines`, `find`,
//! `split_once`, `str::parse`) compute.

use vstd::prelude::*;

verus! {

/// The characters of a string slice, in order.
pub fn chars_of(s: &str) -> (v: Vec<char>)
    ensures
        v@ == s@,
{
    let mut v: Vec<char> = Vec::new();
    for c in it: s.chars()
        invariant
            it.seq() == s@,
            v@ == s@.take(it.index() as int),
    {
        v.push(c);
        assert(v@ =~= s@.take(it.index() + 1));
    }
    assert(v@ =~= s@);
    v
}

/// The string made of the given characters: `String::from_iter` over
/// `&char`. Claims that the string's characters are exactly these, in
/// order.
#[verifier::external_body]
pub(crate) fn string_of(v: &Vec<char>) -> (s: String)
    ensures
        s@ == v@,
{
    String::from_iter(v)
}

// ---------------------------------------------------------------------------
// Whitespace and trimming
// ---------------------------------------------------------------------------

/// The Unicode `White_Space` property, which `char::is_whitespace` tests.
pub open spec fn is_space(c: char) -> bool {
    let u = c as u32;
    ||| 0x09 <= u <= 0x0d
    ||| u == 0x20
    ||| u == 0x85
    ||| u == 0xa0
    ||| u == 0x1680
    ||| 0x2000 <= u <= 0x200a
    ||| u == 0x2028
    ||| u == 0x2029
    ||| u == 0x202f
    ||| u == 0x205f
    ||| u == 0x3000
}

pub fn is_space_char(c: char) -> (b: bool)
    ensures
        b == is_space(c),
{
    let u = c as u32;
    (0x09 <= u && u <= 0x0d) || u == 0x20 || u == 0x85 || u == 0xa0 || u == 0x1680 || (0x2000
        <= u && u <= 0x200a) || u == 0x2028 || u == 0x2029 || u == 0x202f || u == 0x205f || u
        == 0x3000
}

/// Number of whitespace characters at the start of `s`.
pub open spec fn lead_ws(s: Seq<char>) -> nat
    decreases s.len(),
{
    if s.len() > 0 && is_space(s[0]) {
        1 + lead_ws(s.drop_first())
    } else {
        0
    }
}

/// Number of whitespace characters at the end of `s`.
pub open spec fn trail_ws(s: Seq<char>) -> nat
    decreases s.len(),
{
    if s.len() > 0 && is_space(s.last()) {
        1 + trail_ws(s.drop_last())
    } else {
        0
    }
}

/// `str::trim_start`.
pub open spec fn trim_start(s: Seq<char>) -> Seq<char> {
    s.skip(lead_ws(s) as int)
}

/// `str::trim_end`.
pub open spec fn trim_end(s: Seq<char>) -> Seq<char> {
    s.take(s.len() - trail_ws(s))
}

/// `str::trim`.
pub open spec fn trim(s: Seq<char>) -> Seq<char> {
    trim_end(trim_start(s))
}

/// Whether every character of `s` is whitespace (then `trim(s)` is empty).
pub open spec fn is_blank(s: Seq<char>) -> bool {
    forall|i: int| 0 <= i < s.len() ==> is_space(#[trigger] s[i])
}

pub proof fn lemma_lead_ws(s: Seq<char>, i: int)
    requires
        0 <= i <= s.len(),
        forall|j: int| 0 <= j < i ==> is_space(#[trigger] s[j]),
        i == s.len() || !is_space(s[i]),
    ensures
        lead_ws(s) == i,
    decreases i,
{
    if i > 0 {
        let t = s.drop_first();
        assert forall|j: int| 0 <= j < i - 1 implies is_space(#[trigger] t[j]) by {
            assert(t[j] == s[j + 1]);
        }
        lemma_lead_ws(t, i - 1);
    }
}

pub proof fn lemma_trail_ws(s: Seq<char>, i: int)
    requires
        0 <= i <= s.len(),
        forall|j: int| i <= j < s.len() ==> is_space(#[trigger] s[j]),
        i == 0 || !is_space(s[i - 1]),
    ensures
        trail_ws(s) == s.len() - i,
    decreases s.len() - i,
{
    if i < s.len() {
        let t = s.drop_last();
        assert forall|j: int| i <= j < t.len() implies is_space(#[trigger] t[j]) by {
            assert(t[j] == s[j]);
        }
        lemma_trail_ws(t, i);
    }
}

/// The leading whitespace count: that many spaces, then a character that is
/// not whitespace (or the end).
pub proof fn lemma_lead_ws_chars(s: Seq<char>)
    ensures
        lead_ws(s) <= s.len(),
        forall|j: int| 0 <= j < lead_ws(s) ==> is_space(#[trigger] s[j]),
        lead_ws(s) < s.len() ==> !is_space(s[lead_ws(s) as int]),
    decreases s.len(),
{
    if s.len() > 0 && is_space(s[0]) {
        let t = s.drop_first();
        lemma_lead_ws_chars(t);
        assert forall|j: int| 0 <= j < lead_ws(s) implies is_space(#[trigger] s[j]) by {
            if j > 0 {
                assert(s[j] == t[j - 1]);
            }
        }
        if lead_ws(s) < s.len() {
            assert(s[lead_ws(s) as int] == t[lead_ws(t) as int]);
        }
    }
}

/// The trailing whitespace count: that many spaces at the end, after a
/// character that is not whitespace (or the start).
pub proof fn lemma_trail_ws_chars(s: Seq<char>)
    ensures
        trail_ws(s) <= s.len(),
        forall|j: int| s.len() - trail_ws(s) <= j < s.len() ==> is_space(#[trigger] s[j]),
        trail_ws(s) < s.len() ==> !is_space(s[s.len() - trail_ws(s) - 1]),
    decreases s.len(),
{
    if s.len() > 0 && is_space(s.last()) {
        let t = s.drop_last();
        lemma_trail_ws_chars(t);
        assert forall|j: int| s.len() - trail_ws(s) <= j < s.len() implies is_space(
            #[trigger] s[j],
        ) by {
            if j < s.len() - 1 {
                assert(s[j] == t[j]);
            }
        }
        if trail_ws(s) < s.len() {
            assert(s[s.len() - trail_ws(s) - 1] == t[t.len() - trail_ws(t) - 1]);
        }
    }
}

pub proof fn lemma_lead_ws_bound(s: Seq<char>)
    ensures
        lead_ws(s) <= s.len(),
    decreases s.len(),
{
    if s.len() > 0 && is_space(s[0]) {
        lemma_lead_ws_bound(s.drop_first());
    }
}

pub proof fn lemma_trail_ws_bound(s: Seq<char>)
    ensures
        trail_ws(s) <= s.len(),
    decreases s.len(),
{
    if s.len() > 0 && is_space(s.last()) {
        lemma_trail_ws_bound(s.drop_last());
    }
}

/// The characters of `s` from `lo` to `hi`.
pub fn slice(s: &Vec<char>, lo: usize, hi: usize) -> (r: Vec<char>)
    requires
        lo <= hi <= s@.len(),
    ensures
        r@ == s@.subrange(lo as int, hi as int),
{
    let mut r: Vec<char> = Vec::new();
    let mut i: usize = lo;
    while i < hi
        invariant
            lo <= i <= hi <= s@.len(),
            r@ == s@.subrange(lo as int, i as int),
        decreases hi - i,
    {
        r.push(s[i]);
        i = i + 1;
        assert(r@ =~= s@.subrange(lo as int, i as int));
    }
    r
}

/// Index of the first non-whitespace character (or the length).
fn lead_ws_len(s: &Vec<char>) -> (n: usize)
    ensures
        n == lead_ws(s@),
        n <= s@.len(),
{
    let mut i: usize = 0;
    while i < s.len() && is_space_char(s[i])
        invariant
            i <= s@.len(),
            forall|j: int| 0 <= j < i ==> is_space(#[trigger] s@[j]),
        decreases s.len() - i,
    {
        i = i + 1;
    }
    proof {
        lemma_lead_ws(s@, i as int);
    }
    i
}

/// Index just past the last non-whitespace character (or 0).
fn trail_ws_start(s: &Vec<char>) -> (n: usize)
    ensures
        n == s@.len() - trail_ws(s@),
        n <= s@.len(),
{
    let mut i: usize = s.len();
    while i > 0 && is_space_char(s[i - 1])
        invariant
            i <= s@.len(),
            forall|j: int| i <= j < s@.len() ==> is_space(#[trigger] s@[j]),
        decreases i,
    {
        i = i - 1;
    }
    proof {
        lemma_trail_ws(s@, i as int);
    }
    i
}

/// `str::trim_start`.
pub fn trim_start_chars(s: &Vec<char>) -> (r: Vec<char>)
    ensures
        r@ == trim_start(s@),
{
    let n: usize = lead_ws_len(s);
    let r = slice(s, n, s.len());
    assert(r@ =~= trim_start(s@));
    r
}

/// `str::trim_end`.
pub fn trim_end_chars(s: &Vec<char>) -> (r: Vec<char>)
    ensures
        r@ == trim_end(s@),
{
    let n: usize = trail_ws_start(s);
    let r = slice(s, 0, n);
    assert(r@ =~= trim_end(s@));
    r
}

/// `str::trim`.
pub fn trim_chars(s: &Vec<char>) -> (r: Vec<char>)
    ensures
        r@ == trim(s@),
{
    let t = trim_start_chars(s);
    trim_end_chars(&t)
}

/// Whether `s` is empty or whitespace only (`s.trim().is_empty()`).
pub fn is_blank_chars(s: &Vec<char>) -> (b: bool)
    ensures
        b == is_blank(s@),
        b == (trim(s@).len() == 0),
{
    let n: usize = lead_ws_len(s);
    proof {
        lemma_lead_ws_all(s@);
        lemma_blank_iff_trim_empty(s@);
    }
    n == s.len()
}

proof fn lemma_lead_ws_all(s: Seq<char>)
    ensures
        lead_ws(s) == s.len() <==> is_blank(s),
    decreases s.len(),
{
    if s.len() > 0 {
        lemma_lead_ws_all(s.drop_first());
        if is_blank(s) {
            assert forall|i: int| 0 <= i < s.drop_first().len() implies is_space(
                #[trigger] s.drop_first()[i],
            ) by {
                assert(s.drop_first()[i] == s[i + 1]);
            }
        }
        if is_space(s[0]) && lead_ws(s.drop_first()) == s.drop_first().len() {
            assert forall|i: int| 0 <= i < s.len() implies is_space(#[trigger] s[i]) by {
                if i > 0 {
                    assert(s[i] == s.drop_first()[i - 1]);
                }
            }
        }
    }
}

pub proof fn lemma_blank_iff_trim_empty(s: Seq<char>)
    ensures
        is_blank(s) <==> trim(s).len() == 0,
{
    lemma_lead_ws_all(s);
    lemma_lead_ws_bound(s);
    let t = trim_start(s);
    lemma_trail_ws_bound(t);
    if lead_ws(s) < s.len() {
        lemma_lead_first(s);
        assert(t[0] == s[lead_ws(s) as int]);
        if trail_ws(t) == t.len() {
            lemma_trail_all(t);
            assert(is_space(t[0]));
        }
    }
}

proof fn lemma_lead_first(s: Seq<char>)
    requires
        lead_ws(s) < s.len(),
    ensures
        !is_space(s[lead_ws(s) as int]),
    decreases s.len(),
{
    if s.len() > 0 && is_space(s[0]) {
        lemma_lead_first(s.drop_first());
    }
}

proof fn lemma_trail_all(s: Seq<char>)
    requires
        trail_ws(s) == s.len(),
    ensures
        is_blank(s),
    decreases s.len(),
{
    if s.len() > 0 {
        lemma_trail_ws_bound(s.drop_last());
        lemma_trail_all(s.drop_last());
        assert forall|i: int| 0 <= i < s.len() implies is_space(#[trigger] s[i]) by {
            if i < s.len() - 1 {
                assert(s[i] == s.drop_last()[i]);
            }
        }
    }
}

// ---------------------------------------------------------------------------
// Searching
// ---------------------------------------------------------------------------

/// `pat` occurs in `s` starting at index `i`.
pub open spec fn occurs_at(s: Seq<char>, pat: Seq<char>, i: int) -> bool {
    0 <= i && i + pat.len() <= s.len() && s.subrange(i, i + pat.len()) == pat
}

/// `i` is the first index at which `pat` occurs in `s`.
pub open spec fn first_at(s: Seq<char>, pat: Seq<char>, i: int) -> bool {
    occurs_at(s, pat, i) && forall|j: int| 0 <= j < i ==> !occurs_at(s, pat, j)
}

/// `str::find`: the index of the first occurrence of `pat` in `s`.
pub open spec fn find(s: Seq<char>, pat: Seq<char>) -> Option<int> {
    if exists|i: int| first_at(s, pat, i) {
        Some(choose|i: int| first_at(s, pat, i))
    } else {
        None
    }
}

/// `s` begins with `pat`.
pub open spec fn starts_with(s: Seq<char>, pat: Seq<char>) -> bool {
    pat.len() <= s.len() && s.take(pat.len() as int) == pat
}

/// `s` contains `pat`.
pub open spec fn contains(s: Seq<char>, pat: Seq<char>) -> bool {
    exists|i: int| occurs_at(s, pat, i)
}

pub proof fn lemma_find_first(s: Seq<char>, pat: Seq<char>, i: int)
    requires
        first_at(s, pat, i),
    ensures
        find(s, pat) == Some(i),
{
    let k = choose|k: int| first_at(s, pat, k);
    assert(first_at(s, pat, k));
    if k < i {
        assert(!occurs_at(s, pat, k));
    }
    if i < k {
        assert(!occurs_at(s, pat, i));
    }
}

pub proof fn lemma_first_exists(s: Seq<char>, pat: Seq<char>, i: int)
    requires
        occurs_at(s, pat, i),
    ensures
        find(s, pat) is Some,
    decreases i,
{
    if exists|j: int| 0 <= j < i && occurs_at(s, pat, j) {
        let j = choose|j: int| 0 <= j < i && occurs_at(s, pat, j);
        lemma_first_exists(s, pat, j);
    } else {
        assert(first_at(s, pat, i));
    }
}

pub proof fn lemma_find_none(s: Seq<char>, pat: Seq<char>)
    requires
        forall|i: int| !occurs_at(s, pat, i),
    ensures
        find(s, pat) is None,
{
}

pub proof fn lemma_find_some(s: Seq<char>, pat: Seq<char>)
    requires
        find(s, pat) is Some,
    ensures
        first_at(s, pat, find(s, pat)->0),
        0 <= find(s, pat)->0 <= s.len() - pat.len(),
{
}

/// Whether `pat` occurs in `s` at index `i`.
pub fn occurs_at_chars(s: &Vec<char>, pat: &Vec<char>, i: usize) -> (b: bool)
    ensures
        b == occurs_at(s@, pat@, i as int),
{
    if i > s.len() || pat.len() > s.len() - i {
        return false;
    }
    let mut k: usize = 0;
    while k < pat.len()
        invariant
            i + pat@.len() <= s@.len(),
            s@.len() <= usize::MAX,
            k <= pat@.len(),
            forall|j: int| 0 <= j < k ==> s@[i + j] == pat@[j],
        decreases pat.len() - k,
    {
        assert(i + k < s@.len());
        if s[i + k] != pat[k] {
            assert(s@.subrange(i as int, i + pat@.len())[k as int] != pat@[k as int]);
            return false;
        }
        k = k + 1;
    }
    assert(s@.subrange(i as int, i + pat@.len()) =~= pat@);
    true
}

/// `str::find`.
pub fn find_chars(s: &Vec<char>, pat: &Vec<char>) -> (r: Option<usize>)
    ensures
        match r {
            Some(i) => find(s@, pat@) == Some(i as int),
            None => find(s@, pat@) is None,
        },
{
    if pat.len() > s.len() {
        proof {
            assert forall|j: int| !occurs_at(s@, pat@, j) by {}
            lemma_find_none(s@, pat@);
        }
        return None;
    }
    let last = s.len() - pat.len();
    let mut i: usize = 0;
    loop
        invariant
            i <= last,
            last == s@.len() - pat@.len(),
            forall|j: int| 0 <= j < i ==> !occurs_at(s@, pat@, j),
        ensures
            forall|j: int| 0 <= j <= last ==> !occurs_at(s@, pat@, j),
        decreases last - i,
    {
        if occurs_at_chars(s, pat, i) {
            proof {
                lemma_find_first(s@, pat@, i as int);
            }
            return Some(i);
        }
        if i == last {
            break;
        }
        i = i + 1;
    }
    proof {
        assert forall|j: int| !occurs_at(s@, pat@, j) by {
            if 0 <= j <= last {
            }
        }
        lemma_find_none(s@, pat@);
    }
    None
}

/// `str::starts_with`.
pub fn starts_with_chars(s: &Vec<char>, pat: &Vec<char>) -> (b: bool)
    ensures
        b == starts_with(s@, pat@),
{
    let b = occurs_at_chars(s, pat, 0);
    proof {
        if pat@.len() <= s@.len() {
            assert(s@.take(pat@.len() as int) =~= s@.subrange(0, pat@.len() as int));
        }
    }
    b
}

/// `str::contains`.
pub fn contains_chars(s: &Vec<char>, pat: &Vec<char>) -> (b: bool)
    ensures
        b == contains(s@, pat@),
{
    match find_chars(s, pat) {
        Some(i) => {
            proof {
                lemma_find_some(s@, pat@);
                assert(occurs_at(s@, pat@, i as int));
            }
            true
        },
        None => {
            proof {
                if contains(s@, pat@) {
                    let j = choose|j: int| occurs_at(s@, pat@, j);
                    lemma_first_exists(s@, pat@, j);
                }
            }
            false
        },
    }
}

/// Two character sequences are equal.
pub fn eq_chars(a: &Vec<char>, b: &Vec<char>) -> (r: bool)
    ensures
        r == (a@ == b@),
{
    if a.len() != b.len() {
        return false;
    }
    let r = occurs_at_chars(a, b, 0);
    proof {
        if r {
            assert(a@ =~= a@.subrange(0, b@.len() as int));
        } else {
            assert(a@.subrange(0, b@.len() as int) =~= a@);
        }
    }
    r
}

// ---------------------------------------------------------------------------
// Splitting
// ---------------------------------------------------------------------------

/// Joining items splits off the first item.
#[verifier::spinoff_prover]
pub proof fn lemma_join_front(items: Seq<Seq<char>>, sep: Seq<char>)
    requires
        items.len() >= 2,
    ensures
        join(items, sep) == items[0] + sep + join(items.drop_first(), sep),
    decreases items.len(),
{
    if items.len() == 2 {
        assert(items.drop_first() =~= seq![items[1]]);
        assert(items.drop_last() =~= seq![items[0]]);
        assert(join(items.drop_first(), sep) == items[1]);
        assert(join(items.drop_last(), sep) == items[0]);
    } else {
        lemma_join_front(items.drop_last(), sep);
        let init = items.drop_last();
        let tail = items.drop_first();
        assert(init.drop_first() =~= tail.drop_last());
        assert(tail.last() == items.last());
        assert(init[0] == items[0]);
        let j = join(init.drop_first(), sep);
        assert(join(tail, sep) == j + sep + items.last());
        assert(join(items, sep) == (items[0] + sep + j) + sep + items.last());
        assert((items[0] + sep + j) + sep + items.last() =~= items[0] + sep + (j + sep
            + items.last()));
    }
}

/// A line that `str::lines` gives back as it is: not empty, without line
/// feeds, not ending with a carriage return.
pub open spec fn plain_line(l: Seq<char>) -> bool {
    &&& l.len() > 0
    &&& l.last() != '\r'
    &&& forall|j: int| 0 <= j < l.len() ==> #[trigger] l[j] != '\n'
}

pub proof fn lemma_lines_cons(l: Seq<char>, rest: Seq<char>)
    requires
        plain_line(l),
    ensures
        lines(l + seq!['\n'] + rest) == seq![l] + lines(rest),
{
    let t = l + seq!['\n'] + rest;
    assert(t[l.len() as int] == '\n');
    assert forall|j: int| 0 <= j < l.len() implies t[j] != '\n' by {
        assert(t[j] == l[j]);
    }
    lemma_first_newline(t, l.len() as int);
    assert(t.take(l.len() as int) =~= l);
    assert(t.skip(l.len() + 1int) =~= rest);
}

/// Lines joined with line feeds split back into those lines, where each is
/// not empty, holds no line feed and does not end with a carriage return.
#[verifier::spinoff_prover]
pub proof fn lemma_lines_join(ls: Seq<Seq<char>>)
    requires
        forall|i: int| 0 <= i < ls.len() ==> plain_line(#[trigger] ls[i]),
    ensures
        lines(join(ls, seq!['\n'])) == ls,
    decreases ls.len(),
{
    if ls.len() == 0 {
        assert(lines(join(ls, seq!['\n'])) =~= ls);
    } else if ls.len() == 1 {
        let l = ls[0];
        assert(plain_line(l));
        lemma_no_newline(l);
        assert(lines(l) =~= seq![l]);
        assert(ls =~= seq![l]);
    } else {
        let l = ls[0];
        let rest = ls.drop_first();
        assert(plain_line(l));
        lemma_join_front(ls, seq!['\n']);
        assert forall|i: int| 0 <= i < rest.len() implies plain_line(#[trigger] rest[i]) by {
            assert(rest[i] == ls[i + 1]);
        }
        lemma_lines_join(rest);
        lemma_lines_cons(l, join(rest, seq!['\n']));
        assert(ls =~= seq![l] + rest);
    }
}

/// In lines joined with line feeds, each line feed is followed by the first
/// character of the next line.
#[verifier::spinoff_prover]
pub proof fn lemma_join_newlines(ls: Seq<Seq<char>>)
    requires
        forall|i: int|
            0 <= i < ls.len() ==> (#[trigger] ls[i]).len() > 0 && forall|j: int|
                0 <= j < ls[i].len() ==> ls[i][j] != '\n',
    ensures
        forall|p: int|
            0 <= p < join(ls, seq!['\n']).len() && join(ls, seq!['\n'])[p] == '\n' ==> p + 1 < join(
                ls,
                seq!['\n'],
            ).len() && exists|k: int|
                1 <= k < ls.len() && join(ls, seq!['\n'])[p + 1] == (#[trigger] ls[k])[0],
    decreases ls.len(),
{
    let jn = join(ls, seq!['\n']);
    if ls.len() == 1 {
        assert(jn == ls[0]);
    } else if ls.len() >= 2 {
        let init = ls.drop_last();
        assert forall|i: int| 0 <= i < init.len() implies (#[trigger] init[i]).len() > 0
            && forall|j: int| 0 <= j < init[i].len() ==> init[i][j] != '\n' by {
            assert(init[i] == ls[i]);
        }
        lemma_join_newlines(init);
        let ji = join(init, seq!['\n']);
        let last = ls.last();
        assert(jn == ji + seq!['\n'] + last);
        assert forall|p: int| 0 <= p < jn.len() && jn[p] == '\n' implies p + 1 < jn.len()
            && exists|k: int| 1 <= k < ls.len() && jn[p + 1] == (#[trigger] ls[k])[0] by {
            if p < ji.len() {
                assert(jn[p] == ji[p]);
                let k = choose|k: int| 1 <= k < init.len() && ji[p + 1] == (#[trigger] init[k])[0];
                assert(jn[p + 1] == ji[p + 1]);
                assert(init[k] == ls[k]);
            } else if p == ji.len() {
                assert(jn[p + 1] == last[0]);
                assert(ls[ls.len() - 1] == last);
            } else {
                assert(jn[p] == last[p - ji.len() - 1]);
            }
        }
    }
}

/// `line` without one trailing carriage return.
pub open spec fn strip_cr(line: Seq<char>) -> Seq<char> {
    if line.len() > 0 && line.last() == '\r' {
        line.drop_last()
    } else {
        line
    }
}

pub proof fn lemma_find_bounds(s: Seq<char>, pat: Seq<char>)
    ensures
        find(s, pat) matches Some(i) ==> 0 <= i && i + pat.len() <= s.len(),
{
}

/// `str::lines`: the pieces of `s` between line feeds, each without a
/// trailing carriage return; a final line feed ends the last line rather
/// than starting an empty one.
pub open spec fn lines(s: Seq<char>) -> Seq<Seq<char>>
    decreases s.len(),
{
    if s.len() == 0 {
        seq![]
    } else {
        match find(s, seq!['\n']) {
            Some(i) => {
                if 0 <= i < s.len() {
                    seq![strip_cr(s.take(i))] + lines(s.skip(i + 1))
                } else {
                    seq![]
                }
            },
            None => seq![s],
        }
    }
}

pub proof fn lemma_first_newline(t: Seq<char>, k: int)
    requires
        0 <= k < t.len(),
        t[k] == '\n',
        forall|j: int| 0 <= j < k ==> t[j] != '\n',
    ensures
        find(t, seq!['\n']) == Some(k),
{
    let pat = seq!['\n'];
    assert(t.subrange(k, k + 1) =~= pat);
    assert forall|j: int| 0 <= j < k implies !occurs_at(t, pat, j) by {
        if occurs_at(t, pat, j) {
            assert(t.subrange(j, j + 1)[0] == t[j]);
        }
    }
    lemma_find_first(t, pat, k);
}

pub proof fn lemma_no_newline(t: Seq<char>)
    requires
        forall|j: int| 0 <= j < t.len() ==> t[j] != '\n',
    ensures
        find(t, seq!['\n']) is None,
{
    let pat = seq!['\n'];
    assert forall|j: int| !occurs_at(t, pat, j) by {
        if occurs_at(t, pat, j) {
            assert(t.subrange(j, j + 1)[0] == t[j]);
        }
    }
    lemma_find_none(t, pat);
}

/// `line` without one trailing carriage return.
fn strip_cr_chars(line: Vec<char>) -> (r: Vec<char>)
    ensures
        r@ == strip_cr(line@),
{
    let n = line.len();
    if n > 0 && line[n - 1] == '\r' {
        slice(&line, 0, n - 1)
    } else {
        line
    }
}

/// The views of a vector of character vectors.
pub open spec fn views(v: Seq<Vec<char>>) -> Seq<Seq<char>> {
    v.map_values(|x: Vec<char>| x@)
}

/// `str::lines`.
pub fn lines_of(s: &Vec<char>) -> (r: Vec<Vec<char>>)
    ensures
        views(r@) == lines(s@),
{
    let mut out: Vec<Vec<char>> = Vec::new();
    let mut start: usize = 0;
    let mut i: usize = 0;
    assert(s@.skip(0) =~= s@);
    assert(views(out@) =~= Seq::<Seq<char>>::empty());
    while i < s.len()
        invariant
            start <= i <= s@.len(),
            forall|j: int| start <= j < i ==> s@[j] != '\n',
            views(out@) + lines(s@.skip(start as int)) == lines(s@),
        decreases s.len() - i,
    {
        if s[i] == '\n' {
            let line = strip_cr_chars(slice(s, start, i));
            proof {
                let t = s@.skip(start as int);
                assert forall|j: int| 0 <= j < i - start implies t[j] != '\n' by {
                    assert(t[j] == s@[start + j]);
                }
                lemma_first_newline(t, i - start);
                assert(t.take(i - start) =~= s@.subrange(start as int, i as int));
                assert(t.skip(i - start + 1) =~= s@.skip(i + 1));
                assert(views(out@.push(line)) =~= views(out@).push(line@));
            }
            out.push(line);
            start = i + 1;
        }
        i = i + 1;
    }
    if start < s.len() {
        let rest = slice(s, start, s.len());
        proof {
            let t = s@.skip(start as int);
            assert(t =~= rest@);
            lemma_no_newline(t);
            assert(views(out@.push(rest)) =~= views(out@).push(rest@));
        }
        out.push(rest);
    } else {
        assert(s@.skip(start as int).len() == 0);
        assert(views(out@) + lines(s@.skip(start as int)) =~= views(out@));
    }
    out
}

/// `str::split_once` on a single character.
pub open spec fn split_once(s: Seq<char>, c: char) -> Option<(Seq<char>, Seq<char>)> {
    match find(s, seq![c]) {
        Some(i) => Some((s.take(i), s.skip(i + 1))),
        None => None,
    }
}

/// `str::split_once` on a single character.
pub fn split_once_chars(s: &Vec<char>, c: char) -> (r: Option<(Vec<char>, Vec<char>)>)
    ensures
        match r {
            Some((a, b)) => split_once(s@, c) == Some((a@, b@)),
            None => split_once(s@, c) is None,
        },
{
    let n = s.len();
    let pat = vec![c];
    assert(pat@ =~= seq![c]);
    match find_chars(s, &pat) {
        Some(i) => {
            proof {
                lemma_find_bounds(s@, pat@);
            }
            let a = slice(s, 0, i);
            let b = slice(s, i + 1, n);
            assert(a@ =~= s@.take(i as int));
            assert(b@ =~= s@.skip(i + 1));
            Some((a, b))
        },
        None => None,
    }
}

/// `s.split('"').nth(1)`: the text after the first double quote, up to the
/// next double quote or the end.
pub open spec fn quoted(s: Seq<char>) -> Option<Seq<char>> {
    match split_once(s, '"') {
        Some((_, rest)) => match split_once(rest, '"') {
            Some((inner, _)) => Some(inner),
            None => Some(rest),
        },
        None => None,
    }
}

/// `s.split('"').nth(1)`.
pub fn quoted_chars(s: &Vec<char>) -> (r: Option<Vec<char>>)
    ensures
        match r {
            Some(q) => quoted(s@) == Some(q@),
            None => quoted(s@) is None,
        },
{
    match split_once_chars(s, '"') {
        Some((_, rest)) => match split_once_chars(&rest, '"') {
            Some((inner, _)) => Some(inner),
            None => Some(rest),
        },
        None => None,
    }
}

// ---------------------------------------------------------------------------
// Decimal numbers
// ---------------------------------------------------------------------------

/// An ASCII decimal digit.
pub open spec fn is_digit(c: char) -> bool {
    48 <= (c as u32) <= 57
}

pub open spec fn digit_value(c: char) -> nat {
    ((c as u32) - 48) as nat
}

/// The value of a string of decimal digits, most significant first.
pub open spec fn digits_value(d: Seq<char>) -> nat
    decreases d.len(),
{
    if d.len() == 0 {
        0
    } else {
        digits_value(d.drop_last()) * 10 + digit_value(d.last())
    }
}

pub open spec fn all_digits(d: Seq<char>) -> bool {
    forall|i: int| 0 <= i < d.len() ==> is_digit(#[trigger] d[i])
}

/// The number that `u32::from_str` and `usize::from_str` read from `s`,
/// before their range check: an optional `+` and at least one digit.
pub open spec fn decimal_value(s: Seq<char>) -> Option<nat> {
    let d = if s.len() > 0 && s[0] == '+' {
        s.drop_first()
    } else {
        s
    };
    if d.len() > 0 && all_digits(d) {
        Some(digits_value(d))
    } else {
        None
    }
}

/// What `str::parse` gives for an unsigned integer type whose largest
/// value is `max`.
pub open spec fn parse_unsigned(s: Seq<char>, max: nat) -> Option<nat> {
    match decimal_value(s) {
        Some(n) => if n <= max {
            Some(n)
        } else {
            None
        },
        None => None,
    }
}

pub open spec fn digit_char(n: nat) -> char {
    (n + 48) as char
}

/// The decimal rendering of `n` (`Display` for the unsigned integers).
pub open spec fn decimal(n: nat) -> Seq<char>
    decreases n,
{
    if n < 10 {
        seq![digit_char(n)]
    } else {
        decimal(n / 10).push(digit_char(n % 10))
    }
}

proof fn lemma_digits_prefix(d: Seq<char>, k: int)
    requires
        0 <= k <= d.len(),
    ensures
        digits_value(d.take(k)) <= digits_value(d),
    decreases d.len(),
{
    if k < d.len() {
        lemma_digits_prefix(d.drop_last(), k);
        assert(d.drop_last().take(k) =~= d.take(k));
    } else {
        assert(d.take(k) =~= d);
    }
}

/// `str::parse` for an unsigned integer type whose largest value is `max`.
pub fn parse_unsigned_chars(s: &Vec<char>, max: u64) -> (r: Option<u64>)
    ensures
        match r {
            Some(n) => parse_unsigned(s@, max as nat) == Some(n as nat),
            None => parse_unsigned(s@, max as nat) is None,
        },
{
    let n = s.len();
    let start: usize = if n > 0 && s[0] == '+' {
        1
    } else {
        0
    };
    let ghost d = if s@.len() > 0 && s@[0] == '+' {
        s@.drop_first()
    } else {
        s@
    };
    assert(d =~= s@.skip(start as int));
    if start >= n {
        return None;
    }
    let mut i: usize = start;
    while i < n
        invariant
            start <= i <= n,
            n == s@.len(),
            d =~= s@.skip(start as int),
            d == (if s@.len() > 0 && s@[0] == '+' {
                s@.drop_first()
            } else {
                s@
            }),
            forall|j: int| start <= j < i ==> is_digit(#[trigger] s@[j]),
        decreases n - i,
    {
        let c = s[i];
        let u = c as u32;
        if !(48 <= u && u <= 57) {
            proof {
                assert(d[i - start] == s@[i as int]);
                assert(!is_digit(d[i - start]));
                assert(!all_digits(d));
            }
            return None;
        }
        i = i + 1;
    }
    assert(all_digits(d)) by {
        assert forall|j: int| 0 <= j < d.len() implies is_digit(#[trigger] d[j]) by {
            assert(d[j] == s@[start + j]);
        }
    }
    let mut v: u64 = 0;
    let mut k: usize = start;
    assert(d.take(0) =~= Seq::<char>::empty());
    while k < n
        invariant
            start <= k <= n,
            n == s@.len(),
            d =~= s@.skip(start as int),
            d == (if s@.len() > 0 && s@[0] == '+' {
                s@.drop_first()
            } else {
                s@
            }),
            all_digits(d),
            v == digits_value(d.take(k - start)),
            v <= max,
        decreases n - k,
    {
        assert(is_digit(d[k - start]));
        assert(d[k - start] == s@[k as int]);
        let dv = (s[k] as u32 - 48) as u64;
        let ghost next = d.take(k - start + 1);
        assert(next.drop_last() =~= d.take(k - start));
        assert(next.last() == s@[k as int]);
        if dv > max || v > (max - dv) / 10 {
            proof {
                lemma_digits_prefix(d, k - start + 1);
                assert(digits_value(next) == v * 10 + dv);
                assert(digits_value(next) > max);
            }
            return None;
        }
        v = v * 10 + dv;
        k = k + 1;
    }
    assert(d.take(n - start) =~= d);
    Some(v)
}

fn digit_char_of(n: u64) -> (c: char)
    requires
        n < 10,
    ensures
        c == digit_char(n as nat),
{
    ((n as u8) + 48) as char
}

/// `Display` for unsigned integers.
pub fn decimal_chars(n: u64) -> (r: Vec<char>)
    ensures
        r@ == decimal(n as nat),
    decreases n,
{
    if n < 10 {
        let r = vec![digit_char_of(n)];
        assert(r@ =~= decimal(n as nat));
        r
    } else {
        let mut r = decimal_chars(n / 10);
        r.push(digit_char_of(n % 10));
        r
    }
}

proof fn lemma_digit_char(n: nat)
    requires
        n < 10,
    ensures
        is_digit(digit_char(n)),
        digit_value(digit_char(n)) == n,
{
}

/// Reading back a rendered number gives the number.
pub proof fn lemma_decimal_roundtrip(n: nat)
    ensures
        decimal(n).len() > 0,
        all_digits(decimal(n)),
        digits_value(decimal(n)) == n,
        decimal(n)[0] != '+',
        decimal_value(decimal(n)) == Some(n),
    decreases n,
{
    if n < 10 {
        lemma_digit_char(n);
        assert(decimal(n).drop_last() =~= Seq::<char>::empty());
        assert(digits_value(Seq::<char>::empty()) == 0);
        assert(digits_value(decimal(n)) == digits_value(decimal(n).drop_last()) * 10
            + digit_value(decimal(n).last()));
    } else {
        lemma_decimal_roundtrip(n / 10);
        lemma_digit_char(n % 10);
        let p = decimal(n / 10);
        assert(decimal(n).drop_last() =~= p);
        assert(n == (n / 10) * 10 + n % 10);
        assert(decimal(n).last() == digit_char(n % 10));
        assert(digits_value(decimal(n)) == digits_value(p) * 10 + digit_value(digit_char(n % 10)));
        assert forall|i: int| 0 <= i < decimal(n).len() implies is_digit(#[trigger] decimal(n)[i]) by {
            if i < p.len() {
                assert(decimal(n)[i] == p[i]);
            }
        }
        assert(decimal(n)[0] == p[0]);
    }
}

// ---------------------------------------------------------------------------
// Building text
// ---------------------------------------------------------------------------

/// Appends `b` to `a`.
pub fn push_all(a: &mut Vec<char>, b: &Vec<char>)
    ensures
        final(a)@ == old(a)@ + b@,
{
    let mut i: usize = 0;
    while i < b.len()
        invariant
            i <= b@.len(),
            a@ == old(a)@ + b@.take(i as int),
        decreases b.len() - i,
    {
        a.push(b[i]);
        i = i + 1;
        assert(a@ =~= old(a)@ + b@.take(i as int));
    }
    assert(b@.take(b@.len() as int) =~= b@);
}

/// Appends the characters of `b` to `a`.
pub fn push_str(a: &mut Vec<char>, b: &str)
    ensures
        final(a)@ == old(a)@ + b@,
{
    let v = chars_of(b);
    push_all(a, &v);
}

/// The views of a list of strings.
pub open spec fn string_views(v: Seq<String>) -> Seq<Seq<char>> {
    v.map_values(|x: String| x@)
}

/// `[T]::join` on strings: the items with `sep` between each two.
pub open spec fn join(items: Seq<Seq<char>>, sep: Seq<char>) -> Seq<char>
    decreases items.len(),
{
    if items.len() == 0 {
        seq![]
    } else if items.len() == 1 {
        items[0]
    } else {
        join(items.drop_last(), sep) + sep + items.last()
    }
}

/// `[T]::join` on strings.
pub fn join_chars(items: &Vec<String>, sep: &str) -> (r: Vec<char>)
    ensures
        r@ == join(string_views(items@), sep@),
{
    let mut r: Vec<char> = Vec::new();
    let mut i: usize = 0;
    while i < items.len()
        invariant
            i <= items@.len(),
            r@ == join(string_views(items@).take(i as int), sep@),
        decreases items.len() - i,
    {
        let ghost prev = string_views(items@).take(i as int);
        let ghost next = string_views(items@).take(i + 1);
        assert(next.drop_last() =~= prev);
        if i > 0 {
            push_str(&mut r, sep);
        } else {
            assert(r@ =~= Seq::<char>::empty());
        }
        push_str(&mut r, items[i].as_str());
        i = i + 1;
        proof {
            if i == 1 {
                assert(r@ =~= next[0]);
            }
        }
    }
    assert(string_views(items@).take(items@.len() as int) =~= string_views(items@));
    r
}

/// Whether a list of strings holds `s`.
pub fn contains_string(items: &Vec<String>, s: &Vec<char>) -> (b: bool)
    ensures
        b == string_views(items@).contains(s@),
{
    let mut i: usize = 0;
    while i < items.len()
        invariant
            i <= items@.len(),
            forall|j: int| 0 <= j < i ==> items@[j]@ != s@,
        decreases items.len() - i,
    {
        let c = chars_of(items[i].as_str());
        if eq_chars(&c, s) {
            assert(string_views(items@)[i as int] == s@);
            return true;
        }
        i = i + 1;
    }
    proof {
        if string_views(items@).contains(s@) {
            let j = choose|j: int| 0 <= j < string_views(items@).len() && string_views(items@)[j] == s@;
            assert(items@[j]@ == s@);
        }
    }
    false
}

// ---------------------------------------------------------------------------
// Replacing
// ---------------------------------------------------------------------------

/// `str::replace` for a non-empty pattern: every occurrence of `pat`, taken
/// left to right without overlap, replaced by `rep`.
pub open spec fn replace(s: Seq<char>, pat: Seq<char>, rep: Seq<char>) -> Seq<char>
    decreases s.len(),
{
    if pat.len() == 0 {
        s
    } else {
        match find(s, pat) {
            Some(i) => if 0 <= i && i + pat.len() <= s.len() {
                s.take(i) + rep + replace(s.skip(i + pat.len()), pat, rep)
            } else {
                s
            },
            None => s,
        }
    }
}

proof fn lemma_find_shift(t: Seq<char>, pat: Seq<char>)
    requires
        t.len() > 0,
        !occurs_at(t, pat, 0),
    ensures
        match find(t.drop_first(), pat) {
            Some(k) => find(t, pat) == Some(k + 1),
            None => find(t, pat) is None,
        },
{
    let u = t.drop_first();
    assert forall|j: int| 0 <= j implies occurs_at(t, pat, j + 1) == occurs_at(u, pat, j) by {
        if j + 1 + pat.len() <= t.len() {
            assert(t.subrange(j + 1, j + 1 + pat.len()) =~= u.subrange(j, j + pat.len()));
        }
    }
    match find(u, pat) {
        Some(k) => {
            lemma_find_some(u, pat);
            assert forall|j: int| 0 <= j < k + 1 implies !occurs_at(t, pat, j) by {
                if j > 0 {
                    assert(!occurs_at(u, pat, j - 1));
                }
            }
            assert(occurs_at(t, pat, k + 1));
            lemma_find_first(t, pat, k + 1);
        },
        None => {
            assert forall|j: int| !occurs_at(t, pat, j) by {
                if j > 0 {
                    if occurs_at(t, pat, j) {
                        assert(occurs_at(u, pat, j - 1));
                        lemma_first_exists(u, pat, j - 1);
                    }
                }
            }
            lemma_find_none(t, pat);
        },
    }
}

proof fn lemma_replace_skip_one(t: Seq<char>, pat: Seq<char>, rep: Seq<char>)
    requires
        t.len() > 0,
        pat.len() > 0,
        !occurs_at(t, pat, 0),
    ensures
        replace(t, pat, rep) == seq![t[0]] + replace(t.drop_first(), pat, rep),
{
    let u = t.drop_first();
    lemma_find_shift(t, pat);
    lemma_find_bounds(u, pat);
    match find(u, pat) {
        Some(k) => {
            assert(t.take(k + 1) =~= seq![t[0]] + u.take(k));
            assert(t.skip(k + 1 + pat.len()) =~= u.skip(k + pat.len()));
        },
        None => {
            assert(t =~= seq![t[0]] + u);
        },
    }
}

proof fn lemma_replace_here(t: Seq<char>, pat: Seq<char>, rep: Seq<char>)
    requires
        pat.len() > 0,
        occurs_at(t, pat, 0),
    ensures
        replace(t, pat, rep) == rep + replace(t.skip(pat.len() as int), pat, rep),
{
    lemma_find_first(t, pat, 0);
    assert(t.take(0) =~= Seq::<char>::empty());
}

/// Replacing a pattern that occurs once, at `i`, replaces just there.
pub proof fn lemma_replace_single(s: Seq<char>, pat: Seq<char>, rep: Seq<char>, i: int)
    requires
        pat.len() > 0,
        occurs_at(s, pat, i),
        forall|j: int| occurs_at(s, pat, j) ==> j == i,
    ensures
        replace(s, pat, rep) == s.take(i) + rep + s.skip(i + pat.len()),
{
    assert(first_at(s, pat, i));
    lemma_find_first(s, pat, i);
    let u = s.skip(i + pat.len());
    assert forall|j: int| !occurs_at(u, pat, j) by {
        if occurs_at(u, pat, j) {
            assert(s.subrange(i + pat.len() + j, i + pat.len() + j + pat.len()) =~= u.subrange(
                j,
                j + pat.len(),
            ));
            assert(occurs_at(s, pat, i + pat.len() + j));
        }
    }
    lemma_find_none(u, pat);
    assert(replace(u, pat, rep) == u);
}

/// The lines of complete lines followed by more text are those lines, then
/// the text's lines.
pub proof fn lemma_lines_append(a: Seq<char>, t: Seq<char>)
    requires
        a.len() == 0 || a.last() == '\n',
    ensures
        lines(a + t) == lines(a) + lines(t),
    decreases a.len(),
{
    if a.len() == 0 {
        assert(a + t =~= t);
        assert(lines(a) =~= Seq::<Seq<char>>::empty());
        assert(lines(a) + lines(t) =~= lines(t));
    } else {
        let nl = seq!['\n'];
        assert(occurs_at(a, nl, a.len() - 1)) by {
            assert(a.subrange(a.len() - 1, a.len() as int) =~= nl);
        }
        lemma_first_exists(a, nl, a.len() - 1);
        lemma_find_some(a, nl);
        let i = find(a, nl)->0;
        let at = a + t;
        assert(first_at(at, nl, i)) by {
            assert(at.subrange(i, i + 1) =~= a.subrange(i, i + 1));
            assert forall|j: int| 0 <= j < i implies !occurs_at(at, nl, j) by {
                assert(!occurs_at(a, nl, j));
                assert(at.subrange(j, j + 1) =~= a.subrange(j, j + 1));
            }
        }
        lemma_find_first(at, nl, i);
        let rest = a.skip(i + 1);
        assert(rest.len() == 0 || rest.last() == '\n');
        lemma_lines_append(rest, t);
        assert(at.take(i) =~= a.take(i));
        assert(at.skip(i + 1) =~= rest + t);
        assert(lines(at) =~= seq![strip_cr(a.take(i))] + lines(rest + t));
        assert(lines(a) =~= seq![strip_cr(a.take(i))] + lines(rest));
        assert(lines(at) =~= lines(a) + lines(t));
    }
}

/// `str::replace` for a non-empty pattern.
pub fn replace_chars(s: &Vec<char>, pat: &Vec<char>, rep: &Vec<char>) -> (r: Vec<char>)
    requires
        pat@.len() > 0,
    ensures
        r@ == replace(s@, pat@, rep@),
{
    let mut out: Vec<char> = Vec::new();
    let mut i: usize = 0;
    let n = s.len();
    assert(s@.skip(0) =~= s@);
    while i < n
        invariant
            i <= n,
            n == s@.len(),
            pat@.len() > 0,
            out@ + replace(s@.skip(i as int), pat@, rep@) == replace(s@, pat@, rep@),
        decreases n - i,
    {
        let ghost t = s@.skip(i as int);
        if occurs_at_chars(s, pat, i) {
            proof {
                assert(t.subrange(0, pat@.len() as int) =~= s@.subrange(i as int, i + pat@.len()));
                lemma_replace_here(t, pat@, rep@);
                assert(t.skip(pat@.len() as int) =~= s@.skip(i + pat@.len()));
            }
            push_all(&mut out, rep);
            i = i + pat.len();
            assert(out@ + replace(s@.skip(i as int), pat@, rep@) =~= replace(s@, pat@, rep@));
        } else {
            proof {
                if occurs_at(t, pat@, 0) {
                    assert(t.subrange(0, pat@.len() as int) =~= s@.subrange(i as int, i + pat@.len()));
                }
                lemma_replace_skip_one(t, pat@, rep@);
                assert(t.drop_first() =~= s@.skip(i + 1));
            }
            out.push(s[i]);
            i = i + 1;
            assert(out@ + replace(s@.skip(i as int), pat@, rep@) =~= replace(s@, pat@, rep@));
        }
    }
    proof {
        let t = s@.skip(i as int);
        assert(t.len() == 0);
        lemma_find_bounds(t, pat@);
        assert(out@ + t =~= out@);
    }
    out
}

// ---------------------------------------------------------------------------
// Splitting on a separator
// ---------------------------------------------------------------------------

/// `str::split` on a single character: the pieces between separators.
pub open spec fn split(s: Seq<char>, c: char) -> Seq<Seq<char>>
    decreases s.len(),
{
    match find(s, seq![c]) {
        Some(i) => if 0 <= i < s.len() {
            seq![s.take(i)] + split(s.skip(i + 1), c)
        } else {
            seq![s]
        },
        None => seq![s],
    }
}

/// `str::split` on a single character.
pub fn split_chars(s: &Vec<char>, c: char) -> (r: Vec<Vec<char>>)
    ensures
        views(r@) == split(s@, c),
{
    let mut out: Vec<Vec<char>> = Vec::new();
    let mut start: usize = 0;
    let mut i: usize = 0;
    let n = s.len();
    assert(s@.skip(0) =~= s@);
    assert(views(out@) =~= Seq::<Seq<char>>::empty());
    while i < n
        invariant
            start <= i <= n == s@.len(),
            forall|j: int| start <= j < i ==> s@[j] != c,
            views(out@) + split(s@.skip(start as int), c) == split(s@, c),
        decreases n - i,
    {
        if s[i] == c {
            let piece = slice(s, start, i);
            proof {
                let t = s@.skip(start as int);
                assert forall|j: int| 0 <= j < i - start implies t[j] != c by {
                    assert(t[j] == s@[start + j]);
                }
                lemma_first_char(t, c, i - start);
                assert(t.take(i - start) =~= piece@);
                assert(t.skip(i - start + 1) =~= s@.skip(i + 1));
                assert(views(out@.push(piece)) =~= views(out@).push(piece@));
            }
            out.push(piece);
            start = i + 1;
        }
        i = i + 1;
    }
    let rest = slice(s, start, n);
    proof {
        let t = s@.skip(start as int);
        assert(t =~= rest@);
        lemma_no_char(t, c);
        assert(views(out@.push(rest)) =~= views(out@).push(rest@));
    }
    out.push(rest);
    out
}

proof fn lemma_first_char(t: Seq<char>, c: char, k: int)
    requires
        0 <= k < t.len(),
        t[k] == c,
        forall|j: int| 0 <= j < k ==> t[j] != c,
    ensures
        find(t, seq![c]) == Some(k),
{
    let pat = seq![c];
    assert(t.subrange(k, k + 1) =~= pat);
    assert forall|j: int| 0 <= j < k implies !occurs_at(t, pat, j) by {
        if occurs_at(t, pat, j) {
            assert(t.subrange(j, j + 1)[0] == t[j]);
        }
    }
    lemma_find_first(t, pat, k);
}

proof fn lemma_no_char(t: Seq<char>, c: char)
    requires
        forall|j: int| 0 <= j < t.len() ==> t[j] != c,
    ensures
        find(t, seq![c]) is None,
{
    let pat = seq![c];
    assert forall|j: int| !occurs_at(t, pat, j) by {
        if occurs_at(t, pat, j) {
            assert(t.subrange(j, j + 1)[0] == t[j]);
        }
    }
    lemma_find_none(t, pat);
}

/// ASCII lowercase of one character (`char::to_ascii_lowercase`).
pub open spec fn ascii_lower(c: char) -> char {
    if 65 <= (c as u32) <= 90 {
        ((c as u32) + 32) as char
    } else {
        c
    }
}

/// `str::to_ascii_lowercase`.
pub open spec fn to_ascii_lowercase(s: Seq<char>) -> Seq<char> {
    s.map_values(|c: char| ascii_lower(c))
}

/// `str::to_ascii_lowercase`.
pub fn to_ascii_lowercase_chars(s: &Vec<char>) -> (r: Vec<char>)
    ensures
        r@ == to_ascii_lowercase(s@),
{
    let mut out: Vec<char> = Vec::new();
    let mut i: usize = 0;
    while i < s.len()
        invariant
            i <= s@.len(),
            out@ == to_ascii_lowercase(s@.take(i as int)),
        decreases s.len() - i,
    {
        let c = s[i];
        let u = c as u32;
        let l = if 65 <= u && u <= 90 {
            ((u + 32) as u8) as char
        } else {
            c
        };
        out.push(l);
        i = i + 1;
        assert(out@ =~= to_ascii_lowercase(s@.take(i as int)));
    }
    assert(s@.take(s@.len() as int) =~= s@);
    out
}

// ---------------------------------------------------------------------------
// Ordering strings
// ---------------------------------------------------------------------------

/// The order of `str`: lexicographic by character (which is the order of
/// the UTF-8 bytes).
pub open spec fn lex_le(a: Seq<char>, b: Seq<char>) -> bool
    decreases a.len(),
{
    if a.len() == 0 {
        true
    } else if b.len() == 0 {
        false
    } else if a[0] < b[0] {
        true
    } else if a[0] == b[0] {
        lex_le(a.drop_first(), b.drop_first())
    } else {
        false
    }
}

pub proof fn lemma_lex_total(a: Seq<char>, b: Seq<char>)
    ensures
        lex_le(a, b) || lex_le(b, a),
    decreases a.len(),
{
    if a.len() > 0 && b.len() > 0 && a[0] == b[0] {
        lemma_lex_total(a.drop_first(), b.drop_first());
    }
}

pub proof fn lemma_lex_refl(a: Seq<char>)
    ensures
        lex_le(a, a),
    decreases a.len(),
{
    if a.len() > 0 {
        lemma_lex_refl(a.drop_first());
    }
}

pub proof fn lemma_lex_trans(a: Seq<char>, b: Seq<char>, c: Seq<char>)
    requires
        lex_le(a, b),
        lex_le(b, c),
    ensures
        lex_le(a, c),
    decreases a.len(),
{
    if a.len() > 0 && b.len() > 0 && c.len() > 0 && a[0] == b[0] && b[0] == c[0] {
        lemma_lex_trans(a.drop_first(), b.drop_first(), c.drop_first());
    }
}

pub proof fn lemma_lex_antisym(a: Seq<char>, b: Seq<char>)
    requires
        lex_le(a, b),
        lex_le(b, a),
    ensures
        a == b,
    decreases a.len(),
{
    if a.len() > 0 && b.len() > 0 {
        assert(a[0] == b[0]);
        lemma_lex_antisym(a.drop_first(), b.drop_first());
        assert(a =~= seq![a[0]] + a.drop_first());
        assert(b =~= seq![b[0]] + b.drop_first());
    } else {
        assert(a.len() == 0 && b.len() == 0);
        assert(a =~= b);
    }
}

/// `a <= b` for strings.
pub fn lex_le_chars(a: &Vec<char>, b: &Vec<char>) -> (r: bool)
    ensures
        r == lex_le(a@, b@),
{
    let mut i: usize = 0;
    assert(a@.skip(0) =~= a@);
    assert(b@.skip(0) =~= b@);
    while i < a.len() && i < b.len() && a[i] == b[i]
        invariant
            i <= a@.len(),
            i <= b@.len(),
            lex_le(a@, b@) == lex_le(a@.skip(i as int), b@.skip(i as int)),
        decreases a.len() - i,
    {
        let ghost sa = a@.skip(i as int);
        let ghost sb = b@.skip(i as int);
        assert(sa.drop_first() =~= a@.skip(i + 1));
        assert(sb.drop_first() =~= b@.skip(i + 1));
        i = i + 1;
    }
    if i == a.len() {
        true
    } else if i == b.len() {
        false
    } else {
        a[i] < b[i]
    }
}

/// The list is in non-decreasing string order.
pub open spec fn sorted(s: Seq<Seq<char>>) -> bool {
    forall|i: int, j: int| 0 <= i < j < s.len() ==> lex_le(s[i], s[j])
}

/// Sorts strings into non-decreasing order (a stable insertion sort).
pub fn sort_strings(v: Vec<String>) -> (r: Vec<String>)
    ensures
        sorted(string_views(r@)),
        string_views(r@).to_multiset() == string_views(v@).to_multiset(),
{
    broadcast use vstd::seq_lib::group_to_multiset_ensures;

    let mut out: Vec<String> = Vec::new();
    let mut i: usize = 0;
    assert(string_views(out@) =~= Seq::<Seq<char>>::empty());
    assert(string_views(v@).take(0) =~= Seq::<Seq<char>>::empty());
    while i < v.len()
        invariant
            i <= v@.len(),
            sorted(string_views(out@)),
            string_views(out@).to_multiset() == string_views(v@).take(i as int).to_multiset(),
        decreases v.len() - i,
    {
        let x = chars_of(v[i].as_str());
        let mut p: usize = 0;
        while p < out.len() && lex_le_chars(&chars_of(out[p].as_str()), &x)
            invariant
                p <= out@.len(),
                forall|k: int| 0 <= k < p ==> lex_le(#[trigger] out@[k]@, x@),
            decreases out.len() - p,
        {
            p = p + 1;
        }
        let ghost old_views = string_views(out@);
        proof {
            if p < out@.len() {
                lemma_lex_total(out@[p as int]@, x@);
            }
        }
        out.insert(p, v[i].clone());
        let ghost new_views = string_views(out@);
        assert(new_views =~= old_views.insert(p as int, x@));
        proof {
            assert forall|a: int, b: int| 0 <= a < b < new_views.len() implies lex_le(
                new_views[a],
                new_views[b],
            ) by {
                if a < p && b == p {
                } else if a < p && b > p {
                    assert(new_views[a] == old_views[a]);
                    assert(new_views[b] == old_views[b - 1]);
                } else if a == p {
                    assert(new_views[b] == old_views[b - 1]);
                    if b - 1 > p {
                        lemma_lex_trans(x@, old_views[p as int], old_views[b - 1]);
                    }
                } else if a > p {
                    assert(new_views[a] == old_views[a - 1]);
                    assert(new_views[b] == old_views[b - 1]);
                } else {
                    assert(new_views[a] == old_views[a]);
                    assert(new_views[b] == old_views[b]);
                }
            }
            assert(new_views.remove(p as int) =~= old_views);
            assert(new_views[p as int] == x@);
            assert(string_views(v@).take(i + 1) =~= string_views(v@).take(i as int).push(x@));
            let m = new_views.to_multiset();
            new_views.to_multiset_ensures();
            old_views.to_multiset_ensures();
            assert(new_views.remove(p as int).to_multiset() =~= m.remove(x@));
            assert(new_views.contains(x@));
            assert(m.count(x@) > 0);
            assert(m =~= old_views.to_multiset().insert(x@));
            let pre = string_views(v@).take(i as int);
            pre.to_multiset_ensures();
            assert(pre.push(x@).to_multiset() =~= pre.to_multiset().insert(x@));
        }
        i = i + 1;
    }
    assert(string_views(v@).take(v@.len() as int) =~= string_views(v@));
    out
}

// ---------------------------------------------------------------------------
// Maps keyed by strings, as sorted lists
// ---------------------------------------------------------------------------

pub open spec fn pair_views(v: Seq<(String, String)>) -> Seq<(Seq<char>, Seq<char>)> {
    v.map_values(|p: (String, String)| (p.0@, p.1@))
}

/// The map that inserting the pairs in order builds (a later pair for the
/// same key replaces an earlier one).
pub open spec fn pair_map(ps: Seq<(Seq<char>, Seq<char>)>) -> Map<Seq<char>, Seq<char>>
    decreases ps.len(),
{
    if ps.len() == 0 {
        Map::empty()
    } else {
        pair_map(ps.drop_last()).insert(ps.last().0, ps.last().1)
    }
}

/// `a < b` for strings.
pub open spec fn lex_lt(a: Seq<char>, b: Seq<char>) -> bool {
    lex_le(a, b) && a != b
}

/// The keys are in strictly increasing order.
pub open spec fn keys_strictly_sorted(ps: Seq<(Seq<char>, Seq<char>)>) -> bool {
    forall|i: int, j: int| 0 <= i < j < ps.len() ==> lex_lt(ps[i].0, ps[j].0)
}

/// The list holds exactly the map's entries.
pub open spec fn lists_map(ps: Seq<(Seq<char>, Seq<char>)>, m: Map<Seq<char>, Seq<char>>) -> bool {
    &&& forall|i: int| 0 <= i < ps.len() ==> m.contains_key(#[trigger] ps[i].0) && m[ps[i].0] == ps[i].1
    &&& forall|k: Seq<char>| m.contains_key(k) ==> exists|i: int| 0 <= i < ps.len() && (#[trigger] ps[i].0) == k
}

/// The entries of the map that inserting `pairs` in order builds, sorted by
/// key (what iterating a `BTreeMap<String, String>` filled so gives).
pub fn sorted_map_entries(pairs: Vec<(String, String)>) -> (r: Vec<(String, String)>)
    ensures
        keys_strictly_sorted(pair_views(r@)),
        lists_map(pair_views(r@), pair_map(pair_views(pairs@))),
        pair_views(r@) == sorted_entries(pair_map(pair_views(pairs@))),
{
    let mut out: Vec<(String, String)> = Vec::new();
    let mut i: usize = 0;
    assert(pair_views(pairs@).take(0) =~= Seq::<(Seq<char>, Seq<char>)>::empty());
    while i < pairs.len()
        invariant
            i <= pairs@.len(),
            keys_strictly_sorted(pair_views(out@)),
            lists_map(pair_views(out@), pair_map(pair_views(pairs@).take(i as int))),
        decreases pairs.len() - i,
    {
        let ghost ov = pair_views(out@);
        let ghost m = pair_map(pair_views(pairs@).take(i as int));
        let k = chars_of(pairs[i].0.as_str());
        let kv = pairs[i].0.clone();
        let vv = pairs[i].1.clone();
        let ghost newm = m.insert(k@, vv@);
        assert(pair_views(pairs@).take(i + 1).drop_last() =~= pair_views(pairs@).take(i as int));
        assert(pair_map(pair_views(pairs@).take(i + 1)) == newm);
        let mut p: usize = 0;
        while p < out.len() && lex_le_chars(&chars_of(out[p].0.as_str()), &k) && !eq_chars(
            &chars_of(out[p].0.as_str()),
            &k,
        )
            invariant
                p <= out@.len(),
                ov == pair_views(out@),
                forall|q: int| 0 <= q < p ==> lex_lt(#[trigger] ov[q].0, k@),
            decreases out.len() - p,
        {
            p = p + 1;
        }
        if p < out.len() && eq_chars(&chars_of(out[p].0.as_str()), &k) {
            let _ = out.remove(p);
            out.insert(p, (kv, vv));
            let ghost nv = pair_views(out@);
            assert(nv =~= ov.update(p as int, (k@, vv@)));
            proof {
                assert forall|a: int, b: int| 0 <= a < b < nv.len() implies lex_lt(nv[a].0, nv[b].0) by {
                    assert(nv[a].0 == ov[a].0);
                    assert(nv[b].0 == ov[b].0);
                }
                assert forall|q: int| 0 <= q < nv.len() implies newm.contains_key(#[trigger] nv[q].0)
                    && newm[nv[q].0] == nv[q].1 by {
                    if q != p {
                        if ov[q].0 == k@ {
                            assert(lex_lt(ov[q].0, ov[p as int].0) || lex_lt(ov[p as int].0, ov[q].0));
                        }
                    }
                }
                assert forall|key: Seq<char>| newm.contains_key(key) implies exists|q: int|
                    0 <= q < nv.len() && (#[trigger] nv[q].0) == key by {
                    if key == k@ {
                        assert(nv[p as int].0 == key);
                    } else {
                        let q = choose|q: int| 0 <= q < ov.len() && (#[trigger] ov[q].0) == key;
                        assert(nv[q].0 == key);
                    }
                }
            }
        } else {
            proof {
                if p < ov.len() {
                    lemma_lex_total(ov[p as int].0, k@);
                }
            }
            out.insert(p, (kv, vv));
            let ghost nv = pair_views(out@);
            assert(nv =~= ov.insert(p as int, (k@, vv@)));
            proof {
                assert forall|a: int, b: int| 0 <= a < b < nv.len() implies lex_lt(nv[a].0, nv[b].0) by {
                    if a < p && b == p {
                    } else if a < p && b > p {
                        assert(nv[b] == ov[b - 1]);
                    } else if a == p {
                        assert(nv[b] == ov[b - 1]);
                        if b - 1 > p {
                            assert(lex_lt(ov[p as int].0, ov[b - 1].0));
                            lemma_lex_trans(k@, ov[p as int].0, ov[b - 1].0);
                            if k@ == ov[b - 1].0 {
                                lemma_lex_antisym(k@, ov[p as int].0);
                            }
                        }
                    } else if a > p {
                        assert(nv[a] == ov[a - 1]);
                        assert(nv[b] == ov[b - 1]);
                    }
                }
                assert forall|q: int| 0 <= q < nv.len() implies newm.contains_key(#[trigger] nv[q].0)
                    && newm[nv[q].0] == nv[q].1 by {
                    if q < p {
                        assert(nv[q] == ov[q]);
                    } else if q > p {
                        assert(nv[q] == ov[q - 1]);
                        if ov[q - 1].0 == k@ {
                            if q - 1 > p {
                                assert(lex_lt(ov[p as int].0, ov[q - 1].0));
                                lemma_lex_trans(k@, ov[p as int].0, ov[q - 1].0);
                                lemma_lex_antisym(k@, ov[p as int].0);
                            }
                        }
                    }
                }
                assert forall|key: Seq<char>| newm.contains_key(key) implies exists|q: int|
                    0 <= q < nv.len() && (#[trigger] nv[q].0) == key by {
                    if key == k@ {
                        assert(nv[p as int].0 == key);
                    } else {
                        let q = choose|q: int| 0 <= q < ov.len() && (#[trigger] ov[q].0) == key;
                        if q < p {
                            assert(nv[q].0 == key);
                        } else {
                            assert(nv[q + 1].0 == key);
                        }
                    }
                }
            }
        }
        i = i + 1;
    }
    assert(pair_views(pairs@).take(pairs@.len() as int) =~= pair_views(pairs@));
    proof {
        let m = pair_map(pair_views(pairs@));
        let c = sorted_entries(m);
        assert(keys_strictly_sorted(pair_views(out@)) && lists_map(pair_views(out@), m));
        lemma_sorted_listing_unique(c, pair_views(out@), m);
    }
    out
}

/// Two lists with strictly increasing keys that list the same map are equal.
pub proof fn lemma_sorted_listing_unique(
    ps: Seq<(Seq<char>, Seq<char>)>,
    qs: Seq<(Seq<char>, Seq<char>)>,
    m: Map<Seq<char>, Seq<char>>,
)
    requires
        keys_strictly_sorted(ps),
        keys_strictly_sorted(qs),
        lists_map(ps, m),
        lists_map(qs, m),
    ensures
        ps == qs,
    decreases ps.len(),
{
    if ps.len() == 0 {
        if qs.len() > 0 {
            assert(m.contains_key(qs[0].0));
        }
        assert(ps =~= qs);
    } else {
        assert(m.contains_key(ps[0].0));
        let j = choose|j: int| 0 <= j < qs.len() && (#[trigger] qs[j].0) == ps[0].0;
        assert(m.contains_key(qs[0].0));
        let i = choose|i: int| 0 <= i < ps.len() && (#[trigger] ps[i].0) == qs[0].0;
        if j > 0 {
            assert(lex_lt(qs[0].0, qs[j].0));
            if i > 0 {
                assert(lex_lt(ps[0].0, ps[i].0));
                lemma_lex_antisym(ps[0].0, qs[0].0);
            }
        }
        assert(ps[0].0 == qs[0].0);
        let key = ps[0].0;
        let m2 = m.remove(key);
        let ps2 = ps.drop_first();
        let qs2 = qs.drop_first();
        assert forall|a: int| 0 <= a < ps2.len() implies m2.contains_key(#[trigger] ps2[a].0)
            && m2[ps2[a].0] == ps2[a].1 by {
            assert(ps2[a] == ps[a + 1]);
            assert(lex_lt(ps[0].0, ps[a + 1].0));
        }
        assert forall|k: Seq<char>| m2.contains_key(k) implies exists|a: int|
            0 <= a < ps2.len() && (#[trigger] ps2[a].0) == k by {
            let a = choose|a: int| 0 <= a < ps.len() && (#[trigger] ps[a].0) == k;
            assert(a > 0);
            assert(ps2[a - 1].0 == k);
        }
        assert forall|a: int| 0 <= a < qs2.len() implies m2.contains_key(#[trigger] qs2[a].0)
            && m2[qs2[a].0] == qs2[a].1 by {
            assert(qs2[a] == qs[a + 1]);
            assert(lex_lt(qs[0].0, qs[a + 1].0));
        }
        assert forall|k: Seq<char>| m2.contains_key(k) implies exists|a: int|
            0 <= a < qs2.len() && (#[trigger] qs2[a].0) == k by {
            let a = choose|a: int| 0 <= a < qs.len() && (#[trigger] qs[a].0) == k;
            assert(a > 0);
            assert(qs2[a - 1].0 == k);
        }
        assert(keys_strictly_sorted(ps2)) by {
            assert forall|a: int, b: int| 0 <= a < b < ps2.len() implies lex_lt(ps2[a].0, ps2[b].0) by {
                assert(ps2[a] == ps[a + 1]);
                assert(ps2[b] == ps[b + 1]);
            }
        }
        assert(keys_strictly_sorted(qs2)) by {
            assert forall|a: int, b: int| 0 <= a < b < qs2.len() implies lex_lt(qs2[a].0, qs2[b].0) by {
                assert(qs2[a] == qs[a + 1]);
                assert(qs2[b] == qs[b + 1]);
            }
        }
        lemma_sorted_listing_unique(ps2, qs2, m2);
        assert(ps[0].1 == m[key]);
        assert(qs[0].1 == m[key]);
        assert(ps =~= seq![ps[0]] + ps2);
        assert(qs =~= seq![qs[0]] + qs2);
    }
}

/// The map's entries in increasing key order.
/// Two sorted orderings of the same strings are one and the same sequence.
#[verifier::spinoff_prover]
pub proof fn lemma_sorted_unique(a: Seq<Seq<char>>, b: Seq<Seq<char>>)
    requires
        sorted(a),
        sorted(b),
        a.to_multiset() == b.to_multiset(),
    ensures
        a == b,
    decreases a.len(),
{
    broadcast use vstd::seq_lib::group_to_multiset_ensures;

    assert(a.len() == a.to_multiset().len());
    assert(b.len() == b.to_multiset().len());
    if a.len() == 0 {
        assert(a =~= b);
    } else {
        assert(a.to_multiset().count(a[0]) > 0) by {
            assert(a.contains(a[0]));
        }
        assert(b.contains(a[0]));
        let j = choose|j: int| 0 <= j < b.len() && b[j] == a[0];
        assert(lex_le(b[0], a[0])) by {
            if j == 0 {
                lemma_lex_refl(a[0]);
            }
        }
        assert(a.to_multiset().count(b[0]) > 0) by {
            assert(b.contains(b[0]));
        }
        assert(a.contains(b[0]));
        let k = choose|k: int| 0 <= k < a.len() && a[k] == b[0];
        assert(lex_le(a[0], b[0])) by {
            if k == 0 {
                lemma_lex_refl(a[0]);
            }
        }
        lemma_lex_antisym(a[0], b[0]);
        let ra = a.remove(0);
        let rb = b.remove(0);
        assert(ra.to_multiset() == rb.to_multiset());
        assert(sorted(ra)) by {
            assert forall|x: int, y: int| 0 <= x < y < ra.len() implies lex_le(ra[x], ra[y]) by {
                assert(ra[x] == a[x + 1] && ra[y] == a[y + 1]);
            }
        }
        assert(sorted(rb)) by {
            assert forall|x: int, y: int| 0 <= x < y < rb.len() implies lex_le(rb[x], rb[y]) by {
                assert(rb[x] == b[x + 1] && rb[y] == b[y + 1]);
            }
        }
        lemma_sorted_unique(ra, rb);
        assert(a =~= seq![a[0]] + ra);
        assert(b =~= seq![b[0]] + rb);
    }
}

/// `t` with `x` inserted before the first item that is not below it.
pub open spec fn insert_in_order(t: Seq<Seq<char>>, x: Seq<char>) -> Seq<Seq<char>>
    decreases t.len(),
{
    if t.len() == 0 {
        seq![x]
    } else if lex_le(x, t[0]) {
        seq![x] + t
    } else {
        seq![t[0]] + insert_in_order(t.drop_first(), x)
    }
}

/// The strings of `s` sorted by insertion.
pub open spec fn insertion_sorted(s: Seq<Seq<char>>) -> Seq<Seq<char>>
    decreases s.len(),
{
    if s.len() == 0 {
        seq![]
    } else {
        insert_in_order(insertion_sorted(s.drop_last()), s.last())
    }
}

#[verifier::spinoff_prover]
proof fn lemma_insert_in_order(t: Seq<Seq<char>>, x: Seq<char>)
    requires
        sorted(t),
    ensures
        sorted(insert_in_order(t, x)),
        insert_in_order(t, x).to_multiset() == t.to_multiset().insert(x),
        forall|i: int|
            0 <= i < insert_in_order(t, x).len() ==> #[trigger] insert_in_order(t, x)[i] == x
                || t.contains(insert_in_order(t, x)[i]),
    decreases t.len(),
{
    broadcast use vstd::seq_lib::group_to_multiset_ensures;
    broadcast use vstd::multiset::group_multiset_axioms;

    let r = insert_in_order(t, x);
    if t.len() == 0 {
        assert(r =~= seq![x]);
        assert(seq![x] =~= Seq::<Seq<char>>::empty().push(x));
        assert(t =~= Seq::<Seq<char>>::empty());
    } else if lex_le(x, t[0]) {
        assert forall|i: int, j: int| 0 <= i < j < r.len() implies lex_le(r[i], r[j]) by {
            if i == 0 {
                if j > 1 {
                    lemma_lex_trans(x, t[0], t[j - 1]);
                }
            } else {
                assert(r[i] == t[i - 1] && r[j] == t[j - 1]);
            }
        }
        assert(r.remove(0) =~= t);
        assert(r.remove(0).to_multiset() == r.to_multiset().remove(r[0]));
        assert(r.to_multiset().count(x) > 0) by {
            assert(r.contains(x));
        }
        assert(r.to_multiset() =~= t.to_multiset().insert(x));
        assert forall|i: int| 0 <= i < r.len() implies #[trigger] r[i] == x || t.contains(r[i]) by {
            if i > 0 {
                assert(r[i] == t[i - 1]);
            }
        }
    } else {
        let rest = t.drop_first();
        assert(sorted(rest)) by {
            assert forall|i: int, j: int| 0 <= i < j < rest.len() implies lex_le(rest[i], rest[j]) by {
                assert(rest[i] == t[i + 1] && rest[j] == t[j + 1]);
            }
        }
        lemma_insert_in_order(rest, x);
        let q = insert_in_order(rest, x);
        lemma_lex_total(x, t[0]);
        assert forall|i: int, j: int| 0 <= i < j < r.len() implies lex_le(r[i], r[j]) by {
            if i == 0 {
                assert(r[j] == q[j - 1]);
                if q[j - 1] == x {
                } else {
                    assert(rest.contains(q[j - 1]));
                    let k = choose|k: int| 0 <= k < rest.len() && rest[k] == q[j - 1];
                    assert(rest[k] == t[k + 1]);
                }
            } else {
                assert(r[i] == q[i - 1] && r[j] == q[j - 1]);
            }
        }
        assert(r.remove(0) =~= q);
        assert(r.remove(0).to_multiset() == r.to_multiset().remove(r[0]));
        assert(t.remove(0) =~= rest);
        assert(t.remove(0).to_multiset() == t.to_multiset().remove(t[0]));
        assert(r.to_multiset().count(t[0]) > 0) by {
            assert(r.contains(t[0]));
        }
        assert(t.to_multiset().count(t[0]) > 0) by {
            assert(t.contains(t[0]));
        }
        assert(r.to_multiset() =~= t.to_multiset().insert(x));
        assert forall|i: int| 0 <= i < r.len() implies #[trigger] r[i] == x || t.contains(r[i]) by {
            if i == 0 {
                assert(t.contains(t[0]));
            } else {
                assert(r[i] == q[i - 1]);
                if q[i - 1] != x {
                    let k = choose|k: int| 0 <= k < rest.len() && rest[k] == q[i - 1];
                    assert(t[k + 1] == rest[k]);
                }
            }
        }
    }
}

/// Every list of strings has a sorted ordering.
pub proof fn lemma_sorted_exists(s: Seq<Seq<char>>)
    ensures
        sorted(insertion_sorted(s)),
        insertion_sorted(s).to_multiset() == s.to_multiset(),
        sorted(sorted_strings(s)),
        sorted_strings(s).to_multiset() == s.to_multiset(),
    decreases s.len(),
{
    broadcast use vstd::seq_lib::group_to_multiset_ensures;

    if s.len() == 0 {
        assert(insertion_sorted(s) =~= s);
    } else {
        lemma_sorted_exists(s.drop_last());
        lemma_insert_in_order(insertion_sorted(s.drop_last()), s.last());
        assert(s.drop_last().push(s.last()) =~= s);
    }
    lemma_sorted_strings(s, insertion_sorted(s));
}

/// The strings of `s` in sorted order.
pub open spec fn sorted_strings(s: Seq<Seq<char>>) -> Seq<Seq<char>> {
    choose|t: Seq<Seq<char>>| sorted(t) && t.to_multiset() == s.to_multiset()
}

/// A sorted ordering of the strings of `s` is `sorted_strings(s)`.
pub proof fn lemma_sorted_strings(s: Seq<Seq<char>>, t: Seq<Seq<char>>)
    requires
        sorted(t),
        t.to_multiset() == s.to_multiset(),
    ensures
        sorted_strings(s) == t,
{
    let u = sorted_strings(s);
    assert(sorted(u) && u.to_multiset() == s.to_multiset());
    lemma_sorted_unique(u, t);
}

pub open spec fn sorted_entries(m: Map<Seq<char>, Seq<char>>) -> Seq<(Seq<char>, Seq<char>)> {
    choose|ps: Seq<(Seq<char>, Seq<char>)>| keys_strictly_sorted(ps) && lists_map(ps, m)
}

} // verus!
