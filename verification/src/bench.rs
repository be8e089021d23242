//! Decisions of the source benchmark: command line values, the sampled
//! chain regions, the parity sample and the adapter selection.

use vstd::prelude::*;

use crate::text::{
    eq_chars, string_views, chars_of, parse_unsigned, parse_unsigned_chars, push_all, push_str, split, split_chars,
    ascii_lower, string_of, to_ascii_lowercase, to_ascii_lowercase_chars, trim, trim_chars, views,
};

verus! {

pub open spec fn invalid_concurrency_message(t: Seq<char>) -> Seq<char> {
    "invalid concurrency '"@ + t + "'"@
}

pub open spec fn zero_concurrency_message() -> Seq<char> {
    "concurrency must be > 0"@
}

/// The levels read from the first `k` comma-separated pieces, or the first
/// piece's error.
pub open spec fn csv_levels(pieces: Seq<Seq<char>>, k: int) -> Result<Seq<nat>, Seq<char>>
    decreases k,
{
    if k <= 0 {
        Ok(seq![])
    } else {
        match csv_levels(pieces, k - 1) {
            Err(e) => Err(e),
            Ok(vs) => {
                let t = pieces[k - 1];
                match parse_unsigned(trim(t), usize::MAX as nat) {
                    None => Err(invalid_concurrency_message(t)),
                    Some(v) => if v == 0 {
                        Err(zero_concurrency_message())
                    } else {
                        Ok(vs.push(v))
                    },
                }
            },
        }
    }
}

pub open spec fn csv_result(s: Seq<char>) -> Result<Seq<nat>, Seq<char>> {
    csv_levels(split(s, ','), split(s, ',').len() as int)
}

proof fn lemma_csv_error_stays(pieces: Seq<Seq<char>>, k: int, n: int)
    requires
        0 < k <= n,
        csv_levels(pieces, k) is Err,
    ensures
        csv_levels(pieces, n) == csv_levels(pieces, k),
    decreases n - k,
{
    if k < n {
        lemma_csv_error_stays(pieces, k, n - 1);
    }
}

/// Parses a comma-separated list of positive concurrency levels; each piece
/// is trimmed, must be a `usize` and must not be 0.
pub fn parse_usize_csv(s: &str) -> (r: Result<Vec<usize>, String>)
    ensures
        match r {
            Ok(v) => csv_result(s@) == Ok::<Seq<nat>, Seq<char>>(
                v@.map_values(|x: usize| x as nat),
            ),
            Err(e) => csv_result(s@) == Err::<Seq<nat>, Seq<char>>(e@),
        },
{
    let chars = chars_of(s);
    let pieces = split_chars(&chars, ',');
    let ghost pv = split(s@, ',');
    let mut out: Vec<usize> = Vec::new();
    let mut i: usize = 0;
    assert(out@.map_values(|x: usize| x as nat) =~= Seq::<nat>::empty());
    while i < pieces.len()
        invariant
            i <= pieces@.len(),
            views(pieces@) == pv,
            pv == split(s@, ','),
            csv_levels(pv, i as int) == Ok::<Seq<nat>, Seq<char>>(
                out@.map_values(|x: usize| x as nat),
            ),
        decreases pieces.len() - i,
    {
        assert(pv.len() == pieces@.len());
        assert(pv[i as int] == pieces@[i as int]@);
        let t = trim_chars(&pieces[i]);
        match parse_unsigned_chars(&t, usize::MAX as u64) {
            None => {
                let mut m = chars_of("invalid concurrency '");
                push_all(&mut m, &pieces[i]);
                push_str(&mut m, "'");
                proof {
                    lemma_csv_error_stays(pv, i + 1, pv.len() as int);
                }
                return Err(string_of(&m));
            },
            Some(v) => {
                if v == 0 {
                    proof {
                        lemma_csv_error_stays(pv, i + 1, pv.len() as int);
                    }
                    return Err("concurrency must be > 0".to_string());
                }
                let ghost before = out@.map_values(|x: usize| x as nat);
                out.push(v as usize);
                assert(out@.map_values(|x: usize| x as nat) =~= before.push(v as nat));
            },
        }
        i = i + 1;
    }
    Ok(out)
}

// ---------------------------------------------------------------------------
// Regions
// ---------------------------------------------------------------------------

/// Where the sampled chain regions start and how many blocks each holds.
pub struct RegionConfig {
    pub region_early_start: u32,
    pub region_sandblast_start: u32,
    pub region_recent_offset: u32,
    pub blocks_per_region: u32,
}

/// A named run of consecutive block heights.
pub struct Region {
    pub name: String,
    pub heights: Vec<u32>,
}

/// The highest block height that zebra's `Height` holds (`Height::MAX`,
/// 2^31 - 1); a height above it cannot be requested and is dropped.
pub const MAX_BLOCK_HEIGHT: u32 = 2147483647;

/// The heights of a region that starts at `start`: `blocks` heights from
/// `start`, but none above `tip` or above `MAX_BLOCK_HEIGHT`.
pub open spec fn region_end(start: nat, blocks: nat, tip: nat) -> nat {
    let e = if start + blocks > u32::MAX {
        u32::MAX as nat
    } else {
        start + blocks
    };
    let e2 = if e < tip + 1 {
        e
    } else {
        tip + 1
    };
    if e2 <= MAX_BLOCK_HEIGHT + 1 {
        e2
    } else {
        (MAX_BLOCK_HEIGHT + 1) as nat
    }
}

/// The regions, as (name, first height, end height): `early`, `sandblast`
/// and `recent` (the last `recent_offset` blocks below the tip), each
/// skipped where it starts above the tip or would be empty.
pub open spec fn region_specs(cfg: RegionConfig, tip: nat) -> Seq<(Seq<char>, nat, nat)> {
    let recent = if tip >= cfg.region_recent_offset {
        (tip - cfg.region_recent_offset) as nat
    } else {
        0
    };
    let all = seq![
        ("early"@, cfg.region_early_start as nat),
        ("sandblast"@, cfg.region_sandblast_start as nat),
        ("recent"@, recent),
    ];
    all.filter(|p: (Seq<char>, nat)| p.1 <= tip && p.1 < region_end(p.1, cfg.blocks_per_region as nat, tip))
        .map_values(|p: (Seq<char>, nat)| (p.0, p.1, region_end(p.1, cfg.blocks_per_region as nat, tip)))
}

pub open spec fn region_view(r: Region) -> (Seq<char>, Seq<u32>) {
    (r.name@, r.heights@)
}

/// The heights `start, start + 1, ..., end - 1`.
pub open spec fn height_range(start: nat, end: nat) -> Seq<u32> {
    Seq::new((end - start) as nat, |i: int| (start + i) as u32)
}

fn heights_between(start: u32, end: u32) -> (r: Vec<u32>)
    requires
        start <= end,
    ensures
        r@ == height_range(start as nat, end as nat),
{
    let mut v: Vec<u32> = Vec::new();
    let mut h = start;
    while h < end
        invariant
            start <= h <= end,
            v@ == height_range(start as nat, h as nat),
        decreases end - h,
    {
        v.push(h);
        h = h + 1;
        assert(v@ =~= height_range(start as nat, h as nat));
    }
    v
}

fn region_of(name: &str, start: u32, blocks: u32, tip: u32, out: &mut Vec<Region>) -> (kept: bool)
    requires
        tip < u32::MAX,
    ensures
        kept == (start <= tip && start < region_end(start as nat, blocks as nat, tip as nat)),
        kept ==> final(out)@.len() == old(out)@.len() + 1 && final(out)@.drop_last() == old(out)@
            && region_view(final(out)@.last()) == (name@, height_range(
            start as nat,
            region_end(start as nat, blocks as nat, tip as nat),
        )),
        !kept ==> final(out)@ == old(out)@,
{
    if start > tip {
        return false;
    }
    let e = start.saturating_add(blocks);
    let e2 = if e < tip + 1 {
        e
    } else {
        tip + 1
    };
    let end = if e2 <= MAX_BLOCK_HEIGHT + 1 {
        e2
    } else {
        MAX_BLOCK_HEIGHT + 1
    };
    if start >= end {
        return false;
    }
    let heights = heights_between(start, end);
    out.push(Region { name: name.to_string(), heights });
    true
}

/// The three sampled regions for a chain whose tip is `tip`, in the order
/// early, sandblast, recent; heights above `MAX_BLOCK_HEIGHT` are dropped,
/// and a region that starts above the tip or holds no height is left out.
pub fn build_regions(cfg: &RegionConfig, tip: u32) -> (r: Vec<Region>)
    requires
        tip < u32::MAX,
    ensures
        r@.map_values(|x: Region| (x.name@, x.heights@)) == region_specs(*cfg, tip as nat).map_values(
            |p: (Seq<char>, nat, nat)| (p.0, height_range(p.1, p.2)),
        ),
{
    let recent_start = tip.saturating_sub(cfg.region_recent_offset);
    let mut out: Vec<Region> = Vec::new();
    let ghost b = cfg.blocks_per_region as nat;
    let ghost t = tip as nat;
    let k1 = region_of("early", cfg.region_early_start, cfg.blocks_per_region, tip, &mut out);
    let ghost o1 = out@;
    let k2 = region_of("sandblast", cfg.region_sandblast_start, cfg.blocks_per_region, tip, &mut out);
    let ghost o2 = out@;
    let k3 = region_of("recent", recent_start, cfg.blocks_per_region, tip, &mut out);
    proof {
        let recent = if tip >= cfg.region_recent_offset {
            (tip - cfg.region_recent_offset) as nat
        } else {
            0
        };
        assert(recent == recent_start);
        let all = seq![
            ("early"@, cfg.region_early_start as nat),
            ("sandblast"@, cfg.region_sandblast_start as nat),
            ("recent"@, recent),
        ];
        let pred = |p: (Seq<char>, nat)| p.1 <= t && p.1 < region_end(p.1, b, t);
        reveal_with_fuel(Seq::filter, 4);
        assert(all.drop_last().drop_last().drop_last() =~= Seq::<(Seq<char>, nat)>::empty());
        assert(all.drop_last().drop_last() =~= seq![all[0]]);
        assert(all.drop_last() =~= seq![all[0], all[1]]);
        let f1 = seq![all[0]].filter(pred);
        let f2 = seq![all[0], all[1]].filter(pred);
        let f3 = all.filter(pred);
        assert(seq![all[0]].drop_last() =~= Seq::<(Seq<char>, nat)>::empty());
        assert(seq![all[0], all[1]].drop_last() =~= seq![all[0]]);
        assert(f1.len() == if k1 { 1int } else { 0 });
        assert(f2 == if k2 { f1.push(all[1]) } else { f1 });
        assert(f3 == if k3 { f2.push(all[2]) } else { f2 });
        let g = |p: (Seq<char>, nat)| (p.0, p.1, region_end(p.1, b, t));
        let h = |p: (Seq<char>, nat, nat)| (p.0, height_range(p.1, p.2));
        let v = |x: Region| (x.name@, x.heights@);
        assert(out@.map_values(v) =~= f3.map_values(g).map_values(h));
    }
    out
}

// ---------------------------------------------------------------------------
// Pools, adapters, parity sample
// ---------------------------------------------------------------------------

/// The shielded pool that the subtree probe targets.
#[derive(PartialEq, Eq, Structural, Clone, Copy, Debug)]
pub enum ShieldedPool {
    Sapling,
    Orchard,
    Ironwood,
}

/// The pool's label in reports.
pub fn pool_label(pool: ShieldedPool) -> (s: &'static str)
    ensures
        s@ == pool_name(pool),
{
    match pool {
        ShieldedPool::Sapling => "sapling",
        ShieldedPool::Orchard => "orchard",
        ShieldedPool::Ironwood => "ironwood",
    }
}

pub open spec fn pool_from(s: Seq<char>) -> Result<ShieldedPool, Seq<char>> {
    let l = to_ascii_lowercase(s);
    if l == "sapling"@ {
        Ok(ShieldedPool::Sapling)
    } else if l == "orchard"@ {
        Ok(ShieldedPool::Orchard)
    } else if l == "ironwood"@ {
        Ok(ShieldedPool::Ironwood)
    } else {
        Err("unknown pool '"@ + l + "' (sapling|orchard|ironwood)"@)
    }
}

/// Reads the pool flag, ignoring ASCII case.
pub fn parse_pool(s: &str) -> (r: Result<ShieldedPool, String>)
    ensures
        match r {
            Ok(p) => pool_from(s@) == Ok::<ShieldedPool, Seq<char>>(p),
            Err(e) => pool_from(s@) == Err::<ShieldedPool, Seq<char>>(e@),
        },
{
    let l = to_ascii_lowercase_chars(&chars_of(s));
    if crate::text::eq_chars(&l, &chars_of("sapling")) {
        Ok(ShieldedPool::Sapling)
    } else if crate::text::eq_chars(&l, &chars_of("orchard")) {
        Ok(ShieldedPool::Orchard)
    } else if crate::text::eq_chars(&l, &chars_of("ironwood")) {
        Ok(ShieldedPool::Ironwood)
    } else {
        let mut m = chars_of("unknown pool '");
        push_all(&mut m, &l);
        push_str(&mut m, "' (sapling|orchard|ironwood)");
        Err(string_of(&m))
    }
}

pub open spec fn pool_name(pool: ShieldedPool) -> Seq<char> {
    match pool {
        ShieldedPool::Sapling => "sapling"@,
        ShieldedPool::Orchard => "orchard"@,
        ShieldedPool::Ironwood => "ironwood"@,
    }
}

/// A pool's label reads back as that pool.
pub proof fn lemma_pool_label_roundtrip(pool: ShieldedPool)
    ensures
        pool_from(pool_name(pool)) == Ok::<ShieldedPool, Seq<char>>(pool),
{
    reveal_strlit("sapling");
    reveal_strlit("orchard");
    reveal_strlit("ironwood");
    let n = pool_name(pool);
    assert forall|i: int| 0 <= i < n.len() implies ascii_lower(#[trigger] n[i]) == n[i] by {
        assert(97 <= (n[i] as u32) <= 122);
    }
    assert(to_ascii_lowercase(n) =~= n);
    assert("sapling"@ != "orchard"@) by {
        assert("sapling"@[0] != "orchard"@[0]);
    }
    assert("sapling"@ != "ironwood"@) by {
        assert("sapling"@.len() != "ironwood"@.len());
    }
    assert("orchard"@ != "ironwood"@) by {
        assert("orchard"@.len() != "ironwood"@.len());
    }
}

/// Which adapters an `--adapter` value selects: (readstate, rpc).
pub open spec fn adapters_from(s: Seq<char>) -> Result<(bool, bool), Seq<char>> {
    if s == "both"@ {
        Ok((true, true))
    } else if s == "readstate"@ {
        Ok((true, false))
    } else if s == "rpc"@ {
        Ok((false, true))
    } else {
        Err("--adapter must be one of: both, readstate, rpc"@)
    }
}

/// Reads the `--adapter` flag: which of the two adapters to exercise.
pub fn select_adapters(adapter: &str) -> (r: Result<(bool, bool), String>)
    ensures
        match r {
            Ok(p) => adapters_from(adapter@) == Ok::<(bool, bool), Seq<char>>(p),
            Err(e) => adapters_from(adapter@) == Err::<(bool, bool), Seq<char>>(e@),
        },
{
    let a = chars_of(adapter);
    if crate::text::eq_chars(&a, &chars_of("both")) {
        Ok((true, true))
    } else if crate::text::eq_chars(&a, &chars_of("readstate")) {
        Ok((true, false))
    } else if crate::text::eq_chars(&a, &chars_of("rpc")) {
        Ok((false, true))
    } else {
        Err("--adapter must be one of: both, readstate, rpc".to_string())
    }
}

/// The ops of a comma-separated `--ops` value, each trimmed.
pub fn parse_ops(ops: &str) -> (r: Vec<String>)
    ensures
        r@.map_values(|s: String| s@) == split(ops@, ',').map_values(|p: Seq<char>| trim(p)),
{
    let pieces = split_chars(&chars_of(ops), ',');
    let mut out: Vec<String> = Vec::new();
    let mut i: usize = 0;
    while i < pieces.len()
        invariant
            i <= pieces@.len(),
            views(pieces@) == split(ops@, ','),
            out@.map_values(|s: String| s@) == split(ops@, ',').take(i as int).map_values(
                |p: Seq<char>| trim(p),
            ),
        decreases pieces.len() - i,
    {
        let t = trim_chars(&pieces[i]);
        let ghost before = out@.map_values(|s: String| s@);
        out.push(string_of(&t));
        assert(split(ops@, ',')[i as int] == pieces@[i as int]@);
        assert(split(ops@, ',').take(i + 1) =~= split(ops@, ',').take(i as int).push(
            pieces@[i as int]@,
        ));
        assert(out@.map_values(|s: String| s@) =~= before.push(t@));
        i = i + 1;
    }
    assert(split(ops@, ',').take(pieces@.len() as int) =~= split(ops@, ','));
    out
}

/// The lowest of the chain tips the sources reported, or 0 where none did.
pub open spec fn min_tip(tips: Seq<u32>) -> nat
    decreases tips.len(),
{
    if tips.len() == 0 {
        0
    } else if tips.len() == 1 {
        tips[0] as nat
    } else {
        let m = min_tip(tips.drop_last());
        if (tips.last() as nat) < m {
            tips.last() as nat
        } else {
            m
        }
    }
}

/// The tip to benchmark against: the lowest reported tip, so that every
/// source can serve the sampled heights; an error where no source gave one
/// (or the tip is 0).
pub fn choose_tip(tips: &Vec<u32>) -> (r: Result<u32, String>)
    ensures
        match r {
            Ok(t) => t == min_tip(tips@) && t > 0,
            Err(e) => min_tip(tips@) == 0 && e@
                == "could not determine chain tip from any source; aborting"@,
        },
{
    let mut m: u32 = 0;
    let mut i: usize = 0;
    while i < tips.len()
        invariant
            i <= tips@.len(),
            m == min_tip(tips@.take(i as int)),
        decreases tips.len() - i,
    {
        assert(tips@.take(i + 1).drop_last() =~= tips@.take(i as int));
        assert(tips@.take(i + 1).last() == tips@[i as int]);
        if i == 0 || tips[i] < m {
            m = tips[i];
        }
        i = i + 1;
    }
    assert(tips@.take(tips@.len() as int) =~= tips@);
    if m == 0 {
        Err("could not determine chain tip from any source; aborting".to_string())
    } else {
        Ok(m)
    }
}

/// The number of steps of size `step` that start below `len`.
pub open spec fn step_count(len: nat, step: nat) -> nat {
    if len % step != 0 {
        len / step + 1
    } else {
        len / step
    }
}

/// The heights sampled for the parity check: every `step`-th height from
/// the first, where `step` is the number of heights over `sample` (at
/// least 1), and at most `sample` of them.
pub open spec fn parity_picks(all: Seq<u32>, sample: nat) -> Seq<u32> {
    if all.len() == 0 || sample == 0 {
        seq![]
    } else {
        let step = if all.len() / sample >= 1 {
            all.len() / sample
        } else {
            1
        };
        let count = step_count(all.len(), step);
        let n = if count < sample {
            count
        } else {
            sample
        };
        Seq::new(n, |i: int| all[i * step])
    }
}

proof fn lemma_step_count(len: int, step: int, c: int)
    requires
        len > 0,
        step >= 1,
        c >= 0,
    ensures
        c * step < len <==> c < step_count(len as nat, step as nat),
{
    let q = len / step;
    let r = len % step;
    assert(len == q * step + r && 0 <= r < step) by (nonlinear_arith)
        requires
            step >= 1,
            q == len / step,
            r == len % step,
    ;
    assert(c * step < len <==> c < (if r != 0 { q + 1 } else { q })) by (nonlinear_arith)
        requires
            len == q * step + r,
            0 <= r < step,
            step >= 1,
            c >= 0,
            q >= 0,
    ;
}

/// The heights to cross-check between the two sources.
pub fn parity_sample(all: &Vec<u32>, sample: usize) -> (r: Vec<u32>)
    ensures
        r@ == parity_picks(all@, sample as nat),
{
    let len = all.len();
    if len == 0 || sample == 0 {
        let v: Vec<u32> = Vec::new();
        assert(v@ =~= parity_picks(all@, sample as nat));
        return v;
    }
    let q = len / sample;
    let step = if q >= 1 {
        q
    } else {
        1
    };
    proof {
        if len % step != 0 {
            assert(step >= 2);
            assert(len / step < len) by (nonlinear_arith)
                requires
                    step >= 2,
                    len > 0,
            ;
        }
    }
    let count = if len % step != 0 {
        len / step + 1
    } else {
        len / step
    };
    let n = if count < sample {
        count
    } else {
        sample
    };
    let mut out: Vec<u32> = Vec::new();
    let mut c: usize = 0;
    let mut idx: usize = 0;
    proof {
        lemma_step_count(len as int, step as int, 0);
    }
    while c < n
        invariant
            step >= 1,
            len == all@.len() > 0,
            c <= n <= count,
            count == step_count(len as nat, step as nat),
            c < n ==> idx == c * step,
            c < n ==> idx < len,
            out@.len() == c,
            forall|j: int| 0 <= j < c ==> out@[j] == all@[j * step],
        decreases n - c,
    {
        out.push(all[idx]);
        c = c + 1;
        if c < n {
            proof {
                lemma_step_count(len as int, step as int, c as int);
                assert(c * step == idx + step) by (nonlinear_arith)
                    requires
                        idx == (c - 1) * step,
                ;
                assert(c * step < len);
            }
            idx = idx + step;
        }
    }
    assert(out@ =~= parity_picks(all@, sample as nat));
    out
}

// ---------------------------------------------------------------------------
// Parity outcome
// ---------------------------------------------------------------------------

/// What a source gave for a block: its hash, height and transaction count.
pub struct BlockSummary {
    pub hash: Vec<u8>,
    pub height: u32,
    pub tx_count: usize,
}

pub open spec fn summary_view(b: BlockSummary) -> (Seq<u8>, u32, usize) {
    (b.hash@, b.height, b.tx_count)
}

/// The parity check's tally over the sampled heights: how many heights
/// both sources served, the heights where their blocks disagree, and the
/// heights one source could not serve.
pub struct ParityReport {
    pub checked: usize,
    pub mismatches: usize,
    pub mismatched_heights: Vec<u32>,
    pub unavailable: usize,
    pub unavailable_heights: Vec<u32>,
}

/// The tally of the first `k` sampled heights, each given with what the
/// two sources returned for it (nothing where a source failed): the count
/// of heights both served, the heights that disagree, and the heights that
/// one source could not serve.
pub open spec fn parity_tally(
    pairs: Seq<(u32, Option<BlockSummary>, Option<BlockSummary>)>,
    k: int,
) -> (nat, Seq<u32>, Seq<u32>)
    decreases k,
{
    if k <= 0 {
        (0, seq![], seq![])
    } else {
        let (c, m, u) = parity_tally(pairs, k - 1);
        let (h, a, b) = pairs[k - 1];
        match (a, b) {
            (Some(a), Some(b)) => if summary_view(a) == summary_view(b) {
                (c + 1, m, u)
            } else {
                (c + 1, m.push(h), u)
            },
            _ => (c, m, u.push(h)),
        }
    }
}

proof fn lemma_parity_tally_bound(
    pairs: Seq<(u32, Option<BlockSummary>, Option<BlockSummary>)>,
    k: int,
)
    requires
        0 <= k <= pairs.len(),
    ensures
        parity_tally(pairs, k).0 + parity_tally(pairs, k).2.len() == k,
        parity_tally(pairs, k).1.len() <= parity_tally(pairs, k).0,
    decreases k,
{
    if k > 0 {
        lemma_parity_tally_bound(pairs, k - 1);
    }
}

fn same_summary(a: &BlockSummary, b: &BlockSummary) -> (r: bool)
    ensures
        r == (summary_view(*a) == summary_view(*b)),
{
    if a.height != b.height || a.tx_count != b.tx_count || a.hash.len() != b.hash.len() {
        return false;
    }
    let mut i: usize = 0;
    while i < a.hash.len()
        invariant
            i <= a.hash@.len() == b.hash@.len(),
            forall|j: int| 0 <= j < i ==> a.hash@[j] == b.hash@[j],
        decreases a.hash.len() - i,
    {
        if a.hash[i] != b.hash[i] {
            return false;
        }
        i = i + 1;
    }
    assert(a.hash@ =~= b.hash@);
    true
}

/// Tallies the parity check: for each sampled height, the height and what
/// the two sources returned for it.
pub fn parity_outcome(pairs: &Vec<(u32, Option<BlockSummary>, Option<BlockSummary>)>) -> (r: ParityReport)
    ensures
        (r.checked as nat, r.mismatched_heights@, r.unavailable_heights@) == parity_tally(
            pairs@,
            pairs@.len() as int,
        ),
        r.mismatches == r.mismatched_heights@.len(),
        r.unavailable == r.unavailable_heights@.len(),
{
    let mut checked: usize = 0;
    let mut mismatched: Vec<u32> = Vec::new();
    let mut unavailable: Vec<u32> = Vec::new();
    let mut i: usize = 0;
    while i < pairs.len()
        invariant
            i <= pairs@.len(),
            (checked as nat, mismatched@, unavailable@) == parity_tally(pairs@, i as int),
        decreases pairs.len() - i,
    {
        proof {
            lemma_parity_tally_bound(pairs@, i + 1);
        }
        let (h, a, b) = &pairs[i];
        match (a, b) {
            (Some(a), Some(b)) => {
                checked = checked + 1;
                if !same_summary(a, b) {
                    mismatched.push(*h);
                }
            },
            _ => {
                unavailable.push(*h);
            },
        }
        i = i + 1;
    }
    proof {
        lemma_parity_tally_bound(pairs@, pairs@.len() as int);
    }
    let mismatches = mismatched.len();
    let unavailable_count = unavailable.len();
    ParityReport {
        checked,
        mismatches,
        mismatched_heights: mismatched,
        unavailable: unavailable_count,
        unavailable_heights: unavailable,
    }
}

/// Whether the parity check holds: the sources agree only where no sampled
/// block differs between them, so a single mismatch fails it.
pub fn parity_holds(report: &ParityReport) -> (b: bool)
    ensures
        b == (report.mismatches == 0),
{
    report.mismatches == 0
}

// ---------------------------------------------------------------------------
// Cell plan
// ---------------------------------------------------------------------------

/// One benchmark cell: the source it runs against, the op, the region (or
/// the pool label, or `n/a`), and the in-flight concurrency.
pub struct Cell {
    pub source: String,
    pub op: String,
    pub region: String,
    pub concurrency: usize,
}

pub type CellView = (Seq<char>, Seq<char>, usize);

pub open spec fn cell_views(v: Seq<Cell>) -> Seq<CellView> {
    v.map_values(|c: Cell| (c.op@, c.region@, c.concurrency))
}

/// One cell per concurrency level, for one op and region.
pub open spec fn level_cells(op: Seq<char>, region: Seq<char>, concs: Seq<usize>) -> Seq<CellView> {
    concs.map_values(|c: usize| (op, region, c))
}

/// The cells of an op over the named regions, region by region.
pub open spec fn region_cells(op: Seq<char>, regions: Seq<Seq<char>>, concs: Seq<usize>) -> Seq<
    CellView,
>
    decreases regions.len(),
{
    if regions.len() == 0 {
        seq![]
    } else {
        region_cells(op, regions.drop_last(), concs) + level_cells(op, regions.last(), concs)
    }
}

/// The transaction cells: one run per region with harvested transaction
/// ids (the region's name and how many); a region without any is skipped.
pub open spec fn tx_cells(corpus: Seq<(Seq<char>, nat)>, concs: Seq<usize>) -> Seq<CellView>
    decreases corpus.len(),
{
    if corpus.len() == 0 {
        seq![]
    } else {
        tx_cells(corpus.drop_last(), concs) + if corpus.last().1 == 0 {
            seq![]
        } else {
            level_cells("transaction"@, corpus.last().0, concs)
        }
    }
}

/// The cells of one op. The staged RPC profile runs apart from the sweeps,
/// and an unknown op is skipped.
pub open spec fn op_cells(
    op: Seq<char>,
    regions: Seq<Seq<char>>,
    corpus: Seq<(Seq<char>, nat)>,
    pool: ShieldedPool,
    concs: Seq<usize>,
) -> Seq<CellView> {
    if op == "compact"@ || op == "rawblock"@ || op == "treestate"@ {
        region_cells(op, regions, concs)
    } else if op == "transaction"@ {
        tx_cells(corpus, concs)
    } else if op == "subtreeroots"@ {
        level_cells(op, pool_name(pool), concs)
    } else if op == "tip"@ {
        level_cells(op, "n/a"@, concs)
    } else {
        seq![]
    }
}

/// The cells of a source's sweeps: each selected op in order.
pub open spec fn cell_plan(
    ops: Seq<Seq<char>>,
    regions: Seq<Seq<char>>,
    corpus: Seq<(Seq<char>, nat)>,
    pool: ShieldedPool,
    concs: Seq<usize>,
) -> Seq<CellView>
    decreases ops.len(),
{
    if ops.len() == 0 {
        seq![]
    } else {
        cell_plan(ops.drop_last(), regions, corpus, pool, concs) + op_cells(
            ops.last(),
            regions,
            corpus,
            pool,
            concs,
        )
    }
}

proof fn lemma_level_cells(op: Seq<char>, region: Seq<char>, concs: Seq<usize>)
    ensures
        level_cells(op, region, concs).len() == concs.len(),
        forall|j: int| 0 <= j < concs.len() ==> #[trigger] level_cells(op, region, concs)[j] == (
            op,
            region,
            concs[j],
        ),
{
}

proof fn lemma_region_cells(op: Seq<char>, regions: Seq<Seq<char>>, concs: Seq<usize>)
    ensures
        region_cells(op, regions, concs).len() == regions.len() * concs.len(),
        forall|i: int, j: int|
            0 <= i < regions.len() && 0 <= j < concs.len() ==> #[trigger] region_cells(
                op,
                regions,
                concs,
            )[i * concs.len() + j] == (op, regions[i], concs[j]),
    decreases regions.len(),
{
    let m = concs.len() as int;
    if regions.len() > 0 {
        let init = regions.drop_last();
        lemma_region_cells(op, init, concs);
        lemma_level_cells(op, regions.last(), concs);
        let n = init.len() as int;
        assert(n * m + m == (n + 1) * m) by (nonlinear_arith);
        assert forall|i: int, j: int| 0 <= i < regions.len() && 0 <= j < m implies #[trigger] region_cells(
            op,
            regions,
            concs,
        )[i * m + j] == (op, regions[i], concs[j]) by {
            if i < n {
                assert(i * m + j < n * m) by (nonlinear_arith)
                    requires
                        0 <= i < n,
                        0 <= j < m,
                ;
                assert(i * m + j >= 0) by (nonlinear_arith)
                    requires
                        0 <= i,
                        0 <= j,
                        0 <= m,
                ;
                assert(regions[i] == init[i]);
            } else {
                assert(i * m + j - n * m == j) by (nonlinear_arith)
                    requires
                        i == n,
                ;
            }
        }
    }
}

/// The block ops (`compact`, `rawblock`, `treestate`) run every region at
/// every concurrency level, region by region: for `n` regions and `m`
/// levels the plan of such an op holds `n * m` cells, the cell at
/// `i * m + j` being the op over region `i` at level `j`.
pub proof fn lemma_block_op_cells(
    op: Seq<char>,
    regions: Seq<Seq<char>>,
    corpus: Seq<(Seq<char>, nat)>,
    pool: ShieldedPool,
    concs: Seq<usize>,
)
    requires
        op == "compact"@ || op == "rawblock"@ || op == "treestate"@,
    ensures
        cell_plan(seq![op], regions, corpus, pool, concs).len() == regions.len() * concs.len(),
        forall|i: int, j: int|
            0 <= i < regions.len() && 0 <= j < concs.len() ==> #[trigger] cell_plan(
                seq![op],
                regions,
                corpus,
                pool,
                concs,
            )[i * concs.len() + j] == (op, regions[i], concs[j]),
{
    let ops = seq![op];
    assert(ops.drop_last() =~= Seq::<Seq<char>>::empty());
    assert(ops.last() == op);
    assert(cell_plan(ops.drop_last(), regions, corpus, pool, concs) == Seq::<CellView>::empty());
    assert(cell_plan(ops, regions, corpus, pool, concs) =~= op_cells(op, regions, corpus, pool, concs));
    assert(op_cells(op, regions, corpus, pool, concs) == region_cells(op, regions, concs));
    lemma_region_cells(op, regions, concs);
}

/// The chain tip op runs once per concurrency level under the region
/// `n/a`, and the subtree roots op once per level under the pool's label.
pub proof fn lemma_tip_and_subtree_cells(
    regions: Seq<Seq<char>>,
    corpus: Seq<(Seq<char>, nat)>,
    pool: ShieldedPool,
    concs: Seq<usize>,
)
    ensures
        cell_plan(seq!["tip"@], regions, corpus, pool, concs).len() == concs.len(),
        forall|j: int| 0 <= j < concs.len() ==> #[trigger] cell_plan(seq!["tip"@], regions, corpus, pool, concs)[j]
            == ("tip"@, "n/a"@, concs[j]),
        cell_plan(seq!["subtreeroots"@], regions, corpus, pool, concs).len() == concs.len(),
        forall|j: int| 0 <= j < concs.len() ==> #[trigger] cell_plan(seq!["subtreeroots"@], regions, corpus, pool, concs)[j]
            == ("subtreeroots"@, match pool {
                ShieldedPool::Sapling => "sapling"@,
                ShieldedPool::Orchard => "orchard"@,
                ShieldedPool::Ironwood => "ironwood"@,
            }, concs[j]),
{
    reveal_strlit("tip");
    reveal_strlit("subtreeroots");
    reveal_strlit("compact");
    reveal_strlit("rawblock");
    reveal_strlit("treestate");
    reveal_strlit("transaction");
    let t = seq!["tip"@];
    let r = seq!["subtreeroots"@];
    assert(t.drop_last() =~= Seq::<Seq<char>>::empty());
    assert(r.drop_last() =~= Seq::<Seq<char>>::empty());
    assert(t.last() == "tip"@);
    assert(r.last() == "subtreeroots"@);
    assert(cell_plan(t.drop_last(), regions, corpus, pool, concs) == Seq::<CellView>::empty());
    assert(cell_plan(r.drop_last(), regions, corpus, pool, concs) == Seq::<CellView>::empty());
    assert("tip"@ != "compact"@ && "tip"@ != "rawblock"@ && "tip"@ != "treestate"@ && "tip"@
        != "transaction"@ && "tip"@ != "subtreeroots"@) by {
        assert("tip"@.len() != "compact"@.len());
        assert("tip"@.len() != "rawblock"@.len());
        assert("tip"@.len() != "treestate"@.len());
        assert("tip"@.len() != "transaction"@.len());
        assert("tip"@.len() != "subtreeroots"@.len());
    }
    assert("subtreeroots"@ != "compact"@ && "subtreeroots"@ != "rawblock"@ && "subtreeroots"@
        != "treestate"@ && "subtreeroots"@ != "transaction"@) by {
        assert("subtreeroots"@.len() != "compact"@.len());
        assert("subtreeroots"@.len() != "rawblock"@.len());
        assert("subtreeroots"@.len() != "treestate"@.len());
        assert("subtreeroots"@.len() != "transaction"@.len());
    }
    assert(cell_plan(t, regions, corpus, pool, concs) =~= op_cells("tip"@, regions, corpus, pool, concs));
    assert(cell_plan(r, regions, corpus, pool, concs) =~= op_cells(
        "subtreeroots"@,
        regions,
        corpus,
        pool,
        concs,
    ));
    lemma_level_cells("tip"@, "n/a"@, concs);
    lemma_level_cells("subtreeroots"@, pool_name(pool), concs);
}

proof fn lemma_tx_cells_full(corpus: Seq<(Seq<char>, nat)>, concs: Seq<usize>)
    requires
        forall|i: int| 0 <= i < corpus.len() ==> (#[trigger] corpus[i]).1 > 0,
    ensures
        tx_cells(corpus, concs).len() == corpus.len() * concs.len(),
        forall|i: int, j: int|
            0 <= i < corpus.len() && 0 <= j < concs.len() ==> #[trigger] tx_cells(corpus, concs)[i
                * concs.len() + j] == ("transaction"@, corpus[i].0, concs[j]),
    decreases corpus.len(),
{
    let m = concs.len() as int;
    if corpus.len() > 0 {
        let init = corpus.drop_last();
        assert forall|i: int| 0 <= i < init.len() implies (#[trigger] init[i]).1 > 0 by {
            assert(init[i] == corpus[i]);
        }
        lemma_tx_cells_full(init, concs);
        assert(corpus.last() == corpus[corpus.len() - 1]);
        assert(corpus[corpus.len() - 1].1 > 0);
        lemma_level_cells("transaction"@, corpus.last().0, concs);
        assert(tx_cells(corpus, concs) == tx_cells(init, concs) + level_cells(
            "transaction"@,
            corpus.last().0,
            concs,
        ));
        let n = init.len() as int;
        assert(n * m + m == (n + 1) * m) by (nonlinear_arith);
        assert(corpus.len() == n + 1);
        assert(tx_cells(corpus, concs).len() == n * m + m);
        assert forall|i: int, j: int| 0 <= i < corpus.len() && 0 <= j < m implies #[trigger] tx_cells(
            corpus,
            concs,
        )[i * m + j] == ("transaction"@, corpus[i].0, concs[j]) by {
            if i < n {
                assert(i * m + j < n * m) by (nonlinear_arith)
                    requires
                        0 <= i < n,
                        0 <= j < m,
                ;
                assert(i * m + j >= 0) by (nonlinear_arith)
                    requires
                        0 <= i,
                        0 <= j,
                        0 <= m,
                ;
                assert(corpus[i] == init[i]);
            } else {
                assert(i * m + j - n * m == j) by (nonlinear_arith)
                    requires
                        i == n,
                ;
            }
        }
    } else {
        assert(corpus.len() * concs.len() == 0) by (nonlinear_arith)
            requires
                corpus.len() == 0,
        ;
    }
}

proof fn lemma_tx_cells_append(a: Seq<(Seq<char>, nat)>, b: Seq<(Seq<char>, nat)>, concs: Seq<usize>)
    ensures
        tx_cells(a + b, concs) == tx_cells(a, concs) + tx_cells(b, concs),
    decreases b.len(),
{
    if b.len() == 0 {
        assert(a + b =~= a);
        assert(tx_cells(a, concs) + tx_cells(b, concs) =~= tx_cells(a, concs));
    } else {
        lemma_tx_cells_append(a, b.drop_last(), concs);
        assert((a + b).drop_last() =~= a + b.drop_last());
        assert((a + b).last() == b.last());
        let x = tx_cells(a, concs);
        let y = tx_cells(b.drop_last(), concs);
        let z: Seq<CellView> = if b.last().1 == 0 {
            seq![]
        } else {
            level_cells("transaction"@, b.last().0, concs)
        };
        assert(x + y + z =~= x + (y + z));
    }
}

/// The transaction op runs, region by region, every region with harvested
/// transaction ids at every concurrency level, and skips a region without
/// any: where every region has some, the plan holds `n * m` cells for `n`
/// regions and `m` levels, the cell at `i * m + j` being region `i` at
/// level `j`; and a region without ids adds no cell.
pub proof fn lemma_transaction_cells(
    regions: Seq<Seq<char>>,
    corpus: Seq<(Seq<char>, nat)>,
    pool: ShieldedPool,
    concs: Seq<usize>,
    before: Seq<(Seq<char>, nat)>,
    empty: Seq<char>,
    after: Seq<(Seq<char>, nat)>,
)
    ensures
        (forall|i: int| 0 <= i < corpus.len() ==> (#[trigger] corpus[i]).1 > 0) ==> {
            &&& cell_plan(seq!["transaction"@], regions, corpus, pool, concs).len() == corpus.len()
                * concs.len()
            &&& forall|i: int, j: int|
                0 <= i < corpus.len() && 0 <= j < concs.len() ==> #[trigger] cell_plan(
                    seq!["transaction"@],
                    regions,
                    corpus,
                    pool,
                    concs,
                )[i * concs.len() + j] == ("transaction"@, corpus[i].0, concs[j])
        },
        cell_plan(seq!["transaction"@], regions, before + seq![(empty, 0nat)] + after, pool, concs)
            == cell_plan(seq!["transaction"@], regions, before + after, pool, concs),
{
    reveal_strlit("transaction");
    reveal_strlit("compact");
    reveal_strlit("rawblock");
    reveal_strlit("treestate");
    let t = seq!["transaction"@];
    assert(t.drop_last() =~= Seq::<Seq<char>>::empty());
    assert(t.last() == "transaction"@);
    assert("transaction"@ != "compact"@ && "transaction"@ != "rawblock"@ && "transaction"@
        != "treestate"@) by {
        assert("transaction"@.len() != "compact"@.len());
        assert("transaction"@.len() != "rawblock"@.len());
        assert("transaction"@.len() != "treestate"@.len());
    }
    assert forall|c: Seq<(Seq<char>, nat)>| #[trigger] cell_plan(t, regions, c, pool, concs) == tx_cells(c, concs) by {
        assert(cell_plan(t.drop_last(), regions, c, pool, concs) == Seq::<CellView>::empty());
        assert(cell_plan(t, regions, c, pool, concs) =~= op_cells("transaction"@, regions, c, pool, concs));
    }
    if forall|i: int| 0 <= i < corpus.len() ==> (#[trigger] corpus[i]).1 > 0 {
        lemma_tx_cells_full(corpus, concs);
    }
    let mid = seq![(empty, 0nat)];
    lemma_tx_cells_append(before + mid, after, concs);
    lemma_tx_cells_append(before, mid, concs);
    lemma_tx_cells_append(before, after, concs);
    assert(mid.drop_last() =~= Seq::<(Seq<char>, nat)>::empty());
    assert(mid.last().1 == 0);
    assert(tx_cells(mid.drop_last(), concs) == Seq::<CellView>::empty());
    assert(tx_cells(mid, concs) =~= Seq::<CellView>::empty());
    assert(tx_cells(before, concs) + Seq::<CellView>::empty() =~= tx_cells(before, concs));
}

/// The plan of a list of ops is the plans of its parts, one after the
/// other.
pub proof fn lemma_cell_plan_append(
    ops1: Seq<Seq<char>>,
    ops2: Seq<Seq<char>>,
    regions: Seq<Seq<char>>,
    corpus: Seq<(Seq<char>, nat)>,
    pool: ShieldedPool,
    concs: Seq<usize>,
)
    ensures
        cell_plan(ops1 + ops2, regions, corpus, pool, concs) == cell_plan(ops1, regions, corpus, pool, concs)
            + cell_plan(ops2, regions, corpus, pool, concs),
    decreases ops2.len(),
{
    if ops2.len() == 0 {
        assert(ops1 + ops2 =~= ops1);
        assert(cell_plan(ops1, regions, corpus, pool, concs) + cell_plan(ops2, regions, corpus, pool, concs)
            =~= cell_plan(ops1, regions, corpus, pool, concs));
    } else {
        lemma_cell_plan_append(ops1, ops2.drop_last(), regions, corpus, pool, concs);
        assert((ops1 + ops2).drop_last() =~= ops1 + ops2.drop_last());
        assert((ops1 + ops2).last() == ops2.last());
        let a = cell_plan(ops1, regions, corpus, pool, concs);
        let b = cell_plan(ops2.drop_last(), regions, corpus, pool, concs);
        let c = op_cells(ops2.last(), regions, corpus, pool, concs);
        assert(a + b + c =~= a + (b + c));
    }
}

pub open spec fn corpus_view(c: Seq<(String, usize)>) -> Seq<(Seq<char>, nat)> {
    c.map_values(|p: (String, usize)| (p.0@, p.1 as nat))
}

pub open spec fn all_from(v: Seq<Cell>, source: Seq<char>) -> bool {
    forall|i: int| 0 <= i < v.len() ==> (#[trigger] v[i]).source@ == source
}

fn push_levels(out: &mut Vec<Cell>, source: &str, op: &str, region: &str, concs: &Vec<usize>)
    requires
        all_from(old(out)@, source@),
    ensures
        cell_views(final(out)@) == cell_views(old(out)@) + level_cells(op@, region@, concs@),
        all_from(final(out)@, source@),
{
    let ghost start = cell_views(out@);
    let mut i: usize = 0;
    while i < concs.len()
        invariant
            i <= concs@.len(),
            cell_views(out@) == start + level_cells(op@, region@, concs@.take(i as int)),
            all_from(out@, source@),
        decreases concs.len() - i,
    {
        let ghost before = cell_views(out@);
        out.push(
            Cell {
                source: source.to_string(),
                op: op.to_string(),
                region: region.to_string(),
                concurrency: concs[i],
            },
        );
        assert(cell_views(out@) =~= before.push((op@, region@, concs@[i as int])));
        assert(concs@.take(i + 1) =~= concs@.take(i as int).push(concs@[i as int]));
        assert(level_cells(op@, region@, concs@.take(i + 1)) =~= level_cells(
            op@,
            region@,
            concs@.take(i as int),
        ).push((op@, region@, concs@[i as int])));
        i = i + 1;
    }
    assert(concs@.take(concs@.len() as int) =~= concs@);
}

fn push_op(
    out: &mut Vec<Cell>,
    source: &str,
    op: &str,
    regions: &Vec<String>,
    corpus: &Vec<(String, usize)>,
    pool: ShieldedPool,
    concs: &Vec<usize>,
)
    requires
        all_from(old(out)@, source@),
    ensures
        all_from(final(out)@, source@),
        cell_views(final(out)@) == cell_views(old(out)@) + op_cells(
            op@,
            string_views(regions@),
            corpus_view(corpus@),
            pool,
            concs@,
        ),
{
    let o = chars_of(op);
    if eq_chars(&o, &chars_of("compact")) || eq_chars(&o, &chars_of("rawblock")) || eq_chars(
        &o,
        &chars_of("treestate"),
    ) {
        let ghost start = cell_views(out@);
        let mut i: usize = 0;
        while i < regions.len()
            invariant
                i <= regions@.len(),
                all_from(out@, source@),
                cell_views(out@) == start + region_cells(
                    op@,
                    string_views(regions@).take(i as int),
                    concs@,
                ),
            decreases regions.len() - i,
        {
            push_levels(out, source, op, regions[i].as_str(), concs);
            assert(string_views(regions@).take(i + 1).drop_last() =~= string_views(regions@).take(
                i as int,
            ));
            i = i + 1;
        }
        assert(string_views(regions@).take(regions@.len() as int) =~= string_views(regions@));
    } else if eq_chars(&o, &chars_of("transaction")) {
        let ghost start = cell_views(out@);
        let mut i: usize = 0;
        while i < corpus.len()
            invariant
                i <= corpus@.len(),
                op@ == "transaction"@,
                cell_views(out@) == start + tx_cells(corpus_view(corpus@).take(i as int), concs@),
                all_from(out@, source@),
            decreases corpus.len() - i,
        {
            let ghost before = cell_views(out@);
            assert(corpus_view(corpus@).take(i + 1).drop_last() =~= corpus_view(corpus@).take(
                i as int,
            ));
            if corpus[i].1 != 0 {
                push_levels(out, source, op, corpus[i].0.as_str(), concs);
            } else {
                assert(before + Seq::<CellView>::empty() =~= before);
            }
            i = i + 1;
        }
        assert(corpus_view(corpus@).take(corpus@.len() as int) =~= corpus_view(corpus@));
    } else if eq_chars(&o, &chars_of("subtreeroots")) {
        push_levels(out, source, op, pool_label(pool), concs);
    } else if eq_chars(&o, &chars_of("tip")) {
        push_levels(out, source, op, "n/a", concs);
    } else {
        assert(cell_views(out@) + Seq::<CellView>::empty() =~= cell_views(out@));
    }
}

/// The cells a source's sweeps run, in order, each labelled with the
/// source: for each selected op, the block ops per region, transactions per
/// region with harvested ids, the subtree roots under the pool's label, the
/// chain tip under `n/a`, each at every concurrency level; the staged
/// profile and unknown ops add none.
pub fn plan_cells(
    source: &str,
    ops: &Vec<String>,
    regions: &Vec<String>,
    corpus: &Vec<(String, usize)>,
    pool: ShieldedPool,
    concs: &Vec<usize>,
) -> (r: Vec<Cell>)
    ensures
        all_from(r@, source@),
        cell_views(r@) == cell_plan(
            string_views(ops@),
            string_views(regions@),
            corpus_view(corpus@),
            pool,
            concs@,
        ),
{
    let mut out: Vec<Cell> = Vec::new();
    let mut i: usize = 0;
    assert(cell_views(out@) =~= Seq::<CellView>::empty());
    while i < ops.len()
        invariant
            i <= ops@.len(),
            all_from(out@, source@),
            cell_views(out@) == cell_plan(
                string_views(ops@).take(i as int),
                string_views(regions@),
                corpus_view(corpus@),
                pool,
                concs@,
            ),
        decreases ops.len() - i,
    {
        push_op(&mut out, source, ops[i].as_str(), regions, corpus, pool, concs);
        assert(string_views(ops@).take(i + 1).drop_last() =~= string_views(ops@).take(i as int));
        i = i + 1;
    }
    assert(string_views(ops@).take(ops@.len() as int) =~= string_views(ops@));
    out
}

} // verus!
