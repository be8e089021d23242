use xtask::bench::{
    build_regions, choose_tip, parity_holds, parity_outcome, parity_sample, parse_ops,
    parse_pool, parse_usize_csv, plan_cells, pool_label, select_adapters, BlockSummary, Cell,
    RegionConfig, ShieldedPool,
};

#[test]
fn concurrency_levels() {
    assert_eq!(parse_usize_csv("1,2, 4 ,8"), Ok(vec![1, 2, 4, 8]));
    assert_eq!(parse_usize_csv("1,x"), Err("invalid concurrency 'x'".to_string()));
    assert_eq!(parse_usize_csv("1, 0"), Err("concurrency must be > 0".to_string()));
    assert_eq!(parse_usize_csv(""), Err("invalid concurrency ''".to_string()));
}

#[test]
fn pools() {
    assert_eq!(parse_pool("Sapling"), Ok(ShieldedPool::Sapling));
    assert_eq!(parse_pool("ORCHARD"), Ok(ShieldedPool::Orchard));
    assert_eq!(parse_pool("ironwood"), Ok(ShieldedPool::Ironwood));
    assert_eq!(parse_pool("Sprout"), Err("unknown pool 'sprout' (sapling|orchard|ironwood)".to_string()));
    assert_eq!(pool_label(ShieldedPool::Orchard), "orchard");
    assert_eq!(parse_pool(pool_label(ShieldedPool::Ironwood)), Ok(ShieldedPool::Ironwood));
}

#[test]
fn adapters_and_ops() {
    assert_eq!(select_adapters("both"), Ok((true, true)));
    assert_eq!(select_adapters("rpc"), Ok((false, true)));
    assert_eq!(select_adapters("readstate"), Ok((true, false)));
    assert!(select_adapters("all").is_err());
    assert_eq!(parse_ops("compact, tip ,rawblock"), vec!["compact", "tip", "rawblock"]);
}

#[test]
fn tips() {
    assert_eq!(choose_tip(&vec![120, 100]), Ok(100));
    assert!(choose_tip(&vec![]).is_err());
    assert!(choose_tip(&vec![0, 5]).is_err());
}

#[test]
fn regions_clamped_to_tip() {
    let cfg = RegionConfig {
        region_early_start: 10,
        region_sandblast_start: 1_000,
        region_recent_offset: 3,
        blocks_per_region: 5,
    };
    let regions = build_regions(&cfg, 100);
    assert_eq!(regions.len(), 2);
    assert_eq!(regions[0].name, "early");
    assert_eq!(regions[0].heights, vec![10, 11, 12, 13, 14]);
    assert_eq!(regions[1].name, "recent");
    assert_eq!(regions[1].heights, vec![97, 98, 99, 100]);
}

#[test]
fn regions_drop_heights_above_the_protocol_maximum() {
    let cfg = RegionConfig {
        region_early_start: 10,
        region_sandblast_start: 2_147_483_648,
        region_recent_offset: 3,
        blocks_per_region: 10,
    };
    let regions = build_regions(&cfg, 2_147_483_650);
    assert_eq!(regions.len(), 2);
    assert_eq!(regions[0].name, "early");
    assert_eq!(regions[1].name, "recent");
    assert_eq!(regions[1].heights, vec![2_147_483_647]);
}

#[test]
fn parity_picks() {
    let all: Vec<u32> = (0..10).collect();
    assert_eq!(parity_sample(&all, 3), vec![0, 3, 6]);
    assert_eq!(parity_sample(&all, 20), all);
    assert_eq!(parity_sample(&all, 0), Vec::<u32>::new());
    let all: Vec<u32> = (0..7).collect();
    assert_eq!(parity_sample(&all, 2), vec![0, 3]);
}

fn summary(hash: &[u8], height: u32, tx_count: usize) -> BlockSummary {
    BlockSummary { hash: hash.to_vec(), height, tx_count }
}

#[test]
fn parity_tally_and_outcome() {
    let pairs = vec![
        (10, Some(summary(b"aa", 10, 2)), Some(summary(b"aa", 10, 2))),
        (11, Some(summary(b"bb", 11, 1)), Some(summary(b"bc", 11, 1))),
        (12, Some(summary(b"cc", 12, 3)), None),
        (13, None, None),
        (14, Some(summary(b"dd", 14, 4)), Some(summary(b"dd", 14, 5))),
    ];
    let report = parity_outcome(&pairs);
    assert_eq!(report.checked, 3);
    assert_eq!(report.mismatches, 2);
    assert_eq!(report.mismatched_heights, vec![11, 14]);
    assert_eq!(report.unavailable, 2);
    assert_eq!(report.unavailable_heights, vec![12, 13]);
    assert!(!parity_holds(&report));

    let agree = vec![(10, Some(summary(b"aa", 10, 2)), Some(summary(b"aa", 10, 2)))];
    let report = parity_outcome(&agree);
    assert_eq!((report.checked, report.mismatches, report.unavailable), (1, 0, 0));
    assert!(report.mismatched_heights.is_empty());
    assert!(parity_holds(&report));

    let report = parity_outcome(&vec![]);
    assert_eq!((report.checked, report.mismatches, report.unavailable), (0, 0, 0));
    assert!(parity_holds(&report));
}

fn cell_triples(cells: &[Cell]) -> Vec<(String, String, usize)> {
    cells.iter().map(|c| (c.op.clone(), c.region.clone(), c.concurrency)).collect()
}

#[test]
fn cell_plan_order_and_skips() {
    let ops: Vec<String> =
        ["compact", "transaction", "subtreeroots", "tip", "rpcprofile", "bogus"]
            .iter()
            .map(|s| s.to_string())
            .collect();
    let regions = vec!["early".to_string(), "recent".to_string()];
    let corpus = vec![("early".to_string(), 0usize), ("recent".to_string(), 7usize)];
    let cells = plan_cells("rpc", &ops, &regions, &corpus, ShieldedPool::Orchard, &vec![1, 4]);
    assert!(cells.iter().all(|c| c.source == "rpc"));
    let expected: Vec<(String, String, usize)> = [
        ("compact", "early", 1),
        ("compact", "early", 4),
        ("compact", "recent", 1),
        ("compact", "recent", 4),
        ("transaction", "recent", 1),
        ("transaction", "recent", 4),
        ("subtreeroots", "orchard", 1),
        ("subtreeroots", "orchard", 4),
        ("tip", "n/a", 1),
        ("tip", "n/a", 4),
    ]
    .iter()
    .map(|(o, r, c)| (o.to_string(), r.to_string(), *c))
    .collect();
    assert_eq!(cell_triples(&cells), expected);

    let none = plan_cells("readstate", &vec![], &regions, &corpus, ShieldedPool::Sapling, &vec![1]);
    assert!(none.is_empty());
}
