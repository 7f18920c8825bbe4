use decentralized_storage::protocol::ChampionStrategy;
use decentralized_storage::selection::{
    champion_reason, classify_frontier, dominates, pareto_frontier_indices, profile_advice,
    profile_tag_name, rank_templates, ParetoPoint, ProfileTag, RankEntry,
};

fn pt(p95_ms: u32, monthly_cost_usd: u64, reliability: u8) -> ParetoPoint {
    ParetoPoint { p95_ms, monthly_cost_usd, reliability }
}

#[test]
fn dominance() {
    assert!(dominates(&pt(100, 10, 90), &pt(100, 11, 90)));
    assert!(dominates(&pt(99, 10, 90), &pt(100, 10, 90)));
    assert!(dominates(&pt(100, 10, 91), &pt(100, 10, 90)));
    assert!(!dominates(&pt(100, 10, 90), &pt(100, 10, 90)));
    assert!(!dominates(&pt(90, 20, 90), &pt(100, 10, 90)));
}

#[test]
fn frontier_keeps_undominated_distinct_points_in_order() {
    let pts = vec![
        pt(1000, 2000, 88), // 0: dominated by 3
        pt(800, 2600, 88),  // 1
        pt(1200, 1500, 80), // 2
        pt(900, 1900, 89),  // 3
        pt(800, 2600, 88),  // 4: same as 1
        pt(800, 2600, 87),  // 5: dominated by 1
    ];
    assert_eq!(pareto_frontier_indices(&pts), vec![2, 3, 1]);
    assert!(pareto_frontier_indices(&[]).is_empty());
    assert_eq!(pareto_frontier_indices(&[pt(1, 1, 1)]), vec![0]);
}

#[test]
fn frontier_groups() {
    let pts = vec![pt(1200, 1500, 80), pt(900, 1900, 89), pt(800, 2600, 88)];
    // cost middle 2050, latency middle 1000
    let tags = classify_frontier(&pts).unwrap();
    assert_eq!(tags, vec![ProfileTag::LowCost, ProfileTag::Balanced, ProfileTag::LowLatency]);
    assert_eq!(classify_frontier(&[]).unwrap_err(), "pareto frontier is empty");
    assert_eq!(profile_tag_name(ProfileTag::LowCost), "low-cost");
    assert_eq!(profile_tag_name(ProfileTag::LowLatency), "low-latency");
    assert_eq!(profile_tag_name(ProfileTag::Balanced), "balanced");
    assert_eq!(profile_advice(ProfileTag::LowCost).0, "冷数据归档、预算敏感业务");
    assert_eq!(
        profile_advice(ProfileTag::LowLatency).1,
        "优先保障时延，需同步设置成本阈值防止热层扩张过快。"
    );
    assert_eq!(profile_advice(ProfileTag::Balanced).0, "通用业务、阶段性扩容");
}

fn entry(name: &str, score: i64, p95: u32, cost: u64, rel: u8) -> RankEntry {
    RankEntry {
        template: name.to_string(),
        composite_hundredths: score,
        p95_ms: p95,
        monthly_cost_usd: cost,
        reliability: rel,
    }
}

#[test]
fn ranking_by_score_then_strategy() {
    let es = vec![
        entry("archive", 5000, 1300, 1500, 88),
        entry("web3-frontend", 6000, 900, 2500, 86),
        entry("ai-inference", 6000, 1000, 2000, 90),
    ];
    // equal top scores: cost first prefers the cheaper plan
    assert_eq!(rank_templates(&es, ChampionStrategy::CostFirst), vec![2, 1, 0]);
    assert_eq!(rank_templates(&es, ChampionStrategy::Balanced), vec![2, 1, 0]);
    assert_eq!(rank_templates(&es, ChampionStrategy::LatencyFirst), vec![1, 2, 0]);
    assert_eq!(rank_templates(&es, ChampionStrategy::ReliabilityFirst), vec![2, 1, 0]);
    // full ties fall back to the template name
    let ties = vec![entry("b", 1, 1, 1, 1), entry("a", 1, 1, 1, 1)];
    assert_eq!(rank_templates(&ties, ChampionStrategy::Balanced), vec![1, 0]);
    let same = vec![entry("a", 1, 1, 1, 1), entry("a", 1, 1, 1, 1)];
    assert_eq!(rank_templates(&same, ChampionStrategy::Balanced), vec![0, 1]);
}

#[test]
fn champion_reason_quotes_the_score() {
    assert_eq!(
        champion_reason("web3-frontend", 6543),
        "web3-frontend 在当前约束下综合得分最高（65.43），兼顾时延、成本和可靠性。"
    );
    assert_eq!(
        champion_reason("archive", 5),
        "archive 在当前约束下综合得分最高（0.05），兼顾时延、成本和可靠性。"
    );
}

#[test]
fn strategies_only_break_ties() {
    let es = vec![
        entry("archive", 5000, 1300, 1500, 88),
        entry("web3-frontend", 6000, 900, 2500, 86),
        entry("ai-inference", 6000, 1000, 2000, 90),
        entry("edge", 4000, 800, 900, 95),
        entry("bulk", 5000, 1500, 800, 80),
    ];
    let strategies = [
        ChampionStrategy::Balanced,
        ChampionStrategy::LatencyFirst,
        ChampionStrategy::CostFirst,
        ChampionStrategy::ReliabilityFirst,
    ];
    let scores = |o: Vec<usize>| o.iter().map(|&i| es[i].composite_hundredths).collect::<Vec<_>>();
    let first = scores(rank_templates(&es, strategies[0]));
    assert_eq!(first, vec![6000, 6000, 5000, 5000, 4000]);
    for st in strategies {
        assert_eq!(scores(rank_templates(&es, st)), first);
    }
}
