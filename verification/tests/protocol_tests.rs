use decentralized_storage::protocol::{
    apply_penalty_rules, blueprint, challenge_window, champion_strategy_name,
    execute_tier_migration, parse_business_template, parse_champion_strategy, placement_preview,
    rank_by_reputation, reliability_score, repair_state_machine, risk_level, storage_profile,
    summarize_workflow, template_name, total_shards, validate_plan_input, BusinessTemplate,
    ChampionStrategy, MigrationInput, PenaltyInput, RepairInput, RepairStatus,
};

#[test]
fn blueprint_names_the_protocol() {
    let b = blueprint();
    assert_eq!(b.name, "NebulaStore");
    assert_eq!(b.positioning, "纯自研去中心化存储网络，强调低延迟与成本稳定");
    assert_eq!(b.retrieval_engine, "双层检索路径（边缘索引 + 区域热缓存），目标 p95 < 900ms");
    assert_eq!(b.cost_engine, "法币锚定结算 + 波动缓冲池 + 长单锁价机制");
    assert_eq!(b.durability_engine, "动态纠删码 + 跨域 7 副本 + 主动修复守护进程");
    assert_eq!(b.scheduler_engine, "节点健康评分调度（时延/在线率/丢包/吞吐）");
    assert_eq!(b.ux_engine, "账户抽象 + 无 gas 代付 + 一键上传网关");
    assert_eq!(b.compliance_engine, "客户端加密 + 区域策略 + 审计证明日志");
}

#[test]
fn repair_readme_example() {
    let r = repair_state_machine(RepairInput {
        total_shards: 1920,
        failed_challenges: 120,
        replicas: 7,
        node_count: 16,
    })
    .unwrap();
    assert_eq!(r.protocol, "NebulaStore");
    assert_eq!((r.queued, r.in_progress, r.completed, r.failed), (37, 35, 35, 12));
    assert_eq!(r.tasks_preview.len(), 12);
    let t0 = &r.tasks_preview[0];
    assert_eq!(t0.task_id, "repair-00001");
    assert_eq!(t0.shard_id, 0);
    assert_eq!(t0.from_node, "node-0001");
    assert_eq!(t0.to_node, "node-0006");
    assert_eq!(t0.retry_count, 0);
    assert_eq!(t0.status, RepairStatus::Queued);
    let t9 = &r.tasks_preview[9];
    assert_eq!(t9.task_id, "repair-00010");
    assert_eq!(t9.status, RepairStatus::Failed);
    assert_eq!(t9.retry_count, 2);
    assert_eq!(t9.from_node, "node-0010");
    assert_eq!(t9.to_node, "node-0015");
    let t11 = &r.tasks_preview[11];
    assert_eq!(t11.from_node, "node-0012");
    assert_eq!(t11.to_node, "node-0001");
    // index 11 falls in the queued band (11 % 10 == 1)
    assert_eq!(t11.status, RepairStatus::Queued);
}

#[test]
fn repair_small_run_has_no_estimate() {
    let r = repair_state_machine(RepairInput {
        total_shards: 10,
        failed_challenges: 4,
        replicas: 3,
        node_count: 3,
    })
    .unwrap();
    assert_eq!((r.queued, r.in_progress, r.completed, r.failed), (3, 1, 0, 0));
    assert_eq!(r.tasks_preview.len(), 4);
    assert_eq!(r.tasks_preview[3].status, RepairStatus::InProgress);
    assert_eq!(r.tasks_preview[3].from_node, "node-0001");
    assert_eq!(r.tasks_preview[3].to_node, "node-0003");
}

#[test]
fn repair_errors() {
    let e = |t, f, r, n| {
        repair_state_machine(RepairInput {
            total_shards: t,
            failed_challenges: f,
            replicas: r,
            node_count: n,
        })
        .err()
        .unwrap()
    };
    assert_eq!(e(0, 0, 3, 3), "total_shards must be > 0");
    assert_eq!(e(5, 6, 3, 3), "failed_challenges must be <= total_shards");
    assert_eq!(e(5, 1, 2, 3), "replicas must be >= 3");
    assert_eq!(e(5, 1, 5, 4), "node_count must be >= replicas");
}

#[test]
fn penalty_readme_example() {
    let r = apply_penalty_rules(PenaltyInput {
        node_count: 64,
        malicious_percent: 8,
        offline_percent: 12,
    })
    .unwrap();
    assert_eq!(r.penalized_nodes, 12);
    assert_eq!(r.total_slash_tenths_percent, 1355);
    assert_eq!(r.total_recovery_epochs, 366);
    assert_eq!(r.penalties_preview.len(), 12);
    let p0 = &r.penalties_preview[0];
    assert_eq!(p0.node_id, "node-0001");
    assert_eq!(p0.reason, "malicious-proof");
    assert_eq!(p0.slash_tenths_percent, 180);
    assert_eq!((p0.reputation_before, p0.reputation_after), (420, 300));
    assert_eq!(p0.recovery_epochs, 48);
    let p5 = &r.penalties_preview[5];
    assert_eq!(p5.node_id, "node-0006");
    assert_eq!(p5.reason, "extended-offline");
    assert_eq!(p5.slash_tenths_percent, 65);
    assert_eq!((p5.reputation_before, p5.reputation_after), (385, 340));
    assert_eq!(p5.recovery_epochs, 18);
}

#[test]
fn penalty_caps_offline_by_remaining_nodes() {
    let r = apply_penalty_rules(PenaltyInput {
        node_count: 10,
        malicious_percent: 100,
        offline_percent: 100,
    })
    .unwrap();
    assert_eq!(r.penalized_nodes, 10);
    assert!(r.penalties_preview.iter().all(|p| p.reason == "malicious-proof"));
    let none = apply_penalty_rules(PenaltyInput {
        node_count: 10,
        malicious_percent: 0,
        offline_percent: 0,
    })
    .unwrap();
    assert_eq!(none.penalized_nodes, 0);
    assert_eq!(none.total_slash_tenths_percent, 0);
    assert!(none.penalties_preview.is_empty());
}

#[test]
fn penalty_errors() {
    let e = apply_penalty_rules(PenaltyInput {
        node_count: 0,
        malicious_percent: 1,
        offline_percent: 1,
    });
    assert_eq!(e.err().unwrap(), "node_count must be > 0");
    let e = apply_penalty_rules(PenaltyInput {
        node_count: 5,
        malicious_percent: 101,
        offline_percent: 1,
    });
    assert_eq!(e.err().unwrap(), "percent fields must be in [0, 100]");
}

#[test]
fn migration_readme_example() {
    let r = execute_tier_migration(MigrationInput {
        total_shards: 1920,
        hot_shard_percent: 35,
        target_hot_percent: 55,
    })
    .unwrap();
    assert_eq!((r.moved_to_hot, r.moved_to_cold), (384, 0));
    assert_eq!(r.p95_latency_before_ms, 1220);
    assert_eq!(r.p95_latency_after_ms, 1060);
    assert_eq!(r.actions_preview.len(), 10);
    assert_eq!(r.actions_preview[0].from_tier, "cold-archive");
    assert_eq!(r.actions_preview[0].to_tier, "hot-edge");
    assert_eq!(r.actions_preview[0].reason, "access-ratio-increase");
    assert_eq!(r.actions_preview[9].shard_id, 9);
}

#[test]
fn migration_toward_cold() {
    let r = execute_tier_migration(MigrationInput {
        total_shards: 100,
        hot_shard_percent: 50,
        target_hot_percent: 45,
    })
    .unwrap();
    assert_eq!((r.moved_to_hot, r.moved_to_cold), (0, 5));
    assert_eq!(r.actions_preview.len(), 5);
    assert!(r.actions_preview.iter().all(|a| a.from_tier == "hot-edge"
        && a.to_tier == "cold-archive"
        && a.reason == "access-ratio-drop"));
    let e = execute_tier_migration(MigrationInput {
        total_shards: 0,
        hot_shard_percent: 1,
        target_hot_percent: 1,
    });
    assert_eq!(e.err().unwrap(), "total_shards must be > 0");
    let e = execute_tier_migration(MigrationInput {
        total_shards: 5,
        hot_shard_percent: 1,
        target_hot_percent: 101,
    });
    assert_eq!(e.err().unwrap(), "percent fields must be in [0, 100]");
}

#[test]
fn reliability_and_labels() {
    assert_eq!(reliability_score(12, 12), 90 - 6 - 6);
    assert_eq!(reliability_score(100, 100), 60);
    assert_eq!(reliability_score(0, 0), 90);
    assert_eq!(reliability_score(1, 1), 90);
    assert_eq!(risk_level(85), "low");
    assert_eq!(risk_level(84), "medium");
    assert_eq!(risk_level(70), "medium");
    assert_eq!(risk_level(69), "high");
    assert_eq!(storage_profile(60), "hot-biased");
    assert_eq!(storage_profile(59), "balanced");
    assert_eq!(storage_profile(35), "cold-biased");
    assert_eq!(storage_profile(36), "balanced");
}

#[test]
fn workflow_summary_readme_example() {
    // protocol-workflow --size-gb 120 --shard-mb 64 --replicas 7 --node-count 16
    // --hot-data-percent 45 --target-hot-percent 58 --malicious-percent 6 --offline-percent 10
    assert_eq!(total_shards(122_880, 64), 1920);
    let repair = repair_state_machine(RepairInput {
        total_shards: 1920,
        failed_challenges: 57,
        replicas: 7,
        node_count: 16,
    })
    .unwrap();
    assert_eq!((repair.queued, repair.in_progress, repair.completed, repair.failed), (18, 16, 16, 6));
    let penalty = apply_penalty_rules(PenaltyInput {
        node_count: 16,
        malicious_percent: 6,
        offline_percent: 10,
    })
    .unwrap();
    assert_eq!(penalty.penalized_nodes, 1);
    let migration = execute_tier_migration(MigrationInput {
        total_shards: 1920,
        hot_shard_percent: 45,
        target_hot_percent: 58,
    })
    .unwrap();
    let s = summarize_workflow(&penalty, &repair, &migration, 58);
    assert_eq!(s.reliability_score, 87);
    assert_eq!(s.risk_level, "low");
    assert_eq!(s.latency_delta_ms, 104);
    assert_eq!(s.storage_profile, "balanced");
}

#[test]
fn plan_checks_and_shapes() {
    assert_eq!(validate_plan_input(0, 7, 16).unwrap_err(), "shard_mb must be > 0");
    assert_eq!(validate_plan_input(64, 2, 16).unwrap_err(), "replicas must be in [3, 12]");
    assert_eq!(validate_plan_input(64, 13, 16).unwrap_err(), "replicas must be in [3, 12]");
    assert_eq!(validate_plan_input(64, 7, 6).unwrap_err(), "node_count must be >= replicas");
    assert!(validate_plan_input(64, 7, 7).is_ok());
    assert_eq!(total_shards(100, 64), 2);
    assert_eq!(total_shards(128, 64), 2);
    assert_eq!(total_shards(0, 64), 0);
    assert_eq!(total_shards(u32::MAX, 2), 2_147_483_648);
    let w = challenge_window(7);
    assert_eq!((w.window_hours, w.challenge_interval_minutes, w.sample_ratio_percent), (24, 20, 27));
    assert_eq!(challenge_window(12).sample_ratio_percent, 32);
}

#[test]
fn reputation_ranking_is_stable_descending() {
    let order = rank_by_reputation(&[500, 700, 500, 900, 700]);
    assert_eq!(order, vec![3, 1, 4, 0, 2]);
    assert!(rank_by_reputation(&[]).is_empty());
}

#[test]
fn placement_wraps_around_ranked_nodes() {
    let ids: Vec<String> = (1..=16).map(|i| format!("node-{:04}", i)).collect();
    let v = placement_preview(&ids, 1920, 7);
    assert_eq!(v.len(), 5);
    assert_eq!(v[0].shard_id, 0);
    assert_eq!(v[0].replica_nodes, ids[0..7].to_vec());
    assert_eq!(v[2].replica_nodes[0], "node-0015");
    assert_eq!(v[2].replica_nodes[1], "node-0016");
    assert_eq!(v[2].replica_nodes[2], "node-0001");
    assert_eq!(placement_preview(&ids, 3, 3).len(), 3);
}

#[test]
fn template_and_strategy_names_round_trip() {
    for t in [BusinessTemplate::Archive, BusinessTemplate::Web3Frontend, BusinessTemplate::AiInference] {
        assert_eq!(parse_business_template(template_name(t)), Some(t));
    }
    assert_eq!(template_name(BusinessTemplate::Web3Frontend), "web3-frontend");
    assert_eq!(parse_business_template("ai-inference"), Some(BusinessTemplate::AiInference));
    assert_eq!(parse_business_template(" archive"), None);
    assert_eq!(parse_business_template("Archive"), None);
    assert_eq!(parse_business_template("video"), None);
    for s in [
        ChampionStrategy::Balanced,
        ChampionStrategy::LatencyFirst,
        ChampionStrategy::CostFirst,
        ChampionStrategy::ReliabilityFirst,
    ] {
        assert_eq!(parse_champion_strategy(champion_strategy_name(s)), Some(s));
    }
    assert_eq!(champion_strategy_name(ChampionStrategy::ReliabilityFirst), "reliability-first");
    assert_eq!(parse_champion_strategy("cost-first"), Some(ChampionStrategy::CostFirst));
    assert_eq!(parse_champion_strategy("Cost-First"), None);
    assert_eq!(parse_champion_strategy("fastest"), None);
}
