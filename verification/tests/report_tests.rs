use decentralized_storage::planning::{
    is_feasible, next_relaxed_target, template_preset, validate_optimize_input,
};
use decentralized_storage::protocol::{BusinessTemplate, WorkflowSummaryCore};
use decentralized_storage::report::{build_management_report, render_management_markdown};

fn summary(risk: &str, score: u8, delta: i32) -> WorkflowSummaryCore {
    WorkflowSummaryCore {
        storage_profile: "balanced".to_string(),
        reliability_score: score,
        latency_delta_ms: delta,
        risk_level: risk.to_string(),
    }
}

#[test]
fn report_lists_present_risks() {
    let r = build_management_report(&summary("low", 87, 104), 1, 6, 234);
    assert_eq!(r.protocol, "NebulaStore");
    assert_eq!(
        r.executive_summary,
        "NebulaStore 在当前参数下风险等级为 low，可靠性分数 87，时延改善 104ms，月成本变化 $234。"
    );
    assert_eq!(
        r.key_risks,
        vec![
            "存在 1 个节点触发惩罚，需重点关注恶意证明和离线行为。",
            "修复状态机中仍有 6 个任务失败，建议提高重试策略与替换节点阈值。",
            "热层迁移导致月成本上升 $234，需确认预算可承受。",
        ]
    );
    assert_eq!(r.recommendations.len(), 3);
    assert_eq!(r.key_metrics.monthly_cost_delta_usd, 234);
    assert_eq!(r.key_metrics.penalized_nodes, 1);
    assert_eq!(r.key_metrics.repair_failed_tasks, 6);
}

#[test]
fn report_without_risks_and_high_risk_advice() {
    let r = build_management_report(&summary("high", 60, -40), 0, 0, -90);
    assert_eq!(r.key_risks, vec!["当前参数组合未出现显著高风险项。"]);
    assert_eq!(r.recommendations[0], "先降低热分片目标并扩大副本数，再逐步扩容。");
    assert_eq!(r.recommendations.len(), 4);
    assert!(r.executive_summary.contains("时延改善 -40ms，月成本变化 $-90。"));
    let r = build_management_report(&summary("medium", 75, 0), 0, 0, 0);
    assert_eq!(r.key_risks, vec!["当前参数组合未出现显著高风险项。"]);
    assert_eq!(r.recommendations.len(), 3);
}

#[test]
fn report_markdown() {
    let r = build_management_report(&summary("low", 87, 104), 0, 2, 0);
    let md = render_management_markdown(&r);
    let expected = "# NebulaStore 管理层报告\n\n## 执行摘要\n- NebulaStore 在当前参数下风险等级为 low，可靠性分数 87，时延改善 104ms，月成本变化 $0。\n\n## 关键指标\n- 可靠性分数: 87\n- 风险等级: low\n- 时延改善: 104 ms\n- 月成本变化: $0\n- 惩罚节点数: 0\n- 修复失败任务: 2\n\n## 主要风险\n- 修复状态机中仍有 2 个任务失败，建议提高重试策略与替换节点阈值。\n\n## 建议动作\n- 将挑战失败任务与节点信誉联动，失败超过阈值立即触发替换。\n- 对作恶节点执行更长恢复期，并要求连续稳定在线后再恢复权重。\n- 按周评估热分片占比，控制时延收益与成本上升的平衡点。\n";
    assert_eq!(md, expected);
}

#[test]
fn presets_and_search_rules() {
    let p = template_preset(BusinessTemplate::Web3Frontend);
    assert_eq!((p.target_p95_ms, p.budget_usd, p.max_risk_level), (1020, 3400, 28));
    assert_eq!((p.malicious_percent, p.offline_percent), (6, 8));
    assert_eq!(p.description, "Web3 前端与高交互访问，优先低时延与可用性。");
    let a = template_preset(BusinessTemplate::Archive);
    assert_eq!((a.target_p95_ms, a.budget_usd, a.max_risk_level), (1400, 2600, 35));
    let i = template_preset(BusinessTemplate::AiInference);
    assert_eq!((i.target_p95_ms, i.budget_usd, i.max_risk_level), (980, 4200, 22));

    assert_eq!(next_relaxed_target(980), Some(1060));
    assert_eq!(next_relaxed_target(1419), Some(1499));
    assert_eq!(next_relaxed_target(1420), Some(1500));
    assert_eq!(next_relaxed_target(1499), Some(1500));
    assert_eq!(next_relaxed_target(1500), None);
    let mut t = 980;
    let mut steps = 0;
    while let Some(n) = next_relaxed_target(t) {
        t = n;
        steps += 1;
    }
    assert_eq!((t, steps), (1500, 7));

    assert_eq!(validate_optimize_input(false, 100, false, 200).unwrap_err(), "size_gb must be > 0");
    assert_eq!(
        validate_optimize_input(true, 299, false, 200).unwrap_err(),
        "target_p95_ms must be in [300, 3000]"
    );
    assert_eq!(
        validate_optimize_input(true, 1150, false, 200).unwrap_err(),
        "max_monthly_budget_usd must be > 0"
    );
    assert_eq!(
        validate_optimize_input(true, 1150, true, 101).unwrap_err(),
        "max_risk_level must be in [0, 100]"
    );
    assert!(validate_optimize_input(true, 3000, true, 100).is_ok());

    assert!(is_feasible(1000, 90, 1150, 30));
    assert!(!is_feasible(1200, 90, 1150, 30));
    assert!(!is_feasible(1000, 60, 1150, 30));
    assert!(is_feasible(1150, 70, 1150, 30));
}
