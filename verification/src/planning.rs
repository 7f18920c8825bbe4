use vstd::prelude::*;

use crate::protocol::BusinessTemplate;

verus! {

// ---------------------------------------------------------------------------
// Business template presets
// ---------------------------------------------------------------------------

/// The starting constraints of a business template. The budget is in whole
/// dollars.
pub struct TemplatePreset {
    pub target_p95_ms: u32,
    pub budget_usd: u64,
    pub max_risk_level: u8,
    pub malicious_percent: u8,
    pub offline_percent: u8,
    pub description: String,
}

/// `p` holds the constraints of template `t`: archive favours cost and
/// stability, web3 front ends low latency and availability, AI inference
/// very low latency and steady throughput.
pub open spec fn is_preset_of(t: BusinessTemplate, p: TemplatePreset) -> bool {
    match t {
        BusinessTemplate::Archive => {
            &&& p.target_p95_ms == 1400
            &&& p.budget_usd == 2600
            &&& p.max_risk_level == 35
            &&& p.malicious_percent == 4
            &&& p.offline_percent == 10
            &&& p.description@ == "冷数据归档与长期存证，优先控制成本与稳定性。"@
        },
        BusinessTemplate::Web3Frontend => {
            &&& p.target_p95_ms == 1020
            &&& p.budget_usd == 3400
            &&& p.max_risk_level == 28
            &&& p.malicious_percent == 6
            &&& p.offline_percent == 8
            &&& p.description@ == "Web3 前端与高交互访问，优先低时延与可用性。"@
        },
        BusinessTemplate::AiInference => {
            &&& p.target_p95_ms == 980
            &&& p.budget_usd == 4200
            &&& p.max_risk_level == 22
            &&& p.malicious_percent == 7
            &&& p.offline_percent == 7
            &&& p.description@ == "AI 推理与高频读取，强调低时延和稳定吞吐。"@
        },
    }
}

/// The preset constraints of a business template.
pub fn template_preset(template: BusinessTemplate) -> (p: TemplatePreset)
    ensures
        is_preset_of(template, p),
{
    match template {
        BusinessTemplate::Archive => TemplatePreset {
            target_p95_ms: 1400,
            budget_usd: 2600,
            max_risk_level: 35,
            malicious_percent: 4,
            offline_percent: 10,
            description: String::from_str("冷数据归档与长期存证，优先控制成本与稳定性。"),
        },
        BusinessTemplate::Web3Frontend => TemplatePreset {
            target_p95_ms: 1020,
            budget_usd: 3400,
            max_risk_level: 28,
            malicious_percent: 6,
            offline_percent: 8,
            description: String::from_str("Web3 前端与高交互访问，优先低时延与可用性。"),
        },
        BusinessTemplate::AiInference => TemplatePreset {
            target_p95_ms: 980,
            budget_usd: 4200,
            max_risk_level: 22,
            malicious_percent: 7,
            offline_percent: 7,
            description: String::from_str("AI 推理与高频读取，强调低时延和稳定吞吐。"),
        },
    }
}

// ---------------------------------------------------------------------------
// Parameter search rules
// ---------------------------------------------------------------------------

/// The next latency target after a search found nothing: 80 ms looser, at
/// most 1500 ms; none once the loosest target has been tried.
pub open spec fn relaxed_target(current: u32) -> Option<u32> {
    if current < 1500 {
        Some(if current + 80 < 1500 { (current + 80) as u32 } else { 1500 })
    } else {
        None
    }
}

/// The latency target to try next when a template search found no feasible
/// plan, if any is left.
pub fn next_relaxed_target(current: u32) -> (r: Option<u32>)
    ensures
        r == relaxed_target(current),
{
    if current < 1500 {
        Some(if current < 1420 { current + 80 } else { 1500 })
    } else {
        None
    }
}

/// Relaxing the target only loosens it, never past 1500 ms, so a search
/// tries at most a bounded number of targets.
pub proof fn law_relaxation_terminates(current: u32)
    ensures
        relaxed_target(current) matches Some(n) ==> current < n <= 1500,
        relaxed_target(current) is None <==> current >= 1500,
{
}

/// Why a parameter search is refused, if it is. The size and budget checks
/// are given as their outcomes; the checks run in the order size, latency
/// target, budget, risk level.
pub open spec fn optimize_error(
    size_positive: bool,
    target_p95_ms: u32,
    budget_positive: bool,
    max_risk_level: u8,
) -> Option<Seq<char>> {
    if !size_positive {
        Some("size_gb must be > 0"@)
    } else if target_p95_ms < 300 || target_p95_ms > 3000 {
        Some("target_p95_ms must be in [300, 3000]"@)
    } else if !budget_positive {
        Some("max_monthly_budget_usd must be > 0"@)
    } else if max_risk_level > 100 {
        Some("max_risk_level must be in [0, 100]"@)
    } else {
        None
    }
}

/// Checks the constraints of a parameter search.
pub fn validate_optimize_input(
    size_positive: bool,
    target_p95_ms: u32,
    budget_positive: bool,
    max_risk_level: u8,
) -> (r: Result<(), String>)
    ensures
        match r {
            Ok(()) => optimize_error(size_positive, target_p95_ms, budget_positive, max_risk_level)
                is None,
            Err(e) => optimize_error(size_positive, target_p95_ms, budget_positive, max_risk_level)
                == Some(e@),
        },
{
    if !size_positive {
        return Err(String::from_str("size_gb must be > 0"));
    }
    if target_p95_ms < 300 || target_p95_ms > 3000 {
        return Err(String::from_str("target_p95_ms must be in [300, 3000]"));
    }
    if !budget_positive {
        return Err(String::from_str("max_monthly_budget_usd must be > 0"));
    }
    if max_risk_level > 100 {
        return Err(String::from_str("max_risk_level must be in [0, 100]"));
    }
    Ok(())
}

/// The risk level of a plan: what its reliability score leaves short of 100.
pub open spec fn risk_of(reliability_score: u8) -> u8 {
    if reliability_score >= 100 {
        0
    } else {
        (100 - reliability_score) as u8
    }
}

/// A candidate plan meets the hard constraints: its latency is within the
/// target and its risk level within the limit.
pub open spec fn meets_constraints(
    p95_ms: u32,
    reliability_score: u8,
    target_p95_ms: u32,
    max_risk_level: u8,
) -> bool {
    p95_ms <= target_p95_ms && risk_of(reliability_score) <= max_risk_level
}

/// Whether a candidate plan meets the hard constraints of a search.
pub fn is_feasible(p95_ms: u32, reliability_score: u8, target_p95_ms: u32, max_risk_level: u8) -> (r:
    bool)
    ensures
        r == meets_constraints(p95_ms, reliability_score, target_p95_ms, max_risk_level),
{
    let risk: u8 = if reliability_score >= 100 {
        0
    } else {
        100 - reliability_score
    };
    p95_ms <= target_p95_ms && risk <= max_risk_level
}

} // verus!
