use vstd::prelude::*;

use crate::cli::string_views;
use crate::protocol::WorkflowSummaryCore;
use crate::text::{decimal, decimal_chars, extend_chars, extend_str, string_from_chars};

verus! {

// ---------------------------------------------------------------------------
// Management report
// ---------------------------------------------------------------------------

/// Decimal text of a signed integer (what `{}` prints).
pub open spec fn signed_decimal(x: int) -> Seq<char> {
    if x < 0 {
        "-"@ + decimal((-x) as nat)
    } else {
        decimal(x as nat)
    }
}

fn push_signed(v: &mut Vec<char>, x: i64)
    ensures
        final(v)@ == old(v)@ + signed_decimal(x as int),
{
    if x < 0 {
        extend_str(v, "-");
        let m: u64 = (-(x as i128)) as u64;
        let d = decimal_chars(m);
        extend_chars(v, d.as_slice());
    } else {
        let d = decimal_chars(x as u64);
        extend_chars(v, d.as_slice());
    }
}

/// The key metrics of a management report. Costs are whole dollars.
pub struct ReportMetrics {
    pub reliability_score: u8,
    pub risk_level: String,
    pub latency_delta_ms: i32,
    pub monthly_cost_delta_usd: i64,
    pub penalized_nodes: u32,
    pub repair_failed_tasks: u32,
}

/// A report for management: a one-line summary, the key metrics, the main
/// risks and the recommended actions.
pub struct ManagementReport {
    pub protocol: String,
    pub executive_summary: String,
    pub key_metrics: ReportMetrics,
    pub key_risks: Vec<String>,
    pub recommendations: Vec<String>,
}

/// The one-line summary of a workflow.
pub open spec fn executive_summary_text(
    risk_level: Seq<char>,
    reliability_score: u8,
    latency_delta_ms: int,
    cost_delta_usd: int,
) -> Seq<char> {
    "NebulaStore 在当前参数下风险等级为 "@ + risk_level + "，可靠性分数 "@ + decimal(
        reliability_score as nat,
    ) + "，时延改善 "@ + signed_decimal(latency_delta_ms) + "ms，月成本变化 $"@ + signed_decimal(
        cost_delta_usd,
    ) + "。"@
}

/// The risk raised by penalized nodes.
pub open spec fn penalty_risk(n: u32) -> Seq<char> {
    "存在 "@ + decimal(n as nat) + " 个节点触发惩罚，需重点关注恶意证明和离线行为。"@
}

/// The risk raised by failed repairs.
pub open spec fn repair_risk(n: u32) -> Seq<char> {
    "修复状态机中仍有 "@ + decimal(n as nat) + " 个任务失败，建议提高重试策略与替换节点阈值。"@
}

/// The risk raised by a rising monthly cost.
pub open spec fn cost_risk(delta: int) -> Seq<char> {
    "热层迁移导致月成本上升 $"@ + signed_decimal(delta) + "，需确认预算可承受。"@
}

/// What is said when nothing stands out.
pub open spec fn no_risk_text() -> Seq<char> {
    "当前参数组合未出现显著高风险项。"@
}

/// The main risks: penalized nodes, failed repairs and a cost increase, each
/// when present, in that order; a note of no notable risk otherwise.
pub open spec fn key_risks_of(penalized_nodes: u32, repair_failed: u32, cost_delta_usd: int) -> Seq<
    Seq<char>,
> {
    let a: Seq<Seq<char>> = if penalized_nodes > 0 {
        seq![penalty_risk(penalized_nodes)]
    } else {
        Seq::empty()
    };
    let b: Seq<Seq<char>> = if repair_failed > 0 {
        seq![repair_risk(repair_failed)]
    } else {
        Seq::empty()
    };
    let c: Seq<Seq<char>> = if cost_delta_usd > 0 {
        seq![cost_risk(cost_delta_usd)]
    } else {
        Seq::empty()
    };
    let all = a + b + c;
    if all.len() == 0 {
        seq![no_risk_text()]
    } else {
        all
    }
}

/// The standing recommendations, led by a de-risking step when the risk is
/// high.
pub open spec fn recommendations_of(risk_level: Seq<char>) -> Seq<Seq<char>> {
    let base = seq![
        "将挑战失败任务与节点信誉联动，失败超过阈值立即触发替换。"@,
        "对作恶节点执行更长恢复期，并要求连续稳定在线后再恢复权重。"@,
        "按周评估热分片占比，控制时延收益与成本上升的平衡点。"@,
    ];
    if risk_level == "high"@ {
        seq!["先降低热分片目标并扩大副本数，再逐步扩容。"@] + base
    } else {
        base
    }
}

/// How many risks a report lists: one per present risk (penalized nodes,
/// failed repairs, a rising cost), and the single no-risk note when none is
/// present; and how many recommendations: four when the risk is high, three
/// otherwise.
pub proof fn law_report_counts(
    penalized_nodes: u32,
    repair_failed: u32,
    cost_delta_usd: int,
    risk_level: Seq<char>,
)
    ensures
        ({
            let present = (if penalized_nodes > 0 { 1int } else { 0int }) + (if repair_failed > 0 {
                1int
            } else {
                0int
            }) + (if cost_delta_usd > 0 { 1int } else { 0int });
            key_risks_of(penalized_nodes, repair_failed, cost_delta_usd).len() == if present == 0 {
                1
            } else {
                present
            }
        }),
        recommendations_of(risk_level).len() == if risk_level == "high"@ {
            4int
        } else {
            3int
        },
{
}

fn push_text(v: &mut Vec<String>, t: &str)
    ensures
        string_views(final(v)@) == string_views(old(v)@).push(t@),
{
    v.push(String::from_str(t));
    assert(string_views(v@) =~= string_views(old(v)@).push(t@));
}

fn text_of(cs: Vec<char>) -> (s: String)
    ensures
        s@ == cs@,
{
    string_from_chars(cs.as_slice())
}

/// Builds the management report of a workflow from its summary, its
/// penalized nodes and failed repairs, and its monthly cost change in whole
/// dollars.
pub fn build_management_report(
    summary: &WorkflowSummaryCore,
    penalized_nodes: u32,
    repair_failed: u32,
    monthly_cost_delta_usd: i64,
) -> (r: ManagementReport)
    ensures
        r.protocol@ == "NebulaStore"@,
        r.executive_summary@ == executive_summary_text(
            summary.risk_level@,
            summary.reliability_score,
            summary.latency_delta_ms as int,
            monthly_cost_delta_usd as int,
        ),
        r.key_metrics.reliability_score == summary.reliability_score,
        r.key_metrics.risk_level@ == summary.risk_level@,
        r.key_metrics.latency_delta_ms == summary.latency_delta_ms,
        r.key_metrics.monthly_cost_delta_usd == monthly_cost_delta_usd,
        r.key_metrics.penalized_nodes == penalized_nodes,
        r.key_metrics.repair_failed_tasks == repair_failed,
        string_views(r.key_risks@) == key_risks_of(
            penalized_nodes,
            repair_failed,
            monthly_cost_delta_usd as int,
        ),
        string_views(r.recommendations@) == recommendations_of(summary.risk_level@),
{
    let mut s: Vec<char> = Vec::new();
    extend_str(&mut s, "NebulaStore 在当前参数下风险等级为 ");
    extend_str(&mut s, summary.risk_level.as_str());
    extend_str(&mut s, "，可靠性分数 ");
    let d = decimal_chars(summary.reliability_score as u64);
    extend_chars(&mut s, d.as_slice());
    extend_str(&mut s, "，时延改善 ");
    push_signed(&mut s, summary.latency_delta_ms as i64);
    extend_str(&mut s, "ms，月成本变化 $");
    push_signed(&mut s, monthly_cost_delta_usd);
    extend_str(&mut s, "。");
    let executive_summary = text_of(s);

    let mut risks: Vec<String> = Vec::new();
    let ghost mut expected: Seq<Seq<char>> = Seq::empty();
    if penalized_nodes > 0 {
        let mut t: Vec<char> = Vec::new();
        extend_str(&mut t, "存在 ");
        let d = decimal_chars(penalized_nodes as u64);
        extend_chars(&mut t, d.as_slice());
        extend_str(&mut t, " 个节点触发惩罚，需重点关注恶意证明和离线行为。");
        let t = text_of(t);
        push_text(&mut risks, t.as_str());
        proof {
            expected = expected.push(penalty_risk(penalized_nodes));
        }
    }
    if repair_failed > 0 {
        let mut t: Vec<char> = Vec::new();
        extend_str(&mut t, "修复状态机中仍有 ");
        let d = decimal_chars(repair_failed as u64);
        extend_chars(&mut t, d.as_slice());
        extend_str(&mut t, " 个任务失败，建议提高重试策略与替换节点阈值。");
        let t = text_of(t);
        push_text(&mut risks, t.as_str());
        proof {
            expected = expected.push(repair_risk(repair_failed));
        }
    }
    if monthly_cost_delta_usd > 0 {
        let mut t: Vec<char> = Vec::new();
        extend_str(&mut t, "热层迁移导致月成本上升 $");
        push_signed(&mut t, monthly_cost_delta_usd);
        extend_str(&mut t, "，需确认预算可承受。");
        let t = text_of(t);
        push_text(&mut risks, t.as_str());
        proof {
            expected = expected.push(cost_risk(monthly_cost_delta_usd as int));
        }
    }
    proof {
        let a: Seq<Seq<char>> = if penalized_nodes > 0 {
            seq![penalty_risk(penalized_nodes)]
        } else {
            Seq::empty()
        };
        let b: Seq<Seq<char>> = if repair_failed > 0 {
            seq![repair_risk(repair_failed)]
        } else {
            Seq::empty()
        };
        let c: Seq<Seq<char>> = if monthly_cost_delta_usd > 0 {
            seq![cost_risk(monthly_cost_delta_usd as int)]
        } else {
            Seq::empty()
        };
        assert(expected =~= a + b + c);
        assert(string_views(risks@) == expected);
    }
    if risks.len() == 0 {
        push_text(&mut risks, "当前参数组合未出现显著高风险项。");
    }

    let mut recs: Vec<String> = Vec::new();
    let high = crate::text::str_equal(summary.risk_level.as_str(), "high");
    if high {
        push_text(&mut recs, "先降低热分片目标并扩大副本数，再逐步扩容。");
    }
    push_text(&mut recs, "将挑战失败任务与节点信誉联动，失败超过阈值立即触发替换。");
    push_text(&mut recs, "对作恶节点执行更长恢复期，并要求连续稳定在线后再恢复权重。");
    push_text(&mut recs, "按周评估热分片占比，控制时延收益与成本上升的平衡点。");
    assert(string_views(recs@) =~= recommendations_of(summary.risk_level@));

    ManagementReport {
        protocol: String::from_str("NebulaStore"),
        executive_summary,
        key_metrics: ReportMetrics {
            reliability_score: summary.reliability_score,
            risk_level: String::from_str(summary.risk_level.as_str()),
            latency_delta_ms: summary.latency_delta_ms,
            monthly_cost_delta_usd,
            penalized_nodes,
            repair_failed_tasks: repair_failed,
        },
        key_risks: risks,
        recommendations: recs,
    }
}

/// Markdown bullet lines, one per item.
pub open spec fn bullets(items: Seq<Seq<char>>) -> Seq<char>
    decreases items.len(),
{
    if items.len() == 0 {
        Seq::empty()
    } else {
        bullets(items.drop_last()) + "- "@ + items.last() + "\n"@
    }
}

/// The Markdown rendering of a management report.
pub open spec fn management_markdown(
    executive_summary: Seq<char>,
    reliability_score: u8,
    risk_level: Seq<char>,
    latency_delta_ms: int,
    cost_delta_usd: int,
    penalized_nodes: u32,
    repair_failed: u32,
    risks: Seq<Seq<char>>,
    recommendations: Seq<Seq<char>>,
) -> Seq<char> {
    "# NebulaStore 管理层报告\n\n"@ + "## 执行摘要\n"@ + "- "@ + executive_summary + "\n\n"@
        + "## 关键指标\n"@ + "- 可靠性分数: "@ + decimal(reliability_score as nat) + "\n"@
        + "- 风险等级: "@ + risk_level + "\n"@ + "- 时延改善: "@ + signed_decimal(latency_delta_ms)
        + " ms\n"@ + "- 月成本变化: $"@ + signed_decimal(cost_delta_usd) + "\n"@ + "- 惩罚节点数: "@
        + decimal(penalized_nodes as nat) + "\n"@ + "- 修复失败任务: "@ + decimal(repair_failed as nat)
        + "\n\n"@ + "## 主要风险\n"@ + bullets(risks) + "\n"@ + "## 建议动作\n"@ + bullets(
        recommendations,
    )
}

fn push_bullets(v: &mut Vec<char>, items: &Vec<String>)
    ensures
        final(v)@ == old(v)@ + bullets(string_views(items@)),
{
    let ghost start = v@;
    let mut i: usize = 0;
    while i < items.len()
        invariant
            i <= items@.len(),
            v@ == start + bullets(string_views(items@).take(i as int)),
        decreases items.len() - i,
    {
        extend_str(v, "- ");
        extend_str(v, items[i].as_str());
        extend_str(v, "\n");
        proof {
            let sv = string_views(items@);
            assert(sv.take(i + 1).drop_last() =~= sv.take(i as int));
            assert(sv.take(i + 1).last() == items@[i as int]@);
        }
        i = i + 1;
    }
    assert(string_views(items@).take(items@.len() as int) =~= string_views(items@));
}

/// Renders a management report as Chinese Markdown.
pub fn render_management_markdown(report: &ManagementReport) -> (r: String)
    ensures
        r@ == management_markdown(
            report.executive_summary@,
            report.key_metrics.reliability_score,
            report.key_metrics.risk_level@,
            report.key_metrics.latency_delta_ms as int,
            report.key_metrics.monthly_cost_delta_usd as int,
            report.key_metrics.penalized_nodes,
            report.key_metrics.repair_failed_tasks,
            string_views(report.key_risks@),
            string_views(report.recommendations@),
        ),
{
    let m = &report.key_metrics;
    let mut v: Vec<char> = Vec::new();
    extend_str(&mut v, "# NebulaStore 管理层报告\n\n");
    extend_str(&mut v, "## 执行摘要\n");
    extend_str(&mut v, "- ");
    extend_str(&mut v, report.executive_summary.as_str());
    extend_str(&mut v, "\n\n");
    extend_str(&mut v, "## 关键指标\n");
    extend_str(&mut v, "- 可靠性分数: ");
    let d = decimal_chars(m.reliability_score as u64);
    extend_chars(&mut v, d.as_slice());
    extend_str(&mut v, "\n");
    extend_str(&mut v, "- 风险等级: ");
    extend_str(&mut v, m.risk_level.as_str());
    extend_str(&mut v, "\n");
    extend_str(&mut v, "- 时延改善: ");
    push_signed(&mut v, m.latency_delta_ms as i64);
    extend_str(&mut v, " ms\n");
    extend_str(&mut v, "- 月成本变化: $");
    push_signed(&mut v, m.monthly_cost_delta_usd);
    extend_str(&mut v, "\n");
    extend_str(&mut v, "- 惩罚节点数: ");
    let d = decimal_chars(m.penalized_nodes as u64);
    extend_chars(&mut v, d.as_slice());
    extend_str(&mut v, "\n");
    extend_str(&mut v, "- 修复失败任务: ");
    let d = decimal_chars(m.repair_failed_tasks as u64);
    extend_chars(&mut v, d.as_slice());
    extend_str(&mut v, "\n\n");
    extend_str(&mut v, "## 主要风险\n");
    push_bullets(&mut v, &report.key_risks);
    extend_str(&mut v, "\n");
    extend_str(&mut v, "## 建议动作\n");
    push_bullets(&mut v, &report.recommendations);
    string_from_chars(v.as_slice())
}

} // verus!
