use vstd::prelude::*;

use crate::text::{
    decimal, decimal_chars, extend_chars, extend_str, pad_zeros, str_equal, string_from_chars,
    zero_padded,
};

verus! {

/// The name of the storage protocol, as every report states it.
pub open spec fn protocol_name() -> Seq<char> {
    "NebulaStore"@
}

fn protocol_name_exec() -> (s: String)
    ensures
        s@ == protocol_name(),
{
    String::from_str("NebulaStore")
}

// ---------------------------------------------------------------------------
// Blueprint
// ---------------------------------------------------------------------------

/// The design of the storage protocol, one engine per pain point.
pub struct ProtocolBlueprint {
    pub name: String,
    pub positioning: String,
    pub retrieval_engine: String,
    pub cost_engine: String,
    pub durability_engine: String,
    pub scheduler_engine: String,
    pub ux_engine: String,
    pub compliance_engine: String,
}

/// The protocol blueprint: a structured mechanism for each industry pain point.
pub fn blueprint() -> (b: ProtocolBlueprint)
    ensures
        b.name@ == "NebulaStore"@,
        b.positioning@ == "纯自研去中心化存储网络，强调低延迟与成本稳定"@,
        b.retrieval_engine@ == "双层检索路径（边缘索引 + 区域热缓存），目标 p95 < 900ms"@,
        b.cost_engine@ == "法币锚定结算 + 波动缓冲池 + 长单锁价机制"@,
        b.durability_engine@ == "动态纠删码 + 跨域 7 副本 + 主动修复守护进程"@,
        b.scheduler_engine@ == "节点健康评分调度（时延/在线率/丢包/吞吐）"@,
        b.ux_engine@ == "账户抽象 + 无 gas 代付 + 一键上传网关"@,
        b.compliance_engine@ == "客户端加密 + 区域策略 + 审计证明日志"@,
{
    ProtocolBlueprint {
        name: String::from_str("NebulaStore"),
        positioning: String::from_str("纯自研去中心化存储网络，强调低延迟与成本稳定"),
        retrieval_engine: String::from_str("双层检索路径（边缘索引 + 区域热缓存），目标 p95 < 900ms"),
        cost_engine: String::from_str("法币锚定结算 + 波动缓冲池 + 长单锁价机制"),
        durability_engine: String::from_str("动态纠删码 + 跨域 7 副本 + 主动修复守护进程"),
        scheduler_engine: String::from_str("节点健康评分调度（时延/在线率/丢包/吞吐）"),
        ux_engine: String::from_str("账户抽象 + 无 gas 代付 + 一键上传网关"),
        compliance_engine: String::from_str("客户端加密 + 区域策略 + 审计证明日志"),
    }
}

// ---------------------------------------------------------------------------
// Names
// ---------------------------------------------------------------------------

/// `prefix` followed by `n` in decimal, zero-padded to `width` digits.
pub open spec fn numbered(prefix: Seq<char>, n: nat, width: nat) -> Seq<char> {
    prefix + pad_zeros(decimal(n), width)
}

/// The name of node number `n` (counting from 1): `node-0001`, ...
pub open spec fn node_name(n: nat) -> Seq<char> {
    numbered("node-"@, n, 4)
}

fn numbered_exec(prefix: &str, n: u64, width: usize) -> (s: String)
    ensures
        s@ == numbered(prefix@, n as nat, width as nat),
{
    let mut v: Vec<char> = Vec::new();
    extend_str(&mut v, prefix);
    let d = decimal_chars(n);
    let p = zero_padded(d.as_slice(), width);
    extend_chars(&mut v, p.as_slice());
    string_from_chars(v.as_slice())
}

// ---------------------------------------------------------------------------
// Repair state machine
// ---------------------------------------------------------------------------

/// Input of the repair state machine: shards, failed proof challenges and
/// the replica and node counts that repairs draw on.
#[derive(Clone, Copy, Debug)]
pub struct RepairInput {
    pub total_shards: u32,
    pub failed_challenges: u32,
    pub replicas: u8,
    pub node_count: u16,
}

/// State of one repair task.
#[derive(Clone, Copy, Debug, PartialEq, Eq, Structural)]
pub enum RepairStatus {
    Queued,
    InProgress,
    Completed,
    Failed,
}

/// One repair task: re-replicate a shard from one node to another.
pub struct RepairTask {
    pub task_id: String,
    pub shard_id: u32,
    pub from_node: String,
    pub to_node: String,
    pub retry_count: u8,
    pub status: RepairStatus,
}

/// Outcome of the repair state machine: the status distribution of all
/// repairs and the first tasks of the queue.
pub struct RepairReport {
    pub protocol: String,
    pub queued: u32,
    pub in_progress: u32,
    pub completed: u32,
    pub failed: u32,
    pub tasks_preview: Vec<RepairTask>,
}

/// Why a repair run is refused, if it is.
pub open spec fn repair_error(input: RepairInput) -> Option<Seq<char>> {
    if input.total_shards == 0 {
        Some("total_shards must be > 0"@)
    } else if input.failed_challenges > input.total_shards {
        Some("failed_challenges must be <= total_shards"@)
    } else if input.replicas < 3 {
        Some("replicas must be >= 3"@)
    } else if (input.node_count as int) < (input.replicas as int) {
        Some("node_count must be >= replicas"@)
    } else {
        None
    }
}

/// The status of the task at position `idx`: in every ten tasks three are
/// queued, three in progress, three completed and one failed.
pub open spec fn repair_status_of(idx: nat) -> RepairStatus {
    if idx % 10 <= 2 {
        RepairStatus::Queued
    } else if idx % 10 <= 5 {
        RepairStatus::InProgress
    } else if idx % 10 <= 8 {
        RepairStatus::Completed
    } else {
        RepairStatus::Failed
    }
}

/// Number of positions below `n` whose task has status `s`.
pub open spec fn status_count(n: nat, s: RepairStatus) -> nat
    decreases n,
{
    if n == 0 {
        0
    } else {
        status_count((n - 1) as nat, s) + if repair_status_of((n - 1) as nat) == s {
            1nat
        } else {
            0nat
        }
    }
}

/// How many tasks are shown in detail: at most twelve.
pub open spec fn repair_preview_len(failed_challenges: u32) -> nat {
    if failed_challenges < 12 {
        failed_challenges as nat
    } else {
        12
    }
}

/// The tasks beyond the preview, whose statuses are estimated in bulk.
pub open spec fn repair_remainder(failed_challenges: u32) -> nat {
    (failed_challenges - repair_preview_len(failed_challenges)) as nat
}

/// Estimated count of tasks with status `s` among all failed challenges:
/// exact on the preview, then 30% of the rest each for queued, in progress
/// and completed, and what is left of the last 10% for failed.
pub open spec fn repair_count(failed_challenges: u32, s: RepairStatus) -> nat {
    let p = repair_preview_len(failed_challenges);
    let r = repair_remainder(failed_challenges);
    status_count(p, s) + if s == RepairStatus::Failed {
        (r - r * 90 / 100) as nat
    } else {
        r * 30 / 100
    }
}

/// `t` is the task at position `idx` for a cluster of `node_count` nodes.
pub open spec fn is_repair_task(t: RepairTask, idx: nat, node_count: nat) -> bool {
    &&& t.task_id@ == numbered("repair-"@, idx + 1, 5)
    &&& t.shard_id == idx
    &&& t.from_node@ == node_name(idx % node_count + 1)
    &&& t.to_node@ == node_name((idx + 5) % node_count + 1)
    &&& t.status == repair_status_of(idx)
    &&& t.retry_count == if t.status == RepairStatus::Failed {
        2u8
    } else {
        0u8
    }
}

proof fn lemma_status_count_bound(n: nat, s: RepairStatus)
    ensures
        status_count(n, s) <= n,
    decreases n,
{
    if n > 0 {
        lemma_status_count_bound((n - 1) as nat, s);
    }
}

fn repair_status_exec(idx: u32) -> (s: RepairStatus)
    ensures
        s == repair_status_of(idx as nat),
{
    let m = idx % 10;
    if m <= 2 {
        RepairStatus::Queued
    } else if m <= 5 {
        RepairStatus::InProgress
    } else if m <= 8 {
        RepairStatus::Completed
    } else {
        RepairStatus::Failed
    }
}

/// Turns failed proof challenges into repair tasks and reports the status
/// distribution of the repair queue. Only the first twelve tasks are listed.
pub fn repair_state_machine(input: RepairInput) -> (r: Result<RepairReport, String>)
    requires
        repair_error(input) is None ==> repair_remainder(input.failed_challenges) * 90 <= u32::MAX,
    ensures
        match r {
            Ok(rep) => {
                &&& repair_error(input) is None
                &&& rep.protocol@ == protocol_name()
                &&& rep.queued == repair_count(input.failed_challenges, RepairStatus::Queued)
                &&& rep.in_progress == repair_count(
                    input.failed_challenges,
                    RepairStatus::InProgress,
                )
                &&& rep.completed == repair_count(input.failed_challenges, RepairStatus::Completed)
                &&& rep.failed == repair_count(input.failed_challenges, RepairStatus::Failed)
                &&& rep.tasks_preview@.len() == repair_preview_len(input.failed_challenges)
                &&& forall|i: int|
                    0 <= i < rep.tasks_preview@.len() ==> is_repair_task(
                        #[trigger] rep.tasks_preview@[i],
                        i as nat,
                        input.node_count as nat,
                    )
            },
            Err(e) => repair_error(input) == Some(e@),
        },
{
    if input.total_shards == 0 {
        return Err(String::from_str("total_shards must be > 0"));
    }
    if input.failed_challenges > input.total_shards {
        return Err(String::from_str("failed_challenges must be <= total_shards"));
    }
    if input.replicas < 3 {
        return Err(String::from_str("replicas must be >= 3"));
    }
    if input.node_count < input.replicas as u16 {
        return Err(String::from_str("node_count must be >= replicas"));
    }
    let preview: u32 = if input.failed_challenges < 12 { input.failed_challenges } else { 12 };
    let mut tasks: Vec<RepairTask> = Vec::new();
    let mut queued: u32 = 0;
    let mut in_progress: u32 = 0;
    let mut completed: u32 = 0;
    let mut failed: u32 = 0;
    let nodes = input.node_count as u64;
    let mut idx: u32 = 0;
    while idx < preview
        invariant
            idx <= preview <= 12,
            preview == repair_preview_len(input.failed_challenges),
            nodes == input.node_count,
            nodes >= 3,
            queued == status_count(idx as nat, RepairStatus::Queued),
            in_progress == status_count(idx as nat, RepairStatus::InProgress),
            completed == status_count(idx as nat, RepairStatus::Completed),
            failed == status_count(idx as nat, RepairStatus::Failed),
            tasks@.len() == idx,
            forall|i: int|
                0 <= i < idx ==> is_repair_task(#[trigger] tasks@[i], i as nat, nodes as nat),
        decreases preview - idx,
    {
        proof {
            lemma_status_count_bound(idx as nat, RepairStatus::Queued);
            lemma_status_count_bound(idx as nat, RepairStatus::InProgress);
            lemma_status_count_bound(idx as nat, RepairStatus::Completed);
            lemma_status_count_bound(idx as nat, RepairStatus::Failed);
        }
        let status = repair_status_exec(idx);
        match status {
            RepairStatus::Queued => queued = queued + 1,
            RepairStatus::InProgress => in_progress = in_progress + 1,
            RepairStatus::Completed => completed = completed + 1,
            RepairStatus::Failed => failed = failed + 1,
        }
        let i64v = idx as u64;
        let task = RepairTask {
            task_id: numbered_exec("repair-", i64v + 1, 5),
            shard_id: idx,
            from_node: numbered_exec("node-", i64v % nodes + 1, 4),
            to_node: numbered_exec("node-", (i64v + 5) % nodes + 1, 4),
            retry_count: match status {
                RepairStatus::Failed => 2,
                _ => 0,
            },
            status,
        };
        tasks.push(task);
        idx = idx + 1;
    }
    proof {
        lemma_status_count_bound(preview as nat, RepairStatus::Queued);
        lemma_status_count_bound(preview as nat, RepairStatus::InProgress);
        lemma_status_count_bound(preview as nat, RepairStatus::Completed);
        lemma_status_count_bound(preview as nat, RepairStatus::Failed);
    }
    if input.failed_challenges > preview {
        let remain = input.failed_challenges - preview;
        let share = remain * 30 / 100;
        let rest = remain - (remain * 90 / 100);
        queued = queued + share;
        in_progress = in_progress + share;
        completed = completed + share;
        failed = failed + rest;
    }
    Ok(
        RepairReport {
            protocol: protocol_name_exec(),
            queued,
            in_progress,
            completed,
            failed,
            tasks_preview: tasks,
        },
    )
}

/// The preview of a repair run accounts for each shown task exactly once.
pub proof fn law_preview_statuses_partition(n: nat)
    ensures
        status_count(n, RepairStatus::Queued) + status_count(n, RepairStatus::InProgress)
            + status_count(n, RepairStatus::Completed) + status_count(n, RepairStatus::Failed)
            == n,
    decreases n,
{
    if n > 0 {
        law_preview_statuses_partition((n - 1) as nat);
    }
}

/// A repair run never reports more tasks than there were failed challenges.
pub proof fn law_repair_counts_bounded(failed_challenges: u32)
    ensures
        repair_count(failed_challenges, RepairStatus::Queued) + repair_count(
            failed_challenges,
            RepairStatus::InProgress,
        ) + repair_count(failed_challenges, RepairStatus::Completed) + repair_count(
            failed_challenges,
            RepairStatus::Failed,
        ) <= failed_challenges,
{
    let p = repair_preview_len(failed_challenges);
    let r = repair_remainder(failed_challenges);
    law_preview_statuses_partition(p);
    assert(3 * (r * 30 / 100) <= r * 90 / 100) by (nonlinear_arith);
}

// ---------------------------------------------------------------------------
// Penalties
// ---------------------------------------------------------------------------

/// Input of the penalty engine: cluster size and the shares of malicious and
/// long-offline nodes.
#[derive(Clone, Copy, Debug)]
pub struct PenaltyInput {
    pub node_count: u16,
    pub malicious_percent: u8,
    pub offline_percent: u8,
}

/// The penalty of one node. The slash is kept in tenths of a percent.
pub struct NodePenalty {
    pub node_id: String,
    pub reason: String,
    pub slash_tenths_percent: u32,
    pub reputation_before: u16,
    pub reputation_after: u16,
    pub recovery_epochs: u32,
}

/// Outcome of the penalty engine: penalized nodes, the summed slash and
/// recovery of the listed penalties, and the first twelve penalties.
pub struct PenaltyReport {
    pub protocol: String,
    pub penalized_nodes: u32,
    pub total_slash_tenths_percent: u32,
    pub total_recovery_epochs: u32,
    pub penalties_preview: Vec<NodePenalty>,
}

/// Why a penalty run is refused, if it is.
pub open spec fn penalty_error(input: PenaltyInput) -> Option<Seq<char>> {
    if input.node_count == 0 {
        Some("node_count must be > 0"@)
    } else if input.malicious_percent > 100 || input.offline_percent > 100 {
        Some("percent fields must be in [0, 100]"@)
    } else {
        None
    }
}

/// Malicious nodes: the rounded-down share of the cluster.
pub open spec fn malicious_nodes(input: PenaltyInput) -> nat {
    let m = input.node_count as nat * input.malicious_percent as nat / 100;
    if m < input.node_count { m } else { input.node_count as nat }
}

/// Offline nodes: the rounded-down share, at most the nodes not malicious.
pub open spec fn offline_nodes(input: PenaltyInput) -> nat {
    let o = input.node_count as nat * input.offline_percent as nat / 100;
    let room = (input.node_count - malicious_nodes(input)) as nat;
    if o < room { o } else { room }
}

/// The penalty at position `idx` given `malicious` malicious nodes first:
/// malicious proofs cost 18% of stake, 120 reputation and 48 epochs;
/// extended offline time costs 6.5%, 45 reputation and 18 epochs. Node
/// reputations start at 420 and fall by 7 per position.
pub open spec fn is_node_penalty(p: NodePenalty, idx: nat, malicious: nat) -> bool {
    let is_mal = idx < malicious;
    let before: int = if 420 >= 7 * idx { 420 - 7 * idx } else { 0 };
    let cost: int = if is_mal { 120 } else { 45 };
    &&& p.node_id@ == node_name(idx + 1)
    &&& p.reason@ == if is_mal { "malicious-proof"@ } else { "extended-offline"@ }
    &&& p.slash_tenths_percent == if is_mal { 180u32 } else { 65u32 }
    &&& p.reputation_before == before
    &&& p.reputation_after == if before >= cost { before - cost } else { 0 }
    &&& p.recovery_epochs == if is_mal { 48u32 } else { 18u32 }
}

/// Sum over the first `n` positions of the slash (tenths of a percent).
pub open spec fn slash_sum(n: nat, malicious: nat) -> nat
    decreases n,
{
    if n == 0 {
        0
    } else {
        slash_sum((n - 1) as nat, malicious) + if ((n - 1) as nat) < malicious {
            180nat
        } else {
            65nat
        }
    }
}

/// Sum over the first `n` positions of the recovery epochs.
pub open spec fn recovery_sum(n: nat, malicious: nat) -> nat
    decreases n,
{
    if n == 0 {
        0
    } else {
        recovery_sum((n - 1) as nat, malicious) + if ((n - 1) as nat) < malicious {
            48nat
        } else {
            18nat
        }
    }
}

proof fn lemma_sums_bounded(n: nat, malicious: nat)
    ensures
        slash_sum(n, malicious) <= 180 * n,
        recovery_sum(n, malicious) <= 48 * n,
    decreases n,
{
    if n > 0 {
        lemma_sums_bounded((n - 1) as nat, malicious);
    }
}

/// Applies the slashing and recovery rules to the malicious and offline
/// nodes of a cluster. The first twelve penalties are listed and summed.
pub fn apply_penalty_rules(input: PenaltyInput) -> (r: Result<PenaltyReport, String>)
    ensures
        match r {
            Ok(rep) => {
                let mal = malicious_nodes(input);
                let penalized = mal + offline_nodes(input);
                let shown: nat = if penalized < 12 { penalized } else { 12 };
                &&& penalty_error(input) is None
                &&& rep.protocol@ == protocol_name()
                &&& rep.penalized_nodes == penalized
                &&& rep.penalties_preview@.len() == shown
                &&& forall|i: int|
                    0 <= i < shown ==> is_node_penalty(
                        #[trigger] rep.penalties_preview@[i],
                        i as nat,
                        mal,
                    )
                &&& rep.total_slash_tenths_percent == slash_sum(shown, mal)
                &&& rep.total_recovery_epochs == recovery_sum(shown, mal)
            },
            Err(e) => penalty_error(input) == Some(e@),
        },
{
    if input.node_count == 0 {
        return Err(String::from_str("node_count must be > 0"));
    }
    if input.malicious_percent > 100 || input.offline_percent > 100 {
        return Err(String::from_str("percent fields must be in [0, 100]"));
    }
    let n = input.node_count as u32;
    assert(n * (input.malicious_percent as u32) <= 6_553_500 && n * (input.offline_percent as u32)
        <= 6_553_500) by (nonlinear_arith)
        requires
            n <= 65535,
            input.malicious_percent <= 100,
            input.offline_percent <= 100,
    ;
    let m0 = n * input.malicious_percent as u32 / 100;
    let malicious = if m0 < n { m0 } else { n };
    let o0 = n * input.offline_percent as u32 / 100;
    let room = n - malicious;
    let offline = if o0 < room { o0 } else { room };
    let penalized = malicious + offline;
    let shown: u32 = if penalized < 12 { penalized } else { 12 };
    let mut list: Vec<NodePenalty> = Vec::new();
    let mut total_slash: u32 = 0;
    let mut total_recovery: u32 = 0;
    let mut idx: u32 = 0;
    while idx < shown
        invariant
            idx <= shown <= 12,
            malicious == malicious_nodes(input),
            list@.len() == idx,
            forall|i: int|
                0 <= i < idx ==> is_node_penalty(#[trigger] list@[i], i as nat, malicious as nat),
            total_slash == slash_sum(idx as nat, malicious as nat),
            total_recovery == recovery_sum(idx as nat, malicious as nat),
        decreases shown - idx,
    {
        proof {
            lemma_sums_bounded(idx as nat, malicious as nat);
        }
        let is_mal = idx < malicious;
        let before: u16 = if 420 >= 7 * (idx as u16) { 420 - 7 * (idx as u16) } else { 0 };
        let cost: u16 = if is_mal { 120 } else { 45 };
        let after: u16 = if before >= cost { before - cost } else { 0 };
        let slash: u32 = if is_mal { 180 } else { 65 };
        let recovery: u32 = if is_mal { 48 } else { 18 };
        total_slash = total_slash + slash;
        total_recovery = total_recovery + recovery;
        list.push(NodePenalty {
            node_id: numbered_exec("node-", idx as u64 + 1, 4),
            reason: if is_mal {
                String::from_str("malicious-proof")
            } else {
                String::from_str("extended-offline")
            },
            slash_tenths_percent: slash,
            reputation_before: before,
            reputation_after: after,
            recovery_epochs: recovery,
        });
        idx = idx + 1;
    }
    Ok(
        PenaltyReport {
            protocol: protocol_name_exec(),
            penalized_nodes: penalized,
            total_slash_tenths_percent: total_slash,
            total_recovery_epochs: total_recovery,
            penalties_preview: list,
        },
    )
}

/// No node is penalized twice: the penalized nodes never outnumber the
/// cluster.
pub proof fn law_penalized_within_cluster(input: PenaltyInput)
    requires
        penalty_error(input) is None,
    ensures
        malicious_nodes(input) + offline_nodes(input) <= input.node_count,
{
}

// ---------------------------------------------------------------------------
// Hot/cold tier migration
// ---------------------------------------------------------------------------

/// Input of the tier migration: shards and the current and target shares of
/// hot shards.
#[derive(Clone, Copy, Debug)]
pub struct MigrationInput {
    pub total_shards: u32,
    pub hot_shard_percent: u8,
    pub target_hot_percent: u8,
}

/// One shard move between tiers.
pub struct MigrationAction {
    pub shard_id: u32,
    pub from_tier: String,
    pub to_tier: String,
    pub reason: String,
}

/// Outcome of the tier migration: moves in each direction, the latency
/// before and after, and the first ten moves.
pub struct MigrationReport {
    pub protocol: String,
    pub moved_to_hot: u32,
    pub moved_to_cold: u32,
    pub p95_latency_before_ms: u32,
    pub p95_latency_after_ms: u32,
    pub actions_preview: Vec<MigrationAction>,
}

/// Why a migration is refused, if it is.
pub open spec fn migration_error(input: MigrationInput) -> Option<Seq<char>> {
    if input.total_shards == 0 {
        Some("total_shards must be > 0"@)
    } else if input.hot_shard_percent > 100 || input.target_hot_percent > 100 {
        Some("percent fields must be in [0, 100]"@)
    } else {
        None
    }
}

/// Hot shards at a given share (rounded down).
pub open spec fn hot_shards(total: u32, percent: u8) -> nat {
    total as nat * percent as nat / 100
}

/// The p95 latency estimate at a hot share: 1500 ms less 8 ms per percent.
pub open spec fn latency_at(percent: u8) -> nat {
    if 8 * percent <= 1500 { (1500 - 8 * percent) as nat } else { 0 }
}

/// `a` is the move at position `idx` when `to_hot` moves go to the hot tier.
pub open spec fn is_migration_action(a: MigrationAction, idx: nat, to_hot: nat) -> bool {
    &&& a.shard_id == idx
    &&& if idx < to_hot {
        &&& a.from_tier@ == "cold-archive"@
        &&& a.to_tier@ == "hot-edge"@
        &&& a.reason@ == "access-ratio-increase"@
    } else {
        &&& a.from_tier@ == "hot-edge"@
        &&& a.to_tier@ == "cold-archive"@
        &&& a.reason@ == "access-ratio-drop"@
    }
}

/// Moves shards between the hot edge and the cold archive until the hot
/// share reaches its target, and estimates the latency effect.
pub fn execute_tier_migration(input: MigrationInput) -> (r: Result<MigrationReport, String>)
    requires
        migration_error(input) is None ==> input.total_shards * input.hot_shard_percent
            <= u32::MAX && input.total_shards * input.target_hot_percent <= u32::MAX,
    ensures
        match r {
            Ok(rep) => {
                let cur = hot_shards(input.total_shards, input.hot_shard_percent);
                let tgt = hot_shards(input.total_shards, input.target_hot_percent);
                let to_hot: nat = if tgt >= cur { (tgt - cur) as nat } else { 0 };
                let to_cold: nat = if tgt >= cur { 0 } else { (cur - tgt) as nat };
                let shown: nat = if to_hot + to_cold < 10 { to_hot + to_cold } else { 10 };
                &&& migration_error(input) is None
                &&& rep.protocol@ == protocol_name()
                &&& rep.moved_to_hot == to_hot
                &&& rep.moved_to_cold == to_cold
                &&& rep.p95_latency_before_ms == latency_at(input.hot_shard_percent)
                &&& rep.p95_latency_after_ms == latency_at(input.target_hot_percent)
                &&& rep.actions_preview@.len() == shown
                &&& forall|i: int|
                    0 <= i < shown ==> is_migration_action(
                        #[trigger] rep.actions_preview@[i],
                        i as nat,
                        to_hot,
                    )
            },
            Err(e) => migration_error(input) == Some(e@),
        },
{
    if input.total_shards == 0 {
        return Err(String::from_str("total_shards must be > 0"));
    }
    if input.hot_shard_percent > 100 || input.target_hot_percent > 100 {
        return Err(String::from_str("percent fields must be in [0, 100]"));
    }
    let current_hot = input.total_shards * input.hot_shard_percent as u32 / 100;
    let target_hot = input.total_shards * input.target_hot_percent as u32 / 100;
    let (to_hot, to_cold) = if target_hot >= current_hot {
        (target_hot - current_hot, 0u32)
    } else {
        (0u32, current_hot - target_hot)
    };
    let shown: u32 = if to_hot + to_cold < 10 { to_hot + to_cold } else { 10 };
    let mut actions: Vec<MigrationAction> = Vec::new();
    let mut idx: u32 = 0;
    while idx < shown
        invariant
            idx <= shown,
            actions@.len() == idx,
            forall|i: int|
                0 <= i < idx ==> is_migration_action(#[trigger] actions@[i], i as nat, to_hot as nat),
        decreases shown - idx,
    {
        let a = if idx < to_hot {
            MigrationAction {
                shard_id: idx,
                from_tier: String::from_str("cold-archive"),
                to_tier: String::from_str("hot-edge"),
                reason: String::from_str("access-ratio-increase"),
            }
        } else {
            MigrationAction {
                shard_id: idx,
                from_tier: String::from_str("hot-edge"),
                to_tier: String::from_str("cold-archive"),
                reason: String::from_str("access-ratio-drop"),
            }
        };
        actions.push(a);
        idx = idx + 1;
    }
    let before = 1500u32.saturating_sub(input.hot_shard_percent as u32 * 8);
    let after = 1500u32.saturating_sub(input.target_hot_percent as u32 * 8);
    Ok(
        MigrationReport {
            protocol: protocol_name_exec(),
            moved_to_hot: to_hot,
            moved_to_cold: to_cold,
            p95_latency_before_ms: before,
            p95_latency_after_ms: after,
            actions_preview: actions,
        },
    )
}

/// A migration moves shards in one direction only, and by exactly the gap
/// between the current and the target number of hot shards.
pub proof fn law_migration_one_direction(input: MigrationInput)
    ensures
        ({
            let cur = hot_shards(input.total_shards, input.hot_shard_percent);
            let tgt = hot_shards(input.total_shards, input.target_hot_percent);
            let to_hot: int = if tgt >= cur { tgt - cur } else { 0 };
            let to_cold: int = if tgt >= cur { 0 } else { cur - tgt };
            &&& to_hot == 0 || to_cold == 0
            &&& cur + to_hot - to_cold == tgt
        }),
{
}

// ---------------------------------------------------------------------------
// Workflow summary
// ---------------------------------------------------------------------------

/// Reliability after a workflow: 90, less half the penalized nodes (at most
/// 18) and half the failed repairs (at most 12), kept within [55, 96].
/// Counts are read as 32-bit signed integers and halved toward zero.
pub open spec fn reliability_score_of(penalized_nodes: u32, repair_failed: u32) -> int {
    let p = half_toward_zero((penalized_nodes as i32) as int);
    let f = half_toward_zero((repair_failed as i32) as int);
    let pd: int = if p < 18 { p } else { 18 };
    let fd: int = if f < 12 { f } else { 12 };
    let s = 90 - pd - fd;
    if s < 55 { 55 } else if s > 96 { 96 } else { s }
}

/// Integer halving that rounds toward zero, as `/ 2` does on `i32`.
pub open spec fn half_toward_zero(x: int) -> int {
    if x >= 0 { x / 2 } else { -((-x) / 2) }
}

fn div2_toward_zero(x: i32) -> (r: i32)
    ensures
        r == half_toward_zero(x as int),
{
    x / 2
}

/// Reliability score of a workflow from its penalties and failed repairs.
pub fn reliability_score(penalized_nodes: u32, repair_failed: u32) -> (s: u8)
    requires
        penalized_nodes <= 65535,
    ensures
        s == reliability_score_of(penalized_nodes, repair_failed),
{
    let p = div2_toward_zero(penalized_nodes as i32);
    let f0 = repair_failed as i32;
    let f = div2_toward_zero(f0);
    let pd = if p < 18 { p } else { 18 };
    let fd = if f < 12 { f } else { 12 };
    let s = 90 - pd - fd;
    let c = if s < 55 { 55 } else if s > 96 { 96 } else { s };
    c as u8
}

/// Risk level of a reliability score: low from 85, medium from 70, else high.
pub open spec fn risk_level_of(score: u8) -> Seq<char> {
    if score >= 85 {
        "low"@
    } else if score >= 70 {
        "medium"@
    } else {
        "high"@
    }
}

/// The risk level that a reliability score stands for.
pub fn risk_level(score: u8) -> (s: String)
    ensures
        s@ == risk_level_of(score),
{
    if score >= 85 {
        String::from_str("low")
    } else if score >= 70 {
        String::from_str("medium")
    } else {
        String::from_str("high")
    }
}

/// Storage profile of a target hot share: hot-biased from 60%, cold-biased
/// up to 35%, balanced in between.
pub open spec fn storage_profile_of(target_hot_percent: u8) -> Seq<char> {
    if target_hot_percent >= 60 {
        "hot-biased"@
    } else if target_hot_percent <= 35 {
        "cold-biased"@
    } else {
        "balanced"@
    }
}

/// The storage profile that a target hot share stands for.
pub fn storage_profile(target_hot_percent: u8) -> (s: String)
    ensures
        s@ == storage_profile_of(target_hot_percent),
{
    if target_hot_percent >= 60 {
        String::from_str("hot-biased")
    } else if target_hot_percent <= 35 {
        String::from_str("cold-biased")
    } else {
        String::from_str("balanced")
    }
}

/// The integer part of a workflow's final summary.
pub struct WorkflowSummaryCore {
    pub storage_profile: String,
    pub reliability_score: u8,
    pub latency_delta_ms: i32,
    pub risk_level: String,
}

/// Summarizes a workflow from its penalty, repair and migration outcomes:
/// reliability and its risk level, latency gain and storage profile.
pub fn summarize_workflow(
    penalty: &PenaltyReport,
    repair: &RepairReport,
    migration: &MigrationReport,
    target_hot_percent: u8,
) -> (s: WorkflowSummaryCore)
    requires
        penalty.penalized_nodes <= 65535,
        migration.p95_latency_before_ms <= 1500,
        migration.p95_latency_after_ms <= 1500,
    ensures
        s.reliability_score == reliability_score_of(penalty.penalized_nodes, repair.failed),
        s.risk_level@ == risk_level_of(s.reliability_score),
        s.latency_delta_ms == migration.p95_latency_before_ms - migration.p95_latency_after_ms,
        s.storage_profile@ == storage_profile_of(target_hot_percent),
{
    let score = reliability_score(penalty.penalized_nodes, repair.failed);
    WorkflowSummaryCore {
        storage_profile: storage_profile(target_hot_percent),
        reliability_score: score,
        latency_delta_ms: migration.p95_latency_before_ms as i32
            - migration.p95_latency_after_ms as i32,
        risk_level: risk_level(score),
    }
}

/// The reliability score always lies within [55, 96], so every workflow has
/// one of the three risk levels.
pub proof fn law_reliability_range(penalized_nodes: u32, repair_failed: u32)
    ensures
        55 <= reliability_score_of(penalized_nodes, repair_failed) <= 96,
{
}

// ---------------------------------------------------------------------------
// Business templates and champion strategies
// ---------------------------------------------------------------------------

/// Preset business scenarios.
#[derive(Clone, Copy, Debug, PartialEq, Eq, Structural)]
pub enum BusinessTemplate {
    Archive,
    Web3Frontend,
    AiInference,
}

/// The name of a template.
pub open spec fn template_name_of(t: BusinessTemplate) -> Seq<char> {
    match t {
        BusinessTemplate::Archive => "archive"@,
        BusinessTemplate::Web3Frontend => "web3-frontend"@,
        BusinessTemplate::AiInference => "ai-inference"@,
    }
}

/// Parses a template name.
pub fn parse_business_template(value: &str) -> (r: Option<BusinessTemplate>)
    ensures
        match r {
            Some(t) => template_name_of(t) == value@,
            None => forall|t: BusinessTemplate| template_name_of(t) != value@,
        },
{
    if str_equal(value, "archive") {
        Some(BusinessTemplate::Archive)
    } else if str_equal(value, "web3-frontend") {
        Some(BusinessTemplate::Web3Frontend)
    } else if str_equal(value, "ai-inference") {
        Some(BusinessTemplate::AiInference)
    } else {
        proof {
            assert forall|t: BusinessTemplate| template_name_of(t) != value@ by {
                match t {
                    BusinessTemplate::Archive => {},
                    BusinessTemplate::Web3Frontend => {},
                    BusinessTemplate::AiInference => {},
                }
            }
        }
        None
    }
}

/// The name of a template.
pub fn template_name(t: BusinessTemplate) -> (s: &'static str)
    ensures
        s@ == template_name_of(t),
{
    match t {
        BusinessTemplate::Archive => "archive",
        BusinessTemplate::Web3Frontend => "web3-frontend",
        BusinessTemplate::AiInference => "ai-inference",
    }
}

/// Tie-break policy when templates score the same.
#[derive(Clone, Copy, Debug, PartialEq, Eq, Structural)]
pub enum ChampionStrategy {
    Balanced,
    LatencyFirst,
    CostFirst,
    ReliabilityFirst,
}

/// The name of a strategy.
pub open spec fn strategy_name_of(s: ChampionStrategy) -> Seq<char> {
    match s {
        ChampionStrategy::Balanced => "balanced"@,
        ChampionStrategy::LatencyFirst => "latency-first"@,
        ChampionStrategy::CostFirst => "cost-first"@,
        ChampionStrategy::ReliabilityFirst => "reliability-first"@,
    }
}

/// Parses a strategy name.
pub fn parse_champion_strategy(value: &str) -> (r: Option<ChampionStrategy>)
    ensures
        match r {
            Some(s) => strategy_name_of(s) == value@,
            None => forall|s: ChampionStrategy| strategy_name_of(s) != value@,
        },
{
    if str_equal(value, "balanced") {
        Some(ChampionStrategy::Balanced)
    } else if str_equal(value, "latency-first") {
        Some(ChampionStrategy::LatencyFirst)
    } else if str_equal(value, "cost-first") {
        Some(ChampionStrategy::CostFirst)
    } else if str_equal(value, "reliability-first") {
        Some(ChampionStrategy::ReliabilityFirst)
    } else {
        proof {
            assert forall|s: ChampionStrategy| strategy_name_of(s) != value@ by {
                match s {
                    ChampionStrategy::Balanced => {},
                    ChampionStrategy::LatencyFirst => {},
                    ChampionStrategy::CostFirst => {},
                    ChampionStrategy::ReliabilityFirst => {},
                }
            }
        }
        None
    }
}

/// The name of a strategy.
pub fn champion_strategy_name(s: ChampionStrategy) -> (n: &'static str)
    ensures
        n@ == strategy_name_of(s),
{
    match s {
        ChampionStrategy::Balanced => "balanced",
        ChampionStrategy::LatencyFirst => "latency-first",
        ChampionStrategy::CostFirst => "cost-first",
        ChampionStrategy::ReliabilityFirst => "reliability-first",
    }
}

/// Parsing a name gives back the template or strategy that has it.
pub proof fn law_names_round_trip(t: BusinessTemplate, s: ChampionStrategy)
    ensures
        forall|u: BusinessTemplate| template_name_of(u) == template_name_of(t) ==> u == t,
        forall|v: ChampionStrategy| strategy_name_of(v) == strategy_name_of(s) ==> v == s,
{
    reveal_strlit("archive");
    reveal_strlit("web3-frontend");
    reveal_strlit("ai-inference");
    reveal_strlit("balanced");
    reveal_strlit("latency-first");
    reveal_strlit("cost-first");
    reveal_strlit("reliability-first");
    assert forall|u: BusinessTemplate| template_name_of(u) == template_name_of(t) implies u == t by {
        assert(template_name_of(u).len() == template_name_of(t).len());
    }
    assert forall|v: ChampionStrategy| strategy_name_of(v) == strategy_name_of(s) implies v == s by {
        assert(strategy_name_of(v).len() == strategy_name_of(s).len());
    }
}

// ---------------------------------------------------------------------------
// Execution plan: shard layout, node ranking, proof challenges
// ---------------------------------------------------------------------------

/// The replica nodes of one shard.
pub struct ShardPlacement {
    pub shard_id: u32,
    pub replica_nodes: Vec<String>,
}

/// Proof-of-storage challenge window: how often and how much is sampled.
pub struct ChallengeWindow {
    pub window_hours: u32,
    pub challenge_interval_minutes: u32,
    pub sample_ratio_percent: u8,
}

/// Why a plan is refused, if it is (the data size is checked before these).
pub open spec fn plan_error(shard_mb: u32, replicas: u8, node_count: u16) -> Option<Seq<char>> {
    if shard_mb == 0 {
        Some("shard_mb must be > 0"@)
    } else if replicas < 3 || replicas > 12 {
        Some("replicas must be in [3, 12]"@)
    } else if (node_count as int) < (replicas as int) {
        Some("node_count must be >= replicas"@)
    } else {
        None
    }
}

/// Checks the shard size, replica count and cluster size of a plan.
pub fn validate_plan_input(shard_mb: u32, replicas: u8, node_count: u16) -> (r: Result<(), String>)
    ensures
        match r {
            Ok(()) => plan_error(shard_mb, replicas, node_count) is None,
            Err(e) => plan_error(shard_mb, replicas, node_count) == Some(e@),
        },
{
    if shard_mb == 0 {
        return Err(String::from_str("shard_mb must be > 0"));
    }
    if replicas < 3 || replicas > 12 {
        return Err(String::from_str("replicas must be in [3, 12]"));
    }
    if node_count < replicas as u16 {
        return Err(String::from_str("node_count must be >= replicas"));
    }
    Ok(())
}

/// Number of shards of `shard_mb` megabytes that hold `total_mb` megabytes.
pub fn total_shards(total_mb: u32, shard_mb: u32) -> (n: u32)
    requires
        shard_mb > 0,
    ensures
        n == (total_mb as int + shard_mb - 1) / shard_mb as int,
{
    let q = total_mb / shard_mb;
    let r = total_mb % shard_mb;
    assert((total_mb as int + shard_mb - 1) / shard_mb as int == q + if r > 0 { 1int } else { 0 })
        by (nonlinear_arith)
        requires
            shard_mb > 0,
            q == total_mb as int / shard_mb as int,
            r == total_mb as int % shard_mb as int,
    ;
    if r > 0 {
        assert(q < u32::MAX) by (nonlinear_arith)
            requires
                shard_mb > 1,
                q == total_mb as int / shard_mb as int,
                total_mb <= u32::MAX,
        ;
        q + 1
    } else {
        q
    }
}

/// The challenge window of a plan: 24 hours, a challenge every 20 minutes,
/// sampling 20% plus one point per replica, at most 45%.
pub fn challenge_window(replicas: u8) -> (c: ChallengeWindow)
    requires
        replicas <= 12,
    ensures
        c.window_hours == 24,
        c.challenge_interval_minutes == 20,
        c.sample_ratio_percent == if 20 + replicas < 45 { 20 + replicas } else { 45 },
{
    let s = 20 + replicas;
    ChallengeWindow {
        window_hours: 24,
        challenge_interval_minutes: 20,
        sample_ratio_percent: if s < 45 { s } else { 45 },
    }
}

/// Node `i` ranks before node `j`: higher reputation first, and among equal
/// reputations the earlier node first.
pub open spec fn ranks_before(rep: Seq<u16>, i: int, j: int) -> bool {
    rep[i] > rep[j] || (rep[i] == rep[j] && i < j)
}

/// `order` lists every node of `rep` once, best reputation first, keeping
/// the original order among equal reputations.
pub open spec fn is_reputation_order(rep: Seq<u16>, order: Seq<usize>) -> bool {
    &&& order.len() == rep.len()
    &&& forall|a: int| 0 <= a < order.len() ==> (#[trigger] order[a] as int) < rep.len()
    &&& forall|x: usize| (x as int) < rep.len() ==> #[trigger] order.contains(x)
    &&& forall|a: int, b: int|
        0 <= a < b < order.len() ==> ranks_before(rep, order[a] as int, order[b] as int)
}

/// Orders nodes by reputation, highest first; a stable sort.
pub fn rank_by_reputation(rep: &[u16]) -> (order: Vec<usize>)
    ensures
        is_reputation_order(rep@, order@),
{
    let mut order: Vec<usize> = Vec::new();
    let mut i: usize = 0;
    while i < rep.len()
        invariant
            i <= rep.len(),
            order@.len() == i,
            forall|a: int| 0 <= a < order@.len() ==> (#[trigger] order@[a] as int) < i,
            forall|x: usize| x < i ==> #[trigger] order@.contains(x),
            forall|a: int, b: int|
                0 <= a < b < order@.len() ==> ranks_before(rep@, order@[a] as int, order@[b] as int),
        decreases rep.len() - i,
    {
        let mut p: usize = 0;
        while p < order.len()
            invariant
                p <= order@.len(),
                order@.len() == i,
                i < rep.len(),
                forall|a: int| 0 <= a < order@.len() ==> (#[trigger] order@[a] as int) < i,
                forall|a: int| 0 <= a < p ==> rep@[order@[a] as int] >= rep@[i as int],
            ensures
                p <= order@.len(),
                forall|a: int| 0 <= a < p ==> rep@[order@[a] as int] >= rep@[i as int],
                p < order@.len() ==> rep@[order@[p as int] as int] < rep@[i as int],
            decreases order@.len() - p,
        {
            if rep[order[p]] < rep[i] {
                break;
            }
            p = p + 1;
        }
        let ghost old_order = order@;
        order.insert(p, i);
        proof {
            assert forall|a: int, b: int| 0 <= a < b < order@.len() implies ranks_before(
                rep@,
                order@[a] as int,
                order@[b] as int,
            ) by {
                if b < p {
                } else if b == p {
                    assert(order@[a] == old_order[a]);
                } else if a < p {
                    assert(order@[b] == old_order[b - 1]);
                    assert(order@[a] == old_order[a]);
                } else if a == p {
                    assert(order@[b] == old_order[b - 1]);
                    if b - 1 > p {
                        assert(ranks_before(rep@, old_order[p as int] as int, old_order[b - 1] as int));
                    }
                } else {
                    assert(order@[a] == old_order[a - 1]);
                    assert(order@[b] == old_order[b - 1]);
                }
            }
            assert forall|x: usize| x < i + 1 implies #[trigger] order@.contains(x) by {
                if x == i {
                    assert(order@[p as int] == i);
                } else {
                    assert(old_order.contains(x));
                    let a = choose|a: int| 0 <= a < old_order.len() && old_order[a] == x;
                    if a < p {
                        assert(order@[a] == x);
                    } else {
                        assert(order@[a + 1] == x);
                    }
                }
            }
        }
        i = i + 1;
    }
    order
}

/// `p` places shard `shard` on `replicas` nodes taken from `ids` (ranked),
/// starting at position `7 * shard` and wrapping around.
pub open spec fn is_placement(p: ShardPlacement, shard: nat, ids: Seq<String>, replicas: nat) -> bool {
    &&& p.shard_id == shard
    &&& p.replica_nodes@.len() == replicas
    &&& forall|r: int|
        0 <= r < replicas ==> (#[trigger] p.replica_nodes@[r])@ == ids[(shard * 7 + r) % (
        ids.len() as int)]@
}

/// Places the first (at most five) shards on ranked nodes.
pub fn placement_preview(ranked_ids: &[String], total_shards: u32, replicas: u8) -> (v: Vec<
    ShardPlacement,
>)
    requires
        ranked_ids@.len() > 0,
    ensures
        v@.len() == if total_shards < 5 { total_shards as nat } else { 5 },
        forall|s: int|
            0 <= s < v@.len() ==> is_placement(
                #[trigger] v@[s],
                s as nat,
                ranked_ids@,
                replicas as nat,
            ),
{
    let count: u32 = if total_shards < 5 { total_shards } else { 5 };
    let mut v: Vec<ShardPlacement> = Vec::new();
    let mut shard: u32 = 0;
    while shard < count
        invariant
            shard <= count <= 5,
            ranked_ids@.len() > 0,
            v@.len() == shard,
            forall|s: int|
                0 <= s < shard ==> is_placement(#[trigger] v@[s], s as nat, ranked_ids@, replicas as nat),
        decreases count - shard,
    {
        let mut nodes: Vec<String> = Vec::new();
        let mut r: u8 = 0;
        while r < replicas
            invariant
                r <= replicas,
                shard < 5,
                ranked_ids@.len() > 0,
                nodes@.len() == r,
                forall|k: int|
                    0 <= k < r ==> (#[trigger] nodes@[k])@ == ranked_ids@[(shard * 7 + k) % (
                    ranked_ids@.len() as int)]@,
            decreases replicas - r,
        {
            let idx = ((shard as usize) * 7 + r as usize) % ranked_ids.len();
            nodes.push(ranked_ids[idx].clone());
            r = r + 1;
        }
        v.push(ShardPlacement { shard_id: shard, replica_nodes: nodes });
        shard = shard + 1;
    }
    v
}

} // verus!
