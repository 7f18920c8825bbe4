use vstd::prelude::*;

use crate::domain_service::{
    delete, delete_error, delete_message, register, register_error, register_message, renew,
    renew_error, renew_message, renewed_expiry, renewed_record, is_registered_record,
};
use crate::model::StateSnapshot;
use crate::text::{chars_of, concat2, string_from_chars, trim, trim_end_char, trim_end_char_exec, trim_exec};

verus! {

/// The refusal for a missing command-line argument.
pub open spec fn missing_arg(key: Seq<char>) -> Seq<char> {
    "missing required --"@ + key
}

/// Takes a required argument, or refuses naming the missing `--key`.
pub fn required<T>(value: Option<T>, key: &str) -> (r: Result<T, String>)
    ensures
        match value {
            Some(v) => r == Ok::<T, String>(v),
            None => r matches Err(e) && e@ == missing_arg(key@),
        },
{
    match value {
        Some(v) => Ok(v),
        None => Err(concat2("missing required --", key)),
    }
}

/// The governance blueprint printed by the `blueprint` command.
pub open spec fn blueprint_text() -> Seq<char> {
    "NebulaStore 协议治理蓝图（2026）
- 热路径加速：边缘索引 + 区域热缓存，目标亚秒级访问。
- 成本可预测：法币锚定 + 锁价窗口 + 波动缓冲池。
- 可用性保障：7 副本 + 动态纠删码 + 主动修复阈值。
- 异构节点治理：健康评分调度 + 故障切换 + 热点迁移。
- 体验优化：统一 CLI/HTTP 接口 + 一键上传网关 + gas 代付。
- 合规能力：客户端加密 + 区域 pinning + 审计轨迹。
- 部署策略：NebulaStore 主网络覆盖冷热分层数据。"@
}

/// The governance blueprint text.
pub fn blueprint() -> (s: &'static str)
    ensures
        s@ == blueprint_text(),
{
    "NebulaStore 协议治理蓝图（2026）
- 热路径加速：边缘索引 + 区域热缓存，目标亚秒级访问。
- 成本可预测：法币锚定 + 锁价窗口 + 波动缓冲池。
- 可用性保障：7 副本 + 动态纠删码 + 主动修复阈值。
- 异构节点治理：健康评分调度 + 故障切换 + 热点迁移。
- 体验优化：统一 CLI/HTTP 接口 + 一键上传网关 + gas 代付。
- 合规能力：客户端加密 + 区域 pinning + 审计轨迹。
- 部署策略：NebulaStore 主网络覆盖冷热分层数据。"
}

// ---------------------------------------------------------------------------
// Peers
// ---------------------------------------------------------------------------

/// A peer address trimmed of white space and of trailing slashes.
pub open spec fn clean_peer(p: Seq<char>) -> Seq<char> {
    trim_end_char(trim(p), '/')
}

/// The cleaned, non-empty peer addresses, in order.
pub open spec fn clean_peers(raw: Seq<Seq<char>>) -> Seq<Seq<char>>
    decreases raw.len(),
{
    if raw.len() == 0 {
        Seq::empty()
    } else {
        let rest = clean_peers(raw.drop_last());
        let p = clean_peer(raw.last());
        if p.len() > 0 {
            rest.push(p)
        } else {
            rest
        }
    }
}

/// The views of a list of strings.
pub open spec fn string_views(v: Seq<String>) -> Seq<Seq<char>> {
    v.map_values(|s: String| s@)
}

/// Normalizes the peer list: trims each address, drops trailing slashes,
/// and leaves out empty entries.
pub fn sanitize_peers(raw: Vec<String>) -> (r: Vec<String>)
    ensures
        string_views(r@) == clean_peers(string_views(raw@)),
{
    let mut out: Vec<String> = Vec::new();
    let mut i: usize = 0;
    while i < raw.len()
        invariant
            i <= raw@.len(),
            string_views(out@) == clean_peers(string_views(raw@.take(i as int))),
        decreases raw.len() - i,
    {
        let c = chars_of(raw[i].as_str());
        let t = trim_exec(c.as_slice());
        let p = trim_end_char_exec(t.as_slice(), '/');
        proof {
            assert(string_views(raw@.take(i + 1)).drop_last() == string_views(raw@.take(i as int)));
            assert(string_views(raw@.take(i + 1)).last() == raw@[i as int]@);
        }
        if p.len() > 0 {
            let s = string_from_chars(p.as_slice());
            out.push(s);
            assert(string_views(out@) == string_views(out@.drop_last()).push(p@));
        }
        i = i + 1;
    }
    assert(raw@.take(raw.len() as int) == raw@);
    out
}

// ---------------------------------------------------------------------------
// The `domain` command
// ---------------------------------------------------------------------------

/// Actions of the `domain` command.
#[derive(Clone, Copy, Debug, PartialEq, Eq, Structural)]
pub enum DomainAction {
    Register,
    Resolve,
    List,
    Renew,
    Delete,
}

/// What the `domain` command has left to do after its checks.
pub enum DomainOutcome {
    /// The snapshot changed: save it, then print the message.
    Saved(String),
    /// Print the resolution of this domain.
    Resolve(String),
    /// Print the listing of all domains.
    List,
}

/// The first missing argument among the arguments an action needs, in the
/// order the action reads them.
pub open spec fn first_missing(
    action: DomainAction,
    owner: bool,
    domain: bool,
    deployment: bool,
    ttl: bool,
) -> Option<Seq<char>> {
    match action {
        DomainAction::Register => if !owner {
            Some("owner"@)
        } else if !domain {
            Some("domain"@)
        } else if !deployment {
            Some("deployment"@)
        } else if !ttl {
            Some("ttl"@)
        } else {
            None
        },
        DomainAction::Resolve => if !domain {
            Some("domain"@)
        } else {
            None
        },
        DomainAction::List => None,
        DomainAction::Renew => if !owner {
            Some("owner"@)
        } else if !domain {
            Some("domain"@)
        } else if !ttl {
            Some("ttl"@)
        } else {
            None
        },
        DomainAction::Delete => if !owner {
            Some("owner"@)
        } else if !domain {
            Some("domain"@)
        } else {
            None
        },
    }
}

/// Runs the checks and the state change of a `domain` command. Register,
/// renew and delete change the snapshot (the caller then saves it); resolve
/// and list read it.
pub fn run_domain(
    snapshot: &mut StateSnapshot,
    action: DomainAction,
    owner: Option<String>,
    domain: Option<String>,
    deployment: Option<String>,
    ttl: Option<u64>,
    data_id: Option<String>,
) -> (r: Result<DomainOutcome, String>)
    requires
        action == DomainAction::Register ==> data_id is Some,
    ensures
        first_missing(action, owner is Some, domain is Some, deployment is Some, ttl is Some) matches Some(
            k,
        ) ==> r matches Err(e) && e@ == missing_arg(k) && *final(snapshot) == *old(snapshot),
        first_missing(action, owner is Some, domain is Some, deployment is Some, ttl is Some) is None
            ==> match action {
            DomainAction::Register => match r {
                Ok(DomainOutcome::Saved(m)) => register_error(
                    old(snapshot).domains@,
                    domain->0@,
                    ttl->0,
                ) is None && final(snapshot).domains@ == old(snapshot).domains@.insert(
                    domain->0@,
                    final(snapshot).domains@[domain->0@],
                ) && is_registered_record(
                    final(snapshot).domains@[domain->0@],
                    owner->0@,
                    domain->0@,
                    deployment->0@,
                    ttl->0,
                    final(snapshot).updated_at,
                    data_id->0@,
                ) && m@ == register_message(owner->0@, domain->0@, deployment->0@, ttl->0),
                Err(e) => register_error(old(snapshot).domains@, domain->0@, ttl->0) == Some(e@)
                    && *final(snapshot) == *old(snapshot),
                _ => false,
            },
            DomainAction::Renew => match r {
                Ok(DomainOutcome::Saved(m)) => renew_error(
                    old(snapshot).domains@,
                    owner->0@,
                    domain->0@,
                    ttl->0,
                ) is None && final(snapshot).domains@ == old(snapshot).domains@.insert(
                    domain->0@,
                    renewed_record(
                        old(snapshot).domains@[domain->0@],
                        final(snapshot).updated_at,
                        ttl->0,
                    ),
                ) && m@ == renew_message(
                    owner->0@,
                    domain->0@,
                    renewed_expiry(
                        old(snapshot).domains@[domain->0@].expires_at,
                        final(snapshot).updated_at,
                        ttl->0,
                    ),
                ),
                Err(e) => renew_error(old(snapshot).domains@, owner->0@, domain->0@, ttl->0)
                    == Some(e@) && *final(snapshot) == *old(snapshot),
                _ => false,
            },
            DomainAction::Delete => match r {
                Ok(DomainOutcome::Saved(m)) => delete_error(
                    old(snapshot).domains@,
                    owner->0@,
                    domain->0@,
                ) is None && final(snapshot).domains@ == old(snapshot).domains@.remove(domain->0@)
                    && m@ == delete_message(owner->0@, domain->0@),
                Err(e) => delete_error(old(snapshot).domains@, owner->0@, domain->0@) == Some(e@)
                    && *final(snapshot) == *old(snapshot),
                _ => false,
            },
            DomainAction::Resolve => r matches Ok(DomainOutcome::Resolve(d)) && d == domain->0
                && *final(snapshot) == *old(snapshot),
            DomainAction::List => r matches Ok(DomainOutcome::List) && *final(snapshot) == *old(
                snapshot,
            ),
        },
{
    match action {
        DomainAction::Register => {
            let owner = required(owner, "owner")?;
            let domain = required(domain, "domain")?;
            let deployment = required(deployment, "deployment")?;
            let ttl = required(ttl, "ttl")?;
            let data_id = match data_id {
                Some(d) => d,
                None => String::new(),
            };
            let m = register(
                snapshot,
                owner.as_str(),
                domain.as_str(),
                deployment.as_str(),
                ttl,
                data_id,
            )?;
            Ok(DomainOutcome::Saved(m))
        },
        DomainAction::Resolve => {
            let domain = required(domain, "domain")?;
            Ok(DomainOutcome::Resolve(domain))
        },
        DomainAction::List => Ok(DomainOutcome::List),
        DomainAction::Renew => {
            let owner = required(owner, "owner")?;
            let domain = required(domain, "domain")?;
            let ttl = required(ttl, "ttl")?;
            let m = renew(snapshot, owner.as_str(), domain.as_str(), ttl)?;
            Ok(DomainOutcome::Saved(m))
        },
        DomainAction::Delete => {
            let owner = required(owner, "owner")?;
            let domain = required(domain, "domain")?;
            let m = delete(snapshot, owner.as_str(), domain.as_str())?;
            Ok(DomainOutcome::Saved(m))
        },
    }
}

} // verus!
