use vstd::prelude::*;
use vstd::string::StringExecFns;
use crate::model::{Policy, PolicyAction, PolicyType};
use crate::policy::{is_app_rule, is_block};
use crate::hosts::{rewrite_hosts, rewritten_hosts};
use crate::text::{chars_of, contains_folded, decimal, decimal_of, lower_of, seq_contains, string_of};

verus! {

/// A process the agent sees running.
pub struct RunningProcess {
    pub pid: u32,
    pub name: String,
    pub exe_path: String,
}

/// A process the agent is to terminate, and the reason it gives.
pub struct Termination {
    pub pid: u32,
    pub process_name: String,
    pub reason: String,
}

/// The local record of one blocked application.
pub struct BlockedApp {
    pub timestamp: u64,
    pub app_name: String,
    pub pid: u32,
    pub reason: String,
}

/// A message shown to the user.
pub struct Notification {
    pub title: String,
    pub body: String,
}

/// What one enforcement cycle did with the terminations it attempted.
pub struct EnforcementRecord {
    pub blocked_count: usize,
    /// One local audit entry per process terminated.
    pub audit: Vec<BlockedApp>,
    /// One notification per process terminated.
    pub notifications: Vec<Notification>,
}

/// Policy `p` asks for process `q` to be terminated: it is an enabled block rule on
/// applications or processes whose target, case-folded, occurs in the process's
/// case-folded name or executable path.
pub open spec fn blocks(p: Policy, q: RunningProcess) -> bool {
    &&& p.enabled
    &&& is_block(p)
    &&& is_app_rule(p)
    &&& (seq_contains(lower_of(q.name@), lower_of(p.target@)) || seq_contains(
        lower_of(q.exe_path@),
        lower_of(p.target@),
    ))
}

pub open spec fn termination_for(p: Policy, q: RunningProcess) -> Termination {
    Termination { pid: q.pid, process_name: q.name, reason: p.reason }
}

/// The terminations policy `p` asks for, in process order.
pub open spec fn plan_for(p: Policy, qs: Seq<RunningProcess>) -> Seq<Termination>
    decreases qs.len(),
{
    if qs.len() == 0 {
        Seq::<Termination>::empty()
    } else {
        let rest = plan_for(p, qs.drop_last());
        if blocks(p, qs.last()) {
            rest.push(termination_for(p, qs.last()))
        } else {
            rest
        }
    }
}

/// The terminations all policies ask for, policy by policy.
pub open spec fn plan(ps: Seq<Policy>, qs: Seq<RunningProcess>) -> Seq<Termination>
    decreases ps.len(),
{
    if ps.len() == 0 {
        Seq::<Termination>::empty()
    } else {
        plan(ps.drop_last(), qs) + plan_for(ps.last(), qs)
    }
}

/// Whether policy `p` asks for process `q` to be terminated.
pub fn process_blocked_by(p: &Policy, q: &RunningProcess) -> (r: bool)
    ensures
        r == blocks(*p, *q),
{
    if !p.enabled || p.action != PolicyAction::Block {
        return false;
    }
    if p.policy_type != PolicyType::Application && p.policy_type != PolicyType::Process {
        return false;
    }
    contains_folded(q.name.as_str(), p.target.as_str()) || contains_folded(
        q.exe_path.as_str(),
        p.target.as_str(),
    )
}

/// Every termination the policies ask for: each enabled block rule on
/// applications is held against every running process. Nothing is suppressed
/// across cycles: the plan depends on its two arguments alone.
pub fn plan_app_enforcement(policies: &Vec<Policy>, processes: &Vec<RunningProcess>) -> (r: Vec<
    Termination,
>)
    ensures
        r@ == plan(policies@, processes@),
{
    let mut out: Vec<Termination> = Vec::new();
    let mut i: usize = 0;
    while i < policies.len()
        invariant
            i <= policies@.len(),
            out@ == plan(policies@.subrange(0, i as int), processes@),
        decreases policies@.len() - i,
    {
        let p = &policies[i];
        let ghost base = out@;
        let mut j: usize = 0;
        while j < processes.len()
            invariant
                i < policies@.len(),
                *p == policies@[i as int],
                j <= processes@.len(),
                out@ == base + plan_for(*p, processes@.subrange(0, j as int)),
            decreases processes@.len() - j,
        {
            let q = &processes[j];
            proof {
                let s1 = processes@.subrange(0, j + 1);
                assert(s1.drop_last() =~= processes@.subrange(0, j as int));
                assert(s1.last() == *q);
            }
            if process_blocked_by(p, q) {
                let ghost before = out@;
                out.push(Termination { pid: q.pid, process_name: q.name.clone(), reason: p.reason.clone() });
                assert(out@ =~= before.push(termination_for(*p, *q)));
                assert(base + plan_for(*p, processes@.subrange(0, j + 1)) =~= (base + plan_for(
                    *p,
                    processes@.subrange(0, j as int),
                )).push(termination_for(*p, *q)));
            }
            j = j + 1;
        }
        proof {
            assert(processes@.subrange(0, processes@.len() as int) =~= processes@);
            let s1 = policies@.subrange(0, i + 1);
            assert(s1.drop_last() =~= policies@.subrange(0, i as int));
            assert(s1.last() == *p);
        }
        i = i + 1;
    }
    assert(policies@.subrange(0, policies@.len() as int) =~= policies@);
    out
}

/// The terminations that succeeded, in order.
pub open spec fn succeeded(ts: Seq<Termination>, oks: Seq<bool>) -> Seq<Termination>
    decreases ts.len(),
{
    if ts.len() == 0 || oks.len() != ts.len() {
        Seq::<Termination>::empty()
    } else {
        let rest = succeeded(ts.drop_last(), oks.drop_last());
        if oks.last() {
            rest.push(ts.last())
        } else {
            rest
        }
    }
}

pub open spec fn blocked_reflects(b: BlockedApp, t: Termination, now: u64) -> bool {
    &&& b.timestamp == now
    &&& b.app_name@ == t.process_name@
    &&& b.pid == t.pid
    &&& b.reason@ == t.reason@
}

/// The body of the notification for a blocked application.
pub open spec fn blocked_message(app: Seq<char>, reason: Seq<char>) -> Seq<char> {
    app + " foi bloqueada.\nRazão: "@ + reason
}

pub open spec fn notification_reflects(n: Notification, t: Termination) -> bool {
    &&& n.title@ == "⛔ Aplicação Bloqueada"@
    &&& n.body@ == blocked_message(t.process_name@, t.reason@)
}

/// The notification for one blocked application.
pub fn blocked_app_notification(app_name: &str, reason: &str) -> (r: Notification)
    ensures
        r.title@ == "⛔ Aplicação Bloqueada"@,
        r.body@ == blocked_message(app_name@, reason@),
{
    let mut body = String::from_str(app_name);
    body.append(" foi bloqueada.\nRazão: ");
    body.append(reason);
    Notification { title: String::from_str("⛔ Aplicação Bloqueada"), body }
}

/// Records the outcome of the attempted terminations: each success gives
/// exactly one audit entry and one notification; a failure gives neither and
/// does not stop the others.
pub fn record_enforcement(plan: &Vec<Termination>, oks: &Vec<bool>, now: u64) -> (r: EnforcementRecord)
    requires
        plan@.len() == oks@.len(),
    ensures
        r.blocked_count == succeeded(plan@, oks@).len(),
        r.audit@.len() == succeeded(plan@, oks@).len(),
        r.notifications@.len() == succeeded(plan@, oks@).len(),
        forall|i: int|
            0 <= i < r.audit@.len() ==> blocked_reflects(#[trigger] r.audit@[i], succeeded(plan@, oks@)[i], now),
        forall|i: int|
            0 <= i < r.notifications@.len() ==> notification_reflects(
                #[trigger] r.notifications@[i],
                succeeded(plan@, oks@)[i],
            ),
{
    let mut audit: Vec<BlockedApp> = Vec::new();
    let mut notifications: Vec<Notification> = Vec::new();
    let mut i: usize = 0;
    while i < plan.len()
        invariant
            plan@.len() == oks@.len(),
            i <= plan@.len(),
            audit@.len() == succeeded(plan@.subrange(0, i as int), oks@.subrange(0, i as int)).len(),
            notifications@.len() == audit@.len(),
            forall|k: int|
                0 <= k < audit@.len() ==> blocked_reflects(
                    #[trigger] audit@[k],
                    succeeded(plan@.subrange(0, i as int), oks@.subrange(0, i as int))[k],
                    now,
                ),
            forall|k: int|
                0 <= k < notifications@.len() ==> notification_reflects(
                    #[trigger] notifications@[k],
                    succeeded(plan@.subrange(0, i as int), oks@.subrange(0, i as int))[k],
                ),
        decreases plan@.len() - i,
    {
        proof {
            let t1 = plan@.subrange(0, i + 1);
            let o1 = oks@.subrange(0, i + 1);
            assert(t1.drop_last() =~= plan@.subrange(0, i as int));
            assert(o1.drop_last() =~= oks@.subrange(0, i as int));
            assert(t1.last() == plan@[i as int]);
            assert(o1.last() == oks@[i as int]);
        }
        if oks[i] {
            let t = &plan[i];
            audit.push(
                BlockedApp {
                    timestamp: now,
                    app_name: t.process_name.clone(),
                    pid: t.pid,
                    reason: t.reason.clone(),
                },
            );
            notifications.push(blocked_app_notification(t.process_name.as_str(), t.reason.as_str()));
        }
        i = i + 1;
    }
    assert(plan@.subrange(0, plan@.len() as int) =~= plan@);
    assert(oks@.subrange(0, oks@.len() as int) =~= oks@);
    EnforcementRecord { blocked_count: audit.len(), audit, notifications }
}

/// `t` is the termination policy `p` asks for on some running process of `qs`.
pub open spec fn from_blocked_process(t: Termination, p: Policy, qs: Seq<RunningProcess>) -> bool {
    exists|j: int| 0 <= j < qs.len() && blocks(p, qs[j]) && t == termination_for(p, qs[j])
}

/// `t` is the termination some policy of `ps` asks for on some running process of `qs`.
pub open spec fn from_blocking_policy(t: Termination, ps: Seq<Policy>, qs: Seq<RunningProcess>) -> bool {
    exists|i: int| 0 <= i < ps.len() && from_blocked_process(t, ps[i], qs)
}

/// Each termination policy `p` asks for targets a running process it blocks.
pub proof fn lemma_plan_for_members(p: Policy, qs: Seq<RunningProcess>)
    ensures
        forall|k: int| 0 <= k < plan_for(p, qs).len() ==> from_blocked_process(#[trigger] plan_for(p, qs)[k], p, qs),
    decreases qs.len(),
{
    if qs.len() > 0 {
        let init = qs.drop_last();
        let rest = plan_for(p, init);
        lemma_plan_for_members(p, init);
        assert forall|k: int| 0 <= k < plan_for(p, qs).len() implies from_blocked_process(
            #[trigger] plan_for(p, qs)[k],
            p,
            qs,
        ) by {
            if k < rest.len() {
                assert(plan_for(p, qs)[k] == rest[k]);
                assert(from_blocked_process(rest[k], p, init));
                let j = choose|j: int|
                    0 <= j < init.len() && blocks(p, init[j]) && rest[k] == termination_for(p, init[j]);
                assert(qs[j] == init[j]);
            } else {
                let j = qs.len() - 1;
                assert(qs[j] == qs.last());
            }
        }
    }
}

/// Each planned termination targets a running process that some policy blocks.
pub proof fn lemma_plan_members(ps: Seq<Policy>, qs: Seq<RunningProcess>)
    ensures
        forall|k: int| 0 <= k < plan(ps, qs).len() ==> from_blocking_policy(#[trigger] plan(ps, qs)[k], ps, qs),
    decreases ps.len(),
{
    if ps.len() > 0 {
        let init = ps.drop_last();
        let p = ps.last();
        lemma_plan_members(init, qs);
        lemma_plan_for_members(p, qs);
        let a = plan(init, qs);
        let b = plan_for(p, qs);
        assert forall|k: int| 0 <= k < plan(ps, qs).len() implies from_blocking_policy(
            #[trigger] plan(ps, qs)[k],
            ps,
            qs,
        ) by {
            if k < a.len() {
                assert(plan(ps, qs)[k] == a[k]);
                assert(from_blocking_policy(a[k], init, qs));
                let i = choose|i: int| 0 <= i < init.len() && from_blocked_process(a[k], init[i], qs);
                assert(ps[i] == init[i]);
            } else {
                assert(plan(ps, qs)[k] == b[k - a.len()]);
                assert(from_blocked_process(b[k - a.len()], p, qs));
                assert(ps[ps.len() - 1] == p);
            }
        }
    }
}

/// A running process that no policy blocks is never the source of a planned
/// termination: any planned termination carrying its id comes from a different
/// running process that shares the id and that some policy blocks.
pub proof fn lemma_unmatched_not_targeted(ps: Seq<Policy>, qs: Seq<RunningProcess>, q: RunningProcess)
    requires
        forall|i: int| 0 <= i < ps.len() ==> !blocks(#[trigger] ps[i], q),
    ensures
        forall|k: int|
            0 <= k < plan(ps, qs).len() && (#[trigger] plan(ps, qs)[k]).pid == q.pid ==> exists|i: int, j: int|
                0 <= i < ps.len() && 0 <= j < qs.len() && qs[j] != q && qs[j].pid == q.pid && blocks(ps[i], qs[j]),
{
    lemma_plan_members(ps, qs);
    assert forall|k: int|
        0 <= k < plan(ps, qs).len() && (#[trigger] plan(ps, qs)[k]).pid == q.pid implies exists|i: int, j: int|
        0 <= i < ps.len() && 0 <= j < qs.len() && qs[j] != q && qs[j].pid == q.pid && blocks(ps[i], qs[j]) by {
        let t = plan(ps, qs)[k];
        assert(from_blocking_policy(t, ps, qs));
        let i = choose|i: int| 0 <= i < ps.len() && from_blocked_process(t, ps[i], qs);
        let j = choose|j: int| 0 <= j < qs.len() && blocks(ps[i], qs[j]) && t == termination_for(ps[i], qs[j]);
        if qs[j] == q {
            assert(!blocks(ps[i], q));
        }
    }
}

/// A running process that no policy blocks is left alone: when process ids are
/// distinct, no planned termination carries its id.
pub proof fn lemma_unmatched_untouched(ps: Seq<Policy>, qs: Seq<RunningProcess>, q: RunningProcess)
    requires
        qs.contains(q),
        forall|i: int| 0 <= i < ps.len() ==> !blocks(#[trigger] ps[i], q),
        forall|j: int| 0 <= j < qs.len() && (#[trigger] qs[j]).pid == q.pid ==> qs[j] == q,
    ensures
        forall|k: int| 0 <= k < plan(ps, qs).len() ==> (#[trigger] plan(ps, qs)[k]).pid != q.pid,
{
    lemma_plan_members(ps, qs);
    assert forall|k: int| 0 <= k < plan(ps, qs).len() implies (#[trigger] plan(ps, qs)[k]).pid != q.pid by {
        let t = plan(ps, qs)[k];
        assert(from_blocking_policy(t, ps, qs));
        let i = choose|i: int| 0 <= i < ps.len() && from_blocked_process(t, ps[i], qs);
        let j = choose|j: int| 0 <= j < qs.len() && blocks(ps[i], qs[j]) && t == termination_for(ps[i], qs[j]);
        if qs[j].pid == q.pid {
            assert(qs[j] == q);
            assert(!blocks(ps[i], q));
        }
    }
}

/// The summary shown after a cycle that blocked `count` applications.
pub open spec fn summary_body(count: nat) -> Seq<char> {
    if count == 1 {
        "1 aplicação foi bloqueada pelo administrador."@
    } else {
        decimal_of(count) + " aplicações foram bloqueadas pelo administrador."@
    }
}

/// The summary notification for a cycle: none when nothing was blocked.
pub fn notify_blocked_apps(count: usize) -> (r: Option<Notification>)
    ensures
        count == 0 <==> r.is_none(),
        r matches Some(n) ==> n.title@ == "🛡️ AssetScan"@ && n.body@ == summary_body(count as nat),
{
    if count == 0 {
        return None;
    }
    let body = if count == 1 {
        String::from_str("1 aplicação foi bloqueada pelo administrador.")
    } else {
        let mut b = decimal(count as u64);
        b.append(" aplicações foram bloqueadas pelo administrador.");
        b
    };
    Some(Notification { title: String::from_str("🛡️ AssetScan"), body })
}

/// What one enforcement cycle is to do: terminate processes and write the
/// hosts file.
pub struct EnforcementPlan {
    pub terminations: Vec<Termination>,
    pub hosts_content: String,
}

/// One enforcement cycle, decided from the full policy set, the running
/// processes and the current hosts file; nothing carries over between cycles.
pub fn enforce_policies(policies: &Vec<Policy>, processes: &Vec<RunningProcess>, hosts_file: &str) -> (r:
    EnforcementPlan)
    ensures
        r.terminations@ == plan(policies@, processes@),
        r.hosts_content@ == rewritten_hosts(hosts_file@, policies@),
{
    EnforcementPlan {
        terminations: plan_app_enforcement(policies, processes),
        hosts_content: rewrite_hosts(hosts_file, policies),
    }
}

/// The escape of one character in XML text.
pub open spec fn xml_char(c: char) -> Seq<char> {
    if c == '&' {
        "&amp;"@
    } else if c == '<' {
        "&lt;"@
    } else if c == '>' {
        "&gt;"@
    } else if c == '"' {
        "&quot;"@
    } else if c == '\'' {
        "&apos;"@
    } else {
        seq![c]
    }
}

/// `s` with the five XML special characters escaped.
pub open spec fn xml_escaped(s: Seq<char>) -> Seq<char>
    decreases s.len(),
{
    if s.len() == 0 {
        Seq::<char>::empty()
    } else {
        xml_escaped(s.drop_last()) + xml_char(s.last())
    }
}

/// Escapes `&`, `<`, `>`, `"` and `'` for use in XML text.
pub fn escape_xml(s: &str) -> (r: String)
    ensures
        r@ == xml_escaped(s@),
{
    let cs = chars_of(s);
    let mut out: Vec<char> = Vec::new();
    let mut i: usize = 0;
    while i < cs.len()
        invariant
            cs@ == s@,
            i <= cs@.len(),
            out@ == xml_escaped(s@.subrange(0, i as int)),
        decreases cs@.len() - i,
    {
        let c = cs[i];
        proof {
            let s1 = s@.subrange(0, i + 1);
            assert(s1.drop_last() =~= s@.subrange(0, i as int));
            assert(s1.last() == c);
        }
        if c == '&' {
            let mut e = chars_of("&amp;");
            out.append(&mut e);
        } else if c == '<' {
            let mut e = chars_of("&lt;");
            out.append(&mut e);
        } else if c == '>' {
            let mut e = chars_of("&gt;");
            out.append(&mut e);
        } else if c == '"' {
            let mut e = chars_of("&quot;");
            out.append(&mut e);
        } else if c == '\'' {
            let mut e = chars_of("&apos;");
            out.append(&mut e);
        } else {
            let ghost before = out@;
            out.push(c);
            assert(out@ =~= before + seq![c]);
        }
        i = i + 1;
    }
    assert(s@.subrange(0, s@.len() as int) =~= s@);
    string_of(&out)
}

} // verus!
