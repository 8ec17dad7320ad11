//! The chain of command derived each tick: project managers recognised by
//! their short names, workers assigned to them through the persistent
//! parent map, the grid grouping, and the flat pre-ordered tree that paints
//! the hierarchy. Everything here is a pure function of the reconciled
//! agents, the parent map, and the configured prefix.

use vstd::prelude::*;

use crate::health::{HealthInfo, HealthState};
use crate::names::{display_name, is_pm_name, is_pm_session, short_spec};
use crate::session::Session;
use crate::spec_manager_session;
use crate::text::{str_eq, str_starts_with, strip_prefix_str};

verus! {

/// One reconciled agent: its session, its health, and the detailed record
/// behind it.
pub struct AgentInfo {
    pub session: Session,
    pub health: HealthState,
    pub health_info: HealthInfo,
}

impl Clone for AgentInfo {
    fn clone(&self) -> (r: Self)
        ensures
            r == *self,
    {
        AgentInfo {
            session: self.session.clone(),
            health: self.health,
            health_info: self.health_info.clone(),
        }
    }
}

/// No two agents share a session name. Session names are unique within a
/// multiplexer server, so every reconciled view satisfies this.
pub open spec fn distinct_names(agents: Seq<AgentInfo>) -> bool {
    forall|i: int, j: int|
        0 <= i < j < agents.len() ==> agents[i].session.name@ != agents[j].session.name@
}

/// The project-manager test on an agent, as a value for `filter`.
pub open spec fn pm_pred(prefix: Seq<char>) -> spec_fn(AgentInfo) -> bool {
    |a: AgentInfo| is_pm_name(prefix, a.session.name@)
}

/// The project managers among the agents, in their listed order.
pub open spec fn pms_of(agents: Seq<AgentInfo>, prefix: Seq<char>) -> Seq<AgentInfo> {
    agents.filter(pm_pred(prefix))
}

/// The parent recorded for a child session: the first entry with that
/// child, if any.
pub open spec fn lookup_spec(parents: Seq<(String, String)>, child: Seq<char>) -> Option<Seq<char>>
    decreases parents.len(),
{
    if parents.len() == 0 {
        None
    } else if parents[0].0@ == child {
        Some(parents[0].1@)
    } else {
        lookup_spec(parents.skip(1), child)
    }
}

/// Whether a live project manager carries this session name.
pub open spec fn has_pm_named(agents: Seq<AgentInfo>, prefix: Seq<char>, name: Seq<char>) -> bool {
    exists|i: int|
        0 <= i < agents.len() && is_pm_name(prefix, (#[trigger] agents[i]).session.name@)
            && agents[i].session.name@ == name
}

/// The membership test for one project manager's workers, as a value for
/// `filter`: a non-manager whose recorded parent is that manager.
pub open spec fn worker_pred(
    prefix: Seq<char>,
    parents: Seq<(String, String)>,
    pm_name: Seq<char>,
) -> spec_fn(AgentInfo) -> bool {
    |a: AgentInfo|
        !is_pm_name(prefix, a.session.name@) && lookup_spec(parents, a.session.name@) == Some(
            pm_name,
        )
}

/// The workers grouped under the named project manager, in listed order.
pub open spec fn workers_of(
    agents: Seq<AgentInfo>,
    prefix: Seq<char>,
    parents: Seq<(String, String)>,
    pm_name: Seq<char>,
) -> Seq<AgentInfo> {
    agents.filter(worker_pred(prefix, parents, pm_name))
}

/// The orphan test, as a value for `filter`: a non-manager with no
/// recorded parent, or one whose recorded parent is not a live project
/// manager.
pub open spec fn orphan_pred(
    agents: Seq<AgentInfo>,
    prefix: Seq<char>,
    parents: Seq<(String, String)>,
) -> spec_fn(AgentInfo) -> bool {
    |a: AgentInfo|
        !is_pm_name(prefix, a.session.name@) && (match lookup_spec(parents, a.session.name@) {
            None => true,
            Some(p) => !has_pm_named(agents, prefix, p),
        })
}

/// The unassigned workers, in listed order.
pub open spec fn orphans_of(
    agents: Seq<AgentInfo>,
    prefix: Seq<char>,
    parents: Seq<(String, String)>,
) -> Seq<AgentInfo> {
    agents.filter(orphan_pred(agents, prefix, parents))
}

/// Looks a child's recorded parent up in the parent map.
pub fn lookup_parent(parents: &Vec<(String, String)>, child: &str) -> (r: Option<String>)
    ensures
        match r {
            Some(p) => lookup_spec(parents@, child@) == Some(p@),
            None => lookup_spec(parents@, child@) is None,
        },
{
    let mut i: usize = 0;
    proof {
        assert(parents@.skip(0) =~= parents@);
    }
    while i < parents.len()
        invariant
            i <= parents@.len(),
            lookup_spec(parents@, child@) == lookup_spec(parents@.skip(i as int), child@),
        decreases parents@.len() - i,
    {
        proof {
            assert(parents@.skip(i as int)[0] == parents@[i as int]);
            assert(parents@.skip(i as int).skip(1) =~= parents@.skip(i + 1));
        }
        if str_eq(parents[i].0.as_str(), child) {
            return Some(parents[i].1.clone());
        }
        i = i + 1;
    }
    proof {
        assert(parents@.skip(parents@.len() as int).len() == 0);
    }
    None
}

/// Whether some live agent is a project manager with this session name.
pub fn has_pm_session(agents: &Vec<AgentInfo>, prefix: &str, name: &str) -> (r: bool)
    ensures
        r == has_pm_named(agents@, prefix@, name@),
{
    let mut i: usize = 0;
    while i < agents.len()
        invariant
            i <= agents@.len(),
            forall|j: int|
                0 <= j < i ==> !(is_pm_name(prefix@, (#[trigger] agents@[j]).session.name@)
                    && agents@[j].session.name@ == name@),
        decreases agents@.len() - i,
    {
        if is_pm_session(prefix, agents[i].session.name.as_str()) && str_eq(
            agents[i].session.name.as_str(),
            name,
        ) {
            return true;
        }
        i = i + 1;
    }
    false
}

/// Collects the project managers among the agents.
pub fn collect_pms(agents: &Vec<AgentInfo>, prefix: &str) -> (r: Vec<AgentInfo>)
    ensures
        r@ == pms_of(agents@, prefix@),
{
    broadcast use vstd::seq_lib::group_filter_ensures;

    let ghost p = pm_pred(prefix@);
    let mut r: Vec<AgentInfo> = Vec::new();
    let mut i: usize = 0;
    proof {
        assert(agents@.take(0).filter(p) =~= Seq::<AgentInfo>::empty());
    }
    while i < agents.len()
        invariant
            i <= agents@.len(),
            p == pm_pred(prefix@),
            r@ == agents@.take(i as int).filter(p),
        decreases agents@.len() - i,
    {
        proof {
            assert(agents@.take(i + 1).drop_last() =~= agents@.take(i as int));
            assert(agents@.take(i + 1).last() == agents@[i as int]);
            agents@.take(i as int).lemma_filter_push(agents@[i as int], p);
            assert(agents@.take(i as int).push(agents@[i as int]) =~= agents@.take(i + 1));
        }
        if is_pm_session(prefix, agents[i].session.name.as_str()) {
            r.push(agents[i].clone());
        }
        i = i + 1;
    }
    proof {
        assert(agents@.take(agents@.len() as int) =~= agents@);
    }
    r
}

/// Collects the workers recorded under the named project manager.
pub fn collect_workers(
    agents: &Vec<AgentInfo>,
    prefix: &str,
    parents: &Vec<(String, String)>,
    pm_name: &str,
) -> (r: Vec<AgentInfo>)
    ensures
        r@ == workers_of(agents@, prefix@, parents@, pm_name@),
{
    let ghost p = worker_pred(prefix@, parents@, pm_name@);
    let mut r: Vec<AgentInfo> = Vec::new();
    let mut i: usize = 0;
    proof {
        assert(agents@.take(0).filter(p) =~= Seq::<AgentInfo>::empty());
    }
    while i < agents.len()
        invariant
            i <= agents@.len(),
            p == worker_pred(prefix@, parents@, pm_name@),
            r@ == agents@.take(i as int).filter(p),
        decreases agents@.len() - i,
    {
        proof {
            assert(agents@.take(i + 1).drop_last() =~= agents@.take(i as int));
            assert(agents@.take(i + 1).last() == agents@[i as int]);
            agents@.take(i as int).lemma_filter_push(agents@[i as int], p);
            assert(agents@.take(i as int).push(agents@[i as int]) =~= agents@.take(i + 1));
        }
        let is_pm = is_pm_session(prefix, agents[i].session.name.as_str());
        let mut keep = false;
        if !is_pm {
            let parent = lookup_parent(parents, agents[i].session.name.as_str());
            match parent {
                Some(pp) => {
                    keep = str_eq(pp.as_str(), pm_name);
                },
                None => {},
            }
        }
        proof {
            assert(keep == p(agents@[i as int]));
        }
        if keep {
            r.push(agents[i].clone());
        }
        i = i + 1;
    }
    proof {
        assert(agents@.take(agents@.len() as int) =~= agents@);
    }
    r
}

/// Collects the workers with no live project manager above them.
pub fn collect_orphans(
    agents: &Vec<AgentInfo>,
    prefix: &str,
    parents: &Vec<(String, String)>,
) -> (r: Vec<AgentInfo>)
    ensures
        r@ == orphans_of(agents@, prefix@, parents@),
{
    let ghost p = orphan_pred(agents@, prefix@, parents@);
    let mut r: Vec<AgentInfo> = Vec::new();
    let mut i: usize = 0;
    proof {
        assert(agents@.take(0).filter(p) =~= Seq::<AgentInfo>::empty());
    }
    while i < agents.len()
        invariant
            i <= agents@.len(),
            p == orphan_pred(agents@, prefix@, parents@),
            r@ == agents@.take(i as int).filter(p),
        decreases agents@.len() - i,
    {
        proof {
            assert(agents@.take(i + 1).drop_last() =~= agents@.take(i as int));
            assert(agents@.take(i + 1).last() == agents@[i as int]);
            agents@.take(i as int).lemma_filter_push(agents@[i as int], p);
            assert(agents@.take(i as int).push(agents@[i as int]) =~= agents@.take(i + 1));
        }
        let is_pm = is_pm_session(prefix, agents[i].session.name.as_str());
        let mut keep = false;
        if !is_pm {
            let parent = lookup_parent(parents, agents[i].session.name.as_str());
            match parent {
                Some(pp) => {
                    keep = !has_pm_session(agents, prefix, pp.as_str());
                },
                None => {
                    keep = true;
                },
            }
        }
        proof {
            assert(keep == p(agents@[i as int]));
        }
        if keep {
            r.push(agents[i].clone());
        }
        i = i + 1;
    }
    proof {
        assert(agents@.take(agents@.len() as int) =~= agents@);
    }
    r
}

/// A group for the worker grid: one project manager and its workers, or
/// the trailing group of unassigned workers.
pub struct AgentGroup {
    /// The group's manager; absent for the unassigned group.
    pub pm: Option<AgentInfo>,
    /// The workers under this manager, or the unassigned workers.
    pub workers: Vec<AgentInfo>,
}

/// Groups agents into manager-led groups, in manager order, with one
/// trailing unassigned group exactly when orphan workers exist.
pub fn build_agent_groups(
    agents: &Vec<AgentInfo>,
    agent_parents: &Vec<(String, String)>,
    session_prefix: &str,
) -> (groups: Vec<AgentGroup>)
    ensures
        ({
            let pms = pms_of(agents@, session_prefix@);
            let orphs = orphans_of(agents@, session_prefix@, agent_parents@);
            &&& groups@.len() == pms.len() + (if orphs.len() > 0 {
                1int
            } else {
                0
            })
            &&& forall|k: int|
                0 <= k < pms.len() ==> (#[trigger] groups@[k]).pm == Some(pms[k])
                    && groups@[k].workers@ == workers_of(
                    agents@,
                    session_prefix@,
                    agent_parents@,
                    pms[k].session.name@,
                )
            &&& orphs.len() > 0 ==> groups@.last().pm is None && groups@.last().workers@ == orphs
        }),
{
    let ghost pmsg = pms_of(agents@, session_prefix@);
    let pms = collect_pms(agents, session_prefix);
    let mut groups: Vec<AgentGroup> = Vec::new();
    let mut k: usize = 0;
    while k < pms.len()
        invariant
            k <= pms@.len(),
            pms@ == pmsg,
            pmsg == pms_of(agents@, session_prefix@),
            groups@.len() == k,
            forall|k2: int|
                0 <= k2 < k ==> (#[trigger] groups@[k2]).pm == Some(pmsg[k2])
                    && groups@[k2].workers@ == workers_of(
                    agents@,
                    session_prefix@,
                    agent_parents@,
                    pmsg[k2].session.name@,
                ),
        decreases pms@.len() - k,
    {
        let workers = collect_workers(agents, session_prefix, agent_parents, pms[k].session.name.as_str());
        let pm = pms[k].clone();
        groups.push(AgentGroup { pm: Some(pm), workers });
        k = k + 1;
    }
    let orphans = collect_orphans(agents, session_prefix, agent_parents);
    if orphans.len() > 0 {
        groups.push(AgentGroup { pm: None, workers: orphans });
    }
    groups
}

/// A node of the flat, pre-ordered chain-of-command tree.
pub struct CommandTreeNode {
    /// Display name, such as the root agent's title or a short name.
    pub name: String,
    /// Full session name; empty for the synthetic unassigned group.
    pub session_name: String,
    /// Health shown next to the node.
    pub health: HealthState,
    /// 0 for the root, 1 for managers and the unassigned group, 2 for
    /// workers.
    pub depth: usize,
    /// Whether this node is the last child of its parent.
    pub is_last_sibling: bool,
    /// For each ancestor depth, whether that ancestor was its parent's
    /// last child; drives the drawing of continuation lines.
    pub ancestor_is_last: Vec<bool>,
}

/// A tree node as specification values.
pub struct NodeSpec {
    pub name: Seq<char>,
    pub session_name: Seq<char>,
    pub health: HealthState,
    pub depth: int,
    pub is_last: bool,
    pub ancestors: Seq<bool>,
}

impl View for CommandTreeNode {
    type V = NodeSpec;

    open spec fn view(&self) -> NodeSpec {
        NodeSpec {
            name: self.name@,
            session_name: self.session_name@,
            health: self.health,
            depth: self.depth as int,
            is_last: self.is_last_sibling,
            ancestors: self.ancestor_is_last@,
        }
    }
}

/// The root node: the Executive Assistant, carrying the root session's
/// health, always its own last sibling.
pub open spec fn root_node_spec(h: HealthState) -> NodeSpec {
    NodeSpec {
        name: "Executive Assistant"@,
        session_name: spec_manager_session(),
        health: h,
        depth: 0,
        is_last: true,
        ancestors: Seq::<bool>::empty(),
    }
}

/// A manager's display name: its short name behind a title, or the bare
/// short name for a session that is not a manager.
pub open spec fn pm_display_spec(prefix: Seq<char>, name: Seq<char>) -> Seq<char> {
    if is_pm_name(prefix, name) {
        "Project Manager: "@ + short_spec(prefix, name).skip("pm-"@.len() as int)
    } else {
        short_spec(prefix, name)
    }
}

/// A manager node at depth one.
pub open spec fn pm_node_spec(prefix: Seq<char>, pm: AgentInfo, is_last: bool) -> NodeSpec {
    NodeSpec {
        name: pm_display_spec(prefix, pm.session.name@),
        session_name: pm.session.name@,
        health: pm.health,
        depth: 1,
        is_last,
        ancestors: seq![true],
    }
}

/// A worker node at depth two, under a parent that is or is not the last
/// of its own siblings.
pub open spec fn worker_node_spec(
    prefix: Seq<char>,
    w: AgentInfo,
    is_last: bool,
    parent_last: bool,
) -> NodeSpec {
    NodeSpec {
        name: short_spec(prefix, w.session.name@),
        session_name: w.session.name@,
        health: w.health,
        depth: 2,
        is_last,
        ancestors: seq![true, parent_last],
    }
}

/// The synthetic group head under which orphan workers hang.
pub open spec fn unassigned_node_spec() -> NodeSpec {
    NodeSpec {
        name: "Unassigned"@,
        session_name: Seq::<char>::empty(),
        health: HealthState::Idle,
        depth: 1,
        is_last: true,
        ancestors: seq![true],
    }
}

/// The worker nodes for one list of children, each marked last exactly at
/// the final position.
pub open spec fn kids_nodes(prefix: Seq<char>, kids: Seq<AgentInfo>, parent_last: bool) -> Seq<
    NodeSpec,
> {
    kids.map(|j: int, w: AgentInfo| worker_node_spec(prefix, w, j == kids.len() - 1, parent_last))
}

/// One manager's slice of the tree: the manager node followed by its
/// workers.
pub open spec fn pm_block_spec(
    agents: Seq<AgentInfo>,
    prefix: Seq<char>,
    parents: Seq<(String, String)>,
    pm: AgentInfo,
    is_last: bool,
) -> Seq<NodeSpec> {
    seq![pm_node_spec(prefix, pm, is_last)] + kids_nodes(
        prefix,
        workers_of(agents, prefix, parents, pm.session.name@),
        is_last,
    )
}

/// The first `k` manager blocks, in manager order. A manager is the last
/// sibling only when it is the final manager and no orphan group follows.
pub open spec fn pm_blocks_up_to(
    agents: Seq<AgentInfo>,
    prefix: Seq<char>,
    parents: Seq<(String, String)>,
    k: int,
) -> Seq<NodeSpec>
    decreases k,
{
    if k <= 0 {
        Seq::<NodeSpec>::empty()
    } else {
        let pms = pms_of(agents, prefix);
        let has_orph = orphans_of(agents, prefix, parents).len() > 0;
        pm_blocks_up_to(agents, prefix, parents, k - 1) + pm_block_spec(
            agents,
            prefix,
            parents,
            pms[k - 1],
            k == pms.len() && !has_orph,
        )
    }
}

/// The trailing slice for orphan workers: the synthetic group head and the
/// orphans, or nothing when there are none.
pub open spec fn orphan_block_spec(
    agents: Seq<AgentInfo>,
    prefix: Seq<char>,
    parents: Seq<(String, String)>,
) -> Seq<NodeSpec> {
    let orphs = orphans_of(agents, prefix, parents);
    if orphs.len() == 0 {
        Seq::<NodeSpec>::empty()
    } else {
        seq![unassigned_node_spec()] + orphs.map(
            |j: int, w: AgentInfo| worker_node_spec(prefix, w, j == orphs.len() - 1, true),
        )
    }
}

/// The whole tree: the root, every manager block, then the orphan block.
pub open spec fn tree_spec(
    agents: Seq<AgentInfo>,
    prefix: Seq<char>,
    parents: Seq<(String, String)>,
    ea_health: HealthState,
) -> Seq<NodeSpec> {
    seq![root_node_spec(ea_health)] + pm_blocks_up_to(
        agents,
        prefix,
        parents,
        pms_of(agents, prefix).len() as int,
    ) + orphan_block_spec(agents, prefix, parents)
}

/// The root's health in the built tree: the root agent's health when it
/// is live, idle otherwise.
pub open spec fn ea_health_of(manager: Option<&AgentInfo>) -> HealthState {
    match manager {
        Some(m) => m.health,
        None => HealthState::Idle,
    }
}

fn anc0() -> (r: Vec<bool>)
    ensures
        r@ == Seq::<bool>::empty(),
{
    let r: Vec<bool> = Vec::new();
    r
}

fn anc1(a: bool) -> (r: Vec<bool>)
    ensures
        r@ == seq![a],
{
    let mut r: Vec<bool> = Vec::new();
    r.push(a);
    proof {
        assert(r@ =~= seq![a]);
    }
    r
}

fn anc2(a: bool, b: bool) -> (r: Vec<bool>)
    ensures
        r@ == seq![a, b],
{
    let mut r: Vec<bool> = Vec::new();
    r.push(a);
    r.push(b);
    proof {
        assert(r@ =~= seq![a, b]);
    }
    r
}

fn pm_display(prefix: &str, name: &str) -> (r: String)
    ensures
        r@ == pm_display_spec(prefix@, name@),
{
    let short = display_name(prefix, name);
    if str_starts_with(short, "pm-") {
        let rest = strip_prefix_str(short, "pm-");
        let mut r = "Project Manager: ".to_owned();
        r.append(rest);
        r
    } else {
        short.to_owned()
    }
}

fn worker_node(prefix: &str, w: &AgentInfo, is_last: bool, parent_last: bool) -> (r:
    CommandTreeNode)
    ensures
        r@ == worker_node_spec(prefix@, *w, is_last, parent_last),
{
    let short = display_name(prefix, w.session.name.as_str());
    CommandTreeNode {
        name: short.to_owned(),
        session_name: w.session.name.clone(),
        health: w.health,
        depth: 2,
        is_last_sibling: is_last,
        ancestor_is_last: anc2(true, parent_last),
    }
}

/// Builds the flat pre-ordered chain-of-command tree: the root first, then
/// each manager followed by its workers, then — only when orphans exist —
/// the synthetic unassigned group and the orphans.
pub fn build_tree(
    agents: &Vec<AgentInfo>,
    manager: Option<&AgentInfo>,
    agent_parents: &Vec<(String, String)>,
    session_prefix: &str,
) -> (nodes: Vec<CommandTreeNode>)
    ensures
        nodes@.map_values(|n: CommandTreeNode| n@) == tree_spec(
            agents@,
            session_prefix@,
            agent_parents@,
            ea_health_of(manager),
        ),
{
    let ea_health = match manager {
        Some(m) => m.health,
        None => HealthState::Idle,
    };
    let ghost pmsg = pms_of(agents@, session_prefix@);
    let ghost orphsg = orphans_of(agents@, session_prefix@, agent_parents@);
    let mut nodes: Vec<CommandTreeNode> = Vec::new();
    nodes.push(
        CommandTreeNode {
            name: "Executive Assistant".to_owned(),
            session_name: crate::manager_session_name().to_owned(),
            health: ea_health,
            depth: 0,
            is_last_sibling: true,
            ancestor_is_last: anc0(),
        },
    );
    proof {
        assert(nodes@.map_values(|n: CommandTreeNode| n@) =~= seq![root_node_spec(ea_health)]
            + pm_blocks_up_to(agents@, session_prefix@, agent_parents@, 0));
    }
    let pms = collect_pms(agents, session_prefix);
    let orphans = collect_orphans(agents, session_prefix, agent_parents);
    let mut k: usize = 0;
    while k < pms.len()
        invariant
            k <= pms@.len(),
            pms@ == pmsg,
            pmsg == pms_of(agents@, session_prefix@),
            orphans@ == orphsg,
            orphsg == orphans_of(agents@, session_prefix@, agent_parents@),
            nodes@.map_values(|n: CommandTreeNode| n@) == seq![root_node_spec(ea_health)]
                + pm_blocks_up_to(agents@, session_prefix@, agent_parents@, k as int),
        decreases pms@.len() - k,
    {
        let ghost before = nodes@.map_values(|n: CommandTreeNode| n@);
        let is_last = k + 1 == pms.len() && orphans.len() == 0;
        let name = pm_display(session_prefix, pms[k].session.name.as_str());
        nodes.push(
            CommandTreeNode {
                name,
                session_name: pms[k].session.name.clone(),
                health: pms[k].health,
                depth: 1,
                is_last_sibling: is_last,
                ancestor_is_last: anc1(true),
            },
        );
        proof {
            assert(nodes@.map_values(|n: CommandTreeNode| n@) =~= before + seq![
                pm_node_spec(session_prefix@, pmsg[k as int], is_last),
            ]);
        }
        let kids = collect_workers(agents, session_prefix, agent_parents, pms[k].session.name.as_str());
        let ghost kidsg = kids@;
        let ghost knodes = kids_nodes(session_prefix@, kidsg, is_last);
        let mut j: usize = 0;
        proof {
            assert(before + seq![pm_node_spec(session_prefix@, pmsg[k as int], is_last)]
                + knodes.take(0) =~= before + seq![
                pm_node_spec(session_prefix@, pmsg[k as int], is_last),
            ]);
        }
        while j < kids.len()
            invariant
                j <= kids@.len(),
                kids@ == kidsg,
                knodes == kids_nodes(session_prefix@, kidsg, is_last),
                knodes.len() == kidsg.len(),
                nodes@.map_values(|n: CommandTreeNode| n@) == before + seq![
                    pm_node_spec(session_prefix@, pmsg[k as int], is_last),
                ] + knodes.take(j as int),
            decreases kids@.len() - j,
        {
            let ghost mid = nodes@.map_values(|n: CommandTreeNode| n@);
            let kid_is_last = j + 1 == kids.len();
            let node = worker_node(session_prefix, &kids[j], kid_is_last, is_last);
            nodes.push(node);
            j = j + 1;
            proof {
                assert(knodes[j - 1] == worker_node_spec(
                    session_prefix@,
                    kidsg[j - 1],
                    j - 1 == kidsg.len() - 1,
                    is_last,
                ));
                assert(knodes.take(j as int) =~= knodes.take(j - 1).push(knodes[j - 1]));
                assert(nodes@.map_values(|n: CommandTreeNode| n@) =~= mid.push(knodes[j - 1]));
                assert(nodes@.map_values(|n: CommandTreeNode| n@) =~= before + seq![
                    pm_node_spec(session_prefix@, pmsg[k as int], is_last),
                ] + knodes.take(j as int));
            }
        }
        k = k + 1;
        proof {
            assert(knodes.take(kidsg.len() as int) =~= knodes);
            assert(pm_blocks_up_to(agents@, session_prefix@, agent_parents@, k as int)
                == pm_blocks_up_to(agents@, session_prefix@, agent_parents@, k - 1)
                + pm_block_spec(
                agents@,
                session_prefix@,
                agent_parents@,
                pmsg[k - 1],
                k == pmsg.len() && !(orphsg.len() > 0),
            ));
            assert(nodes@.map_values(|n: CommandTreeNode| n@) =~= seq![root_node_spec(ea_health)]
                + pm_blocks_up_to(agents@, session_prefix@, agent_parents@, k as int));
        }
    }
    let ghost preorph = nodes@.map_values(|n: CommandTreeNode| n@);
    if orphans.len() > 0 {
        nodes.push(
            CommandTreeNode {
                name: "Unassigned".to_owned(),
                session_name: String::new(),
                health: HealthState::Idle,
                depth: 1,
                is_last_sibling: true,
                ancestor_is_last: anc1(true),
            },
        );
        proof {
            assert(nodes@.map_values(|n: CommandTreeNode| n@) =~= preorph + seq![
                unassigned_node_spec(),
            ]);
        }
        let ghost onodes = orphsg.map(
            |j: int, w: AgentInfo| worker_node_spec(session_prefix@, w, j == orphsg.len() - 1, true),
        );
        let mut j: usize = 0;
        proof {
            assert(preorph + seq![unassigned_node_spec()] + onodes.take(0) =~= preorph + seq![
                unassigned_node_spec(),
            ]);
        }
        while j < orphans.len()
            invariant
                j <= orphans@.len(),
                orphans@ == orphsg,
                onodes == orphsg.map(
                    |j2: int, w: AgentInfo| worker_node_spec(
                        session_prefix@,
                        w,
                        j2 == orphsg.len() - 1,
                        true,
                    ),
                ),
                onodes.len() == orphsg.len(),
                nodes@.map_values(|n: CommandTreeNode| n@) == preorph + seq![
                    unassigned_node_spec(),
                ] + onodes.take(j as int),
            decreases orphans@.len() - j,
        {
            let ghost mid = nodes@.map_values(|n: CommandTreeNode| n@);
            let orphan_is_last = j + 1 == orphans.len();
            let node = worker_node(session_prefix, &orphans[j], orphan_is_last, true);
            nodes.push(node);
            j = j + 1;
            proof {
                assert(onodes[j - 1] == worker_node_spec(
                    session_prefix@,
                    orphsg[j - 1],
                    j - 1 == orphsg.len() - 1,
                    true,
                ));
                assert(onodes.take(j as int) =~= onodes.take(j - 1).push(onodes[j - 1]));
                assert(nodes@.map_values(|n: CommandTreeNode| n@) =~= mid.push(onodes[j - 1]));
                assert(nodes@.map_values(|n: CommandTreeNode| n@) =~= preorph + seq![
                    unassigned_node_spec(),
                ] + onodes.take(j as int));
            }
        }
        proof {
            assert(onodes.take(orphsg.len() as int) =~= onodes);
            assert(nodes@.map_values(|n: CommandTreeNode| n@) =~= tree_spec(
                agents@,
                session_prefix@,
                agent_parents@,
                ea_health,
            ));
        }
    } else {
        proof {
            assert(orphan_block_spec(agents@, session_prefix@, agent_parents@)
                =~= Seq::<NodeSpec>::empty());
            assert(nodes@.map_values(|n: CommandTreeNode| n@) =~= tree_spec(
                agents@,
                session_prefix@,
                agent_parents@,
                ea_health,
            ));
        }
    }
    nodes
}

proof fn lemma_filter_member<A>(s: Seq<A>, p: spec_fn(A) -> bool, a: A)
    requires
        s.filter(p).contains(a),
    ensures
        s.contains(a),
        p(a),
{
    broadcast use vstd::seq_lib::group_filter_ensures;

    let i = choose|i: int| 0 <= i < s.filter(p).len() && s.filter(p)[i] == a;
    s.lemma_filter_pred(p, i);
    s.lemma_filter_contains_rev(p, a);
}

proof fn lemma_filter_distinct(s: Seq<AgentInfo>, p: spec_fn(AgentInfo) -> bool)
    requires
        distinct_names(s),
    ensures
        distinct_names(s.filter(p)),
    decreases s.len(),
{
    broadcast use vstd::seq_lib::group_filter_ensures;

    reveal(Seq::filter);
    if s.len() > 0 {
        let rest = s.drop_last();
        assert(distinct_names(rest)) by {
            assert(forall|i: int, j: int|
                0 <= i < j < rest.len() ==> rest[i] == s[i] && rest[j] == s[j]);
        }
        lemma_filter_distinct(rest, p);
        if p(s.last()) {
            let f = s.filter(p);
            assert(f == rest.filter(p).push(s.last()));
            assert forall|i: int, j: int| 0 <= i < j < f.len() implies f[i].session.name@
                != f[j].session.name@ by {
                if j == f.len() - 1 {
                    assert(f[i] == rest.filter(p)[i]);
                    assert(rest.filter(p).contains(f[i]));
                    lemma_filter_member(rest, p, f[i]);
                    let i0 = choose|i0: int| 0 <= i0 < rest.len() && rest[i0] == f[i];
                    assert(s[i0] == f[i]);
                    assert(s[i0].session.name@ != s[s.len() - 1].session.name@);
                } else {
                    assert(f[i] == rest.filter(p)[i]);
                    assert(f[j] == rest.filter(p)[j]);
                }
            }
        }
    }
}

/// The groups partition the workers: every group member is a live
/// non-manager; every live non-manager stands in the orphan list or in
/// exactly one manager's worker list, and in the orphan list exactly when
/// it is in no manager's list; no list repeats an agent. Holds of every
/// reconciled view, whose session names are distinct.
pub proof fn lemma_groups_partition(
    agents: Seq<AgentInfo>,
    prefix: Seq<char>,
    parents: Seq<(String, String)>,
)
    requires
        distinct_names(agents),
    ensures
        forall|a: AgentInfo|
            #[trigger] orphans_of(agents, prefix, parents).contains(a) ==> agents.contains(a)
                && !is_pm_name(prefix, a.session.name@),
        forall|k: int, a: AgentInfo|
            0 <= k < pms_of(agents, prefix).len() && (#[trigger] workers_of(
                agents,
                prefix,
                parents,
                pms_of(agents, prefix)[k].session.name@,
            ).contains(a)) ==> agents.contains(a) && !is_pm_name(prefix, a.session.name@),
        forall|a: AgentInfo|
            #[trigger] agents.contains(a) && !is_pm_name(prefix, a.session.name@) ==> (orphans_of(
                agents,
                prefix,
                parents,
            ).contains(a) || exists|k: int|
                0 <= k < pms_of(agents, prefix).len() && (#[trigger] workers_of(
                    agents,
                    prefix,
                    parents,
                    pms_of(agents, prefix)[k].session.name@,
                ).contains(a))),
        forall|k: int, a: AgentInfo|
            0 <= k < pms_of(agents, prefix).len() && (#[trigger] workers_of(
                agents,
                prefix,
                parents,
                pms_of(agents, prefix)[k].session.name@,
            ).contains(a)) ==> !orphans_of(agents, prefix, parents).contains(a),
        forall|k1: int, k2: int, a: AgentInfo|
            0 <= k1 < pms_of(agents, prefix).len() && 0 <= k2 < pms_of(agents, prefix).len() && k1
                != k2 ==> !((#[trigger] workers_of(
                agents,
                prefix,
                parents,
                pms_of(agents, prefix)[k1].session.name@,
            ).contains(a)) && (#[trigger] workers_of(
                agents,
                prefix,
                parents,
                pms_of(agents, prefix)[k2].session.name@,
            ).contains(a))),
        distinct_names(orphans_of(agents, prefix, parents)),
        forall|k: int|
            0 <= k < pms_of(agents, prefix).len() ==> distinct_names(
                #[trigger] workers_of(
                    agents,
                    prefix,
                    parents,
                    pms_of(agents, prefix)[k].session.name@,
                ),
            ),
{
    broadcast use vstd::seq_lib::group_filter_ensures;

    let pms = pms_of(agents, prefix);
    let orphs = orphans_of(agents, prefix, parents);
    lemma_filter_distinct(agents, pm_pred(prefix));
    lemma_filter_distinct(agents, orphan_pred(agents, prefix, parents));

    assert forall|a: AgentInfo| #[trigger] orphs.contains(a) implies agents.contains(a)
        && !is_pm_name(prefix, a.session.name@) by {
        lemma_filter_member(agents, orphan_pred(agents, prefix, parents), a);
    }

    assert forall|k: int, a: AgentInfo|
        0 <= k < pms.len() && (#[trigger] workers_of(
            agents,
            prefix,
            parents,
            pms[k].session.name@,
        ).contains(a)) implies agents.contains(a) && !is_pm_name(prefix, a.session.name@) by {
        lemma_filter_member(agents, worker_pred(prefix, parents, pms[k].session.name@), a);
    }

    assert forall|k: int|
        0 <= k < pms.len() implies distinct_names(
        #[trigger] workers_of(agents, prefix, parents, pms[k].session.name@),
    ) by {
        lemma_filter_distinct(agents, worker_pred(prefix, parents, pms[k].session.name@));
    }

    assert forall|a: AgentInfo|
        #[trigger] agents.contains(a) && !is_pm_name(prefix, a.session.name@) implies (
    orphs.contains(a) || exists|k: int|
        0 <= k < pms.len() && (#[trigger] workers_of(
            agents,
            prefix,
            parents,
            pms[k].session.name@,
        ).contains(a))) by {
        let ia = choose|ia: int| 0 <= ia < agents.len() && agents[ia] == a;
        assert(agents[ia] == a);
        match lookup_spec(parents, a.session.name@) {
            None => {
                assert(orphan_pred(agents, prefix, parents)(a));
                agents.lemma_filter_contains(orphan_pred(agents, prefix, parents), ia);
                assert(orphs.contains(a));
            },
            Some(p) => {
                if has_pm_named(agents, prefix, p) {
                    let ip = choose|ip: int|
                        0 <= ip < agents.len() && is_pm_name(
                            prefix,
                            (#[trigger] agents[ip]).session.name@,
                        ) && agents[ip].session.name@ == p;
                    assert(pm_pred(prefix)(agents[ip]));
                    agents.lemma_filter_contains(pm_pred(prefix), ip);
                    assert(pms.contains(agents[ip]));
                    let k = choose|k: int| 0 <= k < pms.len() && pms[k] == agents[ip];
                    assert(0 <= k < pms.len() && pms[k] == agents[ip]);
                    assert(worker_pred(prefix, parents, pms[k].session.name@)(a));
                    agents.lemma_filter_contains(
                        worker_pred(prefix, parents, pms[k].session.name@),
                        ia,
                    );
                    assert(workers_of(agents, prefix, parents, pms[k].session.name@).contains(a));
                } else {
                    assert(orphan_pred(agents, prefix, parents)(a));
                    agents.lemma_filter_contains(orphan_pred(agents, prefix, parents), ia);
                    assert(orphs.contains(a));
                }
            },
        }
    }

    assert forall|k: int, a: AgentInfo|
        0 <= k < pms.len() && (#[trigger] workers_of(
            agents,
            prefix,
            parents,
            pms[k].session.name@,
        ).contains(a)) implies !orphs.contains(a) by {
        lemma_filter_member(agents, worker_pred(prefix, parents, pms[k].session.name@), a);
        if orphs.contains(a) {
            lemma_filter_member(agents, orphan_pred(agents, prefix, parents), a);
            assert(pms.contains(pms[k])) by {
                assert(pms[k] == pms[k]);
            }
            lemma_filter_member(agents, pm_pred(prefix), pms[k]);
            let ip = choose|ip: int| 0 <= ip < agents.len() && agents[ip] == pms[k];
            assert(has_pm_named(agents, prefix, pms[k].session.name@));
        }
    }

    assert forall|k1: int, k2: int, a: AgentInfo|
        0 <= k1 < pms.len() && 0 <= k2 < pms.len() && k1 != k2 implies !((
    #[trigger] workers_of(agents, prefix, parents, pms[k1].session.name@).contains(a)) && (
    #[trigger] workers_of(agents, prefix, parents, pms[k2].session.name@).contains(a))) by {
        if workers_of(agents, prefix, parents, pms[k1].session.name@).contains(a) && workers_of(
            agents,
            prefix,
            parents,
            pms[k2].session.name@,
        ).contains(a) {
            lemma_filter_member(agents, worker_pred(prefix, parents, pms[k1].session.name@), a);
            lemma_filter_member(agents, worker_pred(prefix, parents, pms[k2].session.name@), a);
            lemma_filter_distinct(agents, pm_pred(prefix));
            assert(pms[k1].session.name@ == pms[k2].session.name@);
        }
    }
}

/// What each manager or unassigned slice of the tree looks like: it opens
/// with one depth-one node, and every later node is a depth-two worker
/// that either hangs under the synthetic unassigned head or has the
/// opening node recorded as its parent.
pub open spec fn block_wf(b: Seq<NodeSpec>, parents: Seq<(String, String)>) -> bool {
    &&& b.len() >= 1
    &&& b[0].depth == 1
    &&& b[0].ancestors.len() == 1
    &&& forall|l: int|
        1 <= l < b.len() ==> (#[trigger] b[l]).depth == 2 && b[l].ancestors.len() == 2 && (b[0]
            == unassigned_node_spec() || lookup_spec(parents, b[l].session_name) == Some(
            b[0].session_name,
        ))
}

/// Well-formedness of the tree below the root: depths are one or two,
/// ancestor lists are as long as the depth, and every depth-two node is
/// preceded by the depth-one node it hangs under.
pub open spec fn nodes_wf(t: Seq<NodeSpec>, parents: Seq<(String, String)>) -> bool {
    forall|i: int|
        0 <= i < t.len() ==> {
            let n = #[trigger] t[i];
            &&& (n.depth == 1 || n.depth == 2)
            &&& n.ancestors.len() == n.depth
            &&& (n.depth == 2 ==> exists|j: int|
                0 <= j < i && (#[trigger] t[j]).depth == 1 && (t[j] == unassigned_node_spec()
                    || lookup_spec(parents, n.session_name) == Some(t[j].session_name)))
        }
}

proof fn lemma_nodes_wf_append(t: Seq<NodeSpec>, b: Seq<NodeSpec>, parents: Seq<(String, String)>)
    requires
        nodes_wf(t, parents),
        block_wf(b, parents),
    ensures
        nodes_wf(t + b, parents),
{
    let tb = t + b;
    assert forall|i: int| 0 <= i < tb.len() implies {
        let n = #[trigger] tb[i];
        &&& (n.depth == 1 || n.depth == 2)
        &&& n.ancestors.len() == n.depth
        &&& (n.depth == 2 ==> exists|j: int|
            0 <= j < i && (#[trigger] tb[j]).depth == 1 && (tb[j] == unassigned_node_spec()
                || lookup_spec(parents, n.session_name) == Some(tb[j].session_name)))
    } by {
        if i < t.len() {
            assert(tb[i] == t[i]);
            if t[i].depth == 2 {
                let j = choose|j: int|
                    0 <= j < i && (#[trigger] t[j]).depth == 1 && (t[j] == unassigned_node_spec()
                        || lookup_spec(parents, t[i].session_name) == Some(t[j].session_name));
                assert(tb[j] == t[j]);
                assert(tb[j].depth == 1 && (tb[j] == unassigned_node_spec() || lookup_spec(
                    parents,
                    tb[i].session_name,
                ) == Some(tb[j].session_name)));
            }
        } else {
            assert(tb[i] == b[i - t.len()]);
            if i > t.len() {
                let j = t.len() as int;
                assert(tb[j] == b[0]);
                assert(tb[j].depth == 1 && (tb[j] == unassigned_node_spec() || lookup_spec(
                    parents,
                    tb[i].session_name,
                ) == Some(tb[j].session_name)));
            }
        }
    }
}

proof fn lemma_pm_block_wf(
    agents: Seq<AgentInfo>,
    prefix: Seq<char>,
    parents: Seq<(String, String)>,
    pm: AgentInfo,
    is_last: bool,
)
    ensures
        block_wf(pm_block_spec(agents, prefix, parents, pm, is_last), parents),
{
    broadcast use vstd::seq_lib::group_filter_ensures;

    let kids = workers_of(agents, prefix, parents, pm.session.name@);
    let b = pm_block_spec(agents, prefix, parents, pm, is_last);
    assert(b[0] == pm_node_spec(prefix, pm, is_last));
    assert forall|l: int| 1 <= l < b.len() implies (#[trigger] b[l]).depth == 2
        && b[l].ancestors.len() == 2 && (b[0] == unassigned_node_spec() || lookup_spec(
        parents,
        b[l].session_name,
    ) == Some(b[0].session_name)) by {
        assert(b[l] == kids_nodes(prefix, kids, is_last)[l - 1]);
        assert(b[l] == worker_node_spec(prefix, kids[l - 1], l - 1 == kids.len() - 1, is_last));
        agents.lemma_filter_pred(worker_pred(prefix, parents, pm.session.name@), l - 1);
        assert(lookup_spec(parents, kids[l - 1].session.name@) == Some(pm.session.name@));
    }
}

proof fn lemma_blocks_wf(
    agents: Seq<AgentInfo>,
    prefix: Seq<char>,
    parents: Seq<(String, String)>,
    k: int,
)
    requires
        0 <= k,
    ensures
        nodes_wf(pm_blocks_up_to(agents, prefix, parents, k), parents),
    decreases k,
{
    if k == 0 {
        assert(pm_blocks_up_to(agents, prefix, parents, 0).len() == 0);
    } else {
        lemma_blocks_wf(agents, prefix, parents, k - 1);
        let pms = pms_of(agents, prefix);
        let has_orph = orphans_of(agents, prefix, parents).len() > 0;
        lemma_pm_block_wf(agents, prefix, parents, pms[k - 1], k == pms.len() && !has_orph);
        lemma_nodes_wf_append(
            pm_blocks_up_to(agents, prefix, parents, k - 1),
            pm_block_spec(agents, prefix, parents, pms[k - 1], k == pms.len() && !has_orph),
            parents,
        );
    }
}

proof fn lemma_orphan_block_wf(
    agents: Seq<AgentInfo>,
    prefix: Seq<char>,
    parents: Seq<(String, String)>,
)
    requires
        orphans_of(agents, prefix, parents).len() > 0,
    ensures
        block_wf(orphan_block_spec(agents, prefix, parents), parents),
{
    let orphs = orphans_of(agents, prefix, parents);
    let b = orphan_block_spec(agents, prefix, parents);
    assert(b[0] == unassigned_node_spec());
    assert forall|l: int| 1 <= l < b.len() implies (#[trigger] b[l]).depth == 2
        && b[l].ancestors.len() == 2 && (b[0] == unassigned_node_spec() || lookup_spec(
        parents,
        b[l].session_name,
    ) == Some(b[0].session_name)) by {
        assert(b[l] == worker_node_spec(prefix, orphs[l - 1], l - 1 == orphs.len() - 1, true));
    }
}

/// Well-formedness of the whole tree, for any input: exactly one node at
/// depth zero — the root, which stands first — every other node at depth
/// one or two, each node's ancestor list as long as its depth, and every
/// depth-two node preceded by the depth-one node it hangs under.
pub proof fn lemma_tree_well_formed(
    agents: Seq<AgentInfo>,
    prefix: Seq<char>,
    parents: Seq<(String, String)>,
    h: HealthState,
)
    ensures
        ({
            let t = tree_spec(agents, prefix, parents, h);
            &&& t.len() >= 1
            &&& t[0] == root_node_spec(h)
            &&& t[0].depth == 0
            &&& forall|i: int| 1 <= i < t.len() ==> 1 <= (#[trigger] t[i]).depth <= 2
            &&& forall|i: int|
                0 <= i < t.len() ==> (#[trigger] t[i]).ancestors.len() == t[i].depth
            &&& forall|i: int|
                0 <= i < t.len() && (#[trigger] t[i]).depth == 2 ==> exists|j: int|
                    1 <= j < i && (#[trigger] t[j]).depth == 1 && (t[j] == unassigned_node_spec()
                        || lookup_spec(parents, t[i].session_name) == Some(t[j].session_name))
        }),
{
    let pms = pms_of(agents, prefix);
    let orphs = orphans_of(agents, prefix, parents);
    let blocks = pm_blocks_up_to(agents, prefix, parents, pms.len() as int);
    let oblock = orphan_block_spec(agents, prefix, parents);
    let t = tree_spec(agents, prefix, parents, h);
    lemma_blocks_wf(agents, prefix, parents, pms.len() as int);
    let rest = blocks + oblock;
    assert(nodes_wf(rest, parents)) by {
        if orphs.len() > 0 {
            lemma_orphan_block_wf(agents, prefix, parents);
            lemma_nodes_wf_append(blocks, oblock, parents);
        } else {
            assert(rest =~= blocks);
        }
    }
    assert(t =~= seq![root_node_spec(h)] + rest);
    assert forall|i: int|
        0 <= i < t.len() && (#[trigger] t[i]).depth == 2 implies exists|j: int|
        1 <= j < i && (#[trigger] t[j]).depth == 1 && (t[j] == unassigned_node_spec()
            || lookup_spec(parents, t[i].session_name) == Some(t[j].session_name)) by {
        assert(i >= 1);
        assert(t[i] == rest[i - 1]);
        let j0 = choose|j0: int|
            0 <= j0 < i - 1 && (#[trigger] rest[j0]).depth == 1 && (rest[j0]
                == unassigned_node_spec() || lookup_spec(parents, rest[i - 1].session_name)
                == Some(rest[j0].session_name));
        let j = j0 + 1;
        assert(t[j] == rest[j0]);
        assert(t[j].depth == 1 && (t[j] == unassigned_node_spec() || lookup_spec(
            parents,
            t[i].session_name,
        ) == Some(t[j].session_name)));
    }
}

/// Only workers stand strictly between the two positions.
pub open spec fn only_workers_between(t: Seq<NodeSpec>, j: int, i: int) -> bool {
    forall|l: int| j < l < i ==> (#[trigger] t[l]).depth == 2
}

/// The node at `i` hangs under the depth-one node at `j`: the synthetic
/// unassigned head, or a manager the parent map records for it.
pub open spec fn hangs_under(t: Seq<NodeSpec>, parents: Seq<(String, String)>, j: int, i: int) -> bool {
    &&& t[j].depth == 1
    &&& (t[j] == unassigned_node_spec() || lookup_spec(parents, t[i].session_name) == Some(
        t[j].session_name,
    ))
}

/// Each depth-two node follows its own group head with nothing but
/// workers in between: the nearest preceding depth-one node is its
/// parent.
pub open spec fn nodes_wf_nearest(t: Seq<NodeSpec>, parents: Seq<(String, String)>) -> bool {
    forall|i: int|
        0 <= i < t.len() && (#[trigger] t[i]).depth == 2 ==> exists|j: int|
            0 <= j < i && hangs_under(t, parents, j, i) && only_workers_between(t, j, i)
}

proof fn lemma_nearest_append(t: Seq<NodeSpec>, b: Seq<NodeSpec>, parents: Seq<(String, String)>)
    requires
        nodes_wf_nearest(t, parents),
        block_wf(b, parents),
    ensures
        nodes_wf_nearest(t + b, parents),
{
    let tb = t + b;
    assert forall|i: int| 0 <= i < tb.len() && (#[trigger] tb[i]).depth == 2 implies exists|j: int|
        0 <= j < i && hangs_under(tb, parents, j, i) && only_workers_between(tb, j, i) by {
        if i < t.len() {
            assert(tb[i] == t[i]);
            let j = choose|j: int|
                0 <= j < i && hangs_under(t, parents, j, i) && only_workers_between(t, j, i);
            assert(hangs_under(tb, parents, j, i)) by {
                assert(tb[j] == t[j]);
            }
            assert(only_workers_between(tb, j, i)) by {
                assert forall|l: int| j < l < i implies (#[trigger] tb[l]).depth == 2 by {
                    assert(tb[l] == t[l]);
                }
            }
        } else {
            let j = t.len() as int;
            assert(tb[i] == b[i - t.len()]);
            assert(i > j) by {
                if i == j {
                    assert(tb[i] == b[0]);
                }
            }
            assert(tb[j] == b[0]);
            assert(hangs_under(tb, parents, j, i));
            assert(only_workers_between(tb, j, i)) by {
                assert forall|l: int| j < l < i implies (#[trigger] tb[l]).depth == 2 by {
                    assert(tb[l] == b[l - t.len()]);
                }
            }
        }
    }
}

proof fn lemma_blocks_nearest(
    agents: Seq<AgentInfo>,
    prefix: Seq<char>,
    parents: Seq<(String, String)>,
    k: int,
)
    requires
        0 <= k,
    ensures
        nodes_wf_nearest(pm_blocks_up_to(agents, prefix, parents, k), parents),
    decreases k,
{
    if k == 0 {
        assert(pm_blocks_up_to(agents, prefix, parents, 0).len() == 0);
    } else {
        lemma_blocks_nearest(agents, prefix, parents, k - 1);
        let pms = pms_of(agents, prefix);
        let has_orph = orphans_of(agents, prefix, parents).len() > 0;
        lemma_pm_block_wf(agents, prefix, parents, pms[k - 1], k == pms.len() && !has_orph);
        lemma_nearest_append(
            pm_blocks_up_to(agents, prefix, parents, k - 1),
            pm_block_spec(agents, prefix, parents, pms[k - 1], k == pms.len() && !has_orph),
            parents,
        );
    }
}

/// Every worker node in the tree follows the depth-one node it hangs
/// under, with only workers between the two: the nearest preceding
/// depth-one node is the worker's parent — the manager recorded for it,
/// or the synthetic unassigned head. Holds of any input.
pub proof fn lemma_tree_parent_is_nearest(
    agents: Seq<AgentInfo>,
    prefix: Seq<char>,
    parents: Seq<(String, String)>,
    h: HealthState,
)
    ensures
        ({
            let t = tree_spec(agents, prefix, parents, h);
            forall|i: int|
                0 <= i < t.len() && (#[trigger] t[i]).depth == 2 ==> exists|j: int|
                    1 <= j < i && hangs_under(t, parents, j, i) && only_workers_between(t, j, i)
        }),
{
    let pms = pms_of(agents, prefix);
    let orphs = orphans_of(agents, prefix, parents);
    let blocks = pm_blocks_up_to(agents, prefix, parents, pms.len() as int);
    let oblock = orphan_block_spec(agents, prefix, parents);
    let t = tree_spec(agents, prefix, parents, h);
    lemma_blocks_nearest(agents, prefix, parents, pms.len() as int);
    let rest = blocks + oblock;
    assert(nodes_wf_nearest(rest, parents)) by {
        if orphs.len() > 0 {
            lemma_orphan_block_wf(agents, prefix, parents);
            lemma_nearest_append(blocks, oblock, parents);
        } else {
            assert(rest =~= blocks);
        }
    }
    assert(t =~= seq![root_node_spec(h)] + rest);
    assert forall|i: int| 0 <= i < t.len() && (#[trigger] t[i]).depth == 2 implies exists|j: int|
        1 <= j < i && hangs_under(t, parents, j, i) && only_workers_between(t, j, i) by {
        assert(i >= 1);
        let im = i - 1;
        assert(t[i] == rest[im]);
        let j0 = choose|j0: int|
            0 <= j0 < im && hangs_under(rest, parents, j0, im) && only_workers_between(
                rest,
                j0,
                im,
            );
        let j = j0 + 1;
        assert(t[j] == rest[j0]);
        assert(hangs_under(t, parents, j, i));
        assert(only_workers_between(t, j, i)) by {
            assert forall|l: int| j < l < i implies (#[trigger] t[l]).depth == 2 by {
                assert(t[l] == rest[l - 1]);
            }
        }
    }
}

/// A worker whose recorded parent is not a live project-manager session
/// still appears: it is listed as an orphan, and the built tree carries
/// the synthetic unassigned head with a depth-two node for the worker.
pub proof fn lemma_orphan_under_stale_parent(
    agents: Seq<AgentInfo>,
    prefix: Seq<char>,
    parents: Seq<(String, String)>,
    h: HealthState,
    i: int,
)
    requires
        0 <= i < agents.len(),
        !is_pm_name(prefix, agents[i].session.name@),
        lookup_spec(parents, agents[i].session.name@) matches Some(p) && !has_pm_named(
            agents,
            prefix,
            p,
        ),
    ensures
        orphans_of(agents, prefix, parents).contains(agents[i]),
        tree_spec(agents, prefix, parents, h).contains(unassigned_node_spec()),
        exists|j: int|
            0 <= j < tree_spec(agents, prefix, parents, h).len() && (#[trigger] tree_spec(
                agents,
                prefix,
                parents,
                h,
            )[j]).depth == 2 && tree_spec(agents, prefix, parents, h)[j].session_name == agents[i].session.name@,
{
    broadcast use vstd::seq_lib::group_filter_ensures;

    let orphs = orphans_of(agents, prefix, parents);
    assert(orphan_pred(agents, prefix, parents)(agents[i]));
    agents.lemma_filter_contains(orphan_pred(agents, prefix, parents), i);
    assert(orphs.contains(agents[i]));
    let io = choose|io: int| 0 <= io < orphs.len() && orphs[io] == agents[i];
    let t = tree_spec(agents, prefix, parents, h);
    let blocks = pm_blocks_up_to(agents, prefix, parents, pms_of(agents, prefix).len() as int);
    let oblock = orphan_block_spec(agents, prefix, parents);
    let base = 1 + blocks.len();
    assert(t[base as int] == oblock[0]);
    assert(oblock[0] == unassigned_node_spec());
    assert(t.contains(unassigned_node_spec())) by {
        assert(t[base as int] == unassigned_node_spec());
    }
    let j = base + 1 + io;
    assert(t[j as int] == oblock[1 + io]);
    assert(oblock[1 + io] == worker_node_spec(prefix, orphs[io], io == orphs.len() - 1, true));
    assert(t[j as int].depth == 2 && t[j as int].session_name == agents[i].session.name@);
}

} // verus!

