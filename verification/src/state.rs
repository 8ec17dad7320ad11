//! The dashboard-facing supervisor state that needs no outside world:
//! the selection ring over the root and the workers, the health tallies,
//! the guard that decides whether a kill request may proceed, and the
//! per-tick partition of listed sessions into the owned set.

use vstd::prelude::*;

use crate::health::HealthState;
use crate::hierarchy::AgentInfo;
use crate::session::Session;
use crate::text::{str_eq, str_starts_with};
use crate::{spec_dashboard_session, spec_manager_session};

verus! {

/// Where the dashboard's cursor stands: on the root agent, or on the
/// worker at `selected`.
pub struct Selection {
    pub selected: usize,
    pub manager_selected: bool,
}

impl Selection {
    /// The cursor stays within the worker list whenever one exists.
    pub open spec fn wf(&self, n: int) -> bool {
        n == 0 || self.selected < n
    }

    /// A fresh cursor: the root agent is selected.
    pub fn new() -> (r: Selection)
        ensures
            r.manager_selected,
            r.selected == 0,
            forall|n: int| 0 < n ==> r.wf(n),
    {
        Selection { selected: 0, manager_selected: true }
    }

    /// Moves the cursor down through the ring root, first worker, …,
    /// last worker, root. With no workers the root stays selected.
    pub fn next(&mut self, n: usize)
        requires
            old(self).wf(n as int),
        ensures
            final(self).wf(n as int),
            n == 0 ==> final(self).manager_selected && final(self).selected == old(self).selected,
            n > 0 && old(self).manager_selected ==> !final(self).manager_selected && final(self).selected == 0,
            n > 0 && !old(self).manager_selected && old(self).selected + 1 >= n ==> final(self).manager_selected && final(self).selected == old(self).selected,
            n > 0 && !old(self).manager_selected && old(self).selected + 1 < n ==> !final(self).manager_selected && final(self).selected == old(self).selected + 1,
    {
        if self.manager_selected {
            if n > 0 {
                self.manager_selected = false;
                self.selected = 0;
            }
        } else if n > 0 {
            if self.selected + 1 >= n {
                self.manager_selected = true;
            } else {
                self.selected = self.selected + 1;
            }
        } else {
            self.manager_selected = true;
        }
    }

    /// Moves the cursor up through the same ring: from the root to the
    /// last worker, from the first worker back to the root.
    pub fn previous(&mut self, n: usize)
        requires
            old(self).wf(n as int),
        ensures
            final(self).wf(n as int),
            n == 0 ==> final(self).manager_selected && final(self).selected == old(self).selected,
            n > 0 && old(self).manager_selected ==> !final(self).manager_selected && final(self).selected == n - 1,
            n > 0 && !old(self).manager_selected && old(self).selected == 0 ==> final(self).manager_selected && final(self).selected == old(self).selected,
            n > 0 && !old(self).manager_selected && old(self).selected > 0 ==> !final(self).manager_selected && final(self).selected == old(self).selected - 1,
    {
        if self.manager_selected {
            if n > 0 {
                self.manager_selected = false;
                self.selected = n - 1;
            }
        } else if n > 0 {
            if self.selected == 0 {
                self.manager_selected = true;
            } else {
                self.selected = self.selected - 1;
            }
        } else {
            self.manager_selected = true;
        }
    }
}

/// How many of the agents carry the given health state.
pub open spec fn count_state(agents: Seq<AgentInfo>, h: HealthState) -> int {
    agents.filter(|a: AgentInfo| a.health == h).len() as int
}

/// Tallies running and idle agents, counting the root agent when it is
/// live.
pub fn health_counts(agents: &Vec<AgentInfo>, manager: &Option<AgentInfo>) -> (r: (usize, usize))
    requires
        agents@.len() < usize::MAX,
    ensures
        r.0 == count_state(agents@, HealthState::Running) + (match manager {
            Some(m) => if m.health == HealthState::Running {
                1int
            } else {
                0
            },
            None => 0,
        }),
        r.1 == count_state(agents@, HealthState::Idle) + (match manager {
            Some(m) => if m.health == HealthState::Idle {
                1int
            } else {
                0
            },
            None => 0,
        }),
{
    broadcast use vstd::seq_lib::group_filter_ensures;

    let ghost pr = |a: AgentInfo| a.health == HealthState::Running;
    let ghost pi = |a: AgentInfo| a.health == HealthState::Idle;
    let mut running: usize = 0;
    let mut idle: usize = 0;
    let mut i: usize = 0;
    proof {
        assert(agents@.take(0).filter(pr) =~= Seq::<AgentInfo>::empty());
        assert(agents@.take(0).filter(pi) =~= Seq::<AgentInfo>::empty());
    }
    while i < agents.len()
        invariant
            i <= agents@.len(),
            pr == (|a: AgentInfo| a.health == HealthState::Running),
            pi == (|a: AgentInfo| a.health == HealthState::Idle),
            running == agents@.take(i as int).filter(pr).len(),
            idle == agents@.take(i as int).filter(pi).len(),
            running + idle <= i,
        decreases agents@.len() - i,
    {
        proof {
            agents@.take(i as int).lemma_filter_push(agents@[i as int], pr);
            agents@.take(i as int).lemma_filter_push(agents@[i as int], pi);
            assert(agents@.take(i as int).push(agents@[i as int]) =~= agents@.take(i + 1));
        }
        match agents[i].health {
            HealthState::Running => {
                running = running + 1;
            },
            HealthState::Idle => {
                idle = idle + 1;
            },
        }
        i = i + 1;
    }
    proof {
        assert(agents@.take(agents@.len() as int) =~= agents@);
    }
    match manager {
        Some(m) => {
            match m.health {
                HealthState::Running => {
                    running = running + 1;
                },
                HealthState::Idle => {
                    idle = idle + 1;
                },
            }
        },
        None => {},
    }
    (running, idle)
}

/// The number of live agents, the root included when present.
pub fn total_agents(agents: &Vec<AgentInfo>, manager: &Option<AgentInfo>) -> (r: usize)
    requires
        agents@.len() < usize::MAX,
    ensures
        r == agents@.len() + (if manager is Some {
            1int
        } else {
            0
        }),
{
    if manager.is_some() {
        agents.len() + 1
    } else {
        agents.len()
    }
}

/// What a kill request against the selected agent comes to.
#[derive(Debug, Clone, Copy, PartialEq, Eq, Structural)]
pub enum KillDecision {
    /// Nothing is selected; nothing happens.
    NoSelection,
    /// The selection is an attached session — likely the operator's own
    /// terminal — and is refused.
    RefuseAttached,
    /// The selection is the reserved root session and is refused.
    RefuseManager,
    /// The selection may be killed.
    Kill,
}

/// Decides whether the dashboard may kill the selected agent: attached
/// sessions and the reserved root session are refused; any other
/// selection is killed; no selection does nothing.
pub fn kill_decision(selected: Option<&AgentInfo>) -> (r: KillDecision)
    ensures
        match selected {
            None => r == KillDecision::NoSelection,
            Some(a) => {
                if a.session.attached {
                    r == KillDecision::RefuseAttached
                } else if a.session.name@ == spec_manager_session() {
                    r == KillDecision::RefuseManager
                } else {
                    r == KillDecision::Kill
                }
            },
        },
{
    match selected {
        None => KillDecision::NoSelection,
        Some(a) => {
            if a.session.attached {
                KillDecision::RefuseAttached
            } else if str_eq(a.session.name.as_str(), crate::manager_session_name()) {
                KillDecision::RefuseManager
            } else {
                KillDecision::Kill
            }
        },
    }
}

/// Which listed sessions the supervisor owns, as a value for `filter`: not
/// the root, not the dashboard's own session, bearing the prefix when one
/// is configured, and not attached to a terminal.
pub open spec fn owned_pred(prefix: Seq<char>) -> spec_fn(Session) -> bool {
    |s: Session|
        s.name@ != spec_manager_session() && s.name@ != spec_dashboard_session() && (prefix.len()
            == 0 || prefix.is_prefix_of(s.name@)) && !s.attached
}

/// Splits the multiplexer's listing into the root session, when present,
/// and the owned agent sessions in listed order.
pub fn partition_sessions(sessions: Vec<Session>, prefix: &str) -> (r: (
    Option<Session>,
    Vec<Session>,
))
    ensures
        r.1@ == sessions@.filter(owned_pred(prefix@)),
        match r.0 {
            Some(m) => m.name@ == spec_manager_session() && sessions@.contains(m),
            None => forall|i: int|
                0 <= i < sessions@.len() ==> (#[trigger] sessions@[i]).name@
                    != spec_manager_session(),
        },
{
    broadcast use vstd::seq_lib::group_filter_ensures;

    let ghost p = owned_pred(prefix@);
    let mut manager: Option<Session> = None;
    let mut others: Vec<Session> = Vec::new();
    let mut i: usize = 0;
    proof {
        assert(sessions@.take(0).filter(p) =~= Seq::<Session>::empty());
    }
    while i < sessions.len()
        invariant
            i <= sessions@.len(),
            p == owned_pred(prefix@),
            others@ == sessions@.take(i as int).filter(p),
            match manager {
                Some(m) => m.name@ == spec_manager_session() && sessions@.contains(m),
                None => forall|j: int|
                    0 <= j < i ==> (#[trigger] sessions@[j]).name@ != spec_manager_session(),
            },
        decreases sessions@.len() - i,
    {
        proof {
            sessions@.take(i as int).lemma_filter_push(sessions@[i as int], p);
            assert(sessions@.take(i as int).push(sessions@[i as int]) =~= sessions@.take(i + 1));
        }
        let name_is_manager = str_eq(sessions[i].name.as_str(), crate::manager_session_name());
        let name_is_dashboard = str_eq(sessions[i].name.as_str(), crate::dashboard_session_name());
        let has_prefix = prefix.is_empty() || str_starts_with(sessions[i].name.as_str(), prefix);
        if name_is_manager {
            manager = Some(sessions[i].clone());
            proof {
                assert(sessions@[i as int] == sessions@.index(i as int));
                assert(sessions@.contains(sessions@[i as int]));
            }
        } else if !name_is_dashboard && has_prefix && !sessions[i].attached {
            others.push(sessions[i].clone());
        }
        i = i + 1;
    }
    proof {
        assert(sessions@.take(sessions@.len() as int) =~= sessions@);
    }
    (manager, others)
}

/// The first position of the named session among the agents, if any.
pub fn position_of_name(agents: &Vec<AgentInfo>, name: &str) -> (r: Option<usize>)
    ensures
        match r {
            Some(i) => i < agents@.len() && agents@[i as int].session.name@ == name@ && forall|
                j: int,
            | 0 <= j < i ==> (#[trigger] agents@[j]).session.name@ != name@,
            None => forall|j: int|
                0 <= j < agents@.len() ==> (#[trigger] agents@[j]).session.name@ != name@,
        },
{
    let mut i: usize = 0;
    while i < agents.len()
        invariant
            i <= agents@.len(),
            forall|j: int| 0 <= j < i ==> (#[trigger] agents@[j]).session.name@ != name@,
        decreases agents@.len() - i,
    {
        if str_eq(agents[i].session.name.as_str(), name) {
            return Some(i);
        }
        i = i + 1;
    }
    None
}

} // verus!
