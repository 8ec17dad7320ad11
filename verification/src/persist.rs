//! The durable state: the child-to-parent map, the worker-task map, and
//! the markdown memory snapshot. The two maps live as unique-keyed entry
//! lists; the file reads and writes around them happen outside the
//! library, which only ever sees and returns plain entries.

use vstd::prelude::*;

use crate::health::health_label;
use crate::hierarchy::{lookup_spec, AgentInfo};
use crate::projects::Project;
use crate::text::{dec_spec, split_char, split_spec, str_eq, trim_end_spec, trim_end_str};

verus! {

/// Distinct keys across the entries of a persisted map.
pub open spec fn keys_unique(s: Seq<(String, String)>) -> bool {
    forall|i: int, j: int| 0 <= i < j < s.len() ==> s[i].0@ != s[j].0@
}

proof fn lemma_lookup_none(s: Seq<(String, String)>, c: Seq<char>)
    ensures
        (lookup_spec(s, c) is None) <==> (forall|j: int| 0 <= j < s.len() ==> (#[trigger] s[j]).0@
            != c),
    decreases s.len(),
{
    if s.len() > 0 {
        lemma_lookup_none(s.skip(1), c);
        assert(s.skip(1).len() == s.len() - 1);
        assert(forall|j: int| 0 <= j < s.skip(1).len() ==> (#[trigger] s.skip(1)[j]) == s[j + 1]);
        if s[0].0@ != c && (lookup_spec(s.skip(1), c) is None) {
            assert forall|j: int| 0 <= j < s.len() implies (#[trigger] s[j]).0@ != c by {
                if j > 0 {
                    assert(s.skip(1)[j - 1].0@ != c);
                }
            }
        }
    }
}

proof fn lemma_lookup_push(s: Seq<(String, String)>, e: (String, String), c: Seq<char>)
    ensures
        lookup_spec(s.push(e), c) == (if lookup_spec(s, c) is Some {
            lookup_spec(s, c)
        } else if e.0@ == c {
            Some(e.1@)
        } else {
            None
        }),
    decreases s.len(),
{
    if s.len() == 0 {
        assert(s.push(e)[0] == e);
        assert(s.push(e).skip(1) =~= Seq::<(String, String)>::empty());
        assert(lookup_spec(Seq::<(String, String)>::empty(), c) is None);
        assert(s =~= Seq::<(String, String)>::empty());
    } else {
        lemma_lookup_push(s.skip(1), e, c);
        assert(s.push(e)[0] == s[0]);
        assert(s.push(e).skip(1) =~= s.skip(1).push(e));
    }
}

proof fn lemma_lookup_update(s: Seq<(String, String)>, i: int, e: (String, String), c: Seq<char>)
    requires
        keys_unique(s),
        0 <= i < s.len(),
        e.0@ == s[i].0@,
    ensures
        lookup_spec(s.update(i, e), c) == (if c == e.0@ {
            Some(e.1@)
        } else {
            lookup_spec(s, c)
        }),
    decreases s.len(),
{
    let su = s.update(i, e);
    if i == 0 {
        assert(su[0] == e);
        assert(su.skip(1) =~= s.skip(1));
        if c != e.0@ {
            assert(s[0].0@ == e.0@);
        }
    } else {
        assert(su[0] == s[0]);
        assert(su.skip(1) =~= s.skip(1).update(i - 1, e));
        assert(keys_unique(s.skip(1))) by {
            assert(forall|a: int, b: int|
                0 <= a < b < s.skip(1).len() ==> s.skip(1)[a] == s[a + 1] && s.skip(1)[b] == s[b
                    + 1]);
        }
        assert(s.skip(1)[i - 1] == s[i]);
        lemma_lookup_update(s.skip(1), i - 1, e, c);
        if c == e.0@ {
            assert(s[0].0@ != s[i].0@);
        }
    }
}

proof fn lemma_lookup_remove(s: Seq<(String, String)>, i: int, c: Seq<char>)
    requires
        keys_unique(s),
        0 <= i < s.len(),
    ensures
        lookup_spec(s.remove(i), c) == (if c == s[i].0@ {
            None
        } else {
            lookup_spec(s, c)
        }),
    decreases s.len(),
{
    let sr = s.remove(i);
    if i == 0 {
        assert(sr =~= s.skip(1));
        if c == s[0].0@ {
            lemma_lookup_none(s.skip(1), c);
            assert forall|j: int| 0 <= j < s.skip(1).len() implies (#[trigger] s.skip(1)[j]).0@
                != c by {
                assert(s.skip(1)[j] == s[j + 1]);
                assert(s[0].0@ != s[j + 1].0@);
            }
        }
    } else {
        assert(sr[0] == s[0]);
        assert(sr.skip(1) =~= s.skip(1).remove(i - 1));
        assert(keys_unique(s.skip(1))) by {
            assert(forall|a: int, b: int|
                0 <= a < b < s.skip(1).len() ==> s.skip(1)[a] == s[a + 1] && s.skip(1)[b] == s[b
                    + 1]);
        }
        assert(s.skip(1)[i - 1] == s[i]);
        lemma_lookup_remove(s.skip(1), i - 1, c);
        if c == s[i].0@ {
            assert(s[0].0@ != s[i].0@);
        }
    }
}

fn upsert_entry(map: &mut Vec<(String, String)>, key: &str, value: &str)
    requires
        keys_unique(old(map)@),
    ensures
        keys_unique(final(map)@),
        lookup_spec(final(map)@, key@) == Some(value@),
        forall|c: Seq<char>| c != key@ ==> lookup_spec(final(map)@, c) == lookup_spec(old(map)@, c),
{
    let ghost olds = map@;
    let n: usize = map.len();
    let mut i: usize = 0;
    while i < n
        invariant
            i <= n,
            n == map@.len(),
            map@ == olds,
            olds == old(map)@,
            keys_unique(olds),
            forall|j: int| 0 <= j < i ==> (#[trigger] olds[j]).0@ != key@,
        decreases n - i,
    {
        if str_eq(map[i].0.as_str(), key) {
            map.set(i, (key.to_owned(), value.to_owned()));
            proof {
                assert forall|c: Seq<char>| true implies lookup_spec(map@, c) == (if c == key@ {
                    Some(value@)
                } else {
                    lookup_spec(olds, c)
                }) by {
                    lemma_lookup_update(olds, i as int, (map@[i as int]), c);
                }
                assert forall|a: int, b: int| 0 <= a < b < map@.len() implies map@[a].0@
                    != map@[b].0@ by {
                    assert(olds[a].0@ != olds[b].0@);
                }
            }
            return ;
        }
        i = i + 1;
    }
    map.push((key.to_owned(), value.to_owned()));
    proof {
        assert(map@.drop_last() =~= olds);
        lemma_lookup_none(olds, key@);
        assert forall|c: Seq<char>| true implies lookup_spec(map@, c) == (if c == key@ {
            Some(value@)
        } else {
            lookup_spec(olds, c)
        }) by {
            lemma_lookup_push(olds, map@[map@.len() - 1], c);
        }
        assert forall|a: int, b: int| 0 <= a < b < map@.len() implies map@[a].0@ != map@[b].0@ by {
            if b < olds.len() {
                assert(olds[a].0@ != olds[b].0@);
            } else {
                assert(map@[b].0@ == key@);
            }
        }
    }
}

fn remove_entry(map: &mut Vec<(String, String)>, key: &str)
    requires
        keys_unique(old(map)@),
    ensures
        keys_unique(final(map)@),
        lookup_spec(final(map)@, key@) is None,
        forall|c: Seq<char>| c != key@ ==> lookup_spec(final(map)@, c) == lookup_spec(old(map)@, c),
{
    let ghost olds = map@;
    let n: usize = map.len();
    let mut i: usize = 0;
    while i < n
        invariant
            i <= n,
            n == map@.len(),
            map@ == olds,
            olds == old(map)@,
            keys_unique(olds),
            forall|j: int| 0 <= j < i ==> (#[trigger] olds[j]).0@ != key@,
        decreases n - i,
    {
        if str_eq(map[i].0.as_str(), key) {
            map.remove(i);
            proof {
                assert forall|c: Seq<char>| true implies lookup_spec(map@, c) == (if c == key@ {
                    None
                } else {
                    lookup_spec(olds, c)
                }) by {
                    lemma_lookup_remove(olds, i as int, c);
                }
                assert forall|a: int, b: int| 0 <= a < b < map@.len() implies map@[a].0@
                    != map@[b].0@ by {
                    let a0 = if a < i {
                        a
                    } else {
                        a + 1
                    };
                    let b0 = if b < i {
                        b
                    } else {
                        b + 1
                    };
                    assert(map@[a] == olds[a0] && map@[b] == olds[b0]);
                    assert(olds[a0].0@ != olds[b0].0@);
                }
            }
            return ;
        }
        i = i + 1;
    }
    proof {
        lemma_lookup_none(olds, key@);
    }
}

/// Records or replaces the task text shown for a session.
pub fn save_worker_task(tasks: &mut Vec<(String, String)>, session: &str, task: &str)
    requires
        keys_unique(old(tasks)@),
    ensures
        keys_unique(final(tasks)@),
        lookup_spec(final(tasks)@, session@) == Some(task@),
        forall|c: Seq<char>|
            c != session@ ==> lookup_spec(final(tasks)@, c) == lookup_spec(old(tasks)@, c),
{
    upsert_entry(tasks, session, task);
}

/// Records or replaces a child session's parent.
pub fn save_agent_parent(parents: &mut Vec<(String, String)>, child: &str, parent: &str)
    requires
        keys_unique(old(parents)@),
    ensures
        keys_unique(final(parents)@),
        lookup_spec(final(parents)@, child@) == Some(parent@),
        forall|c: Seq<char>|
            c != child@ ==> lookup_spec(final(parents)@, c) == lookup_spec(old(parents)@, c),
{
    upsert_entry(parents, child, parent);
}

/// Forgets a child session's parent, if one was recorded.
pub fn remove_agent_parent(parents: &mut Vec<(String, String)>, child: &str)
    requires
        keys_unique(old(parents)@),
    ensures
        keys_unique(final(parents)@),
        lookup_spec(final(parents)@, child@) is None,
        forall|c: Seq<char>|
            c != child@ ==> lookup_spec(final(parents)@, c) == lookup_spec(old(parents)@, c),
{
    remove_entry(parents, child);
}

/// Drops every entry whose key is not among the live session names; the
/// surviving entries keep their values.
pub fn retain_live_entries(map: &mut Vec<(String, String)>, live: &Vec<String>)
    requires
        keys_unique(old(map)@),
    ensures
        keys_unique(final(map)@),
        forall|c: Seq<char>|
            #[trigger] lookup_spec(final(map)@, c) == (if live.deep_view().contains(c) {
                lookup_spec(old(map)@, c)
            } else {
                None
            }),
{
    let ghost olds = map@;
    let n: usize = map.len();
    let mut kept: Vec<(String, String)> = Vec::new();
    let mut i: usize = 0;
    proof {
        assert(olds.take(0) =~= Seq::<(String, String)>::empty());
        assert forall|c: Seq<char>| true implies #[trigger] lookup_spec(kept@, c) == (if live.deep_view().contains(
            c,
        ) {
            lookup_spec(olds.take(0), c)
        } else {
            None
        }) by {
            assert(kept@.len() == 0);
        }
    }
    while i < n
        invariant
            i <= n,
            n == map@.len(),
            map@ == olds,
            keys_unique(olds),
            keys_unique(kept@),
            forall|c: Seq<char>|
                #[trigger] lookup_spec(kept@, c) == (if live.deep_view().contains(c) {
                    lookup_spec(olds.take(i as int), c)
                } else {
                    None
                }),
        decreases n - i,
    {
        let ghost oldkept = kept@;
        let is_live = crate::names::contains_string(live, map[i].0.as_str());
        proof {
            lemma_lookup_at(olds, i as int);
        }
        if is_live {
            let entry = (map[i].0.clone(), map[i].1.clone());
            kept.push(entry);
            proof {
                assert(kept@.drop_last() =~= oldkept);
                assert(lookup_spec(oldkept, olds[i as int].0@) is None);
                lemma_lookup_none(oldkept, olds[i as int].0@);
                assert forall|a: int, b: int| 0 <= a < b < kept@.len() implies kept@[a].0@
                    != kept@[b].0@ by {
                    if b == kept@.len() - 1 {
                        assert(oldkept[a].0@ != olds[i as int].0@);
                    } else {
                        assert(oldkept[a].0@ != oldkept[b].0@);
                    }
                }
            }
        }
        i = i + 1;
        proof {
            assert(olds.take(i as int).drop_last() =~= olds.take(i - 1));
            assert(olds.take(i as int)[olds.take(i as int).len() - 1] == olds[i - 1]);
            assert forall|c: Seq<char>| true implies #[trigger] lookup_spec(kept@, c) == (if live.deep_view().contains(
                c,
            ) {
                lookup_spec(olds.take(i as int), c)
            } else {
                None
            }) by {
                lemma_lookup_take_succ(olds, i - 1, c);
                if is_live {
                    lemma_lookup_push(oldkept, kept@[kept@.len() - 1], c);
                }
            }
        }
    }
    proof {
        assert(olds.take(n as int) =~= olds);
    }
    *map = kept;
}

proof fn lemma_lookup_at(s: Seq<(String, String)>, i: int)
    requires
        keys_unique(s),
        0 <= i < s.len(),
    ensures
        lookup_spec(s.take(i), s[i].0@) is None,
{
    lemma_lookup_none(s.take(i), s[i].0@);
    assert forall|j: int| 0 <= j < s.take(i).len() implies (#[trigger] s.take(i)[j]).0@
        != s[i].0@ by {
        assert(s.take(i)[j] == s[j]);
        assert(s[j].0@ != s[i].0@);
    }
}

proof fn lemma_lookup_take_succ(s: Seq<(String, String)>, i: int, c: Seq<char>)
    requires
        0 <= i < s.len(),
    ensures
        lookup_spec(s.take(i + 1), c) == (if lookup_spec(s.take(i), c) is Some {
            lookup_spec(s.take(i), c)
        } else if s[i].0@ == c {
            Some(s[i].1@)
        } else {
            None
        }),
{
    lemma_lookup_push(s.take(i), s[i], c);
    assert(s.take(i + 1) =~= s.take(i).push(s[i]));
}

/// What the JSON rendering of a persisted map of strings holds. The
/// rendering is a function of the entry map alone.
pub uninterp spec fn json_of_map(entries: Map<Seq<char>, Seq<char>>) -> Seq<char>;

/// What a JSON text decodes to as a map of strings, when it decodes at
/// all. The outcome is a function of the text alone.
pub uninterp spec fn json_map_entries(s: Seq<char>) -> Option<Map<Seq<char>, Seq<char>>>;

/// The entry map carried by a list of pairs; a later entry for the same
/// key wins.
pub open spec fn map_of_pairs(pairs: Seq<(Seq<char>, Seq<char>)>) -> Map<Seq<char>, Seq<char>>
    decreases pairs.len(),
{
    if pairs.len() == 0 {
        Map::<Seq<char>, Seq<char>>::empty()
    } else {
        map_of_pairs(pairs.drop_last()).insert(pairs.last().0, pairs.last().1)
    }
}

/// Relies on serde_json's to_string_pretty over an ordered map of strings:
/// it renders the entries as one JSON object, and the text depends on the
/// entry map alone, since the ordered map fixes the key order.
#[verifier::external_body]
pub fn encode_string_map(pairs: &Vec<(String, String)>) -> (r: String)
    ensures
        r@ == json_of_map(map_of_pairs(pairs.deep_view())),
{
    let m: std::collections::BTreeMap<String, String> = pairs.iter().cloned().collect();
    serde_json::to_string_pretty(&m).unwrap_or_default()
}

/// Relies on serde_json's from_str to an ordered map of strings: a JSON
/// object of strings decodes to its entries, each key once, and any other
/// text decodes to nothing. The ordered map fixes the order in which the
/// entries come back, so the outcome depends on the text alone.
#[verifier::external_body]
pub fn decode_string_map(s: &str) -> (r: Option<Vec<(String, String)>>)
    ensures
        match r {
            Some(v) => json_map_entries(s@) == Some(map_of_pairs(v.deep_view())) && keys_unique(
                v@,
            ),
            None => json_map_entries(s@) is None,
        },
{
    match serde_json::from_str::<std::collections::BTreeMap<String, String>>(s) {
        Ok(m) => Some(m.into_iter().collect()),
        Err(_) => None,
    }
}

/// The non-blank capture lines kept as the root agent's recent context,
/// each with trailing blanks removed, in order.
pub open spec fn context_lines_spec(capture: Seq<char>) -> Seq<Seq<char>> {
    split_spec(capture, '\n').filter_map(
        |l: Seq<char>|
            if trim_end_spec(l).len() > 0 {
                Some(trim_end_spec(l))
            } else {
                None
            },
    )
}

/// Extracts the recent-context lines from a raw capture of the root
/// agent's pane.
pub fn recent_context(capture: &str) -> (r: Vec<String>)
    ensures
        r.deep_view() == context_lines_spec(capture@),
{
    let ghost f = |l: Seq<char>|
        if trim_end_spec(l).len() > 0 {
            Some(trim_end_spec(l))
        } else {
            None
        };
    let lines = split_char(capture, '\n');
    let ghost dv = lines.deep_view();
    let mut r: Vec<String> = Vec::new();
    let mut i: usize = 0;
    proof {
        assert(dv.take(0).filter_map(f) =~= Seq::<Seq<char>>::empty());
        assert(r.deep_view() =~= dv.take(0).filter_map(f));
    }
    while i < lines.len()
        invariant
            i <= lines@.len(),
            f == (|l: Seq<char>|
                if trim_end_spec(l).len() > 0 {
                    Some(trim_end_spec(l))
                } else {
                    None
                }),
            dv == split_spec(capture@, '\n'),
            dv == lines.deep_view(),
            dv.len() == lines@.len(),
            r.deep_view() == dv.take(i as int).filter_map(f),
        decreases lines@.len() - i,
    {
        proof {
            assert(dv[i as int] == lines@[i as int]@);
            dv.lemma_filter_map_take_succ(f, i as int);
        }
        let ghost before = r.deep_view();
        let ghost cur = dv.take(i + 1).filter_map(f);
        let t = trim_end_str(lines[i].as_str());
        if !t.as_str().is_empty() {
            let ghost tv = t@;
            r.push(t);
            proof {
                assert(f(dv[i as int]) == Some(tv));
                assert(cur == before + seq![tv]);
                assert(r.deep_view() =~= before.push(tv));
                assert(r.deep_view() =~= cur);
            }
        } else {
            proof {
                assert(f(dv[i as int]) is None);
                assert(cur == before + Seq::<Seq<char>>::empty());
                assert(r.deep_view() =~= cur);
            }
        }
        i = i + 1;
        proof {
            assert(dv.take(i as int).filter_map(f) == cur);
        }
    }
    proof {
        assert(dv.take(dv.len() as int) =~= dv);
    }
    r
}

/// The project lines of the snapshot, each `id. name`.
pub open spec fn memory_project_lines(ps: Seq<Project>) -> Seq<char>
    decreases ps.len(),
{
    if ps.len() == 0 {
        Seq::<char>::empty()
    } else {
        memory_project_lines(ps.drop_last()) + dec_spec(ps.last().id as int) + seq!['.', ' ']
            + ps.last().name@ + seq!['\n']
    }
}

/// The task text shown for one worker: its recorded task, or a fixed
/// placeholder.
pub open spec fn task_text_spec(tasks: Seq<(String, String)>, name: Seq<char>) -> Seq<char> {
    match lookup_spec(tasks, name) {
        Some(t) => t,
        None => "(no task assigned)"@,
    }
}

/// The worker lines of the snapshot, each `- name (health): task`.
pub open spec fn memory_worker_lines(agents: Seq<AgentInfo>, tasks: Seq<(String, String)>) -> Seq<
    char,
>
    decreases agents.len(),
{
    if agents.len() == 0 {
        Seq::<char>::empty()
    } else {
        memory_worker_lines(agents.drop_last(), tasks) + "- "@ + agents.last().session.name@
            + " ("@ + health_label(agents.last().health) + "): "@ + task_text_spec(
            tasks,
            agents.last().session.name@,
        ) + seq!['\n']
    }
}

/// The context lines of the snapshot, each quoted.
pub open spec fn memory_context_lines(lines: Seq<Seq<char>>) -> Seq<char>
    decreases lines.len(),
{
    if lines.len() == 0 {
        Seq::<char>::empty()
    } else {
        memory_context_lines(lines.drop_last()) + "> "@ + lines.last() + seq!['\n']
    }
}

/// The whole memory snapshot: the heading, the active projects and
/// workers when any exist, the root agent's status, and its recent
/// context when it is running and produced any.
pub open spec fn memory_spec(
    projects: Seq<Project>,
    agents: Seq<AgentInfo>,
    tasks: Seq<(String, String)>,
    manager_running: bool,
    context: Seq<Seq<char>>,
) -> Seq<char> {
    "# OMAR State\n\n"@ + (if projects.len() > 0 {
        "## Active Projects\n"@ + memory_project_lines(projects) + seq!['\n']
    } else {
        Seq::<char>::empty()
    }) + (if agents.len() > 0 {
        "## Active Workers\n"@ + memory_worker_lines(agents, tasks) + seq!['\n']
    } else {
        Seq::<char>::empty()
    }) + "## Manager\n"@ + (if manager_running {
        "- Status: Running\n"@
    } else {
        "- Status: Not running\n"@
    }) + seq!['\n'] + (if manager_running && context.len() > 0 {
        "## Manager's Recent Context\n"@ + memory_context_lines(context) + seq!['\n']
    } else {
        Seq::<char>::empty()
    })
}

fn append_project_lines(out: &mut String, projects: &Vec<Project>)
    ensures
        final(out)@ == old(out)@ + memory_project_lines(projects@),
{
    let ghost base = out@;
    let mut i: usize = 0;
    proof {
        assert(memory_project_lines(projects@.take(0)) =~= Seq::<char>::empty());
        assert(out@ =~= base + memory_project_lines(projects@.take(0)));
    }
    while i < projects.len()
        invariant
            i <= projects@.len(),
            out@ == base + memory_project_lines(projects@.take(i as int)),
        decreases projects@.len() - i,
    {
        let digits = crate::text::u64_to_string(projects[i].id as u64);
        out.append(digits.as_str());
        out.append(". ");
        out.append(projects[i].name.as_str());
        out.append("\n");
        i = i + 1;
        proof {
            reveal_strlit(". ");
            reveal_strlit("\n");
            assert(". "@ =~= seq!['.', ' ']);
            assert("\n"@ =~= seq!['\n']);
            assert(projects@.take(i as int).drop_last() =~= projects@.take(i - 1));
            assert(projects@.take(i as int).last() == projects@[i - 1]);
            assert(out@ =~= base + memory_project_lines(projects@.take(i as int)));
        }
    }
    proof {
        assert(projects@.take(projects@.len() as int) =~= projects@);
    }
}

fn append_worker_lines(out: &mut String, agents: &Vec<AgentInfo>, tasks: &Vec<(String, String)>)
    ensures
        final(out)@ == old(out)@ + memory_worker_lines(agents@, tasks@),
{
    let ghost base = out@;
    let mut i: usize = 0;
    proof {
        assert(memory_worker_lines(agents@.take(0), tasks@) =~= Seq::<char>::empty());
        assert(out@ =~= base + memory_worker_lines(agents@.take(0), tasks@));
    }
    while i < agents.len()
        invariant
            i <= agents@.len(),
            out@ == base + memory_worker_lines(agents@.take(i as int), tasks@),
        decreases agents@.len() - i,
    {
        out.append("- ");
        out.append(agents[i].session.name.as_str());
        out.append(" (");
        out.append(agents[i].health.as_str());
        out.append("): ");
        let task = crate::hierarchy::lookup_parent(tasks, agents[i].session.name.as_str());
        match task {
            Some(t) => {
                out.append(t.as_str());
            },
            None => {
                out.append("(no task assigned)");
            },
        }
        out.append("\n");
        i = i + 1;
        proof {
            reveal_strlit("\n");
            assert("\n"@ =~= seq!['\n']);
            assert(agents@.take(i as int).drop_last() =~= agents@.take(i - 1));
            assert(agents@.take(i as int).last() == agents@[i - 1]);
            assert(out@ =~= base + memory_worker_lines(agents@.take(i as int), tasks@));
        }
    }
    proof {
        assert(agents@.take(agents@.len() as int) =~= agents@);
    }
}

fn append_context_lines(out: &mut String, context: &Vec<String>)
    ensures
        final(out)@ == old(out)@ + memory_context_lines(context.deep_view()),
{
    let ghost base = out@;
    let ghost cv = context.deep_view();
    let mut i: usize = 0;
    proof {
        assert(memory_context_lines(cv.take(0)) =~= Seq::<char>::empty());
        assert(out@ =~= base + memory_context_lines(cv.take(0)));
    }
    while i < context.len()
        invariant
            i <= context@.len(),
            cv == context.deep_view(),
            cv.len() == context@.len(),
            out@ == base + memory_context_lines(cv.take(i as int)),
        decreases context@.len() - i,
    {
        out.append("> ");
        out.append(context[i].as_str());
        out.append("\n");
        i = i + 1;
        proof {
            reveal_strlit("\n");
            assert("\n"@ =~= seq!['\n']);
            assert(cv[i - 1] == context@[i - 1]@);
            assert(cv.take(i as int).drop_last() =~= cv.take(i - 1));
            assert(cv.take(i as int).last() == cv[i - 1]);
            assert(out@ =~= base + memory_context_lines(cv.take(i as int)));
        }
    }
    proof {
        assert(cv.take(cv.len() as int) =~= cv);
    }
}

/// The text injected into a fresh root session when a saved snapshot
/// exists: a fixed header ahead of the snapshot itself.
pub open spec fn memory_injection_spec(snapshot: Seq<char>) -> Seq<char> {
    "Here is the current OMAR state from your last session:\n\n"@ + snapshot
}

/// Builds the snapshot injection for a restarted root agent.
pub fn build_memory_injection(snapshot: &str) -> (r: String)
    ensures
        r@ == memory_injection_spec(snapshot@),
{
    let mut r = "Here is the current OMAR state from your last session:\n\n".to_owned();
    r.append(snapshot);
    r
}

/// Renders the memory snapshot that lets a restarted root agent resume.
pub fn render_memory(
    projects: &Vec<Project>,
    agents: &Vec<AgentInfo>,
    tasks: &Vec<(String, String)>,
    manager_running: bool,
    context: &Vec<String>,
) -> (r: String)
    ensures
        r@ == memory_spec(projects@, agents@, tasks@, manager_running, context.deep_view()),
{
    let mut out = "# OMAR State\n\n".to_owned();
    if projects.len() > 0 {
        out.append("## Active Projects\n");
        append_project_lines(&mut out, projects);
        out.append("\n");
    }
    if agents.len() > 0 {
        out.append("## Active Workers\n");
        append_worker_lines(&mut out, agents, tasks);
        out.append("\n");
    }
    out.append("## Manager\n");
    if manager_running {
        out.append("- Status: Running\n");
    } else {
        out.append("- Status: Not running\n");
    }
    out.append("\n");
    if manager_running && context.len() > 0 {
        out.append("## Manager's Recent Context\n");
        append_context_lines(&mut out, context);
        out.append("\n");
    }
    proof {
        reveal_strlit("\n");
        assert("\n"@ =~= seq!['\n']);
        assert(out@ =~= memory_spec(
            projects@,
            agents@,
            tasks@,
            manager_running,
            context.deep_view(),
        ));
    }
    out
}

} // verus!
