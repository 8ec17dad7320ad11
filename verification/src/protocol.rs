//! The message shapes spoken between the root agent and the supervisor,
//! and the scan that digs a message's JSON text out of captured pane
//! output: a fenced block when one is present, else the span from the
//! first opening brace to the last closing one.

use vstd::prelude::*;

use crate::text::{chars_of, string_of, trim_chars, trim_spec};

verus! {

/// A proposed agent inside a plan.
pub struct ProposedAgent {
    pub name: String,
    pub role: String,
    pub task: String,
    pub depends_on: Vec<String>,
}

/// A plan proposed by the root agent.
pub struct Plan {
    pub msg_type: String,
    pub description: String,
    pub agents: Vec<ProposedAgent>,
}

/// A message from the root agent to the supervisor.
pub enum ManagerMessage {
    Plan { description: String, agents: Vec<ProposedAgent> },
    Send { target: String, message: String },
    Query { target: String },
    Complete { summary: String },
}

/// A message from the supervisor to the root agent.
pub enum OmarMessage {
    PlanApproved { modifications: Vec<String> },
    PlanRejected { reason: String },
    Status { agent: String, state: String, last_output: String },
    AgentComplete { agent: String, summary: String },
    AgentBlocked { agent: String, reason: String },
}

/// The position of the first occurrence of the needle, if any.
pub open spec fn find_sub_spec(h: Seq<char>, n: Seq<char>) -> Option<int>
    decreases h.len(),
{
    if n.len() <= h.len() && h.subrange(0, n.len() as int) == n {
        Some(0)
    } else if h.len() == 0 {
        None
    } else {
        match find_sub_spec(h.skip(1), n) {
            Some(i) => Some(i + 1),
            None => None,
        }
    }
}

/// The position of the first occurrence of the character, if any.
pub open spec fn find_char_spec(h: Seq<char>, c: char) -> Option<int>
    decreases h.len(),
{
    if h.len() == 0 {
        None
    } else if h[0] == c {
        Some(0)
    } else {
        match find_char_spec(h.skip(1), c) {
            Some(i) => Some(i + 1),
            None => None,
        }
    }
}

/// The position of the last occurrence of the character, if any.
pub open spec fn rfind_char_spec(h: Seq<char>, c: char) -> Option<int>
    decreases h.len(),
{
    if h.len() == 0 {
        None
    } else if h.last() == c {
        Some(h.len() - 1)
    } else {
        rfind_char_spec(h.drop_last(), c)
    }
}

proof fn lemma_find_sub_bounds(h: Seq<char>, n: Seq<char>)
    ensures
        match find_sub_spec(h, n) {
            Some(i) => 0 <= i && i + n.len() <= h.len() && h.subrange(i, i + n.len() as int) == n,
            None => true,
        },
    decreases h.len(),
{
    if n.len() <= h.len() && h.subrange(0, n.len() as int) == n {
    } else if h.len() == 0 {
    } else {
        lemma_find_sub_bounds(h.skip(1), n);
        match find_sub_spec(h.skip(1), n) {
            Some(i) => {
                assert(h.skip(1).subrange(i, i + n.len() as int) =~= h.subrange(
                    i + 1,
                    i + 1 + n.len() as int,
                ));
            },
            None => {},
        }
    }
}

fn find_sub(h: &Vec<char>, n: &Vec<char>) -> (r: Option<usize>)
    ensures
        match r {
            Some(i) => find_sub_spec(h@, n@) == Some(i as int),
            None => find_sub_spec(h@, n@) is None,
        },
{
    let hn: usize = h.len();
    let nn: usize = n.len();
    if nn > hn {
        proof {
            lemma_find_sub_none(h@, n@);
        }
        return None;
    }
    let mut i: usize = 0;
    proof {
        assert(h@.skip(0) =~= h@);
    }
    while i <= hn - nn
        invariant
            i <= hn,
            hn == h@.len(),
            nn == n@.len(),
            nn <= hn,
            find_sub_spec(h@, n@) == (match find_sub_spec(h@.skip(i as int), n@) {
                Some(k) => Some(k + i),
                None => None,
            }),
        decreases hn - nn - i + 1,
    {
        let mut j: usize = 0;
        let mut matches = true;
        while j < nn
            invariant
                j <= nn,
                i + nn <= hn,
                hn == h@.len(),
                nn == n@.len(),
                matches == (h@.subrange(i as int, i + j) =~= n@.subrange(0, j as int)),
            decreases nn - j,
        {
            let ghost before = matches;
            if h[i + j] != n[j] {
                matches = false;
            }
            j = j + 1;
            proof {
                let a = h@.subrange(i as int, i + j);
                let b = n@.subrange(0, j as int);
                assert(a.drop_last() =~= h@.subrange(i as int, i + j - 1));
                assert(b.drop_last() =~= n@.subrange(0, j - 1));
                assert(a.last() == h@[i + j - 1]);
                assert(b.last() == n@[j - 1]);
                if before && h@[i + j - 1] == n@[j - 1] {
                    assert(a =~= b);
                } else {
                    assert(a != b) by {
                        if a == b {
                            assert(a.drop_last() == b.drop_last());
                            assert(a.last() == b.last());
                        }
                    }
                }
            }
        }
        proof {
            assert(h@.skip(i as int).subrange(0, nn as int) =~= h@.subrange(i as int, i + nn));
            assert(n@.subrange(0, nn as int) =~= n@);
        }
        if matches {
            proof {
                assert(find_sub_spec(h@.skip(i as int), n@) == Some(0int));
            }
            return Some(i);
        }
        i = i + 1;
        proof {
            assert(h@.skip(i - 1).len() > 0) by {
                assert(i - 1 + nn <= hn);
            }
            assert(h@.skip(i - 1).skip(1) =~= h@.skip(i as int));
        }
    }
    proof {
        lemma_find_sub_none(h@.skip(i as int), n@);
    }
    None
}

proof fn lemma_find_sub_none(h: Seq<char>, n: Seq<char>)
    requires
        h.len() < n.len(),
    ensures
        find_sub_spec(h, n) is None,
    decreases h.len(),
{
    if h.len() > 0 {
        lemma_find_sub_none(h.skip(1), n);
    }
}

/// Bounds of a found character position.
pub proof fn lemma_find_char_bounds(h: Seq<char>, c: char)
    ensures
        match find_char_spec(h, c) {
            Some(i) => 0 <= i < h.len() && h[i] == c,
            None => true,
        },
    decreases h.len(),
{
    if h.len() > 0 && h[0] != c {
        lemma_find_char_bounds(h.skip(1), c);
        match find_char_spec(h.skip(1), c) {
            Some(i) => {
                assert(h.skip(1)[i] == h[i + 1]);
            },
            None => {},
        }
    }
}

/// Finds the first occurrence of a character among the given ones.
pub fn find_char_in(h: &Vec<char>, c: char) -> (r: Option<usize>)
    ensures
        match r {
            Some(i) => find_char_spec(h@, c) == Some(i as int),
            None => find_char_spec(h@, c) is None,
        },
{
    let mut i: usize = 0;
    proof {
        assert(h@.skip(0) =~= h@);
    }
    while i < h.len()
        invariant
            i <= h@.len(),
            find_char_spec(h@, c) == (match find_char_spec(h@.skip(i as int), c) {
                Some(k) => Some(k + i),
                None => None,
            }),
        decreases h@.len() - i,
    {
        proof {
            assert(h@.skip(i as int)[0] == h@[i as int]);
            assert(h@.skip(i as int).skip(1) =~= h@.skip(i + 1));
        }
        if h[i] == c {
            return Some(i);
        }
        i = i + 1;
    }
    None
}

fn rfind_char_at(h: &Vec<char>, c: char) -> (r: Option<usize>)
    ensures
        match r {
            Some(i) => rfind_char_spec(h@, c) == Some(i as int),
            None => rfind_char_spec(h@, c) is None,
        },
{
    let mut i: usize = h.len();
    proof {
        assert(h@.take(h@.len() as int) =~= h@);
    }
    while i > 0
        invariant
            i <= h@.len(),
            rfind_char_spec(h@, c) == rfind_char_spec(h@.take(i as int), c),
        decreases i,
    {
        proof {
            assert(h@.take(i as int).last() == h@[i - 1]);
            assert(h@.take(i as int).drop_last() =~= h@.take(i - 1));
        }
        if h[i - 1] == c {
            return Some(i - 1);
        }
        i = i - 1;
    }
    proof {
        assert(h@.take(0) =~= Seq::<char>::empty());
    }
    None
}

/// The JSON candidates hidden in captured output, in the order a reader
/// tries them: the trimmed text of a fenced block when one opens and
/// closes, then the span from the first opening brace to the last closing
/// one when both exist.
pub open spec fn json_candidates_spec(t: Seq<char>) -> Seq<Seq<char>> {
    (match find_sub_spec(t, "```json"@) {
        Some(st) => {
            let js = st + "```json"@.len();
            match find_sub_spec(t.skip(js), "```"@) {
                Some(e) => seq![trim_spec(t.subrange(js, js + e))],
                None => Seq::<Seq<char>>::empty(),
            }
        },
        None => Seq::<Seq<char>>::empty(),
    }) + (match (find_char_spec(t, '{'), rfind_char_spec(t, '}')) {
        (Some(a), Some(b)) => if a <= b {
            seq![t.subrange(a, b + 1)]
        } else {
            Seq::<Seq<char>>::empty()
        },
        _ => Seq::<Seq<char>>::empty(),
    })
}

/// Scans captured output for the JSON texts that may carry a message from
/// the root agent, in the order they should be tried.
pub fn json_candidates(text: &str) -> (r: Vec<String>)
    ensures
        r.deep_view() == json_candidates_spec(text@),
{
    let cs = chars_of(text);
    let total: usize = cs.len();
    proof {
        assert(cs@.len() == total);
    }
    let fence = chars_of("```json");
    let close = chars_of("```");
    let mut r: Vec<String> = Vec::new();
    let ghost first_part = match find_sub_spec(cs@, "```json"@) {
        Some(st) => {
            let js = st + "```json"@.len();
            match find_sub_spec(cs@.skip(js), "```"@) {
                Some(e) => seq![trim_spec(cs@.subrange(js, js + e))],
                None => Seq::<Seq<char>>::empty(),
            }
        },
        None => Seq::<Seq<char>>::empty(),
    };
    match find_sub(&cs, &fence) {
        Some(st) => {
            proof {
                lemma_find_sub_bounds(cs@, "```json"@);
                reveal_strlit("```json");
                assert("```json"@.len() == 7);
                assert(st + 7 <= cs@.len());
            }
            let js = st + 7;
            let mut rest: Vec<char> = Vec::new();
            let mut k: usize = js;
            while k < cs.len()
                invariant
                    js <= k <= cs@.len(),
                    rest@ == cs@.subrange(js as int, k as int),
                decreases cs@.len() - k,
            {
                rest.push(cs[k]);
                k = k + 1;
                proof {
                    assert(rest@ =~= cs@.subrange(js as int, k as int));
                }
            }
            proof {
                assert(rest@ =~= cs@.skip(js as int));
            }
            match find_sub(&rest, &close) {
                Some(e) => {
                    proof {
                        lemma_find_sub_bounds(rest@, "```"@);
                        reveal_strlit("```");
                    }
                    let mut body: Vec<char> = Vec::new();
                    let mut k2: usize = 0;
                    while k2 < e
                        invariant
                            k2 <= e,
                            js + e <= cs@.len(),
                            body@ == rest@.subrange(0, k2 as int),
                            rest@ == cs@.skip(js as int),
                            js <= cs@.len(),
                        decreases e - k2,
                    {
                        body.push(rest[k2]);
                        k2 = k2 + 1;
                        proof {
                            assert(body@ =~= rest@.subrange(0, k2 as int));
                        }
                    }
                    proof {
                        assert(body@ =~= cs@.subrange(js as int, js + e));
                    }
                    let trimmed = trim_chars(&body);
                    r.push(string_of(&trimmed));
                    proof {
                        assert(r.deep_view() =~= first_part);
                    }
                },
                None => {
                    proof {
                        assert(r.deep_view() =~= first_part);
                    }
                },
            }
        },
        None => {
            proof {
                assert(r.deep_view() =~= first_part);
            }
        },
    }
    let ghost with_first = r.deep_view();
    let a = find_char_in(&cs, '{');
    let b = rfind_char_at(&cs, '}');
    match (a, b) {
        (Some(ai), Some(bi)) => {
            if ai <= bi {
                proof {
                    lemma_rfind_bounds(cs@, '}');
                }
                let mut span: Vec<char> = Vec::new();
                let mut k: usize = ai;
                while k <= bi
                    invariant
                        ai <= k <= bi + 1,
                        bi < total,
                        total == cs@.len(),
                        span@ == cs@.subrange(ai as int, k as int),
                    decreases bi + 1 - k,
                {
                    span.push(cs[k]);
                    k = k + 1;
                    proof {
                        assert(span@ =~= cs@.subrange(ai as int, k as int));
                    }
                }
                r.push(string_of(&span));
                proof {
                    assert(r.deep_view() =~= with_first.push(cs@.subrange(ai as int, bi + 1)));
                    assert(r.deep_view() =~= json_candidates_spec(text@));
                }
            } else {
                proof {
                    assert(r.deep_view() =~= json_candidates_spec(text@));
                }
            }
        },
        _ => {
            proof {
                assert(r.deep_view() =~= json_candidates_spec(text@));
            }
        },
    }
    r
}

/// The briefing injected into a freshly spawned worker of an approved
/// plan: its role, its task, and the fixed working instructions.
pub open spec fn worker_context_spec(role: Seq<char>, task: Seq<char>) -> Seq<char> {
    "You are a Worker Agent in the OMA system.\n\nYOUR ROLE: "@ + role + "\nYOUR TASK: "@ + task
        + "\n\nINSTRUCTIONS:\n- Focus ONLY on your assigned task\n- Work independently but be aware others are working in parallel\n- When you complete your task, say: [TASK COMPLETE]\n- If you're blocked, say: [BLOCKED: reason]\n- If you need clarification, say: [NEED INPUT: question]\n\nBegin working on your task now.\n"@
}

/// Builds the briefing text for one spawned worker.
pub fn build_worker_context(role: &str, task: &str) -> (r: String)
    ensures
        r@ == worker_context_spec(role@, task@),
{
    let mut r = "You are a Worker Agent in the OMA system.\n\nYOUR ROLE: ".to_owned();
    r.append(role);
    r.append("\nYOUR TASK: ");
    r.append(task);
    r.append(
        "\n\nINSTRUCTIONS:\n- Focus ONLY on your assigned task\n- Work independently but be aware others are working in parallel\n- When you complete your task, say: [TASK COMPLETE]\n- If you're blocked, say: [BLOCKED: reason]\n- If you need clarification, say: [NEED INPUT: question]\n\nBegin working on your task now.\n",
    );
    r
}

proof fn lemma_rfind_bounds(h: Seq<char>, c: char)
    ensures
        match rfind_char_spec(h, c) {
            Some(i) => 0 <= i < h.len() && h[i] == c,
            None => true,
        },
    decreases h.len(),
{
    if h.len() > 0 && h.last() != c {
        lemma_rfind_bounds(h.drop_last(), c);
    }
}

} // verus!
