//! Sessions as the multiplexer reports them, and the client-side parsing
//! of its list output: one session per line, `name|activity|attached|pid`.
//! Lines that do not carry four well-formed fields are ignored.

use vstd::prelude::*;

use crate::projects::is_digit_char;
use crate::text::{chars_of, split_char, split_spec, str_eq};

verus! {

/// One live session as the multiplexer lists it.
pub struct Session {
    pub name: String,
    pub activity: i64,
    pub attached: bool,
    pub pane_pid: u32,
}

impl Session {
    /// Packs the four listed attributes of a session.
    pub fn new(name: String, activity: i64, attached: bool, pane_pid: u32) -> (r: Session)
        ensures
            r.name == name,
            r.activity == activity,
            r.attached == attached,
            r.pane_pid == pane_pid,
    {
        Session { name, activity, attached, pane_pid }
    }
}

impl Clone for Session {
    fn clone(&self) -> (r: Self)
        ensures
            r == *self,
    {
        Session {
            name: self.name.clone(),
            activity: self.activity,
            attached: self.attached,
            pane_pid: self.pane_pid,
        }
    }
}

/// A session's attributes as specification values.
pub open spec fn session_view(s: Session) -> (Seq<char>, int, bool, int) {
    (s.name@, s.activity as int, s.attached, s.pane_pid as int)
}

/// The client of the session multiplexer, as far as the library sees it:
/// it carries the configured session prefix. The process that actually
/// invokes the multiplexer hands its output to the parsing functions here.
pub struct TmuxClient {
    prefix: String,
}

impl View for TmuxClient {
    type V = Seq<char>;

    closed spec fn view(&self) -> Seq<char> {
        self.prefix@
    }
}

impl TmuxClient {
    /// A client owning sessions under the given prefix.
    pub fn new(prefix: &str) -> (r: TmuxClient)
        ensures
            r@ == prefix@,
    {
        TmuxClient { prefix: prefix.to_owned() }
    }

    /// The configured session prefix.
    pub fn prefix(&self) -> (r: &str)
        ensures
            r@ == self@,
    {
        self.prefix.as_str()
    }
}

impl Clone for TmuxClient {
    fn clone(&self) -> (r: Self)
        ensures
            r == *self,
    {
        TmuxClient { prefix: self.prefix.clone() }
    }
}

/// The numeric value of a digit character; zero on any other character.
pub open spec fn digit_val(c: char) -> int {
    if c == '1' {
        1
    } else if c == '2' {
        2
    } else if c == '3' {
        3
    } else if c == '4' {
        4
    } else if c == '5' {
        5
    } else if c == '6' {
        6
    } else if c == '7' {
        7
    } else if c == '8' {
        8
    } else if c == '9' {
        9
    } else {
        0
    }
}

/// The value of a digit string read in base ten.
pub open spec fn digits_val(s: Seq<char>) -> int
    decreases s.len(),
{
    if s.len() == 0 {
        0
    } else {
        digits_val(s.drop_last()) * 10 + digit_val(s.last())
    }
}

proof fn lemma_digits_val_nonneg(s: Seq<char>)
    ensures
        digits_val(s) >= 0,
    decreases s.len(),
{
    if s.len() > 0 {
        lemma_digits_val_nonneg(s.drop_last());
    }
}

proof fn lemma_digits_val_mono(s: Seq<char>, i: int)
    requires
        0 <= i <= s.len(),
    ensures
        digits_val(s.take(i)) <= digits_val(s),
    decreases s.len() - i,
{
    if i == s.len() {
        assert(s.take(i) =~= s);
    } else {
        lemma_digits_val_mono(s, i + 1);
        assert(s.take(i + 1).drop_last() =~= s.take(i));
        lemma_digits_val_nonneg(s.take(i));
    }
}

/// What a numeric field means: the value of a non-empty all-digit string
/// that fits in a 64-bit unsigned number; anything else has no value.
pub open spec fn parse_u64_spec(s: Seq<char>) -> Option<int> {
    if s.len() >= 1 && (forall|i: int| 0 <= i < s.len() ==> is_digit_char(s[i])) && digits_val(s)
        <= u64::MAX {
        Some(digits_val(s))
    } else {
        None
    }
}

fn digit_value(c: char) -> (d: u64)
    ensures
        d == digit_val(c),
        d < 10,
{
    if c == '1' {
        1
    } else if c == '2' {
        2
    } else if c == '3' {
        3
    } else if c == '4' {
        4
    } else if c == '5' {
        5
    } else if c == '6' {
        6
    } else if c == '7' {
        7
    } else if c == '8' {
        8
    } else if c == '9' {
        9
    } else {
        0
    }
}

/// Reads a non-empty all-digit string as an unsigned number; reports
/// nothing on any other shape or on overflow.
pub fn parse_u64(s: &str) -> (r: Option<u64>)
    ensures
        match r {
            Some(v) => parse_u64_spec(s@) == Some(v as int),
            None => parse_u64_spec(s@) is None,
        },
{
    let cs = chars_of(s);
    let n: usize = cs.len();
    if n == 0 {
        return None;
    }
    let mut val: u64 = 0;
    let mut i: usize = 0;
    while i < n
        invariant
            i <= n,
            n == cs@.len(),
            cs@ == s@,
            n >= 1,
            forall|j: int| 0 <= j < i ==> is_digit_char(cs@[j]),
            val as int == digits_val(cs@.take(i as int)),
        decreases n - i,
    {
        let c = cs[i];
        if !crate::projects::is_digit(c) {
            return None;
        }
        let d = digit_value(c);
        let wide: u128 = (val as u128) * 10 + (d as u128);
        proof {
            assert(cs@.take(i + 1).drop_last() =~= cs@.take(i as int));
            assert(cs@.take(i + 1).last() == cs@[i as int]);
            assert(wide as int == digits_val(cs@.take(i + 1)));
        }
        if wide > u64::MAX as u128 {
            proof {
                lemma_digits_val_mono(cs@, i + 1);
            }
            return None;
        }
        val = wide as u64;
        i = i + 1;
    }
    proof {
        assert(cs@.take(n as int) =~= cs@);
    }
    Some(val)
}

/// The session carried by one line of the list output: four fields split
/// by `|`, with a numeric activity timestamp that fits a signed 64-bit
/// number, an attached flag that is `1` or anything else, and a numeric
/// pane pid that fits 32 bits. Other lines carry nothing.
pub open spec fn line_session(line: Seq<char>) -> Option<(Seq<char>, int, bool, int)> {
    let fields = split_spec(line, '|');
    if fields.len() == 4 {
        match (parse_u64_spec(fields[1]), parse_u64_spec(fields[3])) {
            (Some(act), Some(pid)) => {
                if act <= i64::MAX && pid <= u32::MAX {
                    Some((fields[0], act, fields[2] == seq!['1'], pid))
                } else {
                    None
                }
            },
            _ => None,
        }
    } else {
        None
    }
}

fn session_of_line(line: &str) -> (r: Option<Session>)
    ensures
        match r {
            Some(s) => line_session(line@) == Some(session_view(s)),
            None => line_session(line@) is None,
        },
{
    let fields = split_char(line, '|');
    let ghost fv = fields.deep_view();
    if fields.len() != 4 {
        return None;
    }
    proof {
        assert(fv[0] == fields@[0]@);
        assert(fv[1] == fields@[1]@);
        assert(fv[2] == fields@[2]@);
        assert(fv[3] == fields@[3]@);
    }
    let act = match parse_u64(fields[1].as_str()) {
        Some(v) => v,
        None => {
            return None;
        },
    };
    let pid = match parse_u64(fields[3].as_str()) {
        Some(v) => v,
        None => {
            return None;
        },
    };
    if act > i64::MAX as u64 || pid > u32::MAX as u64 {
        return None;
    }
    let attached = str_eq(fields[2].as_str(), "1");
    proof {
        reveal_strlit("1");
        assert("1"@ =~= seq!['1']);
    }
    let name = fields[0].clone();
    proof {
        assert(name@ == fv[0]);
    }
    Some(Session { name, activity: act as i64, attached, pane_pid: pid as u32 })
}

/// The accepted session of a line that begins with the prefix, as a value
/// for `filter_map`.
pub open spec fn prefixed_line_fn(prefix: Seq<char>) -> spec_fn(Seq<char>) -> Option<
    (Seq<char>, int, bool, int),
> {
    |l: Seq<char>|
        if prefix.is_prefix_of(l) {
            line_session(l)
        } else {
            None
        }
}

/// The sessions listed in the output whose lines begin with the prefix,
/// in order. An empty prefix keeps every well-formed line.
pub open spec fn sessions_spec(output: Seq<char>, prefix: Seq<char>) -> Seq<
    (Seq<char>, int, bool, int),
> {
    split_spec(output, '\n').filter_map(prefixed_line_fn(prefix))
}

/// Parses the multiplexer's list output, keeping the sessions whose lines
/// begin with the prefix.
pub fn parse_sessions_output(output: &str, prefix: &str) -> (r: Vec<Session>)
    ensures
        r@.map_values(|s: Session| session_view(s)) == sessions_spec(output@, prefix@),
{
    let ghost f = prefixed_line_fn(prefix@);
    let lines = split_char(output, '\n');
    let ghost dv = lines.deep_view();
    let mut r: Vec<Session> = Vec::new();
    let mut i: usize = 0;
    proof {
        assert(dv.take(0).filter_map(f) =~= Seq::<(Seq<char>, int, bool, int)>::empty());
        assert(r@.map_values(|s: Session| session_view(s)) =~= dv.take(0).filter_map(f));
    }
    while i < lines.len()
        invariant
            i <= lines@.len(),
            f == prefixed_line_fn(prefix@),
            dv == split_spec(output@, '\n'),
            dv == lines.deep_view(),
            dv.len() == lines@.len(),
            r@.map_values(|s: Session| session_view(s)) == dv.take(i as int).filter_map(f),
        decreases lines@.len() - i,
    {
        proof {
            assert(dv[i as int] == lines@[i as int]@);
            dv.lemma_filter_map_take_succ(f, i as int);
        }
        let ghost old_view = r@.map_values(|s: Session| session_view(s));
        let ghost cur = dv.take(i + 1).filter_map(f);
        let keep = crate::text::str_starts_with(lines[i].as_str(), prefix);
        if keep {
            let parsed = session_of_line(lines[i].as_str());
            match parsed {
                Some(session) => {
                    let ghost sv = session_view(session);
                    r.push(session);
                    proof {
                        assert(f(dv[i as int]) == Some(sv));
                        assert(cur == old_view + seq![sv]);
                        assert(r@.map_values(|s: Session| session_view(s)) =~= old_view + seq![
                            sv,
                        ]);
                    }
                },
                None => {
                    proof {
                        assert(f(dv[i as int]) is None);
                        assert(cur == old_view + Seq::<(Seq<char>, int, bool, int)>::empty());
                        assert(r@.map_values(|s: Session| session_view(s)) =~= cur);
                    }
                },
            }
        } else {
            proof {
                assert(f(dv[i as int]) is None);
                assert(cur == old_view + Seq::<(Seq<char>, int, bool, int)>::empty());
                assert(r@.map_values(|s: Session| session_view(s)) =~= cur);
            }
        }
        i = i + 1;
        proof {
            assert(dv.take(i as int).filter_map(f) == cur);
        }
    }
    proof {
        assert(dv.take(dv.len() as int) =~= dv);
    }
    r
}

/// Whether the needle occurs somewhere inside the haystack.
pub open spec fn contains_seq(h: Seq<char>, n: Seq<char>) -> bool {
    exists|i: int| 0 <= i && i + n.len() <= h.len() && #[trigger] h.subrange(i, i + n.len()) == n
}

/// Whether one string occurs inside another.
pub fn str_contains(h: &str, n: &str) -> (r: bool)
    ensures
        r == contains_seq(h@, n@),
{
    let hc = chars_of(h);
    let nc = chars_of(n);
    let hn: usize = hc.len();
    let nn: usize = nc.len();
    if nn > hn {
        proof {
            if contains_seq(h@, n@) {
                let i = choose|i: int|
                    0 <= i && i + n@.len() <= h@.len() && #[trigger] h@.subrange(i, i + n@.len())
                        == n@;
            }
        }
        return false;
    }
    let mut i: usize = 0;
    while i <= hn - nn
        invariant
            nn <= hn,
            hn == hc@.len(),
            nn == nc@.len(),
            hc@ == h@,
            nc@ == n@,
            i <= hn - nn + 1,
            forall|a: int| 0 <= a < i ==> #[trigger] h@.subrange(a, a + n@.len()) != n@,
        decreases hn + 1 - nn - i,
    {
        let mut j: usize = 0;
        let mut matches = true;
        while j < nn
            invariant
                j <= nn,
                i + nn <= hn,
                hn == hc@.len(),
                nn == nc@.len(),
                hc@ == h@,
                nc@ == n@,
                matches == (h@.subrange(i as int, i + j) =~= n@.subrange(0, j as int)),
            decreases nn - j,
        {
            let ghost before = matches;
            if hc[i + j] != nc[j] {
                matches = false;
            }
            j = j + 1;
            proof {
                let a = h@.subrange(i as int, i + j);
                let b = n@.subrange(0, j as int);
                assert(a.drop_last() =~= h@.subrange(i as int, i + j - 1));
                assert(b.drop_last() =~= n@.subrange(0, j - 1));
                assert(a.last() == h@[i + j - 1]);
                assert(b.last() == n@[j - 1]);
                if before && hc@[i + j - 1] == nc@[j - 1] {
                    assert(a =~= b);
                } else {
                    assert(a != b) by {
                        if a == b {
                            assert(a.drop_last() == b.drop_last());
                            assert(a.last() == b.last());
                        }
                    }
                }
            }
        }
        if matches {
            proof {
                assert(n@.subrange(0, nn as int) =~= n@);
                assert(h@.subrange(i as int, i + nn) == n@);
            }
            return true;
        }
        i = i + 1;
    }
    proof {
        if contains_seq(h@, n@) {
            let a = choose|a: int|
                0 <= a && a + n@.len() <= h@.len() && #[trigger] h@.subrange(a, a + n@.len())
                    == n@;
            assert(h@.subrange(a, a + n@.len()) != n@);
        }
    }
    false
}

/// Whether the multiplexer's complaint on a list call only means that
/// nothing is running: such output stands for an empty session list.
pub fn is_benign_list_error(stderr: &str) -> (r: bool)
    ensures
        r == (contains_seq(stderr@, "no server running"@) || contains_seq(
            stderr@,
            "no sessions"@,
        )),
{
    str_contains(stderr, "no server running") || str_contains(stderr, "no sessions")
}

} // verus!
