//! The liveness engine. Each owned session is classified as running or
//! idle by frame difference: a session whose captured pane tail changed
//! since the last look is running, one whose tail is unchanged is idle, and
//! a session seen for the first time is running. A timestamp comparison
//! serves as the fallback classifier when pane capture is unavailable.

use vstd::prelude::*;

use crate::text::{
    clip_spec, clip_str, dec_spec, i64_to_string, int_dec_spec, push_char, split_char, split_spec,
    str_eq, trim_spec, trim_str,
};

verus! {

/// Liveness of one session: actively producing output, or quiet.
#[derive(Debug, Clone, Copy, PartialEq, Eq, Structural)]
pub enum HealthState {
    /// The session's pane changed since the previous look.
    Running,
    /// The session's pane is unchanged.
    Idle,
}

/// The API label of a health state.
pub open spec fn health_label(h: HealthState) -> Seq<char> {
    match h {
        HealthState::Running => "running"@,
        HealthState::Idle => "idle"@,
    }
}

/// The dashboard glyph of a health state.
pub open spec fn health_icon(h: HealthState) -> Seq<char> {
    match h {
        HealthState::Running => "●"@,
        HealthState::Idle => "○"@,
    }
}

/// The coloured glyph of a health state.
pub open spec fn health_icon_colored(h: HealthState) -> Seq<char> {
    match h {
        HealthState::Running => "🟢"@,
        HealthState::Idle => "🟡"@,
    }
}

impl HealthState {
    /// The label used by the HTTP surface for this state.
    pub fn as_str(&self) -> (r: &'static str)
        ensures
            r@ == health_label(*self),
    {
        match self {
            HealthState::Running => "running",
            HealthState::Idle => "idle",
        }
    }

    /// The plain glyph shown next to an agent.
    pub fn icon(&self) -> (r: &'static str)
        ensures
            r@ == health_icon(*self),
    {
        match self {
            HealthState::Running => "●",
            HealthState::Idle => "○",
        }
    }

    /// The coloured glyph shown next to an agent.
    pub fn icon_colored(&self) -> (r: &'static str)
        ensures
            r@ == health_icon_colored(*self),
    {
        match self {
            HealthState::Running => "🟢",
            HealthState::Idle => "🟡",
        }
    }
}

/// What one classification reports: the state, how long the session has
/// been quiet, and the rightmost line of its pane.
pub struct HealthInfo {
    pub state: HealthState,
    pub idle_seconds: i64,
    pub last_output: String,
}

impl Clone for HealthInfo {
    fn clone(&self) -> (r: Self)
        ensures
            r == *self,
    {
        HealthInfo {
            state: self.state,
            idle_seconds: self.idle_seconds,
            last_output: self.last_output.clone(),
        }
    }
}

/// The human-readable form of an idle duration: seconds below a minute,
/// whole minutes below an hour, whole hours beyond.
pub open spec fn idle_display_spec(secs: int) -> Seq<char> {
    if secs < 60 {
        int_dec_spec(secs) + seq!['s']
    } else if secs < 3600 {
        dec_spec(secs / 60) + seq!['m']
    } else {
        dec_spec(secs / 3600) + seq!['h']
    }
}

impl HealthInfo {
    /// Formats the idle time as a short human-readable duration.
    pub fn idle_display(&self) -> (r: String)
        ensures
            r@ == idle_display_spec(self.idle_seconds as int),
    {
        let secs = self.idle_seconds;
        if secs < 60 {
            let mut r = i64_to_string(secs);
            push_char(&mut r, 's');
            proof {
                assert(r@ =~= int_dec_spec(secs as int) + seq!['s']);
            }
            r
        } else if secs < 3600 {
            let mut r = i64_to_string(secs / 60);
            push_char(&mut r, 'm');
            proof {
                assert(secs / 60 >= 0);
                assert(r@ =~= dec_spec(secs as int / 60) + seq!['m']);
            }
            r
        } else {
            let mut r = i64_to_string(secs / 3600);
            push_char(&mut r, 'h');
            proof {
                assert(secs / 3600 >= 0);
                assert(r@ =~= dec_spec(secs as int / 3600) + seq!['h']);
            }
            r
        }
    }
}

/// The fallback classifier: a session is running exactly when its last
/// activity lies within the idle threshold of the present moment.
pub fn classify_by_activity(now: i64, last_activity: i64, idle_threshold: i64) -> (h: HealthState)
    requires
        now - last_activity <= i64::MAX,
        now - last_activity >= i64::MIN,
    ensures
        (h == HealthState::Running) <==> (now - last_activity < idle_threshold),
{
    if now - last_activity < idle_threshold {
        HealthState::Running
    } else {
        HealthState::Idle
    }
}

/// The mapping from session names to stored pane tails carried by a
/// sequence of entries; a later entry for the same name wins.
pub open spec fn frames_map(s: Seq<(String, String)>) -> Map<Seq<char>, Seq<char>>
    decreases s.len(),
{
    if s.len() == 0 {
        Map::empty()
    } else {
        frames_map(s.drop_last()).insert(s.last().0@, s.last().1@)
    }
}

/// Distinct session names across the entries.
pub open spec fn frames_unique(s: Seq<(String, String)>) -> bool {
    forall|i: int, j: int| 0 <= i < j < s.len() ==> s[i].0@ != s[j].0@
}

proof fn lemma_frames_map_dom(s: Seq<(String, String)>, k: Seq<char>)
    ensures
        frames_map(s).dom().contains(k) <==> exists|i: int| 0 <= i < s.len() && s[i].0@ == k,
    decreases s.len(),
{
    if s.len() == 0 {
    } else {
        lemma_frames_map_dom(s.drop_last(), k);
        if s.last().0@ == k {
            assert(s[s.len() - 1].0@ == k);
        } else if frames_map(s).dom().contains(k) {
            let i = choose|i: int| 0 <= i < s.drop_last().len() && s.drop_last()[i].0@ == k;
            assert(s[i].0@ == k);
        } else if exists|i: int| 0 <= i < s.len() && s[i].0@ == k {
            let i = choose|i: int| 0 <= i < s.len() && s[i].0@ == k;
            assert(s.drop_last()[i].0@ == k);
        }
    }
}

proof fn lemma_frames_map_index(s: Seq<(String, String)>, i: int)
    requires
        frames_unique(s),
        0 <= i < s.len(),
    ensures
        frames_map(s).dom().contains(s[i].0@),
        frames_map(s)[s[i].0@] == s[i].1@,
    decreases s.len(),
{
    if i == s.len() - 1 {
    } else {
        assert(s.drop_last()[i] == s[i]);
        lemma_frames_map_index(s.drop_last(), i);
        assert(s[i].0@ != s[s.len() - 1].0@);
    }
}

/// The frame-difference engine: for each session it keeps the pane tail
/// seen at the previous tick.
pub struct FrameTracker {
    frames: Vec<(String, String)>,
}

impl View for FrameTracker {
    type V = Map<Seq<char>, Seq<char>>;

    closed spec fn view(&self) -> Map<Seq<char>, Seq<char>> {
        frames_map(self.frames@)
    }
}

impl FrameTracker {
    /// The tracker's single well-formedness condition: one stored frame
    /// per session name.
    pub closed spec fn wf(&self) -> bool {
        frames_unique(self.frames@)
    }

    /// An empty tracker: no session has been observed yet.
    pub fn new() -> (r: FrameTracker)
        ensures
            r.wf(),
            r@ == Map::<Seq<char>, Seq<char>>::empty(),
    {
        FrameTracker { frames: Vec::new() }
    }

    /// One observation of one session: reports running exactly when the
    /// capture differs from the stored frame or the session is new, and
    /// stores the capture either way. The first observation of a session
    /// is always running.
    pub fn observe(&mut self, name: &str, capture: &str) -> (h: HealthState)
        requires
            old(self).wf(),
        ensures
            final(self).wf(),
            final(self)@ == old(self)@.insert(name@, capture@),
            (h == HealthState::Running) <==> (!old(self)@.dom().contains(name@) || old(
                self,
            )@[name@] != capture@),
    {
        let ghost olds = self.frames@;
        let n: usize = self.frames.len();
        let mut i: usize = 0;
        while i < n
            invariant
                i <= n,
                n == self.frames@.len(),
                self.frames@ == olds,
                olds == old(self).frames@,
                frames_unique(olds),
                forall|j: int| 0 <= j < i ==> olds[j].0@ != name@,
            decreases n - i,
        {
            if str_eq(self.frames[i].0.as_str(), name) {
                let changed = !str_eq(self.frames[i].1.as_str(), capture);
                self.frames.set(i, (name.to_owned(), capture.to_owned()));
                proof {
                    lemma_frames_map_index(olds, i as int);
                    lemma_frames_map_update(olds, i as int, name@, capture@);
                    assert forall|a: int, b: int|
                        0 <= a < b < self.frames@.len() implies self.frames@[a].0@
                        != self.frames@[b].0@ by {
                        assert(olds[a].0@ != olds[b].0@);
                    }
                }
                if changed {
                    return HealthState::Running;
                } else {
                    return HealthState::Idle;
                }
            }
            i = i + 1;
        }
        proof {
            lemma_frames_map_dom(olds, name@);
        }
        self.frames.push((name.to_owned(), capture.to_owned()));
        proof {
            assert(self.frames@.drop_last() =~= olds);
            assert forall|a: int, b: int|
                0 <= a < b < self.frames@.len() implies self.frames@[a].0@
                != self.frames@[b].0@ by {
                if b < olds.len() {
                    assert(olds[a].0@ != olds[b].0@);
                } else {
                    assert(self.frames@[b].0@ == name@);
                }
            }
        }
        HealthState::Running
    }

    /// Whether a frame is stored for the named session.
    pub fn has_frame(&self, name: &str) -> (r: bool)
        ensures
            r == self@.dom().contains(name@),
    {
        let n: usize = self.frames.len();
        let mut i: usize = 0;
        while i < n
            invariant
                i <= n,
                n == self.frames@.len(),
                forall|j: int| 0 <= j < i ==> (#[trigger] self.frames@[j]).0@ != name@,
            decreases n - i,
        {
            if str_eq(self.frames[i].0.as_str(), name) {
                proof {
                    lemma_frames_map_dom(self.frames@, name@);
                }
                return true;
            }
            i = i + 1;
        }
        proof {
            lemma_frames_map_dom(self.frames@, name@);
        }
        false
    }

    /// One observation through the capture edge: an empty capture — a
    /// blank pane or a failed read — counts as unchanged, so a session
    /// already on record stays as stored and reports idle; any other
    /// capture is classified by frame difference.
    pub fn observe_capture(&mut self, name: &str, capture: &str) -> (h: HealthState)
        requires
            old(self).wf(),
        ensures
            final(self).wf(),
            capture@.len() == 0 && old(self)@.dom().contains(name@) ==> final(self)@ == old(
                self,
            )@ && h == HealthState::Idle,
            !(capture@.len() == 0 && old(self)@.dom().contains(name@)) ==> final(self)@ == old(
                self,
            )@.insert(name@, capture@) && ((h == HealthState::Running) <==> (!old(
                self,
            )@.dom().contains(name@) || old(self)@[name@] != capture@)),
    {
        if capture.is_empty() && self.has_frame(name) {
            HealthState::Idle
        } else {
            self.observe(name, capture)
        }
    }

    /// Forgets the stored frames of every session that is no longer
    /// present: the map keeps exactly the named sessions.
    pub fn retain_sessions(&mut self, active: &Vec<String>)
        requires
            old(self).wf(),
        ensures
            final(self).wf(),
            final(self)@ == old(self)@.restrict(
                Set::new(|k: Seq<char>| active.deep_view().contains(k)),
            ),
    {
        let ghost olds = self.frames@;
        let ghost keep = Set::new(|k: Seq<char>| active.deep_view().contains(k));
        let n: usize = self.frames.len();
        let mut kept: Vec<(String, String)> = Vec::new();
        let mut i: usize = 0;
        proof {
            assert(olds.take(0) =~= Seq::<(String, String)>::empty());
            assert(frames_map(kept@) =~= frames_map(olds.take(0)).restrict(keep));
        }
        while i < n
            invariant
                i <= n,
                n == self.frames@.len(),
                self.frames@ == olds,
                frames_unique(olds),
                keep == Set::new(|k: Seq<char>| active.deep_view().contains(k)),
                frames_unique(kept@),
                frames_map(kept@) == frames_map(olds.take(i as int)).restrict(keep),
                forall|l: int|
                    0 <= l < kept@.len() ==> exists|j: int|
                        0 <= j < i && (#[trigger] kept@[l]) == olds[j],
            decreases n - i,
        {
            let ghost old_kept = kept@;
            let name_matches = crate::names::contains_string(active, self.frames[i].0.as_str());
            proof {
                assert(olds.take(i + 1).drop_last() =~= olds.take(i as int));
                assert(olds.take(i + 1).last() == olds[i as int]);
                assert(frames_map(olds.take(i + 1)) == frames_map(olds.take(i as int)).insert(
                    olds[i as int].0@,
                    olds[i as int].1@,
                ));
            }
            if name_matches {
                let entry = (self.frames[i].0.clone(), self.frames[i].1.clone());
                kept.push(entry);
                proof {
                    assert(kept@.drop_last() =~= old_kept);
                    assert(kept@.last().0@ == olds[i as int].0@);
                    assert(kept@.last().1@ == olds[i as int].1@);
                    assert forall|a: int, b: int|
                        0 <= a < b < kept@.len() implies kept@[a].0@ != kept@[b].0@ by {
                        if b == kept@.len() - 1 {
                            let j = choose|j: int|
                                0 <= j < i && (#[trigger] old_kept[a]) == olds[j];
                            assert(olds[j].0@ != olds[i as int].0@);
                        }
                    }
                    assert(frames_map(kept@) == frames_map(old_kept).insert(
                        olds[i as int].0@,
                        olds[i as int].1@,
                    ));
                    assert(frames_map(kept@) =~= frames_map(olds.take(i + 1)).restrict(keep));
                }
            } else {
                proof {
                    assert(!keep.contains(olds[i as int].0@));
                    assert(frames_map(kept@) =~= frames_map(olds.take(i + 1)).restrict(keep));
                }
            }
            i = i + 1;
        }
        proof {
            assert(olds.take(n as int) =~= olds);
        }
        self.frames = kept;
    }
}

proof fn lemma_frames_map_update(s: Seq<(String, String)>, i: int, k: Seq<char>, v: Seq<char>)
    requires
        frames_unique(s),
        0 <= i < s.len(),
        s[i].0@ == k,
    ensures
        forall|e: (String, String)|
            e.0@ == k && e.1@ == v ==> frames_map(#[trigger] s.update(i, e)) == frames_map(
                s,
            ).insert(k, v),
    decreases s.len(),
{
    assert forall|e: (String, String)|
        e.0@ == k && e.1@ == v implies frames_map(#[trigger] s.update(i, e)) == frames_map(
        s,
    ).insert(k, v) by {
        let su = s.update(i, e);
        if i == s.len() - 1 {
            assert(su.drop_last() =~= s.drop_last());
            assert(su.last() == e);
            assert(frames_map(su) == frames_map(s.drop_last()).insert(k, v));
            assert(frames_map(s.drop_last()).insert(k, v) =~= frames_map(s.drop_last()).insert(
                s.last().0@,
                s.last().1@,
            ).insert(k, v));
        } else {
            assert(su.drop_last() =~= s.drop_last().update(i, e));
            assert(su.last() == s.last());
            assert(forall|a: int, b: int|
                0 <= a < b < s.drop_last().len() ==> s.drop_last()[a].0@ != s.drop_last()[b].0@);
            assert(s.drop_last()[i] == s[i]);
            lemma_frames_map_update(s.drop_last(), i, k, v);
            assert(frames_map(su.drop_last()) == frames_map(s.drop_last()).insert(k, v));
            assert(s.last().0@ != k) by {
                assert(s[i].0@ != s[s.len() - 1].0@);
            }
            assert(frames_map(s.drop_last()).insert(k, v).insert(s.last().0@, s.last().1@)
                =~= frames_map(s.drop_last()).insert(s.last().0@, s.last().1@).insert(k, v));
        }
    }
}

/// What an ANSI-escape-free rendering of a captured pane holds. The result
/// depends on the characters of the capture alone.
pub uninterp spec fn ansi_stripped(s: Seq<char>) -> Seq<char>;

/// Relies on regex's Regex::replace_all: removes every ANSI colour or
/// cursor escape sequence from the capture, leaving the other characters
/// in order. The pattern is fixed, so the result is a function of the
/// capture alone.
#[verifier::external_body]
pub fn strip_ansi(s: &str) -> (r: String)
    ensures
        r@ == ansi_stripped(s@),
{
    match regex::Regex::new("\\x1b\\[[0-9;]*[a-zA-Z]") {
        Ok(re) => re.replace_all(s, "").to_string(),
        Err(_) => s.to_string(),
    }
}

/// The rightmost line of a capture that still holds text once trimmed:
/// empty when every line is blank.
pub open spec fn last_nonempty_line(lines: Seq<Seq<char>>) -> Seq<char>
    decreases lines.len(),
{
    if lines.len() == 0 {
        Seq::<char>::empty()
    } else if trim_spec(lines.last()).len() > 0 {
        trim_spec(lines.last())
    } else {
        last_nonempty_line(lines.drop_last())
    }
}

/// The short status line shown for a session: the rightmost non-blank line
/// of the ANSI-stripped capture, trimmed and clipped to eighty characters.
pub open spec fn last_output_spec(capture: Seq<char>) -> Seq<char> {
    clip_spec(last_nonempty_line(split_spec(ansi_stripped(capture), '\n')), 80)
}

/// Extracts the short status line from a raw capture.
pub fn last_output_line(capture: &str) -> (r: String)
    ensures
        r@ == last_output_spec(capture@),
{
    let plain = strip_ansi(capture);
    let lines = split_char(plain.as_str(), '\n');
    let ghost dv = lines.deep_view();
    let mut k: usize = lines.len();
    proof {
        assert(dv.take(dv.len() as int) =~= dv);
    }
    while k > 0
        invariant
            k <= lines@.len(),
            dv == lines.deep_view(),
            dv.len() == lines@.len(),
            dv == split_spec(ansi_stripped(capture@), '\n'),
            last_nonempty_line(dv) == last_nonempty_line(dv.take(k as int)),
        decreases k,
    {
        proof {
            assert(dv.take(k as int).last() == dv[k - 1]);
            assert(dv.take(k as int).drop_last() =~= dv.take(k - 1));
        }
        let t = trim_str(lines[k - 1].as_str());
        if !t.as_str().is_empty() {
            proof {
                assert(t@.len() > 0);
                assert(last_nonempty_line(dv.take(k as int)) == t@);
            }
            return clip_str(t.as_str(), 80);
        }
        k = k - 1;
    }
    proof {
        assert(dv.take(0) =~= Seq::<Seq<char>>::empty());
        assert(last_output_spec(capture@) =~= Seq::<char>::empty());
    }
    String::new()
}

} // verus!
