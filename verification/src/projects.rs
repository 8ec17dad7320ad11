//! The project list and its numbered plaintext format. A saved file holds
//! one line per project, `N. name`, renumbered 1..N on every save; loading
//! accepts exactly the lines that match that shape and ignores the rest.

use vstd::prelude::*;

use crate::text::{
    chars_of, dec_spec, join_spec, join_with, lemma_split_join, push_char, split_char,
    split_spec, string_of, trim_chars, trim_spec, usize_to_string,
};

verus! {

/// One project: a one-based position and a human-readable name.
pub struct Project {
    pub id: usize,
    pub name: String,
}

impl Clone for Project {
    fn clone(&self) -> (r: Self)
        ensures
            r == *self,
    {
        Project { id: self.id, name: self.name.clone() }
    }
}

/// Whether the character is an ASCII decimal digit.
pub open spec fn is_digit_char(c: char) -> bool {
    c == '0' || c == '1' || c == '2' || c == '3' || c == '4' || c == '5' || c == '6' || c == '7'
        || c == '8' || c == '9'
}

pub fn is_digit(c: char) -> (r: bool)
    ensures
        r == is_digit_char(c),
{
    c == '0' || c == '1' || c == '2' || c == '3' || c == '4' || c == '5' || c == '6' || c == '7'
        || c == '8' || c == '9'
}

/// The length of the run of digits that begins the text.
pub open spec fn leading_digits(s: Seq<char>) -> int
    decreases s.len(),
{
    if s.len() == 0 || !is_digit_char(s[0]) {
        0
    } else {
        1 + leading_digits(s.skip(1))
    }
}

proof fn lemma_leading_digits_at(s: Seq<char>, d: int)
    requires
        0 <= d <= s.len(),
        forall|j: int| 0 <= j < d ==> is_digit_char(s[j]),
        d == s.len() || !is_digit_char(s[d]),
    ensures
        leading_digits(s) == d,
    decreases d,
{
    if d == 0 {
    } else {
        lemma_leading_digits_at(s.skip(1), d - 1);
    }
}

/// The name carried by an accepted line: one or more digits, a dot, a
/// space, and a name that is non-empty once trimmed. Other lines carry
/// nothing.
pub open spec fn line_name(line: Seq<char>) -> Option<Seq<char>> {
    let d = leading_digits(line);
    if d >= 1 && d + 2 <= line.len() && line[d] == '.' && line[d + 1] == ' ' && trim_spec(
        line.skip(d + 2),
    ).len() > 0 {
        Some(trim_spec(line.skip(d + 2)))
    } else {
        None
    }
}

/// The line-acceptance function, as a value for `filter_map`.
pub open spec fn line_name_fn() -> spec_fn(Seq<char>) -> Option<Seq<char>> {
    |l: Seq<char>| line_name(l)
}

/// The names of the accepted lines of a saved file, in order.
pub open spec fn parse_projects_spec(content: Seq<char>) -> Seq<Seq<char>> {
    split_spec(content, '\n').filter_map(line_name_fn())
}

fn accepted_name(line: &str) -> (r: Option<String>)
    ensures
        match r {
            Some(n) => line_name(line@) == Some(n@),
            None => line_name(line@) is None,
        },
{
    let cs = chars_of(line);
    let n: usize = cs.len();
    let mut d: usize = 0;
    while d < n && is_digit(cs[d])
        invariant
            d <= n,
            n == cs@.len(),
            cs@ == line@,
            forall|j: int| 0 <= j < d ==> is_digit_char(cs@[j]),
        decreases n - d,
    {
        d = d + 1;
    }
    proof {
        lemma_leading_digits_at(line@, d as int);
    }
    if d >= 1 && n - d >= 2 && cs[d] == '.' && cs[d + 1] == ' ' {
        let mut rest: Vec<char> = Vec::new();
        let mut i: usize = d + 2;
        while i < n
            invariant
                d + 2 <= i <= n,
                n == cs@.len(),
                rest@ == cs@.subrange(d + 2, i as int),
            decreases n - i,
        {
            rest.push(cs[i]);
            i = i + 1;
            proof {
                assert(rest@ =~= cs@.subrange(d + 2, i as int));
            }
        }
        proof {
            assert(rest@ =~= line@.skip(d + 2));
        }
        let trimmed = trim_chars(&rest);
        if trimmed.len() > 0 {
            Some(string_of(&trimmed))
        } else {
            None
        }
    } else {
        None
    }
}

/// Parses the saved text into projects: one per accepted line, each id the
/// one-based position among the accepted lines.
pub fn parse_projects(content: &str) -> (r: Vec<Project>)
    ensures
        r@.len() == parse_projects_spec(content@).len(),
        forall|i: int|
            0 <= i < r@.len() ==> r@[i].name@ == parse_projects_spec(content@)[i] && r@[i].id == i
                + 1,
{
    let ghost f = line_name_fn();
    let lines = split_char(content, '\n');
    let ghost dv = lines.deep_view();
    let mut r: Vec<Project> = Vec::new();
    let mut i: usize = 0;
    proof {
        lemma_filter_map_len_le(dv, f);
        assert(dv.take(0).filter_map(f) =~= Seq::<Seq<char>>::empty());
    }
    while i < lines.len()
        invariant
            i <= lines@.len(),
            f == line_name_fn(),
            dv == split_spec(content@, '\n'),
            dv == lines.deep_view(),
            dv.len() == lines@.len(),
            r@.len() == dv.take(i as int).filter_map(f).len(),
            r@.len() <= i,
            forall|j: int|
                0 <= j < r@.len() ==> r@[j].name@ == dv.take(i as int).filter_map(f)[j]
                    && r@[j].id == j + 1,
        decreases lines@.len() - i,
    {
        proof {
            assert(dv[i as int] == lines@[i as int]@);
            lemma_filter_map_len_le(dv.take(i as int), f);
            dv.lemma_filter_map_take_succ(f, i as int);
        }
        let ghost old_r = r@;
        let ghost a = dv.take(i as int).filter_map(f);
        let ghost cur = dv.take(i + 1).filter_map(f);
        let parsed = accepted_name(lines[i].as_str());
        match parsed {
            Some(name) => {
                let ghost nview = name@;
                let id = r.len() + 1;
                r.push(Project { id, name });
                proof {
                    assert(f(dv[i as int]) == Some(nview));
                    assert(cur == a + seq![nview]);
                    assert(r@.len() == cur.len());
                    assert forall|j: int| 0 <= j < r@.len() implies r@[j].name@ == cur[j]
                        && r@[j].id == j + 1 by {
                        if j < a.len() {
                            assert(cur[j] == a[j]);
                            assert(r@[j] == old_r[j]);
                        } else {
                            assert(cur[j] == nview);
                        }
                    }
                }
            },
            None => {
                proof {
                    assert(f(dv[i as int]) is None);
                    assert(cur == a + Seq::<Seq<char>>::empty());
                    assert(cur =~= a);
                    assert(r@.len() == cur.len());
                    assert forall|j: int| 0 <= j < r@.len() implies r@[j].name@ == cur[j]
                        && r@[j].id == j + 1 by {
                        assert(r@[j].name@ == a[j]);
                        assert(cur[j] == a[j]);
                    }
                }
            },
        }
        i = i + 1;
        proof {
            assert(dv.take(i as int).filter_map(f) == cur);
        }
    }
    proof {
        assert(dv.take(dv.len() as int) =~= dv);
    }
    r
}

proof fn lemma_filter_map_len_le<A, B>(s: Seq<A>, f: spec_fn(A) -> Option<B>)
    ensures
        s.filter_map(f).len() <= s.len(),
    decreases s.len(),
{
    if s.len() > 0 {
        lemma_filter_map_len_le(s.drop_last(), f);
    }
}

/// One rendered line of the saved file.
pub open spec fn render_line(k: int, name: Seq<char>) -> Seq<char> {
    dec_spec(k) + seq!['.', ' '] + name
}

/// The rendered lines for a list of names, numbered from one.
pub open spec fn render_lines(names: Seq<Seq<char>>) -> Seq<Seq<char>> {
    names.map(|i: int, n: Seq<char>| render_line(i + 1, n))
}

/// The saved text for a list of names: the numbered lines joined by
/// newlines, with a trailing newline unless the list is empty.
pub open spec fn render_projects_spec(names: Seq<Seq<char>>) -> Seq<char> {
    if names.len() == 0 {
        Seq::<char>::empty()
    } else {
        join_spec(render_lines(names), seq!['\n']) + seq!['\n']
    }
}

/// The names of a project list, in order.
pub open spec fn names_of(projects: Seq<Project>) -> Seq<Seq<char>> {
    projects.map_values(|p: Project| p.name@)
}

/// Renders the project list in its saved shape, renumbered 1..N by
/// position.
pub fn render_projects(projects: &Vec<Project>) -> (r: String)
    ensures
        r@ == render_projects_spec(names_of(projects@)),
{
    let ghost names = names_of(projects@);
    if projects.len() == 0 {
        proof {
            assert(names.len() == 0);
        }
        return String::new();
    }
    let mut lines: Vec<String> = Vec::new();
    let mut i: usize = 0;
    while i < projects.len()
        invariant
            i <= projects@.len(),
            names == names_of(projects@),
            names.len() == projects@.len(),
            lines.deep_view() == render_lines(names).take(i as int),
        decreases projects@.len() - i,
    {
        let ghost old_dv = lines.deep_view();
        let mut line = usize_to_string(i + 1);
        push_char(&mut line, '.');
        push_char(&mut line, ' ');
        line.append(projects[i].name.as_str());
        proof {
            assert(line@ =~= render_line(i + 1, names[i as int]));
        }
        lines.push(line);
        i = i + 1;
        proof {
            assert(lines.deep_view() =~= old_dv.push(render_line(i as int, names[i - 1])));
            assert(old_dv.push(render_line(i as int, names[i - 1])) =~= render_lines(names).take(
                i as int,
            ));
        }
    }
    proof {
        assert(render_lines(names).take(names.len() as int) =~= render_lines(names));
    }
    let mut out = join_with(&lines, "\n");
    proof {
        reveal_strlit("\n");
        assert("\n"@ =~= seq!['\n']);
    }
    push_char(&mut out, '\n');
    proof {
        assert(out@ =~= join_spec(render_lines(names), seq!['\n']) + seq!['\n']);
    }
    out
}

/// Appends a project under the next free number and reports that number.
pub fn add_project(projects: &mut Vec<Project>, name: &str) -> (id: usize)
    requires
        old(projects)@.len() < usize::MAX,
    ensures
        id == old(projects)@.len() + 1,
        final(projects)@.len() == old(projects)@.len() + 1,
        forall|i: int| 0 <= i < old(projects)@.len() ==> final(projects)@[i] == old(projects)@[i],
        final(projects)@.last().id == id,
        final(projects)@.last().name@ == name@,
{
    let id = projects.len() + 1;
    projects.push(Project { id, name: name.to_owned() });
    id
}

/// Removes the project at a one-based position; reports whether the
/// position named a project.
pub fn remove_project(projects: &mut Vec<Project>, id: usize) -> (found: bool)
    ensures
        found == (1 <= id <= old(projects)@.len()),
        found ==> final(projects)@ == old(projects)@.remove(id - 1),
        !found ==> final(projects)@ == old(projects)@,
{
    if id == 0 || id > projects.len() {
        return false;
    }
    projects.remove(id - 1);
    true
}

/// Which names survive a save-and-load unchanged: non-empty, already
/// trimmed, and free of line breaks.
pub open spec fn valid_project_name(n: Seq<char>) -> bool {
    n.len() > 0 && trim_spec(n) == n && !n.contains('\n')
}

proof fn lemma_dec_all_digits(n: int)
    requires
        n >= 0,
    ensures
        dec_spec(n).len() >= 1,
        forall|i: int| 0 <= i < dec_spec(n).len() ==> is_digit_char(#[trigger] dec_spec(n)[i]),
    decreases n,
{
    if n >= 10 {
        lemma_dec_all_digits(n / 10);
    }
}

proof fn lemma_leading_digits_concat(d: Seq<char>, t: Seq<char>)
    requires
        forall|j: int| 0 <= j < d.len() ==> is_digit_char(d[j]),
        t.len() > 0,
        !is_digit_char(t[0]),
    ensures
        leading_digits(d + t) == d.len(),
    decreases d.len(),
{
    if d.len() == 0 {
        assert(d + t =~= t);
    } else {
        lemma_leading_digits_concat(d.skip(1), t);
        assert((d + t).skip(1) =~= d.skip(1) + t);
        assert(is_digit_char((d + t)[0]));
    }
}

proof fn lemma_line_name_render(k: int, name: Seq<char>)
    requires
        k >= 1,
        valid_project_name(name),
    ensures
        line_name(render_line(k, name)) == Some(name),
{
    lemma_dec_all_digits(k);
    let digits = dec_spec(k);
    let line = render_line(k, name);
    let tail = seq!['.', ' '] + name;
    assert(line =~= digits + tail);
    lemma_leading_digits_concat(digits, tail);
    let d = digits.len() as int;
    assert(line[d] == '.');
    assert(line[d + 1] == ' ');
    assert(line.skip(d + 2) =~= name);
}

proof fn lemma_filter_map_render(names: Seq<Seq<char>>)
    requires
        forall|i: int| 0 <= i < names.len() ==> valid_project_name(#[trigger] names[i]),
    ensures
        render_lines(names).filter_map(|l: Seq<char>| line_name(l)) == names,
    decreases names.len(),
{
    let f = |l: Seq<char>| line_name(l);
    let rl = render_lines(names);
    if names.len() == 0 {
        assert(rl.len() == 0);
        assert(rl.filter_map(f) =~= names);
    } else {
        let rest = names.drop_last();
        lemma_filter_map_render(rest);
        assert(rl.drop_last() =~= render_lines(rest));
        assert(rl.last() == render_line(names.len() as int, names.last()));
        lemma_line_name_render(names.len() as int, names.last());
        assert(f(rl.last()) == Some(names.last()));
        assert(rl.filter_map(f) == rl.drop_last().filter_map(f) + seq![names.last()]);
        assert(rl.drop_last().filter_map(f) == rest);
        assert(rest + seq![names.last()] =~= names);
    }
}

/// Saving a project list and loading it back yields the same names, each
/// id equal to its one-based position. Holds of every list whose names are
/// non-empty, trimmed, and free of line breaks.
pub proof fn lemma_projects_round_trip(names: Seq<Seq<char>>)
    requires
        forall|i: int| 0 <= i < names.len() ==> valid_project_name(#[trigger] names[i]),
    ensures
        parse_projects_spec(render_projects_spec(names)) == names,
{
    let f = |l: Seq<char>| line_name(l);
    if names.len() == 0 {
        let content = render_projects_spec(names);
        assert(content.len() == 0);
        assert(split_spec(content, '\n') =~= seq![Seq::<char>::empty()]);
        Seq::lemma_filter_map_singleton(Seq::<char>::empty(), f);
        assert(leading_digits(Seq::<char>::empty()) == 0);
        assert(f(Seq::<char>::empty()) is None);
        assert(parse_projects_spec(content) =~= names);
    } else {
        let rl = render_lines(names);
        assert(forall|i: int| 0 <= i < rl.len() ==> !(#[trigger] rl[i]).contains('\n')) by {
            assert forall|i: int| 0 <= i < rl.len() implies !(#[trigger] rl[i]).contains(
                '\n',
            ) by {
                lemma_dec_all_digits(i + 1);
                if rl[i].contains('\n') {
                    let j = choose|j: int| 0 <= j < rl[i].len() && rl[i][j] == '\n';
                    let digits = dec_spec(i + 1);
                    if j < digits.len() {
                        assert(is_digit_char(rl[i][j]));
                    } else if j < digits.len() + 2 {
                    } else {
                        assert(names[i][j - digits.len() - 2] == '\n');
                        assert(names[i].contains('\n'));
                    }
                }
            }
        }
        let j = join_spec(rl, seq!['\n']);
        lemma_split_join(rl, '\n');
        let content = j + seq!['\n'];
        assert(content.drop_last() =~= j);
        assert(content.last() == '\n');
        assert(split_spec(content, '\n') == split_spec(j, '\n').push(Seq::<char>::empty()));
        let whole = rl.push(Seq::<char>::empty());
        assert(split_spec(content, '\n') == whole);
        assert(whole.drop_last() =~= rl);
        assert(leading_digits(Seq::<char>::empty()) == 0);
        assert(f(Seq::<char>::empty()) is None);
        assert(whole.filter_map(f) == rl.filter_map(f));
        lemma_filter_map_render(names);
    }
}

} // verus!
