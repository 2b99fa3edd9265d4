//! The line classifier: cuts a placement list into named sections of raw
//! data lines.
use vstd::prelude::*;
use crate::error::AssetError;
use crate::text::{chars_of, is_space, split, split_chars, trim, trim_chars};

verus! {

/// One section of a placement list: its tag (lower case) and its data lines
/// in file order, each trimmed of surrounding white space.
pub struct Section {
    pub tag: Vec<char>,
    pub lines: Vec<Vec<char>>,
}

pub open spec fn section_view(s: Section) -> (Seq<char>, Seq<Seq<char>>) {
    (s.tag@, s.lines@.map_values(|l: Vec<char>| l@))
}

pub open spec fn sections_view(v: Seq<Section>) -> Seq<(Seq<char>, Seq<Seq<char>>)> {
    v.map_values(|s: Section| section_view(s))
}

pub open spec fn is_comment(line: Seq<char>) -> bool {
    line.len() > 0 && line[0] == '#'
}

pub open spec fn is_terminator(line: Seq<char>) -> bool {
    line == seq!['e', 'n', 'd']
}

pub open spec fn is_tag_char(c: char) -> bool {
    ('a' <= c && c <= 'z') || ('A' <= c && c <= 'Z') || ('0' <= c && c <= '9') || c == '_'
}

/// A line that opens a section: a non-empty identifier.
pub open spec fn is_tag(line: Seq<char>) -> bool {
    line.len() > 0 && forall|i: int| 0 <= i < line.len() ==> is_tag_char(#[trigger] line[i])
}

pub open spec fn lower_char(c: char) -> char {
    if 'A' <= c && c <= 'Z' {
        (((c as u32) + 32) as u8) as char
    } else {
        c
    }
}

pub open spec fn lower(line: Seq<char>) -> Seq<char> {
    line.map_values(|c: char| lower_char(c))
}

/// The last section whose tag is `t`, or -1 when there is none.
pub open spec fn index_of_tag(secs: Seq<(Seq<char>, Seq<Seq<char>>)>, t: Seq<char>) -> int
    decreases secs.len(),
{
    if secs.len() == 0 {
        -1
    } else if secs.last().0 == t {
        secs.len() - 1
    } else {
        index_of_tag(secs.drop_last(), t)
    }
}

proof fn lemma_index_of_tag_bounds(secs: Seq<(Seq<char>, Seq<Seq<char>>)>, t: Seq<char>)
    ensures
        -1 <= index_of_tag(secs, t) < secs.len(),
    decreases secs.len(),
{
    if secs.len() > 0 {
        lemma_index_of_tag_bounds(secs.drop_last(), t);
    }
}

/// The classifier's state: the sections so far, and the one open, if any.
pub type ClassifierState = (Seq<(Seq<char>, Seq<Seq<char>>)>, Option<int>);

/// What one raw line does to the classifier's state. Blank and comment lines
/// do nothing. Inside a section the terminator closes it and any other line
/// is data. Outside, an identifier opens the section of that tag (lower
/// cased), continuing an earlier one of the same tag; other lines are ignored.
pub open spec fn classify_step(st: ClassifierState, raw: Seq<char>) -> ClassifierState {
    let line = trim(raw);
    let (secs, open) = st;
    if line.len() == 0 || is_comment(line) {
        st
    } else if open is Some {
        let i = open->0;
        if is_terminator(line) {
            (secs, None)
        } else {
            (secs.update(i, (secs[i].0, secs[i].1.push(line))), open)
        }
    } else if is_tag(line) {
        let t = lower(line);
        let j = index_of_tag(secs, t);
        if j >= 0 {
            (secs, Some(j))
        } else {
            (secs.push((t, seq![])), Some(secs.len() as int))
        }
    } else {
        st
    }
}

/// The state after the first `n` lines.
pub open spec fn classify_prefix(lines: Seq<Seq<char>>, n: nat) -> ClassifierState
    decreases n,
{
    if n == 0 {
        (seq![], None)
    } else {
        classify_step(classify_prefix(lines, (n - 1) as nat), lines[n - 1])
    }
}

pub open spec fn text_lines(text: Seq<char>) -> Seq<Seq<char>> {
    split(text, '\n')
}

/// The sections of a placement list, in order of first appearance; an error
/// when the text ends inside a section.
pub open spec fn categorise_spec(text: Seq<char>) -> Result<
    Seq<(Seq<char>, Seq<Seq<char>>)>,
    AssetError,
> {
    let lines = text_lines(text);
    let (secs, open) = classify_prefix(lines, lines.len());
    if open is Some {
        Err(AssetError::UnterminatedSection)
    } else {
        Ok(secs)
    }
}

/// The exact state of `categorise_lines`' loop: the sections, with the open
/// one taken out and held apart.
spec fn holds_state(secs: Seq<Section>, cur: Section, open: Option<usize>, st: ClassifierState) -> bool {
    match open {
        Some(j) => {
            &&& j <= secs.len()
            &&& st.1 == Some(j as int)
            &&& sections_view(secs.insert(j as int, cur)) == st.0
        },
        None => st.1 is None && sections_view(secs) == st.0,
    }
}

fn is_terminator_exec(line: &Vec<char>) -> (r: bool)
    ensures
        r == is_terminator(line@),
{
    let r = line.len() == 3 && line[0] == 'e' && line[1] == 'n' && line[2] == 'd';
    proof {
        if r {
            assert(line@ =~= seq!['e', 'n', 'd']);
        }
    }
    r
}

fn is_tag_exec(line: &Vec<char>) -> (r: bool)
    ensures
        r == is_tag(line@),
{
    if line.len() == 0 {
        return false;
    }
    let mut i: usize = 0;
    while i < line.len()
        invariant
            i <= line@.len(),
            forall|k: int| 0 <= k < i ==> is_tag_char(#[trigger] line@[k]),
        decreases line@.len() - i,
    {
        let c = line[i];
        if !(('a' <= c && c <= 'z') || ('A' <= c && c <= 'Z') || ('0' <= c && c <= '9') || c
            == '_') {
            return false;
        }
        i = i + 1;
    }
    true
}

pub(crate) fn lower_char_exec(c: char) -> (r: char)
    ensures
        r == lower_char(c),
{
    if 'A' <= c && c <= 'Z' {
        (((c as u32) + 32) as u8) as char
    } else {
        c
    }
}

fn lower_exec(line: &Vec<char>) -> (r: Vec<char>)
    ensures
        r@ == lower(line@),
{
    let mut out: Vec<char> = Vec::new();
    let mut i: usize = 0;
    while i < line.len()
        invariant
            i <= line@.len(),
            out@ == lower(line@.take(i as int)),
        decreases line@.len() - i,
    {
        out.push(lower_char_exec(line[i]));
        i = i + 1;
        assert(out@ =~= lower(line@.take(i as int)));
    }
    assert(line@.take(line@.len() as int) =~= line@);
    out
}

fn chars_eq(a: &Vec<char>, b: &Vec<char>) -> (r: bool)
    ensures
        r == (a@ == b@),
{
    if a.len() != b.len() {
        return false;
    }
    let mut i: usize = 0;
    while i < a.len()
        invariant
            a@.len() == b@.len(),
            i <= a@.len(),
            forall|k: int| 0 <= k < i ==> a@[k] == b@[k],
        decreases a@.len() - i,
    {
        if a[i] != b[i] {
            return false;
        }
        i = i + 1;
    }
    assert(a@ =~= b@);
    true
}

/// The position of the last section tagged `t`, if any.
pub fn find_section(secs: &Vec<Section>, t: &Vec<char>) -> (r: Option<usize>)
    ensures
        r matches Some(j) ==> j == index_of_tag(sections_view(secs@), t@) && j < secs@.len(),
        r is None ==> index_of_tag(sections_view(secs@), t@) == -1,
{
    let ghost sv = sections_view(secs@);
    proof {
        lemma_index_of_tag_bounds(sv, t@);
    }
    let mut i: usize = secs.len();
    assert(sv.take(sv.len() as int) =~= sv);
    while i > 0
        invariant
            i <= secs@.len(),
            sv == sections_view(secs@),
            index_of_tag(sv, t@) == index_of_tag(sv.take(i as int), t@),
        decreases i,
    {
        assert(sv.take(i as int).last() == section_view(secs@[i - 1]));
        if chars_eq(&secs[i - 1].tag, t) {
            return Some(i - 1);
        }
        assert(sv.take(i as int).drop_last() =~= sv.take(i - 1));
        i = i - 1;
    }
    None
}

/// Cuts a placement list into its sections (see `classify_step`).
pub fn categorise_lines(data: &str) -> (r: Result<Vec<Section>, AssetError>)
    ensures
        match r {
            Ok(secs) => categorise_spec(data@) == Ok::<_, AssetError>(sections_view(secs@)),
            Err(e) => categorise_spec(data@) == Err::<Seq<(Seq<char>, Seq<Seq<char>>)>, _>(e),
        },
{
    let text = chars_of(data);
    let lines = split_chars(text.as_slice(), '\n');
    let ghost ls = lines@.map_values(|p: Vec<char>| p@);
    let mut secs: Vec<Section> = Vec::new();
    let mut cur = Section { tag: Vec::new(), lines: Vec::new() };
    let mut open: Option<usize> = None;
    let mut n: usize = 0;
    assert(sections_view(secs@) =~= seq![]);
    while n < lines.len()
        invariant
            n <= lines@.len(),
            ls == lines@.map_values(|p: Vec<char>| p@),
            ls == text_lines(data@),
            holds_state(secs@, cur, open, classify_prefix(ls, n as nat)),
        decreases lines@.len() - n,
    {
        let ghost st = classify_prefix(ls, n as nat);
        let line = trim_chars(lines[n].as_slice());
        assert(line@ == trim(ls[n as int]));
        let blank = line.len() == 0 || line[0] == '#';
        if blank {
        } else if let Some(j) = open {
            if is_terminator_exec(&line) {
                secs.insert(j, cur);
                cur = Section { tag: Vec::new(), lines: Vec::new() };
                open = None;
            } else {
                let ghost before = cur;
                cur.lines.push(line);
                proof {
                    assert(section_view(cur) == (st.0[j as int].0, st.0[j as int].1.push(line@))) by {
                        assert(section_view(before) == st.0[j as int]) by {
                            assert(sections_view(secs@.insert(j as int, before))[j as int]
                                == section_view(before));
                        }
                        assert(cur.lines@.map_values(|l: Vec<char>| l@) =~= before.lines@.map_values(
                            |l: Vec<char>| l@,
                        ).push(line@));
                    }
                    assert(sections_view(secs@.insert(j as int, cur)) =~= st.0.update(
                        j as int,
                        (st.0[j as int].0, st.0[j as int].1.push(line@)),
                    ));
                }
            }
        } else if is_tag_exec(&line) {
            let t = lower_exec(&line);
            match find_section(&secs, &t) {
                Some(j) => {
                    let ghost before = secs@;
                    cur = secs.remove(j);
                    open = Some(j);
                    assert(secs@.insert(j as int, cur) =~= before);
                },
                None => {
                    let ghost k = secs.len();
                    cur = Section { tag: t, lines: Vec::new() };
                    open = Some(secs.len());
                    assert(secs@.insert(k as int, cur) =~= secs@.push(cur));
                    assert(cur.lines@.map_values(|l: Vec<char>| l@) =~= seq![]);
                    assert(sections_view(secs@.push(cur)) =~= st.0.push((t@, seq![])));
                },
            }
        }
        n = n + 1;
    }
    if open.is_some() {
        return Err(AssetError::UnterminatedSection);
    }
    Ok(secs)
}

} // verus!
