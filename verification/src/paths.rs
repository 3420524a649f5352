//! Paths as `std::path::Path` reads them, over their characters.

use vstd::prelude::*;
use crate::text::{
    after_last, chars_of, find_char, lemma_find_char, lemma_find_char_first, lemma_rfind_char,
    rfind_char, str_eq, string_from,
};

verus! {

/// The `'/'`-separated segments of a path.
pub open spec fn segments(s: Seq<char>) -> Seq<Seq<char>>
    decreases s.len(),
{
    if s.len() == 0 {
        Seq::empty()
    } else {
        match find_char(s, '/', 0) {
            None => seq![s],
            Some(k) => {
                proof {
                    lemma_find_char(s, '/', 0);
                }
                seq![s.take(k)] + segments(s.skip(k + 1))
            },
        }
    }
}

/// The last segment that names a component (neither empty nor `.`).
pub open spec fn last_component(segs: Seq<Seq<char>>) -> Option<Seq<char>>
    decreases segs.len(),
{
    if segs.len() == 0 {
        None
    } else if segs.last().len() == 0 || segs.last() == "."@ {
        last_component(segs.drop_last())
    } else {
        Some(segs.last())
    }
}

/// The final component of a path, as `Path::file_name` gives it: none when the
/// path is empty, the root, `.`, or ends in `..`.
pub open spec fn path_file_name(path: Seq<char>) -> Option<Seq<char>> {
    match last_component(segments(path)) {
        Some(c) => if c == ".."@ {
            None
        } else {
            Some(c)
        },
        None => None,
    }
}

proof fn lemma_segments_step(s: Seq<char>, start: int, i: int)
    requires
        0 <= start <= i < s.len(),
        s[i] == '/',
        forall|k: int| start <= k < i ==> s[k] != '/',
    ensures
        segments(s.skip(start)) == seq![s.subrange(start, i)] + segments(s.skip(i + 1)),
{
    let t = s.skip(start);
    lemma_find_char_first(t, '/', i - start);
    assert(t.take(i - start) =~= s.subrange(start, i));
    assert(t.skip(i - start + 1) =~= s.skip(i + 1));
}

proof fn lemma_segments_last(s: Seq<char>, start: int)
    requires
        0 <= start <= s.len(),
        forall|k: int| start <= k < s.len() ==> s[k] != '/',
    ensures
        start < s.len() ==> segments(s.skip(start)) == seq![s.subrange(start, s.len() as int)],
        start == s.len() ==> segments(s.skip(start)) == Seq::<Seq<char>>::empty(),
{
    let t = s.skip(start);
    lemma_find_char(t, '/', 0);
    assert(t =~= s.subrange(start, s.len() as int));
}

/// Take the segment `p[start..end]` into account as the last one seen.
fn note_segment(
    p: &Vec<char>,
    start: usize,
    end: usize,
    last: &mut Option<(usize, usize)>,
    done: Ghost<Seq<Seq<char>>>,
)
    requires
        start <= end <= p@.len(),
        match *old(last) {
            Some((a, b)) => a <= b <= p@.len() && last_component(done@) == Some(p@.subrange(a as int, b as int)),
            None => last_component(done@) is None,
        },
    ensures
        match *final(last) {
            Some((a, b)) => a <= b <= p@.len() && last_component(done@.push(p@.subrange(start as int, end as int)))
                == Some(p@.subrange(a as int, b as int)),
            None => last_component(done@.push(p@.subrange(start as int, end as int))) is None,
        },
{
    let ghost seg = p@.subrange(start as int, end as int);
    assert(done@.push(seg).drop_last() =~= done@);
    let is_dot = end - start == 1 && p[start] == '.';
    proof {
        reveal_strlit(".");
        if is_dot {
            assert(seg =~= "."@);
        } else if seg.len() == 1 {
            assert(seg[0] == p@[start as int]);
        }
    }
    if end > start && !is_dot {
        *last = Some((start, end));
    }
}

/// The final component of a path (see [`path_file_name`]).
pub fn file_name(path: &str) -> (res: Option<String>)
    ensures
        match res {
            Some(name) => path_file_name(path@) == Some(name@),
            None => path_file_name(path@) is None,
        },
{
    let p = chars_of(path);
    let mut last: Option<(usize, usize)> = None;
    let ghost mut done: Seq<Seq<char>> = Seq::empty();
    let mut start: usize = 0;
    let mut i: usize = 0;
    proof {
        assert(p@.skip(0) =~= p@);
    }
    while i < p.len()
        invariant
            start <= i <= p@.len(),
            forall|k: int| start <= k < i ==> p@[k] != '/',
            segments(p@) == done + segments(p@.skip(start as int)),
            match last {
                Some((a, b)) => a <= b <= p@.len() && last_component(done) == Some(p@.subrange(a as int, b as int)),
                None => last_component(done) is None,
            },
        decreases p.len() - i,
    {
        if p[i] == '/' {
            proof {
                lemma_segments_step(p@, start as int, i as int);
                assert(done + segments(p@.skip(start as int)) =~= done.push(
                    p@.subrange(start as int, i as int),
                ) + segments(p@.skip(i + 1)));
            }
            note_segment(&p, start, i, &mut last, Ghost(done));
            proof {
                done = done.push(p@.subrange(start as int, i as int));
            }
            start = i + 1;
        }
        i = i + 1;
    }
    proof {
        lemma_segments_last(p@, start as int);
    }
    if start < p.len() {
        proof {
            assert(done + segments(p@.skip(start as int)) =~= done.push(
                p@.subrange(start as int, p@.len() as int),
            ));
        }
        note_segment(&p, start, p.len(), &mut last, Ghost(done));
        proof {
            done = done.push(p@.subrange(start as int, p@.len() as int));
        }
    } else {
        assert(done + segments(p@.skip(start as int)) =~= done);
    }
    assert(done == segments(p@));
    match last {
        Some((a, b)) => {
            let is_parent = b - a == 2 && p[a] == '.' && p[a + 1] == '.';
            proof {
                reveal_strlit("..");
                let c = p@.subrange(a as int, b as int);
                if is_parent {
                    assert(c =~= ".."@);
                } else if c.len() == 2 {
                    assert(c[0] == p@[a as int] && c[1] == p@[a + 1]);
                }
            }
            if is_parent {
                None
            } else {
                let mut name: Vec<char> = Vec::new();
                let mut k: usize = a;
                while k < b
                    invariant
                        a <= k <= b <= p@.len(),
                        name@ == p@.subrange(a as int, k as int),
                    decreases b - k,
                {
                    name.push(p[k]);
                    k = k + 1;
                    assert(name@ =~= p@.subrange(a as int, k as int));
                }
                Some(string_from(&name))
            }
        },
        None => None,
    }
}

/// The extension of a file name, as `Path::extension` gives it: what follows its
/// last `.`, unless there is no `.` or the only one starts the name.
pub open spec fn name_extension(name: Seq<char>) -> Option<Seq<char>> {
    match rfind_char(name, '.', name.len() as int) {
        Some(k) => if k == 0 {
            None
        } else {
            Some(name.skip(k + 1))
        },
        None => None,
    }
}

/// The extension of a path's final component.
pub open spec fn path_extension(path: Seq<char>) -> Option<Seq<char>> {
    match path_file_name(path) {
        Some(name) => name_extension(name),
        None => None,
    }
}

/// The extension of a path's final component (see [`path_extension`]).
pub fn extension(path: &str) -> (res: Option<String>)
    ensures
        match res {
            Some(ext) => path_extension(path@) == Some(ext@),
            None => path_extension(path@) is None,
        },
{
    let name = match file_name(path) {
        Some(n) => n,
        None => return None,
    };
    let chars = chars_of(name.as_str());
    let after = after_last(&chars, '.');
    proof {
        lemma_rfind_char(chars@, '.', chars@.len() as int);
    }
    if after <= 1 {
        return None;
    }
    let mut ext: Vec<char> = Vec::new();
    let mut k: usize = after;
    while k < chars.len()
        invariant
            after <= k <= chars@.len(),
            ext@ == chars@.subrange(after as int, k as int),
        decreases chars.len() - k,
    {
        ext.push(chars[k]);
        k = k + 1;
        assert(ext@ =~= chars@.subrange(after as int, k as int));
    }
    assert(chars@.skip(after as int) =~= chars@.subrange(after as int, chars@.len() as int));
    Some(string_from(&ext))
}

/// Whether the `j`-th segment of a path names a component: a leading `.`
/// does (the current directory), other `.` and empty segments do not.
pub open spec fn keeps_segment(seg: Seq<char>, j: int) -> bool {
    (j == 0 && seg == "."@) || (seg.len() > 0 && seg != "."@)
}

/// The segments of a list that name components, in order.
pub open spec fn kept_segments(segs: Seq<Seq<char>>) -> Seq<Seq<char>>
    decreases segs.len(),
{
    if segs.len() == 0 {
        Seq::empty()
    } else {
        kept_segments(segs.drop_last()) + if keeps_segment(segs.last(), segs.len() - 1) {
            seq![segs.last()]
        } else {
            Seq::empty()
        }
    }
}

/// The components of a path as `Path::components` lists them (their text): `/`
/// first for a rooted path, a leading `.`, then the segments that are neither
/// empty nor `.`.
pub open spec fn path_components(path: Seq<char>) -> Seq<Seq<char>> {
    (if path.len() > 0 && path[0] == '/' {
        seq!["/"@]
    } else {
        Seq::empty()
    }) + kept_segments(segments(path))
}

/// The text of a segment `p[start..end]`.
fn segment_text(p: &Vec<char>, start: usize, end: usize) -> (res: String)
    requires
        start <= end <= p@.len(),
    ensures
        res@ == p@.subrange(start as int, end as int),
{
    let mut seg: Vec<char> = Vec::new();
    let mut k: usize = start;
    while k < end
        invariant
            start <= k <= end <= p@.len(),
            seg@ == p@.subrange(start as int, k as int),
        decreases end - k,
    {
        seg.push(p[k]);
        k = k + 1;
        assert(seg@ =~= p@.subrange(start as int, k as int));
    }
    string_from(&seg)
}

/// Add the `j`-th segment `p[start..end]` to the components if it names one.
fn keep_segment(p: &Vec<char>, start: usize, end: usize, j: usize, out: &mut Vec<String>, done: Ghost<Seq<Seq<char>>>)
    requires
        start <= end <= p@.len(),
        j == done@.len(),
        old(out)@.map_values(|c: String| c@) == kept_segments(done@),
    ensures
        final(out)@.map_values(|c: String| c@) == kept_segments(done@.push(p@.subrange(start as int, end as int))),
{
    let ghost seg = p@.subrange(start as int, end as int);
    assert(done@.push(seg).drop_last() =~= done@);
    let is_dot = end - start == 1 && p[start] == '.';
    proof {
        reveal_strlit(".");
        if is_dot {
            assert(seg =~= "."@);
        } else if seg.len() == 1 {
            assert(seg[0] == p@[start as int]);
        }
    }
    if (j == 0 && is_dot) || (end > start && !is_dot) {
        let text = segment_text(p, start, end);
        let ghost before = out@;
        out.push(text);
        assert(out@.map_values(|c: String| c@) =~= before.map_values(|c: String| c@).push(seg));
    } else {
        assert(kept_segments(done@.push(seg)) =~= kept_segments(done@));
    }
}

/// The components of a path (see [`path_components`]).
pub fn components(path: &str) -> (res: Vec<String>)
    ensures
        res@.map_values(|c: String| c@) == path_components(path@),
{
    let p = chars_of(path);
    let rooted = p.len() > 0 && p[0] == '/';
    let mut kept: Vec<String> = Vec::new();
    let ghost mut done: Seq<Seq<char>> = Seq::empty();
    let mut start: usize = 0;
    let mut i: usize = 0;
    let mut nseg: usize = 0;
    proof {
        assert(p@.skip(0) =~= p@);
        assert(kept@.map_values(|c: String| c@) =~= kept_segments(done));
    }
    while i < p.len()
        invariant
            start <= i <= p@.len(),
            forall|k: int| start <= k < i ==> p@[k] != '/',
            segments(p@) == done + segments(p@.skip(start as int)),
            kept@.map_values(|c: String| c@) == kept_segments(done),
            nseg == done.len(),
            nseg <= start,
        decreases p.len() - i,
    {
        if p[i] == '/' {
            proof {
                lemma_segments_step(p@, start as int, i as int);
                assert(done + segments(p@.skip(start as int)) =~= done.push(
                    p@.subrange(start as int, i as int),
                ) + segments(p@.skip(i + 1)));
            }
            keep_segment(&p, start, i, nseg, &mut kept, Ghost(done));
            proof {
                done = done.push(p@.subrange(start as int, i as int));
            }
            nseg = nseg + 1;
            start = i + 1;
        }
        i = i + 1;
    }
    proof {
        lemma_segments_last(p@, start as int);
    }
    if start < p.len() {
        proof {
            assert(done + segments(p@.skip(start as int)) =~= done.push(
                p@.subrange(start as int, p@.len() as int),
            ));
        }
        keep_segment(&p, start, p.len(), nseg, &mut kept, Ghost(done));
        proof {
            done = done.push(p@.subrange(start as int, p@.len() as int));
        }
    } else {
        assert(done + segments(p@.skip(start as int)) =~= done);
    }
    assert(done == segments(p@));
    let mut res: Vec<String> = Vec::new();
    if rooted {
        res.push(String::from_str("/"));
        proof {
            reveal_strlit("/");
        }
    }
    let ghost prefix = res@.map_values(|c: String| c@);
    res.append(&mut kept);
    proof {
        assert(res@.map_values(|c: String| c@) =~= prefix + kept_segments(segments(p@)));
    }
    res
}

/// The rank of a component's kind in `Path` order: root, current directory,
/// parent directory, then names.
pub open spec fn component_rank(c: Seq<char>) -> int {
    if c == "/"@ {
        1
    } else if c == "."@ {
        2
    } else if c == ".."@ {
        3
    } else {
        4
    }
}

/// Whether text `a` comes before text `b`, comparing characters from position
/// `k` on (a proper prefix comes first).
pub open spec fn text_lt_from(a: Seq<char>, b: Seq<char>, k: int) -> bool
    decreases a.len() - k,
{
    if k < 0 || k >= a.len() {
        k >= 0 && k < b.len()
    } else if k >= b.len() {
        false
    } else if a[k] != b[k] {
        (a[k] as u32) < (b[k] as u32)
    } else {
        text_lt_from(a, b, k + 1)
    }
}

/// Whether component `a` comes before component `b`: by kind, then by text.
pub open spec fn component_lt(a: Seq<char>, b: Seq<char>) -> bool {
    component_rank(a) < component_rank(b) || (component_rank(a) == component_rank(b) && text_lt_from(a, b, 0))
}

/// Whether the component list `xs` comes before `ys`, comparing from position `k`
/// on (a proper prefix comes first).
pub open spec fn components_lt_from(xs: Seq<Seq<char>>, ys: Seq<Seq<char>>, k: int) -> bool
    decreases xs.len() - k,
{
    if k < 0 || k >= xs.len() {
        k >= 0 && k < ys.len()
    } else if k >= ys.len() {
        false
    } else if component_lt(xs[k], ys[k]) {
        true
    } else if xs[k] == ys[k] {
        components_lt_from(xs, ys, k + 1)
    } else {
        false
    }
}

/// Whether path `a` comes before path `b` in `Path` order: their components
/// compared in turn.
pub open spec fn path_lt(a: Seq<char>, b: Seq<char>) -> bool {
    components_lt_from(path_components(a), path_components(b), 0)
}

/// No two texts come each before the other.
pub proof fn lemma_text_lt_asym(a: Seq<char>, b: Seq<char>, k: int)
    ensures
        text_lt_from(a, b, k) ==> !text_lt_from(b, a, k),
    decreases a.len() - k,
{
    if 0 <= k < a.len() && k < b.len() && a[k] == b[k] {
        lemma_text_lt_asym(a, b, k + 1);
    }
}

/// No two component lists come each before the other.
pub proof fn lemma_components_lt_asym(xs: Seq<Seq<char>>, ys: Seq<Seq<char>>, k: int)
    ensures
        components_lt_from(xs, ys, k) ==> !components_lt_from(ys, xs, k),
    decreases xs.len() - k,
{
    if 0 <= k < xs.len() && k < ys.len() {
        lemma_text_lt_asym(xs[k], ys[k], 0);
        if xs[k] == ys[k] {
            lemma_components_lt_asym(xs, ys, k + 1);
        }
    }
}

/// No two paths come each before the other.
pub proof fn lemma_path_lt_asym(a: Seq<char>, b: Seq<char>)
    ensures
        path_lt(a, b) ==> !path_lt(b, a),
{
    lemma_components_lt_asym(path_components(a), path_components(b), 0);
}

/// Whether text `a` comes before text `b`.
fn text_less(a: &str, b: &str) -> (res: bool)
    ensures
        res == text_lt_from(a@, b@, 0),
{
    let ac = chars_of(a);
    let bc = chars_of(b);
    let mut k: usize = 0;
    while k < ac.len() && k < bc.len() && ac[k] == bc[k]
        invariant
            ac@ == a@,
            bc@ == b@,
            k <= ac@.len(),
            k <= bc@.len(),
            text_lt_from(a@, b@, k as int) == text_lt_from(a@, b@, 0),
        decreases ac.len() - k,
    {
        k = k + 1;
    }
    if k >= ac.len() {
        k < bc.len()
    } else if k >= bc.len() {
        false
    } else {
        (ac[k] as u32) < (bc[k] as u32)
    }
}

/// The rank of a component's kind (see [`component_rank`]).
fn rank_of(c: &str) -> (res: u8)
    ensures
        res == component_rank(c@),
{
    if str_eq(c, "/") {
        1
    } else if str_eq(c, ".") {
        2
    } else if str_eq(c, "..") {
        3
    } else {
        4
    }
}

/// Whether the component list `xs` comes before `ys`.
pub fn components_less(xs: &Vec<String>, ys: &Vec<String>) -> (res: bool)
    ensures
        res == components_lt_from(
            xs@.map_values(|c: String| c@),
            ys@.map_values(|c: String| c@),
            0,
        ),
{
    let ghost xv = xs@.map_values(|c: String| c@);
    let ghost yv = ys@.map_values(|c: String| c@);
    let mut k: usize = 0;
    while k < xs.len() && k < ys.len()
        invariant
            xv == xs@.map_values(|c: String| c@),
            yv == ys@.map_values(|c: String| c@),
            k <= xs@.len(),
            k <= ys@.len(),
            components_lt_from(xv, yv, k as int) == components_lt_from(xv, yv, 0),
        decreases xs.len() - k,
    {
        let a = xs[k].as_str();
        let b = ys[k].as_str();
        let ra = rank_of(a);
        let rb = rank_of(b);
        if ra < rb || (ra == rb && text_less(a, b)) {
            return true;
        }
        if !str_eq(a, b) {
            return false;
        }
        k = k + 1;
    }
    k < ys.len() && k >= xs.len()
}

} // verus!
