//! Paths: the directory chosen when one is given, and, on macOS (a Unix
//! system, whose path rules `std::path::Path` follows there), the
//! application bundle that holds an executable.

use vstd::prelude::*;
use crate::text::{chars_of, str_eq, string_of_range, trim};

verus! {

/// The position of the last `'/'` in `s`, or -1.
pub open spec fn last_slash(s: Seq<char>) -> int
    decreases s.len(),
{
    if s.len() == 0 {
        -1
    } else if s.last() == '/' {
        s.len() - 1
    } else {
        last_slash(s.drop_last())
    }
}

pub proof fn lemma_last_slash(s: Seq<char>)
    ensures
        -1 <= last_slash(s) < s.len(),
        last_slash(s) >= 0 ==> s[last_slash(s)] == '/',
        forall|j: int| last_slash(s) < j < s.len() ==> s[j] != '/',
    decreases s.len(),
{
    if s.len() > 0 && s.last() != '/' {
        lemma_last_slash(s.drop_last());
        assert forall|j: int| last_slash(s) < j < s.len() implies s[j] != '/' by {
            if j < s.len() - 1 {
                assert(s.drop_last()[j] == s[j]);
            }
        }
    }
}

/// The last component of a Unix path that is neither empty nor `.`.
pub open spec fn last_component(s: Seq<char>) -> Option<Seq<char>>
    decreases s.len(),
{
    let k = last_slash(s);
    let piece = s.skip(k + 1);
    if piece.len() > 0 && piece != seq!['.'] {
        Some(piece)
    } else if k < 0 {
        None
    } else {
        proof {
            lemma_last_slash(s);
        }
        last_component(s.take(k))
    }
}

/// What `Path::file_name` gives on Unix: the last component, unless the
/// path ends in `..` or has no normal component.
pub open spec fn file_name(s: Seq<char>) -> Option<Seq<char>> {
    match last_component(s) {
        Some(p) => if p == seq!['.', '.'] {
            None
        } else {
            Some(p)
        },
        None => None,
    }
}

pub fn last_slash_before(cs: &Vec<char>, end: usize) -> (r: Option<usize>)
    requires
        end <= cs.len(),
    ensures
        r matches Some(k) ==> k < end && last_slash(cs@.take(end as int)) == k,
        r is None ==> last_slash(cs@.take(end as int)) == -1,
{
    let mut i: usize = end;
    while i > 0 && cs[i - 1] != '/'
        invariant
            i <= end <= cs.len(),
            last_slash(cs@.take(end as int)) == last_slash(cs@.take(i as int)),
        decreases i,
    {
        assert(cs@.take(i as int).drop_last() =~= cs@.take(i - 1));
        i = i - 1;
    }
    if i == 0 {
        None
    } else {
        Some(i - 1)
    }
}

pub fn is_dot(cs: &Vec<char>, a: usize, b: usize) -> (r: bool)
    requires
        a <= b <= cs.len(),
    ensures
        r == (cs@.subrange(a as int, b as int) == seq!['.']),
{
    if b - a == 1 && cs[a] == '.' {
        assert(cs@.subrange(a as int, b as int) =~= seq!['.']);
        true
    } else {
        if b - a == 1 {
            assert(cs@.subrange(a as int, b as int)[0] != '.');
        } else {
            assert(cs@.subrange(a as int, b as int).len() != seq!['.'].len());
        }
        false
    }
}

/// The file name of a Unix path (see [`file_name`]).
pub fn path_file_name(path: &str) -> (r: Option<String>)
    ensures
        r matches Some(n) ==> file_name(path@) == Some(n@),
        r is None <==> file_name(path@) is None,
{
    let cs = chars_of(path);
    let mut end: usize = cs.len();
    assert(cs@.take(end as int) =~= cs@);
    loop
        invariant
            end <= cs.len(),
            cs@ == path@,
            last_component(path@) == last_component(cs@.take(end as int)),
        decreases end,
    {
        let ghost s = cs@.take(end as int);
        let k = last_slash_before(&cs, end);
        let start: usize = match k {
            Some(k) => k + 1,
            None => 0,
        };
        assert(s.skip(last_slash(s) + 1) =~= cs@.subrange(start as int, end as int));
        if start < end && !is_dot(&cs, start, end) {
            let piece = string_of_range(&cs, start, end);
            if end - start == 2 && cs[start] == '.' && cs[start + 1] == '.' {
                assert(piece@ =~= seq!['.', '.']);
                return None;
            }
            proof {
                if piece@ == seq!['.', '.'] {
                    assert(piece@.len() == 2 && piece@[0] == cs@[start as int]);
                }
            }
            return Some(piece);
        }
        match k {
            None => {
                return None;
            },
            Some(k) => {
                assert(s.take(k as int) =~= cs@.take(k as int));
                end = k;
            },
        }
    }
}


/// A directory that was given, unless it is blank; else the default.
pub open spec fn chosen_dir(dir: Option<Seq<char>>, default: Seq<char>) -> Seq<char> {
    match dir {
        Some(d) => if trim(d).len() > 0 {
            d
        } else {
            default
        },
        None => default,
    }
}

/// See [`chosen_dir`].
pub fn dir_or_default(dir: Option<String>, default: String) -> (r: String)
    ensures
        r@ == chosen_dir(
            match dir {
                Some(d) => Some(d@),
                None => None,
            },
            default@,
        ),
{
    match dir {
        Some(d) => {
            let t = crate::text::trim_str(d.as_str());
            if t.as_str().is_empty() {
                default
            } else {
                d
            }
        },
        None => default,
    }
}

/// Whether a Unix path starts at the root.
pub open spec fn has_root(s: Seq<char>) -> bool {
    s.len() > 0 && s[0] == '/'
}

/// Whether a relative path starts with a `.` component, which
/// `Path::components` keeps.
pub open spec fn leading_cur_dir(s: Seq<char>) -> bool {
    !has_root(s) && s.len() > 0 && s[0] == '.' && (s.len() == 1 || s[1] == '/')
}

/// Where the components after the root or the leading `.` begin.
pub open spec fn body_start(s: Seq<char>) -> int {
    if has_root(s) || leading_cur_dir(s) {
        1
    } else {
        0
    }
}

/// Where the path is cut to drop its last piece: at the last `/` of the
/// body, else at the body's start.
pub open spec fn cut_point(s: Seq<char>) -> int {
    let k = last_slash(s);
    if k >= body_start(s) {
        k
    } else {
        body_start(s)
    }
}

/// The last piece of the path's body.
pub open spec fn back_piece(s: Seq<char>) -> Seq<char> {
    let k = last_slash(s);
    if k >= body_start(s) {
        s.skip(k + 1)
    } else {
        s.skip(body_start(s))
    }
}

/// Whether a piece is a component: empty pieces and `.` are not.
pub open spec fn real_piece(p: Seq<char>) -> bool {
    p.len() > 0 && p != seq!['.']
}

pub proof fn lemma_cut_point(s: Seq<char>)
    requires
        s.len() > body_start(s),
    ensures
        body_start(s) <= cut_point(s) < s.len(),
{
    lemma_last_slash(s);
}

/// The path without the empty and `.` pieces at its end.
pub open spec fn trim_back(s: Seq<char>) -> Seq<char>
    decreases s.len(),
{
    if s.len() <= body_start(s) {
        s
    } else if real_piece(back_piece(s)) {
        s
    } else {
        proof {
            lemma_cut_point(s);
        }
        trim_back(s.take(cut_point(s)))
    }
}

/// What `Path::parent` gives on Unix: the path without its last component,
/// and without the empty and `.` pieces left at its end; `None` for the
/// root and for the empty path.
pub open spec fn parent_path(s: Seq<char>) -> Option<Seq<char>>
    decreases s.len(),
{
    if s.len() <= body_start(s) {
        if leading_cur_dir(s) {
            Some(Seq::empty())
        } else {
            None
        }
    } else {
        proof {
            lemma_cut_point(s);
        }
        if real_piece(back_piece(s)) {
            Some(trim_back(s.take(cut_point(s))))
        } else {
            parent_path(s.take(cut_point(s)))
        }
    }
}

/// The position of the last `.` in `s`, or -1.
pub open spec fn last_dot(s: Seq<char>) -> int
    decreases s.len(),
{
    if s.len() == 0 {
        -1
    } else if s.last() == '.' {
        s.len() - 1
    } else {
        last_dot(s.drop_last())
    }
}

/// What `Path::extension` gives on Unix: the part of the file name after
/// its last `.`, where that `.` is not the name's first character.
pub open spec fn extension(s: Seq<char>) -> Option<Seq<char>> {
    match file_name(s) {
        Some(n) => if last_dot(n) > 0 {
            Some(n.skip(last_dot(n) + 1))
        } else {
            None
        },
        None => None,
    }
}

pub proof fn lemma_trim_back_len(s: Seq<char>)
    ensures
        trim_back(s).len() <= s.len(),
        trim_back(s) == s.take(trim_back(s).len() as int),
    decreases s.len(),
{
    if s.len() > body_start(s) && !real_piece(back_piece(s)) {
        lemma_cut_point(s);
        lemma_trim_back_len(s.take(cut_point(s)));
        assert(s.take(cut_point(s)).take(trim_back(s).len() as int) =~= s.take(trim_back(s).len() as int));
    } else {
        assert(s.take(s.len() as int) =~= s);
    }
}

/// The parent of a path is a shorter prefix of it.
pub proof fn lemma_parent_path(s: Seq<char>)
    ensures
        parent_path(s) matches Some(q) ==> q.len() < s.len() && q == s.take(q.len() as int),
    decreases s.len(),
{
    if s.len() <= body_start(s) {
        if leading_cur_dir(s) {
            assert(Seq::<char>::empty() =~= s.take(0));
        }
    } else {
        lemma_cut_point(s);
        let t = s.take(cut_point(s));
        if real_piece(back_piece(s)) {
            lemma_trim_back_len(t);
            assert(t.take(trim_back(t).len() as int) =~= s.take(trim_back(t).len() as int));
        } else {
            lemma_parent_path(t);
            if let Some(q) = parent_path(t) {
                assert(t.take(q.len() as int) =~= s.take(q.len() as int));
            }
        }
    }
}

/// The first of a path and its ancestors whose extension is `app`.
pub open spec fn app_bundle(s: Seq<char>) -> Option<Seq<char>>
    decreases s.len(),
{
    if extension(s) == Some("app"@) {
        Some(s)
    } else {
        match parent_path(s) {
            Some(q) => {
                proof {
                    lemma_parent_path(s);
                }
                app_bundle(q)
            },
            None => None,
        }
    }
}

fn body_start_exec(cs: &Vec<char>, n: usize) -> (r: usize)
    requires
        n <= cs.len(),
    ensures
        r == body_start(cs@.take(n as int)),
{
    if n > 0 && cs[0] == '/' {
        1
    } else if n > 0 && cs[0] == '.' && (n == 1 || cs[1] == '/') {
        1
    } else {
        0
    }
}

/// The cut point and the start of the last piece of `cs[..n]`.
fn cut_exec(cs: &Vec<char>, n: usize) -> (r: (usize, usize))
    requires
        n <= cs.len(),
        n > body_start(cs@.take(n as int)),
    ensures
        r.0 == cut_point(cs@.take(n as int)),
        r.0 <= r.1 <= n,
        cs@.subrange(r.1 as int, n as int) == back_piece(cs@.take(n as int)),
{
    let ghost s = cs@.take(n as int);
    let b = body_start_exec(cs, n);
    proof {
        lemma_last_slash(s);
    }
    match last_slash_before(cs, n) {
        Some(k) => {
            if k >= b {
                assert(s.skip(k + 1) =~= cs@.subrange(k + 1, n as int));
                (k, k + 1)
            } else {
                assert(s.skip(b as int) =~= cs@.subrange(b as int, n as int));
                (b, b)
            }
        },
        None => {
            assert(s.skip(b as int) =~= cs@.subrange(b as int, n as int));
            (b, b)
        },
    }
}

fn real_piece_exec(cs: &Vec<char>, a: usize, n: usize) -> (r: bool)
    requires
        a <= n <= cs.len(),
    ensures
        r == real_piece(cs@.subrange(a as int, n as int)),
{
    n > a && !is_dot(cs, a, n)
}

/// The length of `trim_back(cs[..n])`.
fn trim_back_len(cs: &Vec<char>, n: usize) -> (r: usize)
    requires
        n <= cs.len(),
    ensures
        r <= n,
        cs@.take(r as int) == trim_back(cs@.take(n as int)),
{
    let mut m: usize = n;
    loop
        invariant
            m <= n <= cs.len(),
            trim_back(cs@.take(n as int)) == trim_back(cs@.take(m as int)),
        decreases m,
    {
        let ghost s = cs@.take(m as int);
        let b = body_start_exec(cs, m);
        if m <= b {
            return m;
        }
        let (c, a) = cut_exec(cs, m);
        if real_piece_exec(cs, a, m) {
            return m;
        }
        proof {
            lemma_cut_point(s);
        }
        assert(s.take(c as int) =~= cs@.take(c as int));
        m = c;
    }
}

/// The length of the parent of `cs[..n]`, which is a prefix of it (see
/// [`lemma_parent_path`]).
fn parent_len(cs: &Vec<char>, n: usize) -> (r: Option<usize>)
    requires
        n <= cs.len(),
    ensures
        r matches Some(m) ==> m < n && parent_path(cs@.take(n as int)) == Some(cs@.take(m as int)),
        r is None <==> parent_path(cs@.take(n as int)) is None,
{
    let mut m: usize = n;
    loop
        invariant
            m <= n <= cs.len(),
            parent_path(cs@.take(n as int)) == parent_path(cs@.take(m as int)),
        decreases m,
    {
        let ghost s = cs@.take(m as int);
        proof {
            lemma_parent_path(cs@.take(n as int));
        }
        let b = body_start_exec(cs, m);
        if m <= b {
            if m > 0 && cs[0] == '.' && (m == 1 || cs[1] == '/') {
                assert(cs@.take(0) =~= Seq::<char>::empty());
                return Some(0);
            }
            return None;
        }
        let (c, a) = cut_exec(cs, m);
        proof {
            lemma_cut_point(s);
        }
        assert(s.take(c as int) =~= cs@.take(c as int));
        if real_piece_exec(cs, a, m) {
            let t = trim_back_len(cs, c);
            proof {
                lemma_trim_back_len(cs@.take(c as int));
            }
            assert(cs@.take(n as int).take(t as int) =~= cs@.take(t as int));
            return Some(t);
        }
        m = c;
    }
}

fn last_dot_exec(cs: &Vec<char>) -> (r: Option<usize>)
    ensures
        r matches Some(k) ==> k < cs.len() && last_dot(cs@) == k,
        r is None ==> last_dot(cs@) == -1,
{
    let mut i: usize = cs.len();
    assert(cs@.take(cs.len() as int) =~= cs@);
    while i > 0 && cs[i - 1] != '.'
        invariant
            i <= cs.len(),
            last_dot(cs@) == last_dot(cs@.take(i as int)),
        decreases i,
    {
        assert(cs@.take(i as int).drop_last() =~= cs@.take(i - 1));
        i = i - 1;
    }
    if i == 0 {
        None
    } else {
        Some(i - 1)
    }
}

/// See [`extension`].
pub fn path_extension(path: &str) -> (r: Option<String>)
    ensures
        r matches Some(e) ==> extension(path@) == Some(e@),
        r is None <==> extension(path@) is None,
{
    match path_file_name(path) {
        None => None,
        Some(name) => {
            let ncs = chars_of(name.as_str());
            match last_dot_exec(&ncs) {
                Some(d) => {
                    if d > 0 {
                        let e = string_of_range(&ncs, d + 1, ncs.len());
                        assert(ncs@.skip(d + 1) =~= ncs@.subrange(d + 1, ncs.len() as int));
                        Some(e)
                    } else {
                        None
                    }
                },
                None => None,
            }
        },
    }
}

/// The application bundle that holds an executable on macOS (see
/// [`app_bundle`]).
pub fn macos_app_bundle_path(executable: &str) -> (r: Option<String>)
    ensures
        r matches Some(p) ==> app_bundle(executable@) == Some(p@),
        r is None <==> app_bundle(executable@) is None,
{
    let cs = chars_of(executable);
    let mut n: usize = cs.len();
    assert(cs@.take(n as int) =~= executable@);
    loop
        invariant
            n <= cs.len(),
            app_bundle(executable@) == app_bundle(cs@.take(n as int)),
        decreases n,
    {
        let p = string_of_range(&cs, 0, n);
        assert(p@ =~= cs@.take(n as int));
        match path_extension(p.as_str()) {
            Some(e) => {
                if str_eq(e.as_str(), "app") {
                    return Some(p);
                }
            },
            None => {},
        }
        match parent_len(&cs, n) {
            Some(m) => {
                n = m;
            },
            None => {
                return None;
            },
        }
    }
}

} // verus!
