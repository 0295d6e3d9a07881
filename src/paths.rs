//! Path strings, read as Unix paths: components separated by `/`.
use vstd::prelude::*;

use crate::text::{chars_of, push_range};

verus! {

/// `p` with its trailing `/` characters and `/.` segments removed, as std's
/// `Path` drops them when it splits a path into components. A leading `.`
/// stays.
pub open spec fn trim_trailing(p: Seq<char>) -> Seq<char>
    decreases p.len(),
{
    if p.len() > 0 && p.last() == '/' {
        trim_trailing(p.drop_last())
    } else if p.len() >= 2 && p.last() == '.' && p[p.len() - 2] == '/' {
        trim_trailing(p.drop_last())
    } else {
        p
    }
}

/// Where the last component of `q` starts: just after its last `/`, or 0.
pub open spec fn component_start(q: Seq<char>) -> int
    decreases q.len(),
{
    if q.len() == 0 {
        0
    } else if q.last() == '/' {
        q.len() as int
    } else {
        component_start(q.drop_last())
    }
}

/// The final component of `p`, trailing `/` and `/.` ignored (empty for `/` or ``).
pub open spec fn last_component(p: Seq<char>) -> Seq<char> {
    let q = trim_trailing(p);
    q.subrange(component_start(q), q.len() as int)
}

/// `n` is one of the special components `.` and `..`.
pub open spec fn is_dot_or_dotdot(n: Seq<char>) -> bool {
    n == seq!['.'] || n == seq!['.', '.']
}

/// The file name of `p`: its final component, unless that is empty, `.` or `..`.
pub open spec fn file_name(p: Seq<char>) -> Option<Seq<char>> {
    let n = last_component(p);
    if n.len() == 0 || is_dot_or_dotdot(n) {
        None
    } else {
        Some(n)
    }
}

/// A path is hidden when its final component starts with `.` and is neither
/// `.` nor `..`.
pub open spec fn is_hidden(p: Seq<char>) -> bool {
    let n = last_component(p);
    n.len() > 0 && n[0] == '.' && !is_dot_or_dotdot(n)
}

/// Index of the last `.` in `n`, or -1.
pub open spec fn last_dot(n: Seq<char>) -> int
    decreases n.len(),
{
    if n.len() == 0 {
        -1
    } else if n.last() == '.' {
        n.len() - 1
    } else {
        last_dot(n.drop_last())
    }
}

/// The extension of `p`: what follows the last `.` of its file name, where that
/// `.` is not the name's first character.
pub open spec fn extension(p: Seq<char>) -> Option<Seq<char>> {
    match file_name(p) {
        Some(n) => if last_dot(n) > 0 {
            Some(n.subrange(last_dot(n) + 1, n.len() as int))
        } else {
            None
        },
        None => None,
    }
}

proof fn lemma_trim_is_prefix(p: Seq<char>)
    ensures
        trim_trailing(p).len() <= p.len(),
        trim_trailing(p) == p.subrange(0, trim_trailing(p).len() as int),
    decreases p.len(),
{
    if (p.len() > 0 && p.last() == '/') || (p.len() >= 2 && p.last() == '.' && p[p.len() - 2]
        == '/') {
        lemma_trim_is_prefix(p.drop_last());
        assert(p.drop_last().subrange(0, trim_trailing(p).len() as int) =~= p.subrange(
            0,
            trim_trailing(p).len() as int,
        ));
    } else {
        assert(p =~= p.subrange(0, p.len() as int));
    }
}

proof fn lemma_component_start_bounds(q: Seq<char>)
    ensures
        0 <= component_start(q) <= q.len(),
    decreases q.len(),
{
    if q.len() > 0 && q.last() != '/' {
        lemma_component_start_bounds(q.drop_last());
    }
}

/// Bounds of the final component of `v` within `v`.
fn component_bounds(v: &Vec<char>) -> (r: (usize, usize))
    ensures
        r.0 <= r.1 <= v.len(),
        r.1 == trim_trailing(v@).len(),
        r.0 == component_start(trim_trailing(v@)),
        v@.subrange(r.0 as int, r.1 as int) == last_component(v@),
{
    let mut end: usize = v.len();
    assert(v@.subrange(0, end as int) =~= v@);
    while end > 0 && (v[end - 1] == '/' || (end >= 2 && v[end - 1] == '.' && v[end - 2] == '/'))
        invariant
            end <= v.len(),
            trim_trailing(v@) == trim_trailing(v@.subrange(0, end as int)),
        decreases end,
    {
        assert(v@.subrange(0, end as int).drop_last() =~= v@.subrange(0, end - 1));
        end = end - 1;
    }
    let ghost q = v@.subrange(0, end as int);
    assert(trim_trailing(v@) == q);
    let mut start: usize = end;
    assert(q.subrange(0, start as int) =~= q);
    while start > 0 && v[start - 1] != '/'
        invariant
            start <= end <= v.len(),
            q == v@.subrange(0, end as int),
            component_start(q) == component_start(q.subrange(0, start as int)),
        decreases start,
    {
        assert(q.subrange(0, start as int).drop_last() =~= q.subrange(0, start - 1));
        start = start - 1;
    }
    assert(component_start(q.subrange(0, start as int)) == start);
    assert(q.subrange(start as int, end as int) =~= v@.subrange(start as int, end as int));
    (start, end)
}

/// `v[lo..hi]` is `.` or `..`.
fn range_is_dot_or_dotdot(v: &Vec<char>, lo: usize, hi: usize) -> (r: bool)
    requires
        lo <= hi <= v.len(),
    ensures
        r == is_dot_or_dotdot(v@.subrange(lo as int, hi as int)),
{
    let ghost n = v@.subrange(lo as int, hi as int);
    if hi - lo == 1 {
        if v[lo] == '.' {
            assert(n =~= seq!['.']);
            true
        } else {
            assert(n[0] != seq!['.'][0]);
            false
        }
    } else if hi - lo == 2 {
        if v[lo] == '.' && v[lo + 1] == '.' {
            assert(n =~= seq!['.', '.']);
            true
        } else {
            assert(n[0] != seq!['.', '.'][0] || n[1] != seq!['.', '.'][1]);
            false
        }
    } else {
        assert(n.len() != seq!['.'].len() && n.len() != seq!['.', '.'].len());
        false
    }
}

/// Bounds of the file name of `v` within `v`, if it has one.
pub(crate) fn file_name_bounds(v: &Vec<char>) -> (r: Option<(usize, usize)>)
    ensures
        match r {
            Some((a, b)) => a <= b <= v.len() && file_name(v@) == Some(v@.subrange(a as int, b as int))
                && b == trim_trailing(v@).len() && a == component_start(
                trim_trailing(v@),
            ),
            None => file_name(v@) is None,
        },
{
    let (a, b) = component_bounds(v);
    if a == b || range_is_dot_or_dotdot(v, a, b) {
        None
    } else {
        Some((a, b))
    }
}

/// Position just after the last `.` of `v[a..b]`, or `a` when it has none.
fn after_last_dot(v: &Vec<char>, a: usize, b: usize) -> (d: usize)
    requires
        a <= b <= v.len(),
    ensures
        a <= d <= b,
        last_dot(v@.subrange(a as int, b as int)) == d - a - 1,
{
    let ghost n = v@.subrange(a as int, b as int);
    let mut d: usize = b;
    assert(n.subrange(0, d - a) =~= n);
    while d > a && v[d - 1] != '.'
        invariant
            a <= d <= b <= v.len(),
            n == v@.subrange(a as int, b as int),
            last_dot(n) == last_dot(n.subrange(0, d - a)),
        decreases d,
    {
        assert(n.subrange(0, d - a).drop_last() =~= n.subrange(0, d - 1 - a));
        d = d - 1;
    }
    assert(last_dot(n.subrange(0, d - a)) == d - a - 1);
    d
}

/// Bounds of the extension of `v` within `v`, if it has one.
pub(crate) fn extension_bounds(v: &Vec<char>) -> (r: Option<(usize, usize)>)
    ensures
        match r {
            Some((a, b)) => a <= b <= v.len() && extension(v@) == Some(v@.subrange(a as int, b as int)),
            None => extension(v@) is None,
        },
{
    match file_name_bounds(v) {
        None => None,
        Some((a, b)) => {
            let ghost n = v@.subrange(a as int, b as int);
            let d = after_last_dot(v, a, b);
            if d > a + 1 {
                assert(n.subrange(d - a, n.len() as int) =~= v@.subrange(d as int, b as int));
                Some((d, b))
            } else {
                None
            }
        },
    }
}

/// `p` with its extension set to `md`, as std's `Path::with_extension`
/// does it: the file name keeps its stem, everything after the stem is
/// dropped, and `.md` follows. A path without a file name is kept as it is.
pub open spec fn with_md_extension(p: Seq<char>) -> Seq<char> {
    match file_name(p) {
        None => p,
        Some(n) => {
            let q = trim_trailing(p);
            let stem_end = if last_dot(n) > 0 {
                component_start(q) + last_dot(n)
            } else {
                q.len() as int
            };
            p.subrange(0, stem_end) + seq!['.', 'm', 'd']
        },
    }
}

/// `path` with its extension set to `md`.
pub fn with_md(path: &str) -> (r: String)
    ensures
        r@ == with_md_extension(path@),
{
    let v = chars_of(path);
    match file_name_bounds(&v) {
        None => String::from_str(path),
        Some((a, b)) => {
            proof {
                lemma_trim_is_prefix(v@);
                lemma_component_start_bounds(trim_trailing(v@));
            }
            let d = after_last_dot(&v, a, b);
            let stem_end = if d > a + 1 {
                d - 1
            } else {
                b
            };
            let mut out = String::new();
            push_range(&mut out, &v, 0, stem_end);
            out.push('.');
            out.push('m');
            out.push('d');
            assert(out@ =~= with_md_extension(path@));
            out
        },
    }
}

/// Whether `path` is hidden: its final component starts with `.` and is
/// neither `.` nor `..`.
pub fn is_hidden_unix(path: &str) -> (r: bool)
    ensures
        r == is_hidden(path@),
{
    let v = chars_of(path);
    let (a, b) = component_bounds(&v);
    a < b && v[a] == '.' && !range_is_dot_or_dotdot(&v, a, b)
}

/// `p` is relative: it does not start at the root.
pub open spec fn is_relative(p: Seq<char>) -> bool {
    !(p.len() > 0 && p[0] == '/')
}

/// The path to work with for `path`: when it is relative, its canonical form
/// `canonical` if the filesystem gave one; otherwise `path` itself.
pub open spec fn resolved(path: Seq<char>, canonical: Option<Seq<char>>) -> Seq<char> {
    if is_relative(path) && canonical is Some {
        canonical->0
    } else {
        path
    }
}

/// The path to work with for `path`, given its canonical form (`None` when
/// it could not be had): a relative path is replaced by its canonical form.
pub fn relative_to_absolute(path: &str, canonical: Option<String>) -> (r: String)
    ensures
        r@ == resolved(path@, match canonical {
            Some(c) => Some(c@),
            None => None,
        }),
{
    let v = chars_of(path);
    let absolute = v.len() > 0 && v[0] == '/';
    match canonical {
        Some(c) => if absolute {
            String::from_str(path)
        } else {
            c
        },
        None => String::from_str(path),
    }
}

} // verus!
