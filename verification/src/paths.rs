//! Slash-separated paths held as text: their components, parent, file name
//! and file stem.
use vstd::prelude::*;

use crate::text::{vecs_view, find_char, index_of, lemma_index_of_bounds, slice_of};

verus! {

/// The non-empty pieces between `/`, without `.` pieces.
pub open spec fn components(p: Seq<char>) -> Seq<Seq<char>>
    decreases p.len(),
{
    if p.len() == 0 {
        seq![]
    } else {
        let i = index_of(p, '/');
        proof {
            lemma_index_of_bounds(p, '/');
        }
        let piece = p.subrange(0, i);
        let keep: Seq<Seq<char>> = if piece.len() == 0 || piece == seq!['.'] {
            seq![]
        } else {
            seq![piece]
        };
        if i >= p.len() {
            keep
        } else {
            keep + components(p.subrange(i + 1, p.len() as int))
        }
    }
}

/// Whether the path starts at the root.
pub open spec fn is_absolute(p: Seq<char>) -> bool {
    p.len() > 0 && p[0] == '/'
}

/// The components of `source`'s parent below `dir`: `None` when `source`
/// has no file component or does not lie below `dir`.
pub open spec fn relative_parent(source: Seq<char>, dir: Seq<char>) -> Option<Seq<Seq<char>>> {
    let c = components(source);
    let d = components(dir);
    if c.len() == 0 {
        None
    } else {
        let parent = c.drop_last();
        if is_absolute(source) == is_absolute(dir) && d.len() <= parent.len() && parent.subrange(
            0,
            d.len() as int,
        ) == d {
            Some(parent.subrange(d.len() as int, parent.len() as int))
        } else {
            None
        }
    }
}

/// The last component.
pub open spec fn file_name(p: Seq<char>) -> Option<Seq<char>> {
    let c = components(p);
    if c.len() == 0 {
        None
    } else {
        Some(c.last())
    }
}

/// The index of the last `.` in `s`, if any.
pub open spec fn last_dot(s: Seq<char>) -> Option<int>
    decreases s.len(),
{
    if s.len() == 0 {
        None
    } else if s.last() == '.' {
        Some(s.len() - 1)
    } else {
        last_dot(s.drop_last())
    }
}

/// The file name without its extension; a name that starts with its only
/// dot has no extension.
pub open spec fn file_stem(p: Seq<char>) -> Option<Seq<char>> {
    match file_name(p) {
        Some(n) => match last_dot(n) {
            Some(i) => if i == 0 {
                Some(n)
            } else {
                Some(n.subrange(0, i))
            },
            None => Some(n),
        },
        None => None,
    }
}

/// The extension: what follows the last dot of the file name.
pub open spec fn extension(p: Seq<char>) -> Option<Seq<char>> {
    match file_name(p) {
        Some(n) => match last_dot(n) {
            Some(i) => if i == 0 {
                None
            } else {
                Some(n.subrange(i + 1, n.len() as int))
            },
            None => None,
        },
        None => None,
    }
}

proof fn lemma_last_dot(s: Seq<char>, i: int)
    requires
        -1 <= i < s.len(),
        i >= 0 ==> s[i] == '.',
        forall|k: int| i < k < s.len() ==> s[k] != '.',
    ensures
        last_dot(s) == (if i >= 0 {
            Some(i)
        } else {
            None::<int>
        }),
    decreases s.len(),
{
    if s.len() > 0 && s.last() != '.' {
        lemma_last_dot(s.drop_last(), i);
    }
}

/// A character vector, duplicated.
pub fn copy_chars(v: &Vec<char>) -> (r: Vec<char>)
    ensures
        r@ == v@,
{
    let r = slice_of(v, 0, v.len());
    assert(v@.subrange(0, v@.len() as int) =~= v@);
    r
}

/// The components of a path.
pub fn path_components(p: &Vec<char>) -> (r: Vec<Vec<char>>)
    ensures
        vecs_view(r@) == components(p@),
{
    let mut r: Vec<Vec<char>> = Vec::new();
    let n = p.len();
    let mut i: usize = 0;
    assert(p@.subrange(0, n as int) =~= p@);
    while i < n
        invariant
            n == p.len(),
            i <= n,
            vecs_view(r@) + components(p@.subrange(i as int, n as int)) == components(p@),
        decreases n - i,
    {
        let ghost t = p@.subrange(i as int, n as int);
        let e = find_char(p, i, '/');
        let piece = slice_of(p, i, e);
        let ghost before = vecs_view(r@);
        proof {
            lemma_index_of_bounds(t, '/');
            assert(piece@ =~= t.subrange(0, e - i));
        }
        let dot = piece.len() == 1 && piece[0] == '.';
        proof {
            assert(dot == (piece@ == seq!['.'])) by {
                if piece@ == seq!['.'] {
                    assert(piece@[0] == '.');
                }
                if dot {
                    assert(piece@ =~= seq!['.']);
                }
            }
        }
        let ghost keep: Seq<Seq<char>> = if piece@.len() == 0 || piece@ == seq!['.'] {
            seq![]
        } else {
            seq![piece@]
        };
        if piece.len() > 0 && !dot {
            r.push(piece);
            assert(vecs_view(r@) =~= before + keep);
        } else {
            assert(vecs_view(r@) =~= before + keep);
        }
        if e >= n {
            assert(components(t) == keep);
            assert(p@.subrange(n as int, n as int) =~= Seq::<char>::empty());
            assert(components(p@.subrange(n as int, n as int)) =~= Seq::<Seq<char>>::empty());
            assert(before + components(t) =~= (before + keep) + components(p@.subrange(n as int, n as int)));
            i = n;
        } else {
            assert(t.subrange(e - i + 1, t.len() as int) =~= p@.subrange(e + 1, n as int));
            assert(components(t) == keep + components(p@.subrange(e + 1, n as int)));
            assert(before + components(t) =~= (before + keep) + components(p@.subrange(e + 1, n as int)));
            i = e + 1;
        }
    }
    assert(p@.subrange(n as int, n as int) =~= Seq::<char>::empty());
    assert(vecs_view(r@) =~= components(p@));
    r
}

/// The parent's components below `dir`.
pub fn parent_below(source: &Vec<char>, dir: &Vec<char>) -> (r: Option<Vec<Vec<char>>>)
    ensures
        match relative_parent(source@, dir@) {
            Some(c) => r is Some && vecs_view(r->0@) == c,
            None => r is None,
        },
{
    let c = path_components(source);
    let d = path_components(dir);
    let ghost cv = vecs_view(c@);
    let ghost dv = vecs_view(d@);
    if c.len() == 0 {
        return None;
    }
    let abs_s = source.len() > 0 && source[0] == '/';
    let abs_d = dir.len() > 0 && dir[0] == '/';
    let plen = c.len() - 1;
    if abs_s != abs_d || d.len() > plen {
        return None;
    }
    let mut k: usize = 0;
    while k < d.len()
        invariant
            d.len() <= plen,
            plen == c.len() - 1,
            cv == vecs_view(c@),
            dv == vecs_view(d@),
            cv == components(source@),
            dv == components(dir@),
            is_absolute(source@) == is_absolute(dir@),
            k <= d.len(),
            forall|j: int| 0 <= j < k ==> cv[j] == dv[j],
        decreases d.len() - k,
    {
        assert(cv[k as int] == c@[k as int]@);
        assert(dv[k as int] == d@[k as int]@);
        if !crate::text::chars_eq(&c[k], &d[k]) {
            assert(cv.drop_last().subrange(0, dv.len() as int)[k as int] != dv[k as int]);
            assert(cv.drop_last().subrange(0, dv.len() as int) != dv);
            return None;
        }
        k = k + 1;
    }
    assert(cv.drop_last().subrange(0, dv.len() as int) =~= dv);
    let mut out: Vec<Vec<char>> = Vec::new();
    let mut j = d.len();
    while j < plen
        invariant
            d.len() <= j <= plen,
            plen == c.len() - 1,
            cv == vecs_view(c@),
            vecs_view(out@) == cv.drop_last().subrange(d.len() as int, j as int),
        decreases plen - j,
    {
        let ghost before = vecs_view(out@);
        out.push(copy_chars(&c[j]));
        assert(cv[j as int] == c@[j as int]@);
        assert(vecs_view(out@) =~= before.push(cv[j as int]));
        j = j + 1;
        assert(vecs_view(out@) =~= cv.drop_last().subrange(d.len() as int, j as int));
    }
    Some(out)
}

/// The file stem of a path.
pub fn path_file_stem(p: &Vec<char>) -> (r: Option<Vec<char>>)
    ensures
        match file_stem(p@) {
            Some(s) => r is Some && r->0@ == s,
            None => r is None,
        },
{
    let c = path_components(p);
    if c.len() == 0 {
        return None;
    }
    let n = &c[c.len() - 1];
    let mut i = n.len();
    while i > 0 && n[i - 1] != '.'
        invariant
            i <= n.len(),
            forall|k: int| i <= k < n.len() ==> n@[k] != '.',
        decreases i,
    {
        i = i - 1;
    }
    proof {
        lemma_last_dot(n@, i - 1);
    }
    if i <= 1 {
        Some(copy_chars(n))
    } else {
        Some(slice_of(n, 0, i - 1))
    }
}

/// The extension of a path.
pub fn path_extension(p: &Vec<char>) -> (r: Option<Vec<char>>)
    ensures
        match extension(p@) {
            Some(s) => r is Some && r->0@ == s,
            None => r is None,
        },
{
    let c = path_components(p);
    if c.len() == 0 {
        return None;
    }
    let n = &c[c.len() - 1];
    let mut i = n.len();
    while i > 0 && n[i - 1] != '.'
        invariant
            i <= n.len(),
            forall|k: int| i <= k < n.len() ==> n@[k] != '.',
        decreases i,
    {
        i = i - 1;
    }
    proof {
        lemma_last_dot(n@, i - 1);
    }
    if i <= 1 {
        None
    } else {
        Some(slice_of(n, i, n.len()))
    }
}

/// The file name of a path.
pub fn path_file_name(p: &Vec<char>) -> (r: Option<Vec<char>>)
    ensures
        match file_name(p@) {
            Some(s) => r is Some && r->0@ == s,
            None => r is None,
        },
{
    let c = path_components(p);
    if c.len() == 0 {
        return None;
    }
    Some(copy_chars(&c[c.len() - 1]))
}

} // verus!

verus! {

/// `Path::join`: an absolute name replaces the directory; otherwise the name
/// follows the directory, separated by one `/` unless the directory is empty
/// or already ends in one.
pub open spec fn join_path(dir: Seq<char>, name: Seq<char>) -> Seq<char> {
    if is_absolute(name) {
        name
    } else if dir.len() == 0 {
        name
    } else if dir.last() == '/' {
        dir + name
    } else {
        dir + seq!['/'] + name
    }
}

/// `dir.join(name)`.
pub fn join(dir: &str, name: &str) -> (r: String)
    ensures
        r@ == join_path(dir@, name@),
{
    let d = crate::text::chars_of(dir);
    let n = crate::text::chars_of(name);
    let mut out: Vec<char> = Vec::new();
    if !(n.len() > 0 && n[0] == '/') {
        let mut i: usize = 0;
        while i < d.len()
            invariant
                i <= d.len(),
                out@ == d@.subrange(0, i as int),
            decreases d.len() - i,
        {
            out.push(d[i]);
            i = i + 1;
            assert(out@ =~= d@.subrange(0, i as int));
        }
        assert(d@.subrange(0, d.len() as int) =~= d@);
        if d.len() > 0 && d[d.len() - 1] != '/' {
            out.push('/');
        }
    }
    let ghost head = out@;
    let mut j: usize = 0;
    while j < n.len()
        invariant
            j <= n.len(),
            out@ == head + n@.subrange(0, j as int),
        decreases n.len() - j,
    {
        out.push(n[j]);
        j = j + 1;
        assert(out@ =~= head + n@.subrange(0, j as int));
    }
    assert(n@.subrange(0, n.len() as int) =~= n@);
    assert(out@ =~= join_path(dir@, name@));
    crate::text::string_of(&out)
}

/// Two paths name the same place: both absolute or both relative, with the
/// same components (`.` components and repeated or trailing `/` aside).
pub open spec fn same_path(a: Seq<char>, b: Seq<char>) -> bool {
    is_absolute(a) == is_absolute(b) && components(a) == components(b)
}

/// The parent of `p` is the place `dir` names.
pub open spec fn parent_is(p: Seq<char>, dir: Seq<char>) -> bool {
    components(p).len() > 0 && is_absolute(p) == is_absolute(dir) && components(p).drop_last()
        == components(dir)
}

/// The parent of a path, written from its components.
pub open spec fn parent_text(p: Seq<char>) -> Seq<char> {
    (if is_absolute(p) {
        seq!['/']
    } else {
        seq![]
    }) + crate::text::join_by(
        if components(p).len() > 0 {
            components(p).drop_last()
        } else {
            components(p)
        },
        '/',
    )
}

fn vecs_eq(a: &Vec<Vec<char>>, alen: usize, b: &Vec<Vec<char>>) -> (r: bool)
    requires
        alen <= a.len(),
    ensures
        r == (vecs_view(a@).subrange(0, alen as int) == vecs_view(b@)),
{
    if alen != b.len() {
        assert(vecs_view(a@).subrange(0, alen as int).len() != vecs_view(b@).len());
        return false;
    }
    let mut i: usize = 0;
    while i < alen
        invariant
            i <= alen <= a.len(),
            alen == b.len(),
            forall|k: int| 0 <= k < i ==> a@[k]@ == b@[k]@,
        decreases alen - i,
    {
        if !crate::text::chars_eq(&a[i], &b[i]) {
            assert(vecs_view(a@).subrange(0, alen as int)[i as int] != vecs_view(b@)[i as int]);
            return false;
        }
        i = i + 1;
    }
    assert(vecs_view(a@).subrange(0, alen as int) =~= vecs_view(b@));
    true
}

/// Whether the parent of `p` is the place `dir` names.
pub fn has_parent(p: &str, dir: &str) -> (r: bool)
    ensures
        r == parent_is(p@, dir@),
{
    let pv = crate::text::chars_of(p);
    let dv = crate::text::chars_of(dir);
    let pc = path_components(&pv);
    let dc = path_components(&dv);
    if pc.len() == 0 {
        return false;
    }
    let pa = pv.len() > 0 && pv[0] == '/';
    let da = dv.len() > 0 && dv[0] == '/';
    assert(vecs_view(pc@).drop_last() =~= vecs_view(pc@).subrange(0, pc.len() - 1));
    pa == da && vecs_eq(&pc, pc.len() - 1, &dc)
}

/// Whether two paths name the same place.
pub fn path_eq(a: &str, b: &str) -> (r: bool)
    ensures
        r == same_path(a@, b@),
{
    let av = crate::text::chars_of(a);
    let bv = crate::text::chars_of(b);
    let ac = path_components(&av);
    let bc = path_components(&bv);
    let aa = av.len() > 0 && av[0] == '/';
    let ba = bv.len() > 0 && bv[0] == '/';
    assert(vecs_view(ac@).subrange(0, ac.len() as int) =~= vecs_view(ac@));
    aa == ba && vecs_eq(&ac, ac.len(), &bc)
}

/// The parent of a path, written from its components.
pub fn parent_of(p: &str) -> (r: String)
    ensures
        r@ == parent_text(p@),
{
    let pv = crate::text::chars_of(p);
    let mut pc = path_components(&pv);
    let ghost full = components(p@);
    if pc.len() > 0 {
        let ghost before = pc@;
        pc.pop();
        assert(vecs_view(pc@) =~= vecs_view(before).drop_last());
    }
    let body = crate::text::join_chars(&pc, '/');
    let mut out: Vec<char> = Vec::new();
    if pv.len() > 0 && pv[0] == '/' {
        out.push('/');
    }
    let ghost head = out@;
    let mut i: usize = 0;
    while i < body.len()
        invariant
            i <= body.len(),
            out@ == head + body@.subrange(0, i as int),
        decreases body.len() - i,
    {
        out.push(body[i]);
        i = i + 1;
        assert(out@ =~= head + body@.subrange(0, i as int));
    }
    assert(body@.subrange(0, body.len() as int) =~= body@);
    assert(out@ =~= parent_text(p@));
    crate::text::string_of(&out)
}

} // verus!
