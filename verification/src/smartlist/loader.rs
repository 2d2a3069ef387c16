//! Which files of the lists directory hold smart lists, and in which order
//! they are read: by their directory, then by their file name.
use vstd::prelude::*;

use crate::paths::{components, extension, file_name, is_absolute, path_components, path_extension, path_file_name};
use crate::sorting::{sort_by, Orderer};
use crate::text::{chars_eq_lit, chars_of, lemma_lex_order_flip, lex_order, str_order, string_of, strings_view, vecs_view, Order3};
use crate::tui::session::{compare_paths, lemma_path_order_flip, path_order};

verus! {

/// A file holds a smart list when its extension is `list`.
pub open spec fn is_list_path(p: Seq<char>) -> bool {
    extension(p) == Some("list"@)
}

/// Whether a file holds a smart list (see `is_list_path`).
pub fn is_list_file(path: &str) -> (r: bool)
    ensures
        r == is_list_path(path@),
{
    proof {
        reveal_strlit("list");
    }
    match path_extension(&chars_of(path)) {
        Some(e) => chars_eq_lit(&e, "list"),
        None => false,
    }
}

/// The parent directory of a path, as its components and whether it starts
/// at the root.
pub open spec fn parent_key(p: Seq<char>) -> (bool, Seq<Seq<char>>) {
    if components(p).len() > 0 {
        (is_absolute(p), components(p).drop_last())
    } else {
        (false, seq![])
    }
}

/// The file name of a path, empty when it has none.
pub open spec fn name_key(p: Seq<char>) -> Seq<char> {
    match file_name(p) {
        Some(n) => n,
        None => seq![],
    }
}

pub open spec fn bool_order(a: bool, b: bool) -> Order3 {
    if a == b {
        Order3::Equal
    } else if !a {
        Order3::Less
    } else {
        Order3::Greater
    }
}

/// The order in which list files are read: by parent directory (a
/// directory from the root before one that is not, then by components),
/// then by file name.
pub open spec fn list_path_order(a: Seq<char>, b: Seq<char>) -> Order3 {
    let o1 = bool_order(!parent_key(a).0, !parent_key(b).0);
    let o2 = path_order(parent_key(a).1, parent_key(b).1);
    if o1 != Order3::Equal {
        o1
    } else if o2 != Order3::Equal {
        o2
    } else {
        lex_order(name_key(a), name_key(b))
    }
}

fn strings_of(v: &Vec<Vec<char>>, n: usize) -> (r: Vec<String>)
    requires
        n <= v.len(),
    ensures
        strings_view(r@) == vecs_view(v@).subrange(0, n as int),
{
    let mut r: Vec<String> = Vec::new();
    let mut i: usize = 0;
    while i < n
        invariant
            i <= n <= v.len(),
            strings_view(r@) == vecs_view(v@).subrange(0, i as int),
        decreases n - i,
    {
        let ghost before = strings_view(r@);
        r.push(string_of(&v[i]));
        assert(strings_view(r@) =~= before.push(vecs_view(v@)[i as int]));
        i = i + 1;
        assert(strings_view(r@) =~= vecs_view(v@).subrange(0, i as int));
    }
    r
}

fn parent_key_of(p: &str) -> (r: (bool, Vec<String>))
    ensures
        r.0 == parent_key(p@).0,
        strings_view(r.1@) == parent_key(p@).1,
{
    let v = chars_of(p);
    let c = path_components(&v);
    if c.len() > 0 {
        let abs = v.len() > 0 && v[0] == '/';
        let parent = strings_of(&c, c.len() - 1);
        assert(vecs_view(c@).subrange(0, c.len() - 1) =~= vecs_view(c@).drop_last());
        (abs, parent)
    } else {
        let r: Vec<String> = Vec::new();
        assert(strings_view(r@) =~= Seq::<Seq<char>>::empty());
        (false, r)
    }
}

fn name_key_of(p: &str) -> (r: String)
    ensures
        r@ == name_key(p@),
{
    match path_file_name(&chars_of(p)) {
        Some(n) => string_of(&n),
        None => String::new(),
    }
}

/// Orders list file paths (see `list_path_order`).
pub struct ListPathOrderer;

impl Orderer<String> for ListPathOrderer {
    open spec fn spec_order(&self, a: String, b: String) -> Order3 {
        list_path_order(a@, b@)
    }

    proof fn lemma_flip(&self, a: String, b: String) {
        lemma_path_order_flip(parent_key(a@).1, parent_key(b@).1);
        lemma_lex_order_flip(name_key(a@), name_key(b@));
    }

    fn order(&self, a: &String, b: &String) -> (r: Order3) {
        let (abs_a, dir_a) = parent_key_of(a.as_str());
        let (abs_b, dir_b) = parent_key_of(b.as_str());
        if abs_a != abs_b {
            return if abs_a {
                Order3::Less
            } else {
                Order3::Greater
            };
        }
        let o = compare_paths(&dir_a, &dir_b);
        if o != Order3::Equal {
            return o;
        }
        str_order(name_key_of(a.as_str()).as_str(), name_key_of(b.as_str()).as_str())
    }
}

/// The paths of the list files among `paths`, in the order in which they
/// are read (see `list_path_order`).
pub fn list_files_in_order(paths: Vec<String>) -> (r: Vec<String>)
    ensures
        strings_view(r@).to_multiset() == strings_view(paths@).filter(|p: Seq<char>| is_list_path(p)).to_multiset(),
        forall|i: int| 0 <= i < r@.len() - 1 ==> list_path_order(r@[i]@, #[trigger] r@[i + 1]@) != Order3::Greater,
{
    let mut kept: Vec<String> = Vec::new();
    let ghost pv = strings_view(paths@);
    let mut i: usize = 0;
    while i < paths.len()
        invariant
            i <= paths.len(),
            pv == strings_view(paths@),
            strings_view(kept@) == pv.subrange(0, i as int).filter(|p: Seq<char>| is_list_path(p)),
        decreases paths.len() - i,
    {
        proof {
            assert(pv.subrange(0, i + 1).drop_last() =~= pv.subrange(0, i as int));
            pv.subrange(0, i as int).lemma_filter_push(pv[i as int], |p: Seq<char>| is_list_path(p));
            assert(pv.subrange(0, i as int).push(pv[i as int]) =~= pv.subrange(0, i + 1));
        }
        if is_list_file(paths[i].as_str()) {
            let ghost before = strings_view(kept@);
            kept.push(paths[i].clone());
            assert(strings_view(kept@) =~= before.push(pv[i as int]));
        }
        i = i + 1;
    }
    assert(pv.subrange(0, paths.len() as int) =~= pv);
    let ghost unsorted = kept@;
    sort_by(&mut kept, &ListPathOrderer);
    proof {
        crate::sorting::lemma_map_multiset(kept@, unsorted, |s: String| s@);
        assert(strings_view(kept@) =~= kept@.map_values(|s: String| s@));
        assert(strings_view(unsorted) =~= unsorted.map_values(|s: String| s@));
        assert forall|i: int| 0 <= i < kept@.len() - 1 implies list_path_order(kept@[i]@, #[trigger] kept@[i + 1]@)
            != Order3::Greater by {
            assert(ListPathOrderer.spec_order(kept@[i], kept@[i + 1]) != Order3::Greater);
        }
    }
    kept
}

} // verus!
