//! Change detection between two scans of the task directories: an index of
//! task files by path, with their length and modification stamp.
use vstd::prelude::*;

use crate::query::then;
use crate::sorting::{lemma_map_multiset, sort_by, Orderer};
use crate::text::{int_order, lemma_lex_order_equal, lemma_lex_order_flip, lex_order, str_eq, str_order, string_of, strings_view, vecs_view, Order3};
use crate::paths::{components, is_absolute, path_components};
use crate::tui::session::{compare_paths, lemma_path_order_flip, path_order};

verus! {

broadcast use vstd::seq_lib::group_to_multiset_ensures;

/// What happened to one task file between two scans.
#[derive(Debug, Clone, PartialEq, Eq, PartialOrd, Ord)]
pub enum RefreshAction {
    Created(String),
    Updated(String),
    Deleted(String),
}

pub ghost enum ActionModel {
    Created(Seq<char>),
    Updated(Seq<char>),
    Deleted(Seq<char>),
}

impl View for RefreshAction {
    type V = ActionModel;

    open spec fn view(&self) -> ActionModel {
        match self {
            RefreshAction::Created(p) => ActionModel::Created(p@),
            RefreshAction::Updated(p) => ActionModel::Updated(p@),
            RefreshAction::Deleted(p) => ActionModel::Deleted(p@),
        }
    }
}

pub open spec fn actions_view(v: Seq<RefreshAction>) -> Seq<ActionModel> {
    v.map_values(|a: RefreshAction| a@)
}

pub open spec fn action_rank(a: ActionModel) -> int {
    match a {
        ActionModel::Created(_) => 0,
        ActionModel::Updated(_) => 1,
        ActionModel::Deleted(_) => 2,
    }
}

pub open spec fn action_path(a: ActionModel) -> Seq<char> {
    match a {
        ActionModel::Created(p) => p,
        ActionModel::Updated(p) => p,
        ActionModel::Deleted(p) => p,
    }
}

/// Paths ordered as `Path` orders them: a path from the root before one
/// that is not, then by components; two texts of one path (such as `a/b`
/// and `a//b`) by their characters.
pub open spec fn file_path_order(a: Seq<char>, b: Seq<char>) -> Order3 {
    then(
        crate::smartlist::loader::bool_order(!is_absolute(a), !is_absolute(b)),
        then(path_order(components(a), components(b)), lex_order(a, b)),
    )
}

/// Actions ordered by kind (created, updated, deleted), then by path (see
/// `file_path_order`).
pub open spec fn action_order(a: ActionModel, b: ActionModel) -> Order3 {
    then(int_order(action_rank(a), action_rank(b)), file_path_order(action_path(a), action_path(b)))
}

pub proof fn lemma_file_path_order_flip(a: Seq<char>, b: Seq<char>)
    ensures
        file_path_order(b, a) == file_path_order(a, b).flip(),
{
    lemma_path_order_flip(components(a), components(b));
    lemma_lex_order_flip(a, b);
}

/// The components of a path (see `components`).
fn components_of(p: &str) -> (r: Vec<String>)
    ensures
        strings_view(r@) == components(p@),
{
    let c = path_components(&crate::text::chars_of(p));
    let mut r: Vec<String> = Vec::new();
    let mut i: usize = 0;
    while i < c.len()
        invariant
            i <= c.len(),
            strings_view(r@) == vecs_view(c@).subrange(0, i as int),
        decreases c.len() - i,
    {
        let ghost before = strings_view(r@);
        r.push(string_of(&c[i]));
        assert(strings_view(r@) =~= before.push(vecs_view(c@)[i as int]));
        assert(vecs_view(c@).subrange(0, i + 1) =~= vecs_view(c@).subrange(0, i as int).push(vecs_view(c@)[i as int]));
        i = i + 1;
    }
    assert(vecs_view(c@).subrange(0, c.len() as int) =~= vecs_view(c@));
    r
}

/// Compares two paths (see `file_path_order`).
pub fn compare_file_paths(a: &str, b: &str) -> (r: Order3)
    ensures
        r == file_path_order(a@, b@),
{
    let abs_a = crate::text::chars_of(a);
    let abs_b = crate::text::chars_of(b);
    let ra = abs_a.len() > 0 && abs_a[0] == '/';
    let rb = abs_b.len() > 0 && abs_b[0] == '/';
    if ra != rb {
        return if ra { Order3::Less } else { Order3::Greater };
    }
    let o = compare_paths(&components_of(a), &components_of(b));
    if o != Order3::Equal {
        return o;
    }
    str_order(a, b)
}

/// The index entries as a map: a later entry for a path replaces an earlier
/// one.
pub open spec fn entries_map(s: Seq<(String, u64, u64)>) -> Map<Seq<char>, (u64, u64)>
    decreases s.len(),
{
    if s.len() == 0 {
        Map::empty()
    } else {
        entries_map(s.drop_last()).insert(s.last().0@, (s.last().1, s.last().2))
    }
}

pub open spec fn paths_distinct(s: Seq<(String, u64, u64)>) -> bool {
    forall|i: int, j: int| 0 <= i < j < s.len() ==> #[trigger] s[i].0@ != #[trigger] s[j].0@
}

/// The length and modification stamp of each task file, by path.
pub struct SnapshotIndex {
    entries: Vec<(String, u64, u64)>,
}

impl View for SnapshotIndex {
    type V = Map<Seq<char>, (u64, u64)>;

    closed spec fn view(&self) -> Map<Seq<char>, (u64, u64)> {
        entries_map(self.entries@)
    }
}

proof fn lemma_entries_map(s: Seq<(String, u64, u64)>)
    requires
        paths_distinct(s),
    ensures
        forall|i: int|
            0 <= i < s.len() ==> #[trigger] entries_map(s).contains_key(s[i].0@) && entries_map(s)[s[i].0@]
                == (s[i].1, s[i].2),
        forall|k: Seq<char>|
            #[trigger] entries_map(s).contains_key(k) ==> exists|i: int| 0 <= i < s.len() && s[i].0@ == k,
    decreases s.len(),
{
    if s.len() > 0 {
        let t = s.drop_last();
        assert(paths_distinct(t)) by {
            assert forall|i: int, j: int| 0 <= i < j < t.len() implies #[trigger] t[i].0@ != #[trigger] t[j].0@ by {
                assert(t[i] == s[i] && t[j] == s[j]);
            }
        }
        lemma_entries_map(t);
        assert forall|i: int| 0 <= i < s.len() implies #[trigger] entries_map(s).contains_key(s[i].0@)
            && entries_map(s)[s[i].0@] == (s[i].1, s[i].2) by {
            if i < s.len() - 1 {
                assert(t[i] == s[i]);
                assert(entries_map(t).contains_key(t[i].0@));
                assert(s[i].0@ != s[s.len() - 1].0@);
            }
        }
        assert forall|k: Seq<char>| #[trigger] entries_map(s).contains_key(k) implies exists|i: int|
            0 <= i < s.len() && s[i].0@ == k by {
            if k != s.last().0@ {
                assert(entries_map(t).contains_key(k));
                let i = choose|i: int| 0 <= i < t.len() && t[i].0@ == k;
                assert(s[i] == t[i]);
            } else {
                assert(s[s.len() - 1].0@ == k);
            }
        }
    }
}

impl SnapshotIndex {
    #[verifier::type_invariant]
    spec fn distinct(self) -> bool {
        paths_distinct(self.entries@)
    }

    /// The position of `path` among the entries, if any.
    fn find(&self, path: &str) -> (r: Option<usize>)
        ensures
            match r {
                Some(i) => i < self.entries@.len() && self.entries@[i as int].0@ == path@,
                None => forall|i: int| 0 <= i < self.entries@.len() ==> self.entries@[i].0@ != path@,
            },
    {
        let mut i: usize = 0;
        while i < self.entries.len()
            invariant
                i <= self.entries.len(),
                forall|k: int| 0 <= k < i ==> self.entries@[k].0@ != path@,
            decreases self.entries.len() - i,
        {
            if str_eq(self.entries[i].0.as_str(), path) {
                return Some(i);
            }
            i = i + 1;
        }
        None
    }

    /// An index of the given entries; a later entry for a path replaces an
    /// earlier one.
    pub fn from_entries(entries: Vec<(String, u64, u64)>) -> (r: SnapshotIndex)
        ensures
            r@ == entries_map(entries@),
    {
        let mut index = SnapshotIndex { entries: Vec::new() };
        assert(index@ =~= entries_map(entries@.subrange(0, 0)));
        let mut i: usize = 0;
        while i < entries.len()
            invariant
                i <= entries.len(),
                index@ == entries_map(entries@.subrange(0, i as int)),
            decreases entries.len() - i,
        {
            assert(entries@.subrange(0, i + 1).drop_last() =~= entries@.subrange(0, i as int));
            let (p, len, stamp) = (entries[i].0.clone(), entries[i].1, entries[i].2);
            index.put(p, len, stamp);
            i = i + 1;
        }
        assert(entries@.subrange(0, entries.len() as int) =~= entries@);
        index
    }

    /// Records `path` with its length and stamp.
    fn put(&mut self, path: String, len: u64, stamp: u64)
        ensures
            final(self)@ == old(self)@.insert(path@, (len, stamp)),
    {
        proof {
            use_type_invariant(&*self);
            lemma_entries_map(self.entries@);
        }
        let ghost before = self.entries@;
        match self.find(path.as_str()) {
            Some(i) => {
                let mut entries = Vec::new();
                std::mem::swap(&mut entries, &mut self.entries);
                entries.set(i, (path, len, stamp));
                proof {
                    assert(paths_distinct(entries@)) by {
                        assert forall|a: int, b: int| 0 <= a < b < entries@.len() implies #[trigger] entries@[a].0@
                            != #[trigger] entries@[b].0@ by {
                            assert(before[a].0@ != before[b].0@);
                        }
                    }
                    lemma_entries_map(entries@);
                    assert(entries_map(entries@) =~= entries_map(before).insert(path@, (len, stamp))) by {
                        assert forall|k: Seq<char>| #[trigger] entries_map(entries@).contains_key(k) implies entries_map(before).insert(path@, (len, stamp)).contains_key(k) by {
                            let j = choose|j: int| 0 <= j < entries@.len() && entries@[j].0@ == k;
                            if j != i {
                                assert(entries@[j] == before[j]);
                            }
                        }
                        assert forall|k: Seq<char>| #[trigger] entries_map(before).insert(path@, (len, stamp)).contains_key(k) implies entries_map(entries@).contains_key(k) && entries_map(entries@)[k] == entries_map(before).insert(path@, (len, stamp))[k] by {
                            if k != path@ {
                                let j = choose|j: int| 0 <= j < before.len() && before[j].0@ == k;
                                assert(entries@[j] == before[j]);
                                assert(entries_map(entries@).contains_key(entries@[j].0@));
                                assert(entries_map(before).contains_key(before[j].0@));
                            } else {
                                assert(entries@[i as int].0@ == k);
                                assert(entries_map(entries@).contains_key(entries@[i as int].0@));
                            }
                        }
                    }
                }
                self.entries = entries;
            },
            None => {
                let mut entries = Vec::new();
                std::mem::swap(&mut entries, &mut self.entries);
                entries.push((path, len, stamp));
                proof {
                    assert(entries@.drop_last() =~= before);
                    assert(paths_distinct(entries@)) by {
                        assert forall|a: int, b: int| 0 <= a < b < entries@.len() implies #[trigger] entries@[a].0@
                            != #[trigger] entries@[b].0@ by {
                            if b < before.len() {
                                assert(before[a].0@ != before[b].0@);
                            } else {
                                assert(entries@[a] == before[a]);
                            }
                        }
                    }
                }
                self.entries = entries;
            },
        }
    }

    /// Whether the index holds `path`.
    pub fn has_path(&self, path: &str) -> (r: bool)
        ensures
            r == self@.contains_key(path@),
    {
        proof {
            use_type_invariant(self);
            lemma_entries_map(self.entries@);
        }
        match self.find(path) {
            Some(i) => true,
            None => {
                proof {
                    if self@.contains_key(path@) {
                        let j = choose|j: int| 0 <= j < self.entries@.len() && self.entries@[j].0@ == path@;
                    }
                }
                false
            },
        }
    }

    /// Whether every entry of `self` is in `other` with the same length and
    /// stamp.
    fn included_in(&self, other: &SnapshotIndex) -> (r: bool)
        ensures
            r == (forall|k: Seq<char>| #[trigger] self@.contains_key(k) ==> other@.contains_key(k) && other@[k] == self@[k]),
    {
        proof {
            use_type_invariant(self);
            use_type_invariant(other);
            lemma_entries_map(self.entries@);
            lemma_entries_map(other.entries@);
        }
        let mut i: usize = 0;
        while i < self.entries.len()
            invariant
                i <= self.entries.len(),
                paths_distinct(self.entries@),
                paths_distinct(other.entries@),
                forall|k: int| 0 <= k < i ==> other@.contains_key(#[trigger] self.entries@[k].0@) && other@[self.entries@[k].0@] == (self.entries@[k].1, self.entries@[k].2),
            decreases self.entries.len() - i,
        {
            proof {
                lemma_entries_map(self.entries@);
                lemma_entries_map(other.entries@);
            }
            match other.find(self.entries[i].0.as_str()) {
                Some(j) => {
                    assert(other@.contains_key(other.entries@[j as int].0@));
                    assert(self@.contains_key(self.entries@[i as int].0@));
                    if other.entries[j].1 != self.entries[i].1 || other.entries[j].2 != self.entries[i].2 {
                        return false;
                    }
                },
                None => {
                    assert(self@.contains_key(self.entries@[i as int].0@));
                    proof {
                        if other@.contains_key(self.entries@[i as int].0@) {
                            let j = choose|j: int| 0 <= j < other.entries@.len() && other.entries@[j].0@ == self.entries@[i as int].0@;
                        }
                    }
                    return false;
                },
            }
            i = i + 1;
        }
        proof {
            lemma_entries_map(self.entries@);
            assert forall|k: Seq<char>| #[trigger] self@.contains_key(k) implies other@.contains_key(k) && other@[k] == self@[k] by {
                let j = choose|j: int| 0 <= j < self.entries@.len() && self.entries@[j].0@ == k;
            }
        }
        true
    }

    /// Whether the two indexes differ.
    pub fn has_changes(&self, other: &SnapshotIndex) -> (r: bool)
        ensures
            r == (self@ != other@),
    {
        let a = self.included_in(other);
        let b = other.included_in(self);
        if a && b {
            assert(self@ =~= other@);
        }
        !(a && b)
    }

    /// The entries of both indexes; `other`'s entry wins for a path in both.
    pub fn merge(&self, other: &SnapshotIndex) -> (r: SnapshotIndex)
        ensures
            r@ == self@.union_prefer_right(other@),
    {
        proof {
            use_type_invariant(self);
            use_type_invariant(other);
        }
        let mut index = SnapshotIndex { entries: Vec::new() };
        let mut i: usize = 0;
        assert(index@ =~= entries_map(self.entries@.subrange(0, 0)));
        while i < self.entries.len()
            invariant
                i <= self.entries.len(),
                index@ == entries_map(self.entries@.subrange(0, i as int)),
            decreases self.entries.len() - i,
        {
            assert(self.entries@.subrange(0, i + 1).drop_last() =~= self.entries@.subrange(0, i as int));
            index.put(self.entries[i].0.clone(), self.entries[i].1, self.entries[i].2);
            i = i + 1;
        }
        assert(self.entries@.subrange(0, self.entries.len() as int) =~= self.entries@);
        let mut j: usize = 0;
        assert(index@ =~= entries_map(self.entries@).union_prefer_right(entries_map(other.entries@.subrange(0, 0))));
        while j < other.entries.len()
            invariant
                j <= other.entries.len(),
                index@ == entries_map(self.entries@).union_prefer_right(entries_map(other.entries@.subrange(0, j as int))),
            decreases other.entries.len() - j,
        {
            assert(other.entries@.subrange(0, j + 1).drop_last() =~= other.entries@.subrange(0, j as int));
            index.put(other.entries[j].0.clone(), other.entries[j].1, other.entries[j].2);
            assert(index@ =~= entries_map(self.entries@).union_prefer_right(entries_map(other.entries@.subrange(0, j + 1))));
            j = j + 1;
        }
        assert(other.entries@.subrange(0, other.entries.len() as int) =~= other.entries@);
        index
    }
}

/// Whether `a` is one of the changes from `before` to `after`: a path only
/// in `before` was deleted, one only in `after` created, one in both with a
/// different length or stamp updated.
pub open spec fn is_change(before: Map<Seq<char>, (u64, u64)>, after: Map<Seq<char>, (u64, u64)>, a: ActionModel) -> bool {
    match a {
        ActionModel::Created(p) => !before.contains_key(p) && after.contains_key(p),
        ActionModel::Updated(p) => before.contains_key(p) && after.contains_key(p) && before[p] != after[p],
        ActionModel::Deleted(p) => before.contains_key(p) && !after.contains_key(p),
    }
}

/// Orders refresh actions by `action_order`.
pub struct ActionOrderer;

impl Orderer<RefreshAction> for ActionOrderer {
    open spec fn spec_order(&self, a: RefreshAction, b: RefreshAction) -> Order3 {
        action_order(a@, b@)
    }

    proof fn lemma_flip(&self, a: RefreshAction, b: RefreshAction) {
        lemma_file_path_order_flip(action_path(a@), action_path(b@));
    }

    fn order(&self, a: &RefreshAction, b: &RefreshAction) -> (r: Order3) {
        let (ra, pa): (u8, &String) = match a {
            RefreshAction::Created(p) => (0, p),
            RefreshAction::Updated(p) => (1, p),
            RefreshAction::Deleted(p) => (2, p),
        };
        let (rb, pb): (u8, &String) = match b {
            RefreshAction::Created(p) => (0, p),
            RefreshAction::Updated(p) => (1, p),
            RefreshAction::Deleted(p) => (2, p),
        };
        if ra < rb {
            Order3::Less
        } else if ra > rb {
            Order3::Greater
        } else {
            compare_file_paths(pa.as_str(), pb.as_str())
        }
    }
}

impl SnapshotIndex {
    /// The changes from `self` to `other`, each once, ordered by kind
    /// (created, updated, deleted) and then by path.
    pub fn diff(&self, other: &SnapshotIndex) -> (r: Vec<RefreshAction>)
        ensures
            forall|a: ActionModel| actions_view(r@).contains(a) <==> is_change(self@, other@, a),
            actions_view(r@).no_duplicates(),
            forall|i: int|
                0 <= i < r@.len() - 1 ==> action_order(r@[i]@, #[trigger] r@[i + 1]@) == Order3::Less,
    {
        proof {
            use_type_invariant(self);
            use_type_invariant(other);
            lemma_entries_map(self.entries@);
            lemma_entries_map(other.entries@);
        }
        let mut acts: Vec<RefreshAction> = Vec::new();
        let mut i: usize = 0;
        while i < self.entries.len()
            invariant
                i <= self.entries.len(),
                paths_distinct(self.entries@),
                paths_distinct(other.entries@),
                actions_view(acts@).no_duplicates(),
                forall|x: ActionModel| #[trigger] actions_view(acts@).contains(x) ==> is_change(self@, other@, x) && x is Deleted
                    && exists|k: int| 0 <= k < i && action_path(x) == self.entries@[k].0@,
                forall|k: int| 0 <= k < i && !other@.contains_key(#[trigger] self.entries@[k].0@) ==> actions_view(acts@).contains(ActionModel::Deleted(self.entries@[k].0@)),
            decreases self.entries.len() - i,
        {
            proof {
                lemma_entries_map(self.entries@);
                lemma_entries_map(other.entries@);
            }
            let ghost before = actions_view(acts@);
            let ghost p = self.entries@[i as int].0@;
            assert(self@.contains_key(p));
            match other.find(self.entries[i].0.as_str()) {
                Some(_) => {},
                None => {
                    proof {
                        if other@.contains_key(p) {
                            let j = choose|j: int| 0 <= j < other.entries@.len() && other.entries@[j].0@ == p;
                        }
                        assert(!before.contains(ActionModel::Deleted(p))) by {
                            if before.contains(ActionModel::Deleted(p)) {
                                let k = choose|k: int| 0 <= k < i && action_path(ActionModel::Deleted(p)) == self.entries@[k].0@;
                                assert(self.entries@[k].0@ != self.entries@[i as int].0@);
                            }
                        }
                    }
                    acts.push(RefreshAction::Deleted(self.entries[i].0.clone()));
                    proof {
                        assert(actions_view(acts@) =~= before.push(ActionModel::Deleted(p)));
                        assert forall|x: ActionModel| #[trigger] actions_view(acts@).contains(x) implies is_change(self@, other@, x) && x is Deleted
                            && exists|k: int| 0 <= k < i + 1 && action_path(x) == self.entries@[k].0@ by {
                            if x != ActionModel::Deleted(p) {
                                assert(before.contains(x));
                            } else {
                                assert(action_path(x) == self.entries@[i as int].0@);
                            }
                        }
                        assert forall|k: int| 0 <= k < i + 1 && !other@.contains_key(#[trigger] self.entries@[k].0@) implies actions_view(acts@).contains(ActionModel::Deleted(self.entries@[k].0@)) by {
                            if k < i {
                                assert(before.contains(ActionModel::Deleted(self.entries@[k].0@)));
                                let n = choose|n: int| 0 <= n < before.len() && before[n] == ActionModel::Deleted(self.entries@[k].0@);
                                assert(actions_view(acts@)[n] == before[n]);
                            } else {
                                assert(actions_view(acts@)[before.len() as int] == ActionModel::Deleted(p));
                            }
                        }
                    }
                },
            }
            i = i + 1;
        }
        let ghost deleted = actions_view(acts@);
        let mut j: usize = 0;
        while j < other.entries.len()
            invariant
                j <= other.entries.len(),
                paths_distinct(self.entries@),
                paths_distinct(other.entries@),
                actions_view(acts@).no_duplicates(),
                deleted.len() <= actions_view(acts@).len(),
                forall|n: int| 0 <= n < deleted.len() ==> actions_view(acts@)[n] == deleted[n],
                forall|x: ActionModel| #[trigger] deleted.contains(x) ==> is_change(self@, other@, x) && x is Deleted,
                forall|k: int| 0 <= k < self.entries@.len() && !other@.contains_key(#[trigger] self.entries@[k].0@) ==> deleted.contains(ActionModel::Deleted(self.entries@[k].0@)),
                forall|x: ActionModel| #[trigger] actions_view(acts@).contains(x) ==> is_change(self@, other@, x),
                forall|x: ActionModel| #[trigger] actions_view(acts@).contains(x) && !(x is Deleted) ==> exists|k: int| 0 <= k < j && action_path(x) == other.entries@[k].0@,
                forall|k: int| 0 <= k < j && is_change(self@, other@, ActionModel::Created(#[trigger] other.entries@[k].0@)) ==> actions_view(acts@).contains(ActionModel::Created(other.entries@[k].0@)),
                forall|k: int| 0 <= k < j && is_change(self@, other@, ActionModel::Updated(#[trigger] other.entries@[k].0@)) ==> actions_view(acts@).contains(ActionModel::Updated(other.entries@[k].0@)),
            decreases other.entries.len() - j,
        {
            proof {
                lemma_entries_map(self.entries@);
                lemma_entries_map(other.entries@);
            }
            let ghost before = actions_view(acts@);
            let ghost p = other.entries@[j as int].0@;
            assert(other@.contains_key(p));
            let found = self.find(other.entries[j].0.as_str());
            let change: Option<RefreshAction> = match found {
                None => Some(RefreshAction::Created(other.entries[j].0.clone())),
                Some(k) => if self.entries[k].1 != other.entries[j].1 || self.entries[k].2 != other.entries[j].2 {
                    Some(RefreshAction::Updated(other.entries[j].0.clone()))
                } else {
                    None
                },
            };
            proof {
                match found {
                    None => {
                        if self@.contains_key(p) {
                            let k = choose|k: int| 0 <= k < self.entries@.len() && self.entries@[k].0@ == p;
                        }
                    },
                    Some(k) => {
                        assert(self@.contains_key(self.entries@[k as int].0@));
                    },
                }
                assert(!is_change(self@, other@, ActionModel::Created(p)) || !is_change(self@, other@, ActionModel::Updated(p)));
                if change is Some {
                    assert(is_change(self@, other@, change->0@));
                    assert(action_path(change->0@) == p);
                } else {
                    assert(!is_change(self@, other@, ActionModel::Created(p)));
                    assert(!is_change(self@, other@, ActionModel::Updated(p)));
                }
            }
            match change {
                Some(a) => {
                    proof {
                        assert(!before.contains(a@)) by {
                            if before.contains(a@) {
                                let k = choose|k: int| 0 <= k < j && action_path(a@) == other.entries@[k].0@;
                                assert(other.entries@[k].0@ != other.entries@[j as int].0@);
                            }
                        }
                    }
                    acts.push(a);
                    proof {
                        let av = a@;
                        assert(actions_view(acts@) =~= before.push(av));
                        assert forall|x: ActionModel| #[trigger] actions_view(acts@).contains(x) && !(x is Deleted) implies exists|k: int| 0 <= k < j + 1 && action_path(x) == other.entries@[k].0@ by {
                            if x != av {
                                assert(before.contains(x));
                            } else {
                                assert(action_path(x) == other.entries@[j as int].0@);
                            }
                        }
                        assert forall|x: ActionModel| #[trigger] actions_view(acts@).contains(x) implies is_change(self@, other@, x) by {
                            if x != av {
                                assert(before.contains(x));
                            }
                        }
                        assert forall|k: int| 0 <= k < j + 1 && is_change(self@, other@, ActionModel::Created(#[trigger] other.entries@[k].0@)) implies actions_view(acts@).contains(ActionModel::Created(other.entries@[k].0@)) by {
                            if k < j {
                                let n = choose|n: int| 0 <= n < before.len() && before[n] == ActionModel::Created(other.entries@[k].0@);
                                assert(actions_view(acts@)[n] == before[n]);
                            } else {
                                assert(actions_view(acts@)[before.len() as int] == av);
                            }
                        }
                        assert forall|k: int| 0 <= k < j + 1 && is_change(self@, other@, ActionModel::Updated(#[trigger] other.entries@[k].0@)) implies actions_view(acts@).contains(ActionModel::Updated(other.entries@[k].0@)) by {
                            if k < j {
                                let n = choose|n: int| 0 <= n < before.len() && before[n] == ActionModel::Updated(other.entries@[k].0@);
                                assert(actions_view(acts@)[n] == before[n]);
                            } else {
                                assert(actions_view(acts@)[before.len() as int] == av);
                            }
                        }
                    }
                },
                None => {},
            }
            j = j + 1;
        }
        proof {
            assert forall|a: ActionModel| is_change(self@, other@, a) implies actions_view(acts@).contains(a) by {
                match a {
                    ActionModel::Deleted(p) => {
                        let k = choose|k: int| 0 <= k < self.entries@.len() && self.entries@[k].0@ == p;
                        assert(deleted.contains(ActionModel::Deleted(self.entries@[k].0@)));
                        let n = choose|n: int| 0 <= n < deleted.len() && deleted[n] == a;
                        assert(actions_view(acts@)[n] == deleted[n]);
                    },
                    ActionModel::Created(p) => {
                        let k = choose|k: int| 0 <= k < other.entries@.len() && other.entries@[k].0@ == p;
                        assert(is_change(self@, other@, ActionModel::Created(other.entries@[k].0@)));
                    },
                    ActionModel::Updated(p) => {
                        let k = choose|k: int| 0 <= k < other.entries@.len() && other.entries@[k].0@ == p;
                        assert(is_change(self@, other@, ActionModel::Updated(other.entries@[k].0@)));
                    },
                }
            }
        }
        let ghost unsorted = acts@;
        sort_by(&mut acts, &ActionOrderer);
        proof {
            lemma_map_multiset(acts@, unsorted, |a: RefreshAction| a@);
            let m1 = actions_view(acts@);
            let m0 = actions_view(unsorted);
            assert(m1.to_multiset() == m0.to_multiset());
            m0.lemma_multiset_has_no_duplicates();
            m1.lemma_multiset_has_no_duplicates_conv();
            assert forall|a: ActionModel| m1.contains(a) <==> m0.contains(a) by {
                assert(m1.to_multiset().count(a) == m0.to_multiset().count(a));
            }
            assert forall|i: int| 0 <= i < acts@.len() - 1 implies action_order(acts@[i]@, #[trigger] acts@[i + 1]@) == Order3::Less by {
                assert(ActionOrderer.spec_order(acts@[i], acts@[i + 1]) != Order3::Greater);
                assert(m1[i] == acts@[i]@ && m1[i + 1] == acts@[i + 1]@);
                lemma_lex_order_equal(action_path(m1[i]), action_path(m1[i + 1]));
                if action_order(m1[i], m1[i + 1]) == Order3::Equal {
                    assert(m1[i] == m1[i + 1]);
                }
            }
        }
        acts
    }
}

/// Two indexes differ exactly when there is a change between them: the diff
/// of two indexes is empty if and only if they have no changes.
pub proof fn law_diff_empty_iff_unchanged(before: Map<Seq<char>, (u64, u64)>, after: Map<Seq<char>, (u64, u64)>)
    ensures
        (exists|a: ActionModel| is_change(before, after, a)) <==> before != after,
{
    if !(exists|a: ActionModel| is_change(before, after, a)) {
        assert forall|k: Seq<char>| before.contains_key(k) <==> after.contains_key(k) by {
            if before.contains_key(k) && !after.contains_key(k) {
                assert(is_change(before, after, ActionModel::Deleted(k)));
            }
            if !before.contains_key(k) && after.contains_key(k) {
                assert(is_change(before, after, ActionModel::Created(k)));
            }
        }
        assert forall|k: Seq<char>| before.contains_key(k) implies before[k] == after[k] by {
            if before[k] != after[k] {
                assert(is_change(before, after, ActionModel::Updated(k)));
            }
        }
        assert(before =~= after);
    }
}

/// Merging keeps every path of both indexes.
pub proof fn law_merge_keeps_paths(a: Map<Seq<char>, (u64, u64)>, b: Map<Seq<char>, (u64, u64)>, p: Seq<char>)
    ensures
        a.union_prefer_right(b).contains_key(p) <==> (a.contains_key(p) || b.contains_key(p)),
        b.contains_key(p) ==> a.union_prefer_right(b)[p] == b[p],
        a.contains_key(p) && !b.contains_key(p) ==> a.union_prefer_right(b)[p] == a[p],
{
}


/// An index made from entries holds exactly their paths.
pub proof fn law_from_entries_paths(s: Seq<(String, u64, u64)>, q: Seq<char>)
    ensures
        entries_map(s).contains_key(q) <==> exists|i: int| 0 <= i < s.len() && s[i].0@ == q,
    decreases s.len(),
{
    if s.len() > 0 {
        law_from_entries_paths(s.drop_last(), q);
        if exists|i: int| 0 <= i < s.len() - 1 && s.drop_last()[i].0@ == q {
            let i = choose|i: int| 0 <= i < s.len() - 1 && s.drop_last()[i].0@ == q;
            assert(s[i].0@ == q);
        }
        if exists|i: int| 0 <= i < s.len() && s[i].0@ == q {
            let i = choose|i: int| 0 <= i < s.len() && s[i].0@ == q;
            if i < s.len() - 1 {
                assert(s.drop_last()[i].0@ == q);
            }
        }
    }
}

/// A later entry for a path replaces an earlier one: an entry followed by
/// another for the same path gives the index of the later one alone.
pub proof fn law_from_entries_last_wins(s: Seq<(String, u64, u64)>, x: (String, u64, u64), y: (String, u64, u64))
    requires
        x.0@ == y.0@,
    ensures
        entries_map(s.push(x).push(y)) == entries_map(s.push(y)),
{
    assert(s.push(x).push(y).drop_last() =~= s.push(x));
    assert(s.push(x).drop_last() =~= s);
    assert(s.push(y).drop_last() =~= s);
    let m = entries_map(s);
    assert(entries_map(s.push(x)) == m.insert(x.0@, (x.1, x.2)));
    assert(entries_map(s.push(y)) == m.insert(y.0@, (y.1, y.2)));
    assert(entries_map(s.push(x).push(y)) == m.insert(x.0@, (x.1, x.2)).insert(y.0@, (y.1, y.2)));
    assert(entries_map(s.push(x).push(y)) =~= entries_map(s.push(y)));
}

/// Entries for different paths can come in either order.
pub proof fn law_from_entries_order_free(s: Seq<(String, u64, u64)>, x: (String, u64, u64), y: (String, u64, u64))
    requires
        x.0@ != y.0@,
    ensures
        entries_map(s.push(x).push(y)) == entries_map(s.push(y).push(x)),
{
    assert(s.push(x).push(y).drop_last() =~= s.push(x));
    assert(s.push(y).push(x).drop_last() =~= s.push(y));
    assert(s.push(x).drop_last() =~= s);
    assert(s.push(y).drop_last() =~= s);
    let m = entries_map(s);
    assert(entries_map(s.push(x)) == m.insert(x.0@, (x.1, x.2)));
    assert(entries_map(s.push(y)) == m.insert(y.0@, (y.1, y.2)));
    assert(entries_map(s.push(x).push(y)) == m.insert(x.0@, (x.1, x.2)).insert(y.0@, (y.1, y.2)));
    assert(entries_map(s.push(y).push(x)) == m.insert(y.0@, (y.1, y.2)).insert(x.0@, (x.1, x.2)));
    assert(entries_map(s.push(x).push(y)) =~= entries_map(s.push(y).push(x)));
}

} // verus!
