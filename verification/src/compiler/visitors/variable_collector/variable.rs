use vstd::prelude::*;
use vstd::string::*;
use crate::compiler::base::BlobId;
use crate::diagnostics::location::Range;
use crate::parser::ast::model::str_eq;
use rustc_hash::FxHashMap;

verus! {

/// What a variable holds, as far as its assignments tell.
#[derive(Debug, Hash)]
pub enum VariableKind {
    String,
    Number,
    Bool,
    Array,
    Object,
    Mapping,
    /// The same as the variable of that name.
    Ref(String),
    Unknown,
}

/// Two kinds are the same: the same variant, and for references the same name.
pub open spec fn kind_eq(a: VariableKind, b: VariableKind) -> bool {
    match (a, b) {
        (VariableKind::Ref(x), VariableKind::Ref(y)) => x@ == y@,
        (VariableKind::Ref(_), _) => false,
        (_, VariableKind::Ref(_)) => false,
        _ => a == b,
    }
}

impl VariableKind {
    /// A copy of the kind.
    pub fn copy(&self) -> (r: VariableKind)
        ensures
            kind_eq(r, *self),
    {
        match self {
            VariableKind::String => VariableKind::String,
            VariableKind::Number => VariableKind::Number,
            VariableKind::Bool => VariableKind::Bool,
            VariableKind::Array => VariableKind::Array,
            VariableKind::Object => VariableKind::Object,
            VariableKind::Mapping => VariableKind::Mapping,
            VariableKind::Ref(name) => VariableKind::Ref(name.clone()),
            VariableKind::Unknown => VariableKind::Unknown,
        }
    }

    /// Whether two kinds are the same.
    pub fn same_as(&self, other: &VariableKind) -> (r: bool)
        ensures
            r == kind_eq(*self, *other),
    {
        match (self, other) {
            (VariableKind::String, VariableKind::String) => true,
            (VariableKind::Number, VariableKind::Number) => true,
            (VariableKind::Bool, VariableKind::Bool) => true,
            (VariableKind::Array, VariableKind::Array) => true,
            (VariableKind::Object, VariableKind::Object) => true,
            (VariableKind::Mapping, VariableKind::Mapping) => true,
            (VariableKind::Ref(x), VariableKind::Ref(y)) => str_eq(x.as_str(), y.as_str()),
            (VariableKind::Unknown, VariableKind::Unknown) => true,
            _ => false,
        }
    }
}

impl Clone for VariableKind {
    fn clone(&self) -> (r: VariableKind)
        ensures
            kind_eq(r, *self),
    {
        self.copy()
    }
}

/// Represents an assignment of a variable,
/// for example, x = 1, x += 33, x--, etc.
#[derive(Debug)]
pub struct VariableAssignment {
    pub kind: VariableKind,
    pub range: Range<usize>,
}

/// The assignments of a variable, by origin, kept in a
/// `rustc_hash::FxHashMap`.
#[verifier::external_body]
#[derive(Debug)]
pub struct OriginGroups {
    inner: FxHashMap<BlobId, Vec<VariableAssignment>>,
}

/// The assignments that each origin holds in an `OriginGroups`.
pub uninterp spec fn origin_groups(g: OriginGroups) -> Map<BlobId, Seq<VariableAssignment>>;

impl OriginGroups {
    /// `FxHashMap::default`: no origin holds anything.
    #[verifier::external_body]
    pub fn new() -> (groups: OriginGroups)
        ensures
            origin_groups(groups).dom() == Set::<BlobId>::empty(),
    {
        OriginGroups { inner: FxHashMap::default() }
    }

    /// `FxHashMap::insert`: the group of `origin` becomes `group`.
    #[verifier::external_body]
    pub fn insert(&mut self, origin: BlobId, group: Vec<VariableAssignment>)
        ensures
            origin_groups(*final(self)) == origin_groups(*old(self)).insert(origin, group@),
    {
        self.inner.insert(origin, group);
    }

    /// `FxHashMap::remove`: `origin` holds nothing any more.
    #[verifier::external_body]
    pub fn remove(&mut self, origin: BlobId)
        ensures
            origin_groups(*final(self)) == origin_groups(*old(self)).remove(origin),
    {
        self.inner.remove(&origin);
    }

    /// `FxHashMap::get`: the group of `origin`, where it holds one.
    #[verifier::external_body]
    pub fn get(&self, origin: BlobId) -> (r: Option<&Vec<VariableAssignment>>)
        ensures
            r matches Some(v) ==> origin_groups(*self).contains_key(origin) && v@ == origin_groups(*self)[origin],
            r.is_none() ==> !origin_groups(*self).contains_key(origin),
    {
        self.inner.get(&origin)
    }

    /// `FxHashMap::keys`, collected: each origin once, in the order in which
    /// the map is walked, which this contract leaves open.
    #[verifier::external_body]
    pub fn origins(&self) -> (v: Vec<BlobId>)
        ensures
            v@.no_duplicates(),
            v@.to_set() == origin_groups(*self).dom(),
    {
        self.inner.keys().copied().collect()
    }
}

/// A variable which has multiple possible types,
/// which span across multiple different origins
/// (an origin can be a file, a string, etc.)
#[derive(Debug)]
pub struct Variable {
    pub assignments: OriginGroups,
}

/// Whether some origin holds an assignment.
pub open spec fn has_assignment(m: Map<BlobId, Seq<VariableAssignment>>) -> bool {
    exists|o: BlobId| #[trigger] m.contains_key(o) && m[o].len() > 0
}

/// Whether every assignment gives the kind `k`.
pub open spec fn all_of_kind(m: Map<BlobId, Seq<VariableAssignment>>, k: VariableKind) -> bool {
    forall|o: BlobId, i: int| m.contains_key(o) && 0 <= i < m[o].len() ==> kind_eq(#[trigger] m[o][i].kind, k)
}

/// Whether two assignments give different kinds.
pub open spec fn kinds_differ(m: Map<BlobId, Seq<VariableAssignment>>) -> bool {
    exists|o1: BlobId, i1: int, o2: BlobId, i2: int|
        m.contains_key(o1) && 0 <= i1 < m[o1].len() && m.contains_key(o2) && 0 <= i2 < m[o2].len() && !kind_eq(
            #[trigger] m[o1][i1].kind,
            #[trigger] m[o2][i2].kind,
        )
}

impl Variable {
    /// The kind that every assignment of the variable agrees on.
    pub fn get_common_kind(&self) -> (r: Option<VariableKind>)
        ensures
            r matches Some(k) ==> has_assignment(origin_groups(self.assignments)) && all_of_kind(origin_groups(self.assignments), k),
            r.is_none() ==> !has_assignment(origin_groups(self.assignments)) || kinds_differ(origin_groups(self.assignments)),
    {
        let ghost m = origin_groups(self.assignments);
        let keys = self.assignments.origins();
        let mut first: Option<&VariableKind> = None;
        let ghost mut fo: BlobId = 0;
        let ghost mut fi: int = 0;
        let mut g: usize = 0;
        while g < keys.len()
            invariant
                m == origin_groups(self.assignments),
                keys@.to_set() == m.dom(),
                0 <= g <= keys@.len(),
                first.is_none() ==> forall|j: int| 0 <= j < g ==> #[trigger] m[keys@[j]].len() == 0,
                first matches Some(f) ==> {
                    &&& m.contains_key(fo) && 0 <= fi < m[fo].len() && m[fo][fi].kind == *f
                    &&& forall|j: int, i: int| 0 <= j < g && 0 <= i < m[keys@[j]].len() ==> kind_eq(#[trigger] m[keys@[j]][i].kind, *f)
                },
            decreases keys@.len() - g,
        {
            proof {
                assert(keys@.to_set().contains(keys@[g as int]));
            }
            let group = match self.assignments.get(keys[g]) {
                Some(v) => v,
                None => { proof { assert(false); } return None; },
            };
            let ghost o = keys@[g as int];
            let mut i: usize = 0;
            while i < group.len()
                invariant
                    m == origin_groups(self.assignments),
                    keys@.to_set() == m.dom(),
                    0 <= g < keys@.len(),
                    o == keys@[g as int],
                    m.contains_key(o),
                    group@ == m[o],
                    0 <= i <= group@.len(),
                    first.is_none() ==> forall|j: int| 0 <= j < g ==> #[trigger] m[keys@[j]].len() == 0,
                    first.is_none() ==> i == 0,
                    first matches Some(f) ==> {
                        &&& m.contains_key(fo) && 0 <= fi < m[fo].len() && m[fo][fi].kind == *f
                        &&& forall|j: int, i2: int| 0 <= j < g && 0 <= i2 < m[keys@[j]].len() ==> kind_eq(#[trigger] m[keys@[j]][i2].kind, *f)
                        &&& forall|i2: int| 0 <= i2 < i ==> kind_eq(#[trigger] m[o][i2].kind, *f)
                    },
                decreases group@.len() - i,
            {
                match first {
                    None => {
                        first = Some(&group[i].kind);
                        proof {
                            fo = o;
                            fi = i as int;
                            lemma_kind_eq_refl(m[o][i as int].kind);
                        }
                    },
                    Some(f) => {
                        if !group[i].kind.same_as(f) {
                            proof {
                                assert(!kind_eq(m[o][i as int].kind, m[fo][fi].kind));
                            }
                            return None;
                        }
                    },
                }
                i = i + 1;
            }
            proof {
                if first.is_none() {
                    assert forall|j: int| 0 <= j < g + 1 implies #[trigger] m[keys@[j]].len() == 0 by {
                        if j == g {
                            assert(group@.len() == 0);
                        }
                    }
                }
                if first.is_some() {
                    assert forall|j: int, i2: int| 0 <= j < g + 1 && 0 <= i2 < m[keys@[j]].len() implies kind_eq(#[trigger] m[keys@[j]][i2].kind, *first.unwrap()) by {
                        if j == g {
                            assert(m[keys@[j]][i2] == m[o][i2]);
                        }
                    }
                }
            }
            g = g + 1;
        }
        proof {
            assert forall|o: BlobId| m.contains_key(o) implies exists|j: int| 0 <= j < keys@.len() && keys@[j] == o by {
                assert(keys@.to_set().contains(o));
            }
        }
        match first {
            Some(f) => {
                let k = f.copy();
                proof {
                    assert forall|o: BlobId, i: int| m.contains_key(o) && 0 <= i < m[o].len() implies kind_eq(#[trigger] m[o][i].kind, k) by {
                        let j = choose|j: int| 0 <= j < keys@.len() && keys@[j] == o;
                        lemma_kind_eq_trans(m[o][i].kind, *f, k);
                    }
                    assert(m.contains_key(fo) && m[fo].len() > 0);
                }
                Some(k)
            },
            None => {
                proof {
                    if has_assignment(m) {
                        let o = choose|o: BlobId| #[trigger] m.contains_key(o) && m[o].len() > 0;
                        let j = choose|j: int| 0 <= j < keys@.len() && keys@[j] == o;
                        assert(m[keys@[j]].len() == 0);
                    }
                }
                None
            },
        }
    }
}

pub proof fn lemma_kind_eq_refl(k: VariableKind)
    ensures
        kind_eq(k, k),
{
}

/// Kinds that are the same as one kind are the same as each other.
pub proof fn lemma_kind_eq_trans(a: VariableKind, b: VariableKind, c: VariableKind)
    requires
        kind_eq(a, b),
        kind_eq(c, b),
    ensures
        kind_eq(a, c),
{
}

/// The assignments of one origin, by variable name; each name appears once.
#[derive(Debug)]
pub struct AssignmentStore(pub Vec<(String, Vec<VariableAssignment>)>);

/// The position of the entry for `key`.
pub open spec fn entry_index<V>(entries: Seq<(String, V)>, key: Seq<char>) -> Option<int>
    decreases entries.len(),
{
    if entries.len() == 0 {
        None
    } else {
        match entry_index(entries.drop_last(), key) {
            Some(i) => Some(i),
            None => if entries.last().0@ == key {
                Some(entries.len() - 1)
            } else {
                None
            },
        }
    }
}

pub proof fn lemma_entry_index<V>(entries: Seq<(String, V)>, key: Seq<char>)
    ensures
        entry_index(entries, key) matches Some(i) ==> 0 <= i < entries.len() && entries[i].0@ == key && forall|j: int|
            0 <= j < i ==> entries[j].0@ != key,
        entry_index(entries, key).is_none() ==> forall|j: int| 0 <= j < entries.len() ==> entries[j].0@ != key,
    decreases entries.len(),
{
    if entries.len() > 0 {
        let init = entries.drop_last();
        lemma_entry_index(init, key);
        assert forall|j: int| 0 <= j < init.len() implies init[j] == entries[j] by {}
    }
}

pub proof fn lemma_entry_index_at<V>(entries: Seq<(String, V)>, key: Seq<char>, i: int)
    requires
        0 <= i < entries.len(),
        entries[i].0@ == key,
        forall|j: int| 0 <= j < i ==> entries[j].0@ != key,
    ensures
        entry_index(entries, key) == Some(i),
    decreases entries.len(),
{
    lemma_entry_index(entries, key);
    if i < entries.len() - 1 {
        lemma_entry_index_at(entries.drop_last(), key, i);
    } else {
        lemma_entry_index(entries.drop_last(), key);
    }
}

pub proof fn lemma_entry_index_same_keys<V, W>(a: Seq<(String, V)>, b: Seq<(String, W)>, key: Seq<char>)
    requires
        a.len() == b.len(),
        forall|i: int| 0 <= i < a.len() ==> #[trigger] a[i].0@ == b[i].0@,
    ensures
        entry_index(a, key) == entry_index(b, key),
    decreases a.len(),
{
    if a.len() > 0 {
        lemma_entry_index_same_keys(a.drop_last(), b.drop_last(), key);
    }
}

/// The position of the entry for `key`.
fn find_entry<V>(entries: &Vec<(String, V)>, key: &str) -> (r: Option<usize>)
    ensures
        r matches Some(k) ==> entry_index(entries@, key@) == Some(k as int) && k < entries@.len(),
        r.is_none() ==> entry_index(entries@, key@).is_none(),
{
    proof {
        lemma_entry_index(entries@, key@);
    }
    let mut i: usize = 0;
    while i < entries.len()
        invariant
            0 <= i <= entries@.len(),
            forall|j: int| 0 <= j < i ==> entries@[j].0@ != key@,
        decreases entries@.len() - i,
    {
        if str_eq(entries[i].0.as_str(), key) {
            proof {
                lemma_entry_index_at(entries@, key@, i as int);
            }
            return Some(i);
        }
        i = i + 1;
    }
    None
}

/// The assignments stored under `key`.
pub open spec fn assignments_of(entries: Seq<(String, Vec<VariableAssignment>)>, key: Seq<char>) -> Seq<VariableAssignment> {
    match entry_index(entries, key) {
        Some(i) => entries[i].1@,
        None => seq![],
    }
}

impl AssignmentStore {
    pub fn new() -> (s: AssignmentStore)
        ensures
            s.0@.len() == 0,
    {
        AssignmentStore(Vec::new())
    }

    /// Adds an assignment after those already stored under `key`.
    pub fn insert(&mut self, key: String, value: VariableAssignment)
        ensures
            assignments_of(final(self).0@, key@) == assignments_of(old(self).0@, key@).push(value),
            entry_index(final(self).0@, key@).is_some(),
            forall|k: Seq<char>| k != key@ ==> #[trigger] entry_index(final(self).0@, k) == entry_index(
                old(self).0@,
                k,
            ),
            forall|k: Seq<char>| k != key@ ==> #[trigger] assignments_of(final(self).0@, k) == assignments_of(
                old(self).0@,
                k,
            ),
    {
        let ghost old_entries = self.0@;
        proof {
            lemma_entry_index(old_entries, key@);
        }
        match find_entry(&self.0, key.as_str()) {
            Some(k) => {
                let mut entry = self.0.remove(k);
                let ghost removed = self.0@;
                entry.1.push(value);
                self.0.insert(k, entry);
                proof {
                    assert forall|i: int| 0 <= i < self.0@.len() implies #[trigger] self.0@[i].0@ == old_entries[i].0@ by {
                        if i < k {
                            assert(self.0@[i] == old_entries[i]);
                        } else if i > k {
                            assert(self.0@[i] == old_entries[i]);
                        }
                    }
                    assert forall|kk: Seq<char>| true implies #[trigger] entry_index(self.0@, kk) == entry_index(
                        old_entries,
                        kk,
                    ) by {
                        lemma_entry_index_same_keys(self.0@, old_entries, kk);
                    }
                    assert forall|kk: Seq<char>| kk != key@ implies #[trigger] assignments_of(self.0@, kk)
                        == assignments_of(old_entries, kk) by {
                        lemma_entry_index(old_entries, kk);
                        match entry_index(old_entries, kk) {
                            Some(j) => {
                                assert(j != k);
                                assert(self.0@[j] == old_entries[j]);
                            },
                            None => {},
                        }
                    }
                }
            },
            None => {
                let mut values: Vec<VariableAssignment> = Vec::new();
                values.push(value);
                self.0.push((key, values));
                proof {
                    lemma_entry_index_at(self.0@, key@, old_entries.len() as int);
                    assert(self.0@.drop_last() =~= old_entries);
                    assert forall|kk: Seq<char>| kk != key@ implies #[trigger] entry_index(self.0@, kk)
                        == entry_index(old_entries, kk) by {}
                    assert forall|kk: Seq<char>| kk != key@ implies #[trigger] assignments_of(self.0@, kk)
                        == assignments_of(old_entries, kk) by {
                        lemma_entry_index(old_entries, kk);
                    }
                }
            },
        }
    }

    /// Moves the assignments of another store after those of this one, name by name.
    pub fn append(&mut self, store: AssignmentStore)
        ensures
            forall|k: Seq<char>| #[trigger] assignments_of(final(self).0@, k) == assignments_of(old(self).0@, k)
                + assignments_of_all(store.0@, k),
    {
        let mut entries = store.0;
        let ghost all = entries@;
        let ghost start = self.0@;
        while entries.len() > 0
            invariant
                forall|k: Seq<char>| #[trigger] assignments_of(self.0@, k) + assignments_of_all(entries@, k)
                    == assignments_of(start, k) + assignments_of_all(all, k),
            decreases entries@.len(),
        {
            let ghost before = self.0@;
            let ghost es = entries@;
            let (key, mut values) = entries.remove(0);
            assert(es == seq![(key, values)] + entries@) by {
                assert(es =~= seq![es[0]] + entries@);
            }
            let ghost vs = values@;
            let ghost k0 = key@;
            while values.len() > 0
                invariant
                    assignments_of(self.0@, k0) + values@ == assignments_of(before, k0) + vs,
                    forall|k: Seq<char>| k != k0 ==> #[trigger] assignments_of(self.0@, k) == assignments_of(before, k),
                    key@ == k0,
                decreases values@.len(),
            {
                let ghost vv = values@;
                let v = values.remove(0);
                assert(vv =~= seq![v] + values@);
                self.insert(key.clone(), v);
                assert(assignments_of(self.0@, k0) + values@ =~= assignments_of(before, k0) + vs);
            }
            assert forall|k: Seq<char>| #[trigger] assignments_of(self.0@, k) + assignments_of_all(entries@, k)
                == assignments_of(start, k) + assignments_of_all(all, k) by {
                assert(assignments_of_all(es, k) == (if k == k0 { vs } else { seq![] }) + assignments_of_all(entries@, k));
                if k == k0 {
                    assert(values@ =~= Seq::<VariableAssignment>::empty());
                    assert(assignments_of(self.0@, k) =~= assignments_of(before, k0) + vs);
                } else {
                    assert(seq![] + assignments_of_all(entries@, k) =~= assignments_of_all(entries@, k));
                }
                assert(assignments_of(before, k) + assignments_of_all(es, k) == assignments_of(start, k) + assignments_of_all(all, k));
                assert((assignments_of(before, k) + (if k == k0 { vs } else { seq![] })) + assignments_of_all(entries@, k)
                    =~= assignments_of(before, k) + ((if k == k0 { vs } else { seq![] }) + assignments_of_all(entries@, k)));
            }
        }
        assert forall|k: Seq<char>| #[trigger] assignments_of(self.0@, k) == assignments_of(start, k)
            + assignments_of_all(all, k) by {
            assert(assignments_of(self.0@, k) + seq![] =~= assignments_of(self.0@, k));
        }
    }
}

/// The assignments under `key` in a list of entries in which a key may come
/// more than once, in the order of the entries.
pub open spec fn assignments_of_all(entries: Seq<(String, Vec<VariableAssignment>)>, key: Seq<char>) -> Seq<VariableAssignment>
    decreases entries.len(),
{
    if entries.len() == 0 {
        seq![]
    } else {
        (if entries[0].0@ == key { entries[0].1@ } else { seq![] }) + assignments_of_all(entries.drop_first(), key)
    }
}


/// The assignments from `origin` among the groups of a variable.
pub open spec fn group_of(groups: OriginGroups, origin: BlobId) -> Option<Seq<VariableAssignment>> {
    if origin_groups(groups).contains_key(origin) {
        Some(origin_groups(groups)[origin])
    } else {
        None
    }
}

/// Whether `after` is `before` with the assignments `entries` that `origin`
/// makes stored: a name is found after where it was found before or is
/// assigned in `entries`, and the group of `origin` under each name assigned
/// is the last list given for it.
pub open spec fn stored_from(
    before: Seq<(String, Variable)>,
    after: Seq<(String, Variable)>,
    origin: BlobId,
    entries: Seq<(String, Vec<VariableAssignment>)>,
) -> bool {
    &&& forall|k: Seq<char>|
        #[trigger] entry_index(after, k).is_some() <==> (entry_index(before, k).is_some() || entry_index(entries, k).is_some())
    &&& forall|k: Seq<char>| #[trigger] entry_index(entries, k) matches Some(j) ==> (entry_index(after, k) matches Some(v)
        && group_of(after[v].1.assignments, origin) == Some(last_entry(entries, k)))
}

/// The assignments of variables by name, from every origin; each name appears once.
#[derive(Debug)]
pub struct VariableContainer(pub Vec<(String, Variable)>);

impl VariableContainer {
    pub fn new() -> (c: VariableContainer)
        ensures
            c.0@.len() == 0,
    {
        VariableContainer(Vec::new())
    }

    /// Forgets every assignment that came from `origin`.
    pub fn remove(&mut self, origin: &BlobId)
        ensures
            final(self).0@.len() == old(self).0@.len(),
            forall|i: int| 0 <= i < old(self).0@.len() ==> (#[trigger] final(self).0@[i]).0 == old(self).0@[i].0,
            forall|i: int| 0 <= i < old(self).0@.len() ==> origin_groups((#[trigger] final(self).0@[i]).1.assignments)
                == origin_groups(old(self).0@[i].1.assignments).remove(*origin),
    {
        let ghost start = self.0@;
        let mut i: usize = 0;
        while i < self.0.len()
            invariant
                self.0@.len() == start.len(),
                0 <= i <= start.len(),
                forall|j: int| 0 <= j < start.len() ==> (#[trigger] self.0@[j]).0 == start[j].0,
                forall|j: int| 0 <= j < i ==> origin_groups((#[trigger] self.0@[j]).1.assignments) == origin_groups(
                    start[j].1.assignments,
                ).remove(*origin),
                forall|j: int| i <= j < start.len() ==> (#[trigger] self.0@[j]) == start[j],
            decreases start.len() - i,
        {
            let (name, mut variable) = self.0.remove(i);
            variable.assignments.remove(*origin);
            self.0.insert(i, (name, variable));
            i = i + 1;
        }
    }

    /// Stores the assignments that `origin` makes, in the place of those it made before.
    pub fn insert(&mut self, origin: BlobId, assignments: AssignmentStore)
        ensures
            stored_from(old(self).0@, final(self).0@, origin, assignments.0@),
    {
        let mut entries = assignments.0;
        let ghost all = entries@;
        let mut done: usize = 0;
        while entries.len() > 0
            invariant
                forall|k: Seq<char>|
                    #[trigger] entry_index(self.0@, k).is_some() <==> (entry_index(old(self).0@, k).is_some()
                        || entry_index(all.take(all.len() - entries@.len()), k).is_some()),
                forall|k: Seq<char>| #[trigger] entry_index(all.take(all.len() - entries@.len()), k) matches Some(j) ==> (entry_index(self.0@, k) matches Some(v)
                    && group_of(self.0@[v].1.assignments, origin) == Some(last_entry(all.take(all.len() - entries@.len()), k))),
                entries@ == all.skip(all.len() - entries@.len()),
                entries@.len() <= all.len(),
            decreases entries@.len(),
        {
            let ghost n = all.len() - entries@.len();
            let ghost es = entries@;
            let (name, group) = entries.remove(0);
            proof {
                assert(all.take(n + 1) =~= all.take(n).push(all[n]));
                assert(all[n] == es[0]);
                assert(entries@ =~= all.skip(n + 1));
            }
            let ghost before = self.0@;
            let ghost key = name@;
            let ghost gv = group@;
            match find_entry(&self.0, name.as_str()) {
                Some(k) => {
                    let (vname, mut variable) = self.0.remove(k);
                    variable.assignments.insert(origin, group);
                    self.0.insert(k, (vname, variable));
                    proof {
                        lemma_entry_index(before, key);
                        assert forall|i: int| 0 <= i < self.0@.len() implies #[trigger] self.0@[i].0@ == before[i].0@ by {
                            if i != k {
                                assert(self.0@[i] == before[i]);
                            }
                        }
                        assert forall|kk: Seq<char>| true implies #[trigger] entry_index(self.0@, kk) == entry_index(before, kk) by {
                            lemma_entry_index_same_keys(self.0@, before, kk);
                        }
                        assert forall|kk: Seq<char>| #[trigger] entry_index(all.take(n + 1), kk) matches Some(j) implies (entry_index(self.0@, kk) matches Some(v)
                            && group_of(self.0@[v].1.assignments, origin) == Some(last_entry(all.take(n + 1), kk))) by {
                            lemma_entry_index(all.take(n + 1), kk);
                            lemma_entry_index(all.take(n), kk);
                            lemma_entry_index(before, kk);
                            if kk != key {
                                assert(all.take(n + 1).drop_last() =~= all.take(n));
                                let v = entry_index(before, kk).unwrap();
                                assert(v != k);
                                assert(self.0@[v] == before[v]);
                            }
                        }
                        assert forall|kk: Seq<char>| #[trigger] entry_index(self.0@, kk).is_some() <==> (entry_index(old(self).0@, kk).is_some()
                            || entry_index(all.take(n + 1), kk).is_some()) by {
                            lemma_entry_index_push(all.take(n), all[n], kk);
                            assert(all.take(n + 1) =~= all.take(n).push(all[n]));
                        }
                    }
                },
                None => {
                    let mut groups = OriginGroups::new();
                    groups.insert(origin, group);
                    self.0.push((name, Variable { assignments: groups }));
                    proof {
                        lemma_entry_index(before, key);
                        lemma_entry_index_at(self.0@, key, before.len() as int);
                        assert(self.0@.drop_last() =~= before);
                        assert forall|kk: Seq<char>| #[trigger] entry_index(all.take(n + 1), kk) matches Some(j) implies (entry_index(self.0@, kk) matches Some(v)
                            && group_of(self.0@[v].1.assignments, origin) == Some(last_entry(all.take(n + 1), kk))) by {
                            lemma_entry_index(all.take(n + 1), kk);
                            lemma_entry_index(all.take(n), kk);
                            lemma_entry_index(before, kk);
                            assert(all.take(n + 1).drop_last() =~= all.take(n));
                            if kk != key {
                                let v = entry_index(before, kk).unwrap();
                                assert(self.0@[v] == before[v]);
                            }
                        }
                        assert forall|kk: Seq<char>| #[trigger] entry_index(self.0@, kk).is_some() <==> (entry_index(old(self).0@, kk).is_some()
                            || entry_index(all.take(n + 1), kk).is_some()) by {
                            lemma_entry_index_push(all.take(n), all[n], kk);
                            lemma_entry_index_push(before, self.0@.last(), kk);
                            assert(self.0@ =~= before.push(self.0@.last()));
                            assert(all.take(n + 1) =~= all.take(n).push(all[n]));
                        }
                    }
                },
            }
        }
        assert(all.take(all.len() as int) =~= all);
    }
}

/// The assignments of the last entry for `key`.
pub open spec fn last_entry(entries: Seq<(String, Vec<VariableAssignment>)>, key: Seq<char>) -> Seq<VariableAssignment>
    decreases entries.len(),
{
    if entries.len() == 0 {
        seq![]
    } else if entries.last().0@ == key {
        entries.last().1@
    } else {
        last_entry(entries.drop_last(), key)
    }
}

pub proof fn lemma_entry_index_push<V>(entries: Seq<(String, V)>, e: (String, V), key: Seq<char>)
    ensures
        entry_index(entries.push(e), key).is_some() <==> (entry_index(entries, key).is_some() || e.0@ == key),
{
    assert(entries.push(e).drop_last() =~= entries);
}


} // verus!
