use vstd::prelude::*;
use vstd::string::*;
use crate::compiler::base::BlobId;
use crate::compiler::visitors::variable_collector::variable::{entry_index, lemma_entry_index, lemma_entry_index_at};
use crate::diagnostics::location::Range;
use crate::parser::ast::model::str_eq;
pub use crate::compiler::visitors::magic_vars_collector::MagicVariableType;

verus! {

/// One assignment of a magic variable: where it comes from, the type it gives, and where it is.
#[derive(Debug)]
pub struct MagicVariableInstance {
    pub origin: BlobId,
    pub value: MagicVariableType,
    pub range: Range<usize>,
}

/// All assignments of a magic variable.
#[derive(Debug)]
pub struct MagicVariable(pub Vec<MagicVariableInstance>);

/// Every assignment gives the type of the first.
pub open spec fn all_same(v: Seq<MagicVariableInstance>) -> bool {
    forall|i: int| 0 <= i < v.len() ==> #[trigger] v[i].value == v[0].value
}

/// The type every assignment agrees on, if there are assignments and they agree.
pub open spec fn common_type(v: Seq<MagicVariableInstance>) -> Option<MagicVariableType> {
    if v.len() > 0 && all_same(v) {
        Some(v[0].value)
    } else {
        None
    }
}

/// Whether there are assignments and they all agree.
pub open spec fn has_common(v: Seq<MagicVariableInstance>) -> bool {
    v.len() > 0 && all_same(v)
}

impl MagicVariable {
    pub fn new() -> (v: MagicVariable)
        ensures
            v.0@.len() == 0,
    {
        MagicVariable(Vec::new())
    }

    /// The type every assignment agrees on.
    pub fn get_common_type(&self) -> (r: Option<MagicVariableType>)
        ensures
            r == common_type(self.0@),
    {
        if self.0.len() == 0 {
            None
        } else {
            let first = self.0[0].value;
            let mut i: usize = 1;
            while i < self.0.len()
                invariant
                    1 <= i <= self.0@.len(),
                    first == self.0@[0].value,
                    forall|j: int| 0 <= j < i ==> #[trigger] self.0@[j].value == first,
                decreases self.0@.len() - i,
            {
                if self.0[i].value != first {
                    return None;
                }
                i = i + 1;
            }
            Some(first)
        }
    }

    /// Whether every assignment gives the same type.
    pub fn has_common_type(&self) -> (r: bool)
        ensures
            r == has_common(self.0@),
    {
        if self.0.len() == 0 {
            false
        } else {
            let first = self.0[0].value;
            let mut i: usize = 1;
            while i < self.0.len()
                invariant
                    1 <= i <= self.0@.len(),
                    first == self.0@[0].value,
                    forall|j: int| 0 <= j < i ==> #[trigger] self.0@[j].value == first,
                decreases self.0@.len() - i,
            {
                if self.0[i].value != first {
                    return false;
                }
                i = i + 1;
            }
            true
        }
    }

    /// Adds an assignment after the others.
    pub fn insert(&mut self, instance: MagicVariableInstance)
        ensures
            final(self).0@ == old(self).0@.push(instance),
    {
        self.0.push(instance);
    }
}

/// `has_common_type` answers whether `get_common_type` gives a type; adding
/// an assignment of the common type keeps it.
pub proof fn law_common_type(v: Seq<MagicVariableInstance>, x: MagicVariableInstance)
    ensures
        has_common(v) == common_type(v).is_some(),
        common_type(v) == Some(x.value) ==> common_type(v.push(x)) == Some(x.value),
{
    if common_type(v) == Some(x.value) {
        assert forall|i: int| 0 <= i < v.push(x).len() implies #[trigger] v.push(x)[i].value == v.push(x)[0].value by {
            if i < v.len() {
                assert(v[i].value == v[0].value);
            }
        }
    }
}

/// Magic variables of an object by name; each name appears once.
#[derive(Debug)]
pub struct MagicObject(pub Vec<(String, MagicVariable)>);

/// The assignments under `key`.
pub open spec fn instances_of(o: Seq<(String, MagicVariable)>, key: Seq<char>) -> Seq<MagicVariableInstance> {
    match entry_index(o, key) {
        Some(i) => o[i].1.0@,
        None => seq![],
    }
}

impl MagicObject {
    pub fn new() -> (o: MagicObject)
        ensures
            o.0@.len() == 0,
    {
        MagicObject(Vec::new())
    }

    /// The position of the variable named `key`.
    pub fn find(&self, key: &str) -> (r: Option<usize>)
        ensures
            r matches Some(k) ==> entry_index(self.0@, key@) == Some(k as int) && k < self.0@.len(),
            r.is_none() ==> entry_index(self.0@, key@).is_none(),
    {
        proof {
            lemma_entry_index(self.0@, key@);
        }
        let mut i: usize = 0;
        while i < self.0.len()
            invariant
                0 <= i <= self.0@.len(),
                forall|j: int| 0 <= j < i ==> self.0@[j].0@ != key@,
            decreases self.0@.len() - i,
        {
            if str_eq(self.0[i].0.as_str(), key) {
                proof {
                    lemma_entry_index_at(self.0@, key@, i as int);
                }
                return Some(i);
            }
            i = i + 1;
        }
        None
    }

    /// Adds an assignment to the variable named `key`.
    pub fn insert(&mut self, key: String, var: MagicVariableInstance)
        ensures
            instances_of(final(self).0@, key@) == instances_of(old(self).0@, key@).push(var),
            forall|k: Seq<char>| k != key@ ==> #[trigger] instances_of(final(self).0@, k) == instances_of(old(self).0@, k),
    {
        let ghost old_entries = self.0@;
        let ghost k0 = key@;
        proof {
            lemma_entry_index(old_entries, k0);
        }
        match self.find(key.as_str()) {
            Some(k) => {
                let (name, mut item) = self.0.remove(k);
                item.insert(var);
                self.0.insert(k, (name, item));
                proof {
                    assert forall|j: int| 0 <= j < self.0@.len() implies #[trigger] self.0@[j].0@ == old_entries[j].0@ by {
                        if j != k {
                            assert(self.0@[j] == old_entries[j]);
                        }
                    }
                    assert forall|kk: Seq<char>| true implies #[trigger] entry_index(self.0@, kk) == entry_index(old_entries, kk) by {
                        lemma_same_names(self.0@, old_entries, kk);
                    }
                    assert forall|kk: Seq<char>| kk != k0 implies #[trigger] instances_of(self.0@, kk) == instances_of(old_entries, kk) by {
                        lemma_entry_index(old_entries, kk);
                        match entry_index(old_entries, kk) {
                            Some(j) => {
                                assert(j != k);
                                assert(self.0@[j] == old_entries[j]);
                            },
                            None => {},
                        }
                    }
                }
            },
            None => {
                let mut entry = MagicVariable::new();
                entry.insert(var);
                self.0.push((key, entry));
                proof {
                    lemma_entry_index_at(self.0@, k0, old_entries.len() as int);
                    assert(self.0@.drop_last() =~= old_entries);
                    assert(self.0@.last().1.0@ =~= Seq::<MagicVariableInstance>::empty().push(var));
                    assert forall|kk: Seq<char>| kk != k0 implies #[trigger] instances_of(self.0@, kk) == instances_of(old_entries, kk) by {
                        lemma_entry_index(old_entries, kk);
                    }
                }
            },
        }
    }
}

pub proof fn lemma_same_names(a: Seq<(String, MagicVariable)>, b: Seq<(String, MagicVariable)>, key: Seq<char>)
    requires
        a.len() == b.len(),
        forall|i: int| 0 <= i < a.len() ==> #[trigger] a[i].0@ == b[i].0@,
    ensures
        entry_index(a, key) == entry_index(b, key),
    decreases a.len(),
{
    if a.len() > 0 {
        lemma_same_names(a.drop_last(), b.drop_last(), key);
    }
}

} // verus!
