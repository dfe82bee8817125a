use vstd::prelude::*;
use vstd::string::*;
use crate::compiler::path::names_of;
use crate::diagnostics::diagnostic::{Diagnostic, DiagnosticCollector};
use crate::parser::ast::model::{ASTHeader, spec_canonicalize, str_eq};

verus! {

/// Names of the functions that compiled javascript calls to move between paths.
pub struct JSBootstrapVars {
    /// Name of a funtion which moves the current path,
    /// it receives an array of path names
    pub divert_fn: &'static str,
    pub temp_divert_fn: &'static str,
}

pub enum MagicVariableType {
    String,
    Number,
    Bool,
    Array,
    Mapping,
}

/// A path of a story and its sub-paths, found by name.
pub struct Path {
    pub name: String,
    pub depth: u8,
    pub children: Vec<Path>,
}

/// The position of the first of the paths named `name`.
pub open spec fn sub_path_index(children: Seq<Path>, name: Seq<char>) -> Option<int>
    decreases children.len(),
{
    if children.len() == 0 {
        None
    } else {
        match sub_path_index(children.drop_last(), name) {
            Some(i) => Some(i),
            None => if children.last().name@ == name {
                Some(children.len() - 1)
            } else {
                None
            },
        }
    }
}

/// The sub-path reached from `p` by following the names in order.
pub open spec fn follow(p: Path, names: Seq<Seq<char>>) -> Option<Path>
    decreases names.len(),
{
    if names.len() == 0 {
        Some(p)
    } else {
        match sub_path_index(p.children@, names[0]) {
            Some(k) => follow(p.children@[k], names.drop_first()),
            None => None,
        }
    }
}

pub proof fn lemma_sub_path_index(children: Seq<Path>, name: Seq<char>)
    ensures
        sub_path_index(children, name) matches Some(i) ==> 0 <= i < children.len() && children[i].name@ == name
            && forall|j: int| 0 <= j < i ==> children[j].name@ != name,
        sub_path_index(children, name).is_none() ==> forall|j: int|
            0 <= j < children.len() ==> children[j].name@ != name,
    decreases children.len(),
{
    if children.len() > 0 {
        let init = children.drop_last();
        lemma_sub_path_index(init, name);
        assert forall|j: int| 0 <= j < init.len() implies init[j] == children[j] by {}
    }
}

pub proof fn lemma_sub_path_index_at(children: Seq<Path>, name: Seq<char>, i: int)
    requires
        0 <= i < children.len(),
        children[i].name@ == name,
        forall|j: int| 0 <= j < i ==> children[j].name@ != name,
    ensures
        sub_path_index(children, name) == Some(i),
    decreases children.len(),
{
    lemma_sub_path_index(children, name);
    if i < children.len() - 1 {
        lemma_sub_path_index_at(children.drop_last(), name, i);
    } else {
        lemma_sub_path_index(children.drop_last(), name);
    }
}

impl Path {
    pub fn new(name: &str, depth: u8) -> (p: Path)
        ensures
            p.name@ == name@,
            p.depth == depth,
            p.children@.len() == 0,
    {
        Path { depth, name: name.to_string(), children: Vec::new() }
    }

    fn find(&self, name: &str) -> (r: Option<usize>)
        ensures
            r matches Some(k) ==> sub_path_index(self.children@, name@) == Some(k as int) && k < self.children@.len(),
            r.is_none() ==> sub_path_index(self.children@, name@).is_none(),
    {
        let mut i: usize = 0;
        proof {
            lemma_sub_path_index(self.children@, name@);
        }
        while i < self.children.len()
            invariant
                0 <= i <= self.children@.len(),
                forall|j: int| 0 <= j < i ==> self.children@[j].name@ != name@,
            decreases self.children@.len() - i,
        {
            if str_eq(self.children[i].name.as_str(), name) {
                proof {
                    lemma_sub_path_index_at(self.children@, name@, i as int);
                }
                return Some(i);
            }
            i = i + 1;
        }
        None
    }

    /// Adds an empty sub-path one level deeper, in the place of one of the same name.
    pub fn create(&mut self, name: &str)
        requires
            old(self).depth < 255,
        ensures
            final(self).name == old(self).name,
            final(self).depth == old(self).depth,
            sub_path_index(final(self).children@, name@) matches Some(k) && final(self).children@[k].depth
                == old(self).depth + 1 && final(self).children@[k].children@.len() == 0,
            forall|n: Seq<char>| n != name@ ==> #[trigger] sub_path_index(final(self).children@, n)
                == sub_path_index(old(self).children@, n),
            forall|n: Seq<char>|
                n != name@ ==> (#[trigger] sub_path_index(old(self).children@, n) matches Some(j)
                    ==> final(self).children@[j] == old(self).children@[j]),
    {
        let ghost old_children = self.children@;
        let child = Path::new(name, self.depth + 1);
        match self.find(name) {
            Some(k) => {
                self.children.set(k, child);
                proof {
                    lemma_sub_path_index(old_children, name@);
                    assert forall|n: Seq<char>| n != name@ implies #[trigger] sub_path_index(self.children@, n)
                        == sub_path_index(old_children, n) by {
                        lemma_same_names(self.children@, old_children, n);
                    }
                    lemma_sub_path_index_at(self.children@, name@, k as int);
                    assert forall|n: Seq<char>| n != name@ implies (#[trigger] sub_path_index(old_children, n) matches Some(j)
                        ==> self.children@[j] == old_children[j]) by {
                        lemma_sub_path_index(old_children, n);
                    }
                }
            },
            None => {
                self.children.push(child);
                proof {
                    lemma_sub_path_index(old_children, name@);
                    lemma_sub_path_index_at(self.children@, name@, old_children.len() as int);
                    assert forall|n: Seq<char>| n != name@ implies #[trigger] sub_path_index(self.children@, n)
                        == sub_path_index(old_children, n) by {
                        assert(self.children@.drop_last() =~= old_children);
                    }
                    assert forall|n: Seq<char>| n != name@ implies (#[trigger] sub_path_index(old_children, n) matches Some(j)
                        ==> self.children@[j] == old_children[j]) by {
                        lemma_sub_path_index(old_children, n);
                    }
                }
            },
        }
    }

    fn walk(&self, path: &Vec<String>, i: usize) -> (r: Option<&Path>)
        requires
            i <= path@.len(),
        ensures
            r matches Some(p) ==> follow(*self, names_of(path@).subrange(i as int, path@.len() as int)) == Some(*p),
            r.is_none() ==> follow(*self, names_of(path@).subrange(i as int, path@.len() as int)).is_none(),
        decreases path@.len() - i,
    {
        let ghost rest = names_of(path@).subrange(i as int, path@.len() as int);
        if i == path.len() {
            return Some(self);
        }
        assert(rest[0] == path@[i as int]@);
        assert(rest.drop_first() =~= names_of(path@).subrange(i + 1, path@.len() as int));
        match self.find(path[i].as_str()) {
            Some(k) => self.children[k].walk(path, i + 1),
            None => None,
        }
    }

    /// The sub-path reached by following the names in order.
    pub fn get_child_by_path(&self, path: &Vec<String>) -> (r: Option<&Path>)
        requires
            path@.len() >= 1,
        ensures
            r matches Some(p) ==> follow(*self, names_of(path@)) == Some(*p),
            r.is_none() ==> follow(*self, names_of(path@)).is_none(),
    {
        assert(names_of(path@).subrange(0, path@.len() as int) =~= names_of(path@));
        self.walk(path, 0)
    }

    /// Path names can only contain lowercase letters, digits and underscores.
    /// Empty spaces are replaced with underscores.
    /// Capital letters are replaced with their lowercase variants.
    /// Any other character gets erased.
    pub fn canonicalize_name(name: &str) -> (canonical: String)
        ensures
            canonical@ == spec_canonicalize(name@),
    {
        ASTHeader::canonicalize_name(name)
    }
}

pub proof fn lemma_same_names(a: Seq<Path>, b: Seq<Path>, name: Seq<char>)
    requires
        a.len() == b.len(),
        forall|i: int| 0 <= i < a.len() ==> #[trigger] a[i].name@ == b[i].name@,
    ensures
        sub_path_index(a, name) == sub_path_index(b, name),
    decreases a.len(),
{
    if a.len() > 0 {
        lemma_same_names(a.drop_last(), b.drop_last(), name);
    }
}

/// What compiling a story keeps track of.
pub struct CompilerContext<'a> {
    pub magic_variables: Vec<(String, MagicVariableType)>,
    pub diagnostics: Vec<Diagnostic>,
    pub paths: Path,
    pub current_path: Option<&'a Path>,
    pub bootstrap: JSBootstrapVars,
}

impl<'a> CompilerContext<'a> {
    pub fn new(bootstrap: JSBootstrapVars) -> (c: Self)
        ensures
            c.magic_variables@.len() == 0,
            c.diagnostics@.len() == 0,
            c.paths.name@.len() == 0,
            c.paths.depth == 0,
            c.paths.children@.len() == 0,
            c.current_path.is_none(),
            c.bootstrap == bootstrap,
    {
        let paths = Path::new("", 0);
        proof {
            reveal_strlit("");
        }
        CompilerContext { magic_variables: Vec::new(), diagnostics: Vec::new(), paths, current_path: None, bootstrap }
    }
}

impl<'a> DiagnosticCollector for CompilerContext<'a> {
    fn add_diagnostic(&mut self, err: Diagnostic) {
        self.diagnostics.push(err);
    }
}

} // verus!
