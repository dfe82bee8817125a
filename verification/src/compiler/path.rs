use vstd::prelude::*;
use vstd::string::*;
use crate::parser::ast::model::{ASTBlock, ASTHeader, spec_canonicalize, str_eq};

verus! {

/// A path being collected, with its sub-paths and the labels declared in it.
pub struct NewPath {
    pub name: String,
    pub depth: u8,
    pub children: Vec<NewPath>,
    pub labels: Vec<String>,
}

/// All paths of a story, with the labels declared outside them.
pub struct PathCollector {
    pub paths: Vec<NewPath>,
    pub global_labels: Vec<String>,
}

/// A path and its sub-paths. Sub-paths are found by name; no two share one.
pub struct Path {
    pub name: String,
    pub depth: u8,
    pub children: Vec<Path>,
}

/// The sub-paths after putting `c` in: in the place of the one of the same
/// name, or at the end.
pub open spec fn insert_path(children: Seq<Path>, c: Path) -> Seq<Path> {
    match child_index(children, c.name@) {
        Some(k) => children.update(k, c),
        None => children.push(c),
    }
}

/// Whether `p` is the path that header `h` declares: the canonical form of its
/// title, its depth, and the paths of the headers nested in it put in one
/// after the other.
pub open spec fn declares(p: Path, h: ASTHeader) -> bool
    decreases h, h.children@.len() + 1,
{
    &&& p.name@ == spec_canonicalize(h.title.text@)
    &&& p.depth == h.depth
    &&& nested_paths(p.children@, h, h.children@.len() as int)
}

/// Whether `children` is what putting in, one after the other, the paths of
/// the headers among the first `i` blocks under `h` gives.
pub open spec fn nested_paths(children: Seq<Path>, h: ASTHeader, i: int) -> bool
    decreases h, i,
{
    if i <= 0 || i > h.children@.len() {
        children.len() == 0
    } else {
        match h.children@[i - 1] {
            ASTBlock::Header(sub) => {
                proof {
                    assert(decreases_to!(h => h.children@[i - 1]));
                }
                exists|prev: Seq<Path>, c: Path|
                    #![trigger insert_path(prev, c)]
                    nested_paths(prev, h, i - 1) && declares(c, sub) && children == insert_path(prev, c)
            },
            _ => nested_paths(children, h, i - 1),
        }
    }
}

pub open spec fn names_of(path: Seq<String>) -> Seq<Seq<char>> {
    path.map_values(|s: String| s@)
}

/// The position of the first of the paths named `name`.
pub open spec fn child_index(children: Seq<Path>, name: Seq<char>) -> Option<int>
    decreases children.len(),
{
    if children.len() == 0 {
        None
    } else {
        match child_index(children.drop_last(), name) {
            Some(i) => Some(i),
            None => if children.last().name@ == name {
                Some(children.len() - 1)
            } else {
                None
            },
        }
    }
}

/// The sub-path reached from `p` by following the names in order.
pub open spec fn resolve(p: Path, names: Seq<Seq<char>>) -> Option<Path>
    decreases names.len(),
{
    if names.len() == 0 {
        Some(p)
    } else {
        match child_index(p.children@, names[0]) {
            Some(k) => resolve(p.children@[k], names.drop_first()),
            None => None,
        }
    }
}

/// How many of the names can be followed from `p` before one is missing.
pub open spec fn found_prefix(p: Path, names: Seq<Seq<char>>) -> int
    decreases names.len(),
{
    if names.len() == 0 {
        0
    } else {
        match child_index(p.children@, names[0]) {
            Some(k) => 1 + found_prefix(p.children@[k], names.drop_first()),
            None => 0,
        }
    }
}

/// Children with distinct names, each of them so too.
pub open spec fn distinct_names(children: Seq<Path>) -> bool {
    forall|i: int, j: int|
        0 <= i < j < children.len() ==> #[trigger] children[i].name@ != #[trigger] children[j].name@
}

pub proof fn lemma_child_index(children: Seq<Path>, name: Seq<char>)
    ensures
        child_index(children, name) matches Some(i) ==> 0 <= i < children.len() && children[i].name@ == name
            && forall|j: int| 0 <= j < i ==> children[j].name@ != name,
        child_index(children, name).is_none() ==> forall|j: int| 0 <= j < children.len() ==> children[j].name@ != name,
    decreases children.len(),
{
    if children.len() > 0 {
        let init = children.drop_last();
        lemma_child_index(init, name);
        assert forall|j: int| 0 <= j < init.len() implies init[j] == children[j] by {}
    }
}

/// A path can be followed to its end exactly when no name on it is missing;
/// `get_child_by_path` and `try_get_child_by_path` agree on every path.
pub proof fn law_resolve_found_prefix(p: Path, names: Seq<Seq<char>>)
    ensures
        0 <= found_prefix(p, names) <= names.len(),
        resolve(p, names).is_some() <==> found_prefix(p, names) == names.len(),
    decreases names.len(),
{
    if names.len() > 0 {
        match child_index(p.children@, names[0]) {
            Some(k) => {
                law_resolve_found_prefix(p.children@[k], names.drop_first());
            },
            None => {},
        }
    }
}

impl Path {
    pub fn new(name: &str) -> (p: Path)
        ensures
            p.name@ == name@,
            p.depth == 0,
            p.children@.len() == 0,
    {
        Path { name: name.to_string(), depth: 0, children: Vec::new() }
    }

    /// The position of the child named `name`.
    fn find_child(&self, name: &str) -> (r: Option<usize>)
        ensures
            r matches Some(k) ==> child_index(self.children@, name@) == Some(k as int),
            r.is_none() ==> child_index(self.children@, name@).is_none(),
    {
        let mut i: usize = 0;
        proof {
            lemma_child_index(self.children@, name@);
        }
        while i < self.children.len()
            invariant
                0 <= i <= self.children@.len(),
                forall|j: int| 0 <= j < i ==> self.children@[j].name@ != name@,
            decreases self.children@.len() - i,
        {
            if str_eq(self.children[i].name.as_str(), name) {
                proof {
                    lemma_child_index_at(self.children@, name@, i as int);
                }
                return Some(i);
            }
            i = i + 1;
        }
        proof {
            lemma_child_index(self.children@, name@);
        }
        None
    }

    fn descend(&self, path: &[String], i: usize) -> (r: Option<&Path>)
        requires
            i <= path@.len(),
        ensures
            r matches Some(p) ==> resolve(*self, names_of(path@).subrange(i as int, path@.len() as int)) == Some(*p),
            r.is_none() ==> resolve(*self, names_of(path@).subrange(i as int, path@.len() as int)).is_none(),
        decreases path@.len() - i,
    {
        let ghost rest = names_of(path@).subrange(i as int, path@.len() as int);
        if i == path.len() {
            return Some(self);
        }
        assert(rest[0] == path@[i as int]@);
        assert(rest.drop_first() =~= names_of(path@).subrange(i + 1, path@.len() as int));
        proof {
            lemma_child_index(self.children@, path@[i as int]@);
        }
        match self.find_child(path[i].as_str()) {
            Some(k) => self.children[k].descend(path, i + 1),
            None => None,
        }
    }

    fn count_found(&self, path: &[String], i: usize) -> (r: usize)
        requires
            i <= path@.len(),
        ensures
            r - i == found_prefix(*self, names_of(path@).subrange(i as int, path@.len() as int)),
            i <= r <= path@.len(),
        decreases path@.len() - i,
    {
        let ghost rest = names_of(path@).subrange(i as int, path@.len() as int);
        proof {
            law_resolve_found_prefix(*self, rest);
        }
        if i == path.len() {
            return i;
        }
        assert(rest[0] == path@[i as int]@);
        assert(rest.drop_first() =~= names_of(path@).subrange(i + 1, path@.len() as int));
        proof {
            lemma_child_index(self.children@, path@[i as int]@);
        }
        match self.find_child(path[i].as_str()) {
            Some(k) => self.children[k].count_found(path, i + 1),
            None => i,
        }
    }

    /// The sub-path reached by following the names in order.
    pub fn get_child_by_path(&self, path: &[String]) -> (r: Option<&Path>)
        requires
            path@.len() >= 1,
        ensures
            r matches Some(p) ==> resolve(*self, names_of(path@)) == Some(*p),
            r.is_none() ==> resolve(*self, names_of(path@)).is_none(),
    {
        assert(names_of(path@).subrange(0, path@.len() as int) =~= names_of(path@));
        self.descend(path, 0)
    }

    /// The sub-path reached by following the names in order, or the position
    /// of the first name that is missing.
    pub fn try_get_child_by_path(&self, path: &Vec<String>) -> (r: Result<&Path, usize>)
        requires
            path@.len() >= 1,
        ensures
            r matches Ok(p) ==> resolve(*self, names_of(path@)) == Some(*p),
            r matches Err(ind) ==> resolve(*self, names_of(path@)).is_none() && ind == found_prefix(
                *self,
                names_of(path@),
            ),
    {
        assert(names_of(path@).subrange(0, path@.len() as int) =~= names_of(path@));
        proof {
            law_resolve_found_prefix(*self, names_of(path@));
        }
        let found = self.count_found(path.as_slice(), 0);
        if found < path.len() {
            return Err(found);
        }
        match self.descend(path.as_slice(), 0) {
            Some(p) => Ok(p),
            None => Err(found),
        }
    }

    /// Path names can only contain lowercase letters, digits and underscores.
    /// Empty spaces are replaced with underscores.
    /// Capital letters are replaced with their lowercase variants.
    /// Any other character gets erased.
    pub fn canonicalize_name(name: &str) -> (canonical: String)
        ensures
            canonical@ == spec_canonicalize(name@),
    {
        ASTHeader::canonicalize_name(name)
    }

    /// Adds the path that a header declares, with the paths of the headers
    /// nested in it; it takes the place of a sub-path of the same name.
    pub fn add_child_ast(&mut self, ast: &ASTHeader)
        ensures
            final(self).name == old(self).name,
            final(self).depth == old(self).depth,
            child_index(final(self).children@, spec_canonicalize(ast.title.text@)) matches Some(k)
                && final(self).children@[k].depth == ast.depth,
            forall|n: Seq<char>| n != spec_canonicalize(ast.title.text@) ==> #[trigger] child_index(
                final(self).children@,
                n,
            ) == child_index(old(self).children@, n),
            forall|n: Seq<char>|
                n != spec_canonicalize(ast.title.text@) ==> (#[trigger] child_index(old(self).children@, n) matches Some(k)
                    ==> final(self).children@[k] == old(self).children@[k]),
            exists|c: Path| declares(c, *ast) && final(self).children@ == #[trigger] insert_path(old(self).children@, c),
        decreases ast,
    {
        let path_name = Path::canonicalize_name(ast.title.text.as_str());
        let mut path = Path { name: path_name.clone(), depth: ast.depth, children: Vec::new() };
        let mut i: usize = 0;
        while i < ast.children.len()
            invariant
                0 <= i <= ast.children@.len(),
                path.name@ == spec_canonicalize(ast.title.text@),
                path.depth == ast.depth,
                nested_paths(path.children@, *ast, i as int),
            decreases ast.children@.len() - i,
        {
            let ghost prev = path.children@;
            match &ast.children[i] {
                ASTBlock::Header(block) => {
                    proof {
                        assert(decreases_to!(ast => ast.children@[i as int]));
                    }
                    path.add_child_ast(block);
                    proof {
                        let c = choose|c: Path| declares(c, *block) && path.children@ == #[trigger] insert_path(prev, c);
                        assert(nested_paths(prev, *ast, i as int) && declares(c, *block) && path.children@ == insert_path(prev, c));
                    }
                },
                _ => {},
            }
            i = i + 1;
        }
        let ghost built = path;
        self.insert_child(path);
        proof {
            assert(declares(built, *ast));
        }
    }

    /// Puts a sub-path in, in the place of the one of the same name if there is one.
    fn insert_child(&mut self, child: Path)
        ensures
            final(self).name == old(self).name,
            final(self).depth == old(self).depth,
            child_index(final(self).children@, child.name@) matches Some(k) && final(self).children@[k] == child,
            final(self).children@ == insert_path(old(self).children@, child),
            forall|n: Seq<char>| n != child.name@ ==> #[trigger] child_index(final(self).children@, n)
                == child_index(old(self).children@, n),
            forall|n: Seq<char>|
                n != child.name@ ==> (#[trigger] child_index(old(self).children@, n) matches Some(k)
                    ==> final(self).children@[k] == old(self).children@[k]),
    {
        let ghost old_children = self.children@;
        proof {
            lemma_child_index(old_children, child.name@);
        }
        match self.find_child(child.name.as_str()) {
            Some(k) => {
                let ghost c = child;
                self.children.set(k, child);
                proof {
                    lemma_child_index(self.children@, c.name@);
                    assert forall|n: Seq<char>| n != c.name@ implies #[trigger] child_index(self.children@, n)
                        == child_index(old_children, n) by {
                        lemma_child_index_same_names(self.children@, old_children, n);
                    }
                    lemma_child_index_at(self.children@, c.name@, k as int);
                    assert forall|n: Seq<char>| n != c.name@ implies (#[trigger] child_index(old_children, n) matches Some(k2)
                        ==> self.children@[k2] == old_children[k2]) by {
                        lemma_child_index(old_children, n);
                    }
                }
            },
            None => {
                let ghost c = child;
                self.children.push(child);
                proof {
                    lemma_child_index_at(self.children@, c.name@, old_children.len() as int);
                    assert forall|n: Seq<char>| n != c.name@ implies #[trigger] child_index(self.children@, n)
                        == child_index(old_children, n) by {
                        assert(self.children@.drop_last() =~= old_children);
                    }
                    assert forall|n: Seq<char>| n != c.name@ implies (#[trigger] child_index(old_children, n) matches Some(k2)
                        ==> self.children@[k2] == old_children[k2]) by {
                        lemma_child_index(old_children, n);
                    }
                }
            },
        }
    }
}

pub proof fn lemma_child_index_at(children: Seq<Path>, name: Seq<char>, i: int)
    requires
        0 <= i < children.len(),
        children[i].name@ == name,
        forall|j: int| 0 <= j < i ==> children[j].name@ != name,
    ensures
        child_index(children, name) == Some(i),
    decreases children.len(),
{
    lemma_child_index(children, name);
    if i < children.len() - 1 {
        lemma_child_index_at(children.drop_last(), name, i);
    } else {
        lemma_child_index(children.drop_last(), name);
    }
}

/// Sequences of paths with the same names find the same positions.
pub proof fn lemma_child_index_same_names(a: Seq<Path>, b: Seq<Path>, name: Seq<char>)
    requires
        a.len() == b.len(),
        forall|i: int| 0 <= i < a.len() ==> #[trigger] a[i].name@ == b[i].name@,
    ensures
        child_index(a, name) == child_index(b, name),
    decreases a.len(),
{
    if a.len() > 0 {
        lemma_child_index_same_names(a.drop_last(), b.drop_last(), name);
    }
}

} // verus!
