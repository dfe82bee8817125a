use vstd::prelude::*;
use crate::strings::push_char;

verus! {

/// What is kept of a project in its `metadata.json`.
pub struct ProjectMetadata {
    pub name: String,
    pub description: String,
    pub id: String,
}

/// A project: its metadata, its directory, and the directory of its files.
pub struct Project {
    pub metadata: ProjectMetadata,
    pub directory: String,
    pub files_directory: String,
}

/// The projects in the Storytell directory, each under its id.
pub struct Projects {
    pub storytell_dir: String,
    pub projects: Vec<Project>,
}

/// The index of the project with this id.
/// The projects once `p` is kept under its id: in place of the one with that
/// id, or after the others.
pub open spec fn put_project(ps: Seq<Project>, p: Project) -> Seq<Project> {
    match project_index(ps, p.metadata.id@) {
        Some(i) => ps.update(i, p),
        None => ps.push(p),
    }
}

pub open spec fn project_index(ps: Seq<Project>, id: Seq<char>) -> Option<int>
    decreases ps.len(),
{
    if ps.len() == 0 {
        None
    } else if ps.last().metadata.id@ == id {
        Some(ps.len() - 1)
    } else {
        project_index(ps.drop_last(), id)
    }
}

pub proof fn lemma_project_index(ps: Seq<Project>, id: Seq<char>)
    ensures
        project_index(ps, id) matches Some(i) ==> 0 <= i < ps.len() && ps[i].metadata.id@ == id,
        project_index(ps, id) is None ==> forall|i: int| 0 <= i < ps.len() ==> (#[trigger] ps[i]).metadata.id@ != id,
    decreases ps.len(),
{
    if ps.len() > 0 {
        lemma_project_index(ps.drop_last(), id);
        if project_index(ps, id) is None {
            assert forall|i: int| 0 <= i < ps.len() implies (#[trigger] ps[i]).metadata.id@ != id by {
                if i < ps.len() - 1 {
                    assert(ps.drop_last()[i] == ps[i]);
                }
            }
        }
    }
}

/// A path with one more component, joined with `/`.
pub open spec fn joined(base: Seq<char>, part: Seq<char>) -> Seq<char> {
    base + seq!['/'] + part
}

/// Whether `s` is written as a uuid is: 36 characters, hyphens at 8, 13, 18
/// and 23, lower-case hexadecimal digits elsewhere.
pub open spec fn uuid_text(s: Seq<char>) -> bool {
    &&& s.len() == 36
    &&& forall|i: int|
        0 <= i < 36 ==> if i == 8 || i == 13 || i == 18 || i == 23 {
            #[trigger] s[i] == '-'
        } else {
            ('0' <= s[i] <= '9') || ('a' <= s[i] <= 'f')
        }
}

/// `uuid::Uuid::new_v4().to_string()`: a new random id, written hyphenated
/// in lower case; which digits it has the random generator decides.
#[verifier::external_body]
fn new_project_id() -> (id: String)
    ensures
        uuid_text(id@),
{
    uuid::Uuid::new_v4().to_string()
}

fn join_path(base: &str, part: &str) -> (r: String)
    ensures
        r@ == joined(base@, part@),
{
    let mut r = String::new();
    r.append(base);
    push_char(&mut r, '/');
    r.append(part);
    r
}

fn same_str(a: &str, b: &str) -> (r: bool)
    ensures
        r == (a@ == b@),
{
    let n = a.unicode_len();
    if n != b.unicode_len() {
        return false;
    }
    let mut i: usize = 0;
    while i < n
        invariant
            n == a@.len(),
            n == b@.len(),
            i <= n,
            forall|j: int| 0 <= j < i ==> a@[j] == b@[j],
        decreases n - i,
    {
        if a.get_char(i) != b.get_char(i) {
            return false;
        }
        i = i + 1;
    }
    assert(a@ =~= b@);
    true
}

impl Projects {
    /// No two projects share an id.
    pub open spec fn wf(&self) -> bool {
        forall|i: int, j: int|
            0 <= i < j < self.projects@.len() ==> (#[trigger] self.projects@[i]).metadata.id@
                != (#[trigger] self.projects@[j]).metadata.id@
    }

    /// The index of the project with this id.
    fn find(&self, id: &str) -> (r: Option<usize>)
        ensures
            r matches Some(i) ==> project_index(self.projects@, id@) == Some(i as int) && i < self.projects@.len(),
            r is None ==> project_index(self.projects@, id@) is None,
    {
        proof {
            lemma_project_index(self.projects@, id@);
        }
        let mut i = self.projects.len();
        assert(self.projects@.take(i as int) =~= self.projects@);
        while i > 0
            invariant
                i <= self.projects@.len(),
                project_index(self.projects@, id@) == project_index(self.projects@.take(i as int), id@),
            decreases i,
        {
            let ghost t = self.projects@.take(i as int);
            assert(t.drop_last() =~= self.projects@.take(i - 1));
            if same_str(self.projects[i - 1].metadata.id.as_str(), id) {
                return Some(i - 1);
            }
            i = i - 1;
        }
        None
    }

    /// Keeps the project under its id, in place of one with the same id.
    pub fn insert(&mut self, project: Project)
        requires
            old(self).wf(),
        ensures
            final(self).wf(),
            final(self).storytell_dir == old(self).storytell_dir,
            match project_index(old(self).projects@, project.metadata.id@) {
                Some(i) => final(self).projects@ == old(self).projects@.update(i, project),
                None => final(self).projects@ == old(self).projects@.push(project),
            },
    {
        proof {
            lemma_project_index(self.projects@, project.metadata.id@);
        }
        match self.find(project.metadata.id.as_str()) {
            Some(i) => {
                self.projects.set(i, project);
            },
            None => {
                self.projects.push(project);
            },
        }
    }

    /// The projects found in `storytell_dir`, each kept under its id; where
    /// two have one id, the later is kept.
    pub fn new(storytell_dir: String, found: Vec<Project>) -> (r: Self)
        ensures
            r.wf(),
            r.storytell_dir == storytell_dir,
            forall|i: int|
                0 <= i < found@.len() ==> project_index(r.projects@, (#[trigger] found@[i]).metadata.id@) is Some,
            forall|i: int|
                0 <= i < r.projects@.len() ==> exists|j: int|
                    0 <= j < found@.len() && #[trigger] r.projects@[i] == found@[j],
    {
        let mut r = Projects { storytell_dir, projects: Vec::new() };
        let mut rest = found;
        let ghost orig = rest@;
        assert(orig.len() == rest.len());
        let mut k: usize = 0;
        while rest.len() > 0
            invariant
                r.wf(),
                r.storytell_dir == storytell_dir,
                k <= orig.len(),
                orig.len() <= usize::MAX,
                rest@ == orig.skip(k as int),
                forall|i: int| 0 <= i < k ==> project_index(r.projects@, (#[trigger] orig[i]).metadata.id@) is Some,
                forall|i: int|
                    0 <= i < r.projects@.len() ==> exists|j: int| 0 <= j < k && #[trigger] r.projects@[i] == orig[j],
            decreases rest.len(),
        {
            assert(rest@[0] == orig[k as int]);
            let p = rest.remove(0);
            let ghost before = r.projects@;
            let ghost gp = p;
            r.insert(p);
            proof {
                assert(rest@ =~= orig.skip(k + 1));
                lemma_project_index(before, gp.metadata.id@);
                lemma_project_index(r.projects@, gp.metadata.id@);
                match project_index(before, gp.metadata.id@) {
                    Some(m) => assert(r.projects@[m] == gp),
                    None => assert(r.projects@[before.len() as int] == gp),
                }
                assert forall|i: int| 0 <= i < k + 1 implies project_index(r.projects@, (#[trigger] orig[i]).metadata.id@) is Some by {
                    if i < k {
                        lemma_project_index(before, orig[i].metadata.id@);
                        let m = project_index(before, orig[i].metadata.id@).unwrap();
                        lemma_project_index(r.projects@, orig[i].metadata.id@);
                        if project_index(r.projects@, orig[i].metadata.id@) is None {
                            if m < r.projects@.len() && r.projects@[m] == before[m] {
                            } else {
                                assert(r.projects@[m] == gp);
                            }
                        }
                    } else {
                        assert(r.projects@.contains(gp));
                        let m = choose|m: int| 0 <= m < r.projects@.len() && r.projects@[m] == gp;
                        assert(r.projects@[m].metadata.id@ == gp.metadata.id@);
                    }
                }
                assert forall|i: int| 0 <= i < r.projects@.len() implies exists|j: int|
                    0 <= j < k + 1 && #[trigger] r.projects@[i] == orig[j] by {
                    if r.projects@[i] == gp {
                        assert(orig[k as int] == gp);
                    } else {
                        assert(r.projects@[i] == before[i]);
                    }
                }
            }
            k = k + 1;
        }
        proof {
            assert(orig =~= found@);
        }
        r
    }

    /// The project with this id.
    pub fn get(&self, id: &str) -> (r: Option<&Project>)
        ensures
            match project_index(self.projects@, id@) {
                Some(i) => r == Some(&self.projects@[i]),
                None => r is None,
            },
    {
        match self.find(id) {
            Some(i) => Some(&self.projects[i]),
            None => None,
        }
    }

    /// Makes a project with a new id, in a directory of that name within the
    /// Storytell directory, with its files in `content` there. Where a
    /// project has the id `name` already, makes none. Hands back the id of the
    /// new project.
    pub fn create_project(&mut self, name: String, description: String) -> (r: Option<String>)
        requires
            old(self).wf(),
        ensures
            final(self).wf(),
            final(self).storytell_dir == old(self).storytell_dir,
            project_index(old(self).projects@, name@) is Some ==> r is None && final(self).projects@ == old(
                self,
            ).projects@,
            project_index(old(self).projects@, name@) is None ==> (r matches Some(id) && {
                let dir = joined(old(self).storytell_dir@, id@);
                let made = final(self).projects@[project_index(final(self).projects@, id@)->0];
                &&& project_index(final(self).projects@, id@) is Some
                &&& made.metadata.id@ == id@
                &&& made.metadata.name@ == name@
                &&& made.metadata.description@ == description@
                &&& made.directory@ == dir
                &&& made.files_directory@ == joined(dir, "./content"@)
                &&& final(self).projects@ == put_project(old(self).projects@, made)
            }),
    {
        if self.find(name.as_str()).is_some() {
            return None;
        }
        let project_id = new_project_id();
        let project_dir = join_path(self.storytell_dir.as_str(), project_id.as_str());
        let files_dir = join_path(project_dir.as_str(), "./content");
        let metadata = ProjectMetadata { id: project_id.clone(), name, description };
        let project = Project { metadata, files_directory: files_dir, directory: project_dir };
        let ghost gp = project;
        let ghost before = self.projects@;
        self.insert(project);
        proof {
            lemma_project_index(before, project_id@);
            match project_index(before, project_id@) {
                Some(m) => assert(self.projects@[m] == gp),
                None => assert(self.projects@[before.len() as int] == gp),
            }
            lemma_project_index(self.projects@, project_id@);
            if project_index(self.projects@, project_id@) is None {
                assert(self.projects@.contains(gp));
                let m = choose|m: int| 0 <= m < self.projects@.len() && self.projects@[m] == gp;
                assert(self.projects@[m].metadata.id@ == project_id@);
            }
            let i = project_index(self.projects@, project_id@)->0;
            if self.projects@[i] != gp {
                assert(self.projects@[i].metadata.id@ == project_id@);
            }
            assert(self.projects@[i] == gp);
            assert(self.projects@ == put_project(before, gp));
        }
        Some(project_id)
    }

    /// Sets the name and description of the project with this id; `None`
    /// where there is none.
    pub fn update_project(&mut self, id: String, name: String, description: String) -> (r: Option<()>)
        requires
            old(self).wf(),
        ensures
            final(self).wf(),
            final(self).storytell_dir == old(self).storytell_dir,
            match project_index(old(self).projects@, id@) {
                Some(i) => r is Some && final(self).projects@.len() == old(self).projects@.len() && (forall|j: int|
                    0 <= j < old(self).projects@.len() && j != i ==> final(self).projects@[j]
                        == old(self).projects@[j]) && final(self).projects@[i].metadata.name@ == name@
                    && final(self).projects@[i].metadata.description@ == description@
                    && final(self).projects@[i].metadata.id == old(self).projects@[i].metadata.id
                    && final(self).projects@[i].directory == old(self).projects@[i].directory
                    && final(self).projects@[i].files_directory == old(self).projects@[i].files_directory,
                None => r is None && final(self).projects@ == old(self).projects@,
            },
    {
        match self.find(id.as_str()) {
            Some(i) => {
                self.projects[i].metadata.name = name;
                self.projects[i].metadata.description = description;
                Some(())
            },
            None => None,
        }
    }

    /// Takes the project with this id out, and hands it back so that its
    /// directory can be deleted; `None` where there is none.
    pub fn delete_project(&mut self, id: &str) -> (r: Option<Project>)
        requires
            old(self).wf(),
        ensures
            final(self).wf(),
            final(self).storytell_dir == old(self).storytell_dir,
            match project_index(old(self).projects@, id@) {
                Some(i) => r == Some(old(self).projects@[i]) && final(self).projects@ == old(
                    self,
                ).projects@.remove(i),
                None => r is None && final(self).projects@ == old(self).projects@,
            },
    {
        match self.find(id) {
            Some(i) => {
                let ghost before = self.projects@;
                let p = self.projects.remove(i);
                proof {
                    assert forall|a: int, b: int| 0 <= a < b < self.projects@.len() implies (#[trigger] self.projects@[a]).metadata.id@
                        != (#[trigger] self.projects@[b]).metadata.id@ by {
                        let a2 = if a < i { a } else { a + 1 };
                        let b2 = if b < i { b } else { b + 1 };
                        assert(self.projects@[a] == before[a2]);
                        assert(self.projects@[b] == before[b2]);
                        assert(before[a2].metadata.id@ != before[b2].metadata.id@);
                    }
                }
                Some(p)
            },
            None => None,
        }
    }
}

} // verus!
