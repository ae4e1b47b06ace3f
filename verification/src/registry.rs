//! Project registry: the in-memory index of project records, keyed by
//! unique name. Reading and writing `project.json` files is disk work the
//! daemon binary does; it feeds loaded records in through `load_record`
//! and persists the records this module hands back.

use vstd::prelude::*;
use vstd::string::*;
use crate::common::{
    spec_validate_name, valid_project_name, validate_project_name, NameError, Project,
};
use crate::strutil::str_eq;

verus! {

pub open spec fn has_name(s: Seq<Project>, n: Seq<char>) -> bool {
    exists|i: int| 0 <= i < s.len() && (#[trigger] s[i]).name@ == n
}

/// Index of the record with this name (meaningful only when one exists
/// and names are unique).
pub open spec fn name_index(s: Seq<Project>, n: Seq<char>) -> int
    decreases s.len(),
{
    if s.len() == 0 {
        0
    } else if s[0].name@ == n {
        0
    } else {
        1 + name_index(s.skip(1), n)
    }
}

pub proof fn lemma_name_index_of(s: Seq<Project>, n: Seq<char>, i: int)
    requires
        0 <= i < s.len(),
        s[i].name@ == n,
        forall|j: int| 0 <= j < i ==> (#[trigger] s[j]).name@ != n,
    ensures
        has_name(s, n),
        name_index(s, n) == i,
    decreases s.len(),
{
    if s[0].name@ == n {
        assert(i == 0);
    } else {
        assert(forall|j: int| 0 <= j < i - 1 ==> (#[trigger] s.skip(1)[j]).name@ != n);
        lemma_name_index_of(s.skip(1), n, i - 1);
    }
}

/// When a record with this name exists, `name_index` points at it.
pub proof fn lemma_name_index_range(s: Seq<Project>, n: Seq<char>)
    requires
        has_name(s, n),
    ensures
        0 <= name_index(s, n) < s.len(),
        s[name_index(s, n)].name@ == n,
    decreases s.len(),
{
    if s[0].name@ == n {
    } else {
        let w = choose|w: int| 0 <= w < s.len() && (#[trigger] s[w]).name@ == n;
        assert(s.skip(1)[w - 1].name@ == n);
        assert(has_name(s.skip(1), n));
        lemma_name_index_range(s.skip(1), n);
    }
}

pub open spec fn unique_project_names(s: Seq<Project>) -> bool {
    forall|i: int, j: int| 0 <= i < j < s.len() ==> s[i].name@ != s[j].name@
}

/// Why a create request failed.
#[derive(Clone, Copy, Debug, PartialEq, Eq, Structural)]
pub enum CreateError {
    InvalidName(NameError),
    AlreadyExists,
}

impl CreateError {
    /// The message surfaced to the caller, built with the offending name.
    pub fn message(&self, name: &str) -> (r: String)
        ensures
            self matches CreateError::InvalidName(e) ==> ({
                &&& e is Empty ==> r@ == "Project name cannot be empty"@
                &&& e is TooLong ==> r@ == "Project name cannot exceed 64 characters"@
                &&& e is InvalidChar ==> r@
                    == "Project name can only contain alphanumeric characters, hyphens, and underscores"@
                &&& e is BadStart ==> r@ == "Project name cannot start with a hyphen or underscore"@
            }),
            self is AlreadyExists ==> r@ == "Project '"@ + name@ + "' already exists"@,
    {
        match self {
            CreateError::InvalidName(e) => e.message(),
            CreateError::AlreadyExists => String::from_str("Project '").concat(name).concat(
                "' already exists",
            ),
        }
    }
}

/// Message for a name that no project record carries.
pub fn project_not_found_message(name: &str) -> (r: String)
    ensures
        r@ == "Project '"@ + name@ + "' not found"@,
{
    String::from_str("Project '").concat(name).concat("' not found")
}

/// In-memory index of project records; at most one record per name.
pub struct Registry {
    projects: Vec<Project>,
}

impl Registry {
    /// All records, in load/creation order.
    pub closed spec fn records(&self) -> Seq<Project> {
        self.projects@
    }

    pub open spec fn wf(&self) -> bool {
        unique_project_names(self.records())
    }

    /// An empty registry; the daemon loads persisted records into it with
    /// `load_record` at startup.
    pub fn new() -> (r: Self)
        ensures
            r.wf(),
            r.records() == Seq::<Project>::empty(),
    {
        Registry { projects: Vec::new() }
    }

    /// Insert a record read back from disk; a record with the same name
    /// replaces the earlier one.
    pub fn load_record(&mut self, p: Project)
        requires
            old(self).wf(),
        ensures
            final(self).wf(),
            has_name(final(self).records(), p.name@),
            final(self).records()[name_index(final(self).records(), p.name@)] == p,
            forall|n: Seq<char>|
                has_name(old(self).records(), n) ==> has_name(final(self).records(), n),
            forall|n: Seq<char>|
                n != p.name@ && has_name(final(self).records(), n) ==> has_name(
                    old(self).records(),
                    n,
                ),
            forall|n: Seq<char>|
                n != p.name@ && has_name(old(self).records(), n)
                    ==> final(self).records()[name_index(final(self).records(), n)]
                    == old(self).records()[name_index(old(self).records(), n)],
    {
        let ghost pn = p.name@;
        let n = self.projects.len();
        let mut i: usize = 0;
        while i < n
            invariant
                i <= n,
                n == self.projects@.len(),
                *self == *old(self),
                old(self).wf(),
                pn == p.name@,
                forall|j: int| 0 <= j < i ==> (#[trigger] self.projects@[j]).name@ != pn,
            decreases n - i,
        {
            if str_eq(self.projects[i].name.as_str(), p.name.as_str()) {
                proof {
                    lemma_name_index_of(self.projects@, pn, i as int);
                }
                self.projects[i] = p;
                proof {
                    lemma_replace_keeps(old(self).projects@, self.projects@, i as int);
                    lemma_name_index_of(self.projects@, pn, i as int);
                }
                return;
            }
            i = i + 1;
        }
        self.projects.push(p);
        proof {
            let s = self.projects@;
            lemma_name_index_of(s, pn, s.len() - 1);
            assert forall|nm: Seq<char>| has_name(old(self).records(), nm) implies has_name(
                s,
                nm,
            ) by {
                let w = choose|w: int|
                    0 <= w < old(self).records().len() && (#[trigger] old(self).records()[w]).name@
                        == nm;
                assert(s[w].name@ == nm);
            }
            assert forall|nm: Seq<char>|
                nm != pn && has_name(old(self).records(), nm) implies s[name_index(s, nm)] == old(
                self,
            ).records()[name_index(old(self).records(), nm)] by {
                lemma_same_prefix_index(old(self).records(), s, nm);
            }
            assert forall|nm: Seq<char>| nm != pn && has_name(s, nm) implies has_name(
                old(self).records(),
                nm,
            ) by {
                let w = choose|w: int| 0 <= w < s.len() && (#[trigger] s[w]).name@ == nm;
                assert(old(self).records()[w].name@ == nm);
            }
        }
    }

    /// Create a project: the name must validate and be unused. The record
    /// starts with a fresh id, the current time, and no port. The caller
    /// persists the returned record.
    pub fn create(&mut self, name: String, root_dir: String) -> (r: Result<Project, CreateError>)
        requires
            old(self).wf(),
        ensures
            final(self).wf(),
            r matches Err(CreateError::InvalidName(e)) ==> spec_validate_name(name@) == Err::<
                (),
                NameError,
            >(e),
            spec_validate_name(name@) matches Err(e) ==> r == Err::<Project, CreateError>(
                CreateError::InvalidName(e),
            ),
            r == Err::<Project, CreateError>(CreateError::AlreadyExists) <==> (valid_project_name(
                name@,
            ) && has_name(old(self).records(), name@)),
            r is Err ==> final(self).records() == old(self).records(),
            r matches Ok(p) ==> {
                &&& !has_name(old(self).records(), name@)
                &&& valid_project_name(name@)
                &&& p.name@ == name@
                &&& p.root_dir@ == root_dir@
                &&& p.port is None
                &&& final(self).records() == old(self).records().push(p)
            },
    {
        match validate_project_name(name.as_str()) {
            Ok(()) => {},
            Err(e) => {
                return Err(CreateError::InvalidName(e));
            },
        }
        let n = self.projects.len();
        let mut i: usize = 0;
        while i < n
            invariant
                i <= n,
                n == self.projects@.len(),
                *self == *old(self),
                old(self).wf(),
                valid_project_name(name@),
                forall|j: int| 0 <= j < i ==> (#[trigger] self.projects@[j]).name@ != name@,
            decreases n - i,
        {
            if str_eq(self.projects[i].name.as_str(), name.as_str()) {
                proof {
                    lemma_name_index_of(self.projects@, name@, i as int);
                }
                return Err(CreateError::AlreadyExists);
            }
            i = i + 1;
        }
        let project = Project::new(name, root_dir);
        let out = project.clone();
        self.projects.push(project);
        Ok(out)
    }

    /// The record with this name, if any.
    pub fn get(&self, name: &str) -> (r: Option<&Project>)
        ensures
            match r {
                Some(p) => has_name(self.records(), name@) && *p == self.records()[name_index(
                    self.records(),
                    name@,
                )],
                None => !has_name(self.records(), name@),
            },
    {
        let n = self.projects.len();
        let mut i: usize = 0;
        while i < n
            invariant
                i <= n,
                n == self.projects@.len(),
                forall|j: int| 0 <= j < i ==> (#[trigger] self.projects@[j]).name@ != name@,
            decreases n - i,
        {
            if str_eq(self.projects[i].name.as_str(), name) {
                proof {
                    lemma_name_index_of(self.projects@, name@, i as int);
                }
                return Some(&self.projects[i]);
            }
            i = i + 1;
        }
        None
    }

    /// Copies of all records.
    pub fn list(&self) -> (r: Vec<Project>)
        ensures
            r@ == self.records(),
    {
        let n = self.projects.len();
        let mut r: Vec<Project> = Vec::new();
        let mut i: usize = 0;
        while i < n
            invariant
                i <= n,
                n == self.projects@.len(),
                r@ == self.projects@.take(i as int),
            decreases n - i,
        {
            r.push(self.projects[i].clone());
            proof {
                assert(r@ =~= self.projects@.take(i + 1));
            }
            i = i + 1;
        }
        proof {
            assert(self.projects@.take(n as int) =~= self.projects@);
        }
        r
    }

    /// Set (or clear) the last-known port of a project. The caller
    /// persists the updated record; an unknown name is an error.
    pub fn update_port(&mut self, name: &str, port: Option<u16>) -> (r: Result<Project, ()>)
        requires
            old(self).wf(),
        ensures
            final(self).wf(),
            r is Err <==> !has_name(old(self).records(), name@),
            r is Err ==> final(self).records() == old(self).records(),
            r matches Ok(p) ==> {
                &&& p == Project { port, ..old(self).records()[name_index(old(self).records(), name@)] }
                &&& final(self).records() == old(self).records().update(
                    name_index(old(self).records(), name@),
                    p,
                )
            },
    {
        let n = self.projects.len();
        let mut i: usize = 0;
        while i < n
            invariant
                i <= n,
                n == self.projects@.len(),
                *self == *old(self),
                old(self).wf(),
                forall|j: int| 0 <= j < i ==> (#[trigger] self.projects@[j]).name@ != name@,
            decreases n - i,
        {
            if str_eq(self.projects[i].name.as_str(), name) {
                proof {
                    lemma_name_index_of(self.projects@, name@, i as int);
                }
                self.projects[i].port = port;
                proof {
                    lemma_replace_keeps(old(self).projects@, self.projects@, i as int);
                }
                return Ok(self.projects[i].clone());
            }
            i = i + 1;
        }
        Err(())
    }

    /// How many projects exist.
    pub fn count(&self) -> (r: usize)
        ensures
            r == self.records().len(),
    {
        self.projects.len()
    }

    /// Some project whose last-known port is `port`, if any.
    pub fn find_by_port(&self, port: u16) -> (r: Option<&Project>)
        ensures
            match r {
                Some(p) => self.records().contains(*p) && p.port == Some(port),
                None => forall|j: int|
                    0 <= j < self.records().len() ==> (#[trigger] self.records()[j]).port != Some(
                        port,
                    ),
            },
    {
        let n = self.projects.len();
        let mut i: usize = 0;
        while i < n
            invariant
                i <= n,
                n == self.projects@.len(),
                forall|j: int| 0 <= j < i ==> (#[trigger] self.projects@[j]).port != Some(port),
            decreases n - i,
        {
            let hit = match self.projects[i].port {
                Some(p) => p == port,
                None => false,
            };
            if hit {
                return Some(&self.projects[i]);
            }
            i = i + 1;
        }
        None
    }
}

/// Replacing one record with one of the same name keeps names unique and
/// other lookups unchanged.
proof fn lemma_replace_keeps(pre: Seq<Project>, post: Seq<Project>, i: int)
    requires
        unique_project_names(pre),
        0 <= i < pre.len(),
        post.len() == pre.len(),
        post[i].name@ == pre[i].name@,
        forall|j: int| 0 <= j < pre.len() && j != i ==> post[j] == pre[j],
    ensures
        unique_project_names(post),
        forall|n: Seq<char>|
            n != pre[i].name@ && has_name(pre, n) ==> has_name(post, n) && name_index(post, n)
                == name_index(pre, n) && post[name_index(post, n)] == pre[name_index(pre, n)],
        forall|n: Seq<char>| has_name(post, n) <==> has_name(pre, n),
{
    assert(forall|j: int| 0 <= j < pre.len() ==> (#[trigger] post[j]).name@ == pre[j].name@);
    assert forall|n: Seq<char>| has_name(pre, n) implies has_name(post, n) by {
        let w = choose|w: int| 0 <= w < pre.len() && (#[trigger] pre[w]).name@ == n;
        assert(post[w].name@ == n);
    }
    assert forall|n: Seq<char>| has_name(post, n) implies has_name(pre, n) by {
        let w = choose|w: int| 0 <= w < post.len() && (#[trigger] post[w]).name@ == n;
        assert(pre[w].name@ == n);
    }
    assert forall|n: Seq<char>|
        n != pre[i].name@ && has_name(pre, n) implies has_name(post, n) && name_index(post, n)
        == name_index(pre, n) && post[name_index(post, n)] == pre[name_index(pre, n)] by {
        lemma_same_names_index(pre, post, n);
        let w = choose|w: int| 0 <= w < pre.len() && (#[trigger] pre[w]).name@ == n;
        lemma_name_index_props(pre, n, w);
        assert(post[name_index(pre, n)] == pre[name_index(pre, n)]);
    }
}

/// The first index with a given name only depends on the sequence of
/// names.
proof fn lemma_same_names_index(a: Seq<Project>, b: Seq<Project>, n: Seq<char>)
    requires
        a.len() == b.len(),
        forall|j: int| 0 <= j < a.len() ==> (#[trigger] a[j]).name@ == b[j].name@,
    ensures
        name_index(a, n) == name_index(b, n),
        has_name(a, n) <==> has_name(b, n),
    decreases a.len(),
{
    if a.len() > 0 {
        assert(forall|j: int|
            0 <= j < a.skip(1).len() ==> (#[trigger] a.skip(1)[j]).name@ == b.skip(1)[j].name@);
        lemma_same_names_index(a.skip(1), b.skip(1), n);
    }
    if has_name(a, n) {
        let w = choose|w: int| 0 <= w < a.len() && (#[trigger] a[w]).name@ == n;
        assert(b[w].name@ == n);
        assert(has_name(b, n));
    }
    if has_name(b, n) {
        let w = choose|w: int| 0 <= w < b.len() && (#[trigger] b[w]).name@ == n;
        assert(a[w].name@ == n);
        assert(has_name(a, n));
    }
}

/// Basic facts about `name_index` when the name occurs.
proof fn lemma_name_index_props(s: Seq<Project>, n: Seq<char>, w: int)
    requires
        0 <= w < s.len(),
        s[w].name@ == n,
    ensures
        0 <= name_index(s, n) < s.len(),
        s[name_index(s, n)].name@ == n,
    decreases s.len(),
{
    if s[0].name@ == n {
    } else {
        assert(s.skip(1)[w - 1].name@ == n);
        lemma_name_index_props(s.skip(1), n, w - 1);
    }
}

/// Appending a record with a fresh name keeps earlier lookups unchanged.
proof fn lemma_same_prefix_index(pre: Seq<Project>, post: Seq<Project>, n: Seq<char>)
    requires
        post.len() == pre.len() + 1,
        forall|j: int| 0 <= j < pre.len() ==> post[j] == pre[j],
        has_name(pre, n),
    ensures
        has_name(post, n),
        name_index(post, n) == name_index(pre, n),
        post[name_index(post, n)] == pre[name_index(pre, n)],
    decreases pre.len(),
{
    let w = choose|w: int| 0 <= w < pre.len() && (#[trigger] pre[w]).name@ == n;
    lemma_name_index_props(pre, n, w);
    if pre[0].name@ == n {
    } else {
        assert(forall|j: int| 0 <= j < pre.skip(1).len() ==> post.skip(1)[j] == pre.skip(1)[j]);
        assert(pre.skip(1)[w - 1].name@ == n);
        lemma_same_prefix_index(pre.skip(1), post.skip(1), n);
    }
}

} // verus!
