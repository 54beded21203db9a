//! The normalized, read-only view of an opened EPUB package: its resource
//! table, its reading order and its table of contents.

use vstd::prelude::*;
use vstd::string::StringExecFns;

use crate::lookup::{first_index, lemma_first_index_absent, lemma_first_index_found};
use crate::text::str_eq;

verus! {

/// One entry of a table of contents, with the entries nested below it.
pub struct NavPoint {
    /// The title shown for this entry.
    pub label: String,
    /// Where the entry points: a path inside the archive, with an optional
    /// fragment.
    pub content: String,
    /// The entries nested below this one, in source order.
    pub children: Vec<NavPoint>,
}

/// The mathematical value of a [`NavPoint`].
pub ghost struct NavView {
    pub label: Seq<char>,
    pub content: Seq<char>,
    pub children: Seq<NavView>,
}

/// The value of a nav point: its texts, and the values of its children.
pub open spec fn nav_view(nav: NavPoint) -> NavView
    decreases nav,
{
    NavView {
        label: nav.label@,
        content: nav.content@,
        children: Seq::new(
            nav.children@.len(),
            |i: int|
                if 0 <= i < nav.children@.len() {
                    nav_view(nav.children@[i])
                } else {
                    arbitrary()
                },
        ),
    }
}

impl View for NavPoint {
    type V = NavView;

    open spec fn view(&self) -> NavView {
        nav_view(*self)
    }
}

/// The values of a forest of nav points, in order.
pub open spec fn forest_view(forest: Seq<NavPoint>) -> Seq<NavView> {
    Seq::new(forest.len(), |i: int| forest[i]@)
}

/// One file of the package, as its manifest declares it.
pub struct Resource {
    /// The identifier, unique within the archive.
    pub id: String,
    /// The path of the file, relative to the archive's root.
    pub path: String,
    /// The declared media type, if any.
    pub mime: Option<String>,
}

/// The mathematical value of a [`Resource`].
pub ghost struct ResourceView {
    pub id: Seq<char>,
    pub path: Seq<char>,
    pub mime: Option<Seq<char>>,
}

impl View for Resource {
    type V = ResourceView;

    open spec fn view(&self) -> ResourceView {
        ResourceView {
            id: self.id@,
            path: self.path@,
            mime: match self.mime {
                Some(m) => Some(m@),
                None => None,
            },
        }
    }
}

/// The mathematical value of an [`ArchiveHandle`].
pub ghost struct ArchiveView {
    pub resources: Seq<ResourceView>,
    pub spine: Seq<Seq<char>>,
    pub toc: Seq<NavView>,
}

impl ArchiveView {
    /// The identifiers of the resources, in table order.
    pub open spec fn ids(self) -> Seq<Seq<char>> {
        Seq::new(self.resources.len(), |i: int| self.resources[i].id)
    }

    /// The paths of the resources, in table order.
    pub open spec fn paths(self) -> Seq<Seq<char>> {
        Seq::new(self.resources.len(), |i: int| self.resources[i].path)
    }

    /// No identifier names two resources.
    pub open spec fn ids_unique(self) -> bool {
        forall|i: int, j: int|
            0 <= i < j < self.resources.len() ==> self.resources[i].id != self.resources[j].id
    }

    /// Every entry of the spine names a resource.
    pub open spec fn spine_resolves(self) -> bool {
        forall|k: int|
            0 <= k < self.spine.len() ==> first_index(self.ids(), #[trigger] self.spine[k])
                is Some
    }

    /// The archive is well formed.
    pub open spec fn wf(self) -> bool {
        self.ids_unique() && self.spine_resolves()
    }

    /// The path of the resource that the spine names at position `k`; `None`
    /// where there is no such position or the entry names no resource.
    pub open spec fn spine_path(self, k: int) -> Option<Seq<char>> {
        if 0 <= k < self.spine.len() {
            match first_index(self.ids(), self.spine[k]) {
                Some(r) => Some(self.resources[r].path),
                None => None,
            }
        } else {
            None
        }
    }

    /// The position in the spine of the resource stored at `path`: the first
    /// place where the spine names the first resource with that path.
    pub open spec fn spine_index_of_path(self, path: Seq<char>) -> Option<int> {
        match first_index(self.paths(), path) {
            Some(r) => first_index(self.spine, self.resources[r].id),
            None => None,
        }
    }

    /// The declared media type of the first resource stored at `path`.
    pub open spec fn declared_mime(self, path: Seq<char>) -> Option<Seq<char>> {
        match first_index(self.paths(), path) {
            Some(r) => self.resources[r].mime,
            None => None,
        }
    }
}

/// Why an archive could not be opened.
pub enum ArchiveFault {
    /// The package could not be read or parsed; the text says why.
    Unreadable(String),
    /// Two resources of the manifest share this identifier.
    DuplicateResourceId(String),
    /// The spine names this identifier, which the manifest does not declare.
    UnresolvedSpineRef(String),
}

/// An archive that is unreadable or malformed.
pub struct ArchiveOpenError {
    /// The path of the archive.
    pub path: String,
    /// What is wrong with it.
    pub fault: ArchiveFault,
}

impl ArchiveFault {
    /// The text that describes the fault.
    pub open spec fn spec_text(&self) -> Seq<char> {
        match self {
            ArchiveFault::Unreadable(cause) => cause@,
            ArchiveFault::DuplicateResourceId(id) => "duplicate resource id "@ + id@,
            ArchiveFault::UnresolvedSpineRef(id) => "spine names unknown resource "@ + id@,
        }
    }

    /// The text that describes the fault.
    pub fn text(&self) -> (text: String)
        ensures
            text@ == self.spec_text(),
    {
        match self {
            ArchiveFault::Unreadable(cause) => cause.clone(),
            ArchiveFault::DuplicateResourceId(id) => {
                let mut text = String::from_str("duplicate resource id ");
                text.append(id.as_str());
                text
            },
            ArchiveFault::UnresolvedSpineRef(id) => {
                let mut text = String::from_str("spine names unknown resource ");
                text.append(id.as_str());
                text
            },
        }
    }
}

impl ArchiveOpenError {
    /// The diagnostic text sent to the client.
    pub open spec fn spec_message(&self) -> Seq<char> {
        "Reading/Parsing epub ["@ + self.path@ + "] failed: "@ + self.fault.spec_text()
    }

    /// The diagnostic text sent to the client.
    pub fn message(&self) -> (text: String)
        ensures
            text@ == self.spec_message(),
    {
        let mut text = String::from_str("Reading/Parsing epub [");
        text.append(self.path.as_str());
        text.append("] failed: ");
        let fault = self.fault.text();
        text.append(fault.as_str());
        text
    }
}

/// An opened archive. It is built once, never changed, and dropped when the
/// request that opened it is done.
pub struct ArchiveHandle {
    /// The manifest's resources.
    pub resources: Vec<Resource>,
    /// The identifiers of the resources that make up the linear reading
    /// order.
    pub spine: Vec<String>,
    /// The table of contents, as a forest.
    pub toc: Vec<NavPoint>,
}

impl View for ArchiveHandle {
    type V = ArchiveView;

    open spec fn view(&self) -> ArchiveView {
        ArchiveView {
            resources: Seq::new(self.resources@.len(), |i: int| self.resources@[i]@),
            spine: Seq::new(self.spine@.len(), |i: int| self.spine@[i]@),
            toc: forest_view(self.toc@),
        }
    }
}

/// The first position `j` at which `ids` repeats an earlier identifier.
pub open spec fn first_repeat(ids: Seq<Seq<char>>, j: int) -> bool {
    &&& 0 <= j < ids.len()
    &&& exists|i: int| 0 <= i < j && ids[i] == ids[j]
    &&& forall|b: int, a: int| 0 <= a < b < j ==> ids[a] != ids[b]
}

/// The first position `k` at which `spine` names an identifier that `ids`
/// does not hold.
pub open spec fn first_unresolved(spine: Seq<Seq<char>>, ids: Seq<Seq<char>>, k: int) -> bool {
    &&& 0 <= k < spine.len()
    &&& first_index(ids, spine[k]) is None
    &&& forall|m: int| 0 <= m < k ==> first_index(ids, #[trigger] spine[m]) is Some
}

impl ArchiveHandle {
    /// The archive is well formed: identifiers are unique and the spine
    /// names only declared resources.
    pub open spec fn wf(&self) -> bool {
        self@.wf()
    }

    /// Builds the handle for the archive at `path` from what its reader
    /// found, after checking that the package is well formed. It fails on
    /// the first identifier that the manifest declares twice and, where there
    /// is none, on the first entry of the spine that names no resource.
    pub fn new(path: &str, resources: Vec<Resource>, spine: Vec<String>, toc: Vec<NavPoint>) -> (out:
        Result<ArchiveHandle, ArchiveOpenError>)
        ensures
            out is Ok <==> (ArchiveHandle { resources, spine, toc }).wf(),
            match out {
                Ok(h) => h.resources == resources && h.spine == spine && h.toc == toc,
                Err(e) => {
                    let v = (ArchiveHandle { resources, spine, toc })@;
                    &&& e.path@ == path@
                    &&& match e.fault {
                        ArchiveFault::DuplicateResourceId(id) => exists|j: int|
                            first_repeat(v.ids(), j) && id@ == v.ids()[j],
                        ArchiveFault::UnresolvedSpineRef(id) => v.ids_unique() && exists|k: int|
                            first_unresolved(v.spine, v.ids(), k) && id@ == v.spine[k],
                        ArchiveFault::Unreadable(_) => false,
                    }
                },
            },
    {
        let handle = ArchiveHandle { resources, spine, toc };
        let ghost v = handle@;
        let n = handle.resources.len();
        let mut j: usize = 0;
        while j < n
            invariant
                j <= n,
                n == handle.resources@.len(),
                v == handle@,
                handle == (ArchiveHandle { resources, spine, toc }),
                forall|b: int, a: int| 0 <= a < b < j ==> v.ids()[a] != v.ids()[b],
            decreases n - j,
        {
            let mut i: usize = 0;
            while i < j
                invariant
                    i <= j,
                    j < n,
                    n == handle.resources@.len(),
                    v == handle@,
                    handle == (ArchiveHandle { resources, spine, toc }),
                    forall|b: int, a: int| 0 <= a < b < j ==> v.ids()[a] != v.ids()[b],
                    forall|a: int| 0 <= a < i ==> v.ids()[a] != v.ids()[j as int],
                decreases j - i,
            {
                if str_eq(handle.resources[i].id.as_str(), handle.resources[j].id.as_str()) {
                    let id = handle.resources[j].id.clone();
                    proof {
                        assert(v.ids()[i as int] == v.ids()[j as int]);
                        assert(first_repeat(v.ids(), j as int));
                        assert(v.resources[i as int].id == v.resources[j as int].id);
                    }
                    return Err(
                        ArchiveOpenError {
                            path: String::from_str(path),
                            fault: ArchiveFault::DuplicateResourceId(id),
                        },
                    );
                }
                i += 1;
            }
            j += 1;
        }
        proof {
            assert forall|a: int, b: int| 0 <= a < b < v.resources.len() implies v.resources[a].id
                != v.resources[b].id by {
                assert(v.ids()[a] != v.ids()[b]);
            }
        }
        let m = handle.spine.len();
        let mut k: usize = 0;
        while k < m
            invariant
                k <= m,
                m == handle.spine@.len(),
                v == handle@,
                handle == (ArchiveHandle { resources, spine, toc }),
                v.ids_unique(),
                forall|q: int| 0 <= q < k ==> first_index(v.ids(), #[trigger] v.spine[q]) is Some,
            decreases m - k,
        {
            if handle.find_by_id(handle.spine[k].as_str()).is_none() {
                let id = handle.spine[k].clone();
                proof {
                    assert(first_unresolved(v.spine, v.ids(), k as int));
                }
                return Err(
                    ArchiveOpenError {
                        path: String::from_str(path),
                        fault: ArchiveFault::UnresolvedSpineRef(id),
                    },
                );
            }
            k += 1;
        }
        Ok(handle)
    }

    /// The index of the first resource with identifier `id`.
    pub fn find_by_id(&self, id: &str) -> (found: Option<usize>)
        ensures
            match found {
                Some(i) => first_index(self@.ids(), id@) == Some(i as int) && i < self.resources@.len(),
                None => first_index(self@.ids(), id@) is None,
            },
    {
        let mut i: usize = 0;
        while i < self.resources.len()
            invariant
                i <= self.resources@.len(),
                forall|j: int| 0 <= j < i ==> self@.ids()[j] != id@,
            decreases self.resources@.len() - i,
        {
            if str_eq(self.resources[i].id.as_str(), id) {
                proof {
                    lemma_first_index_found(self@.ids(), id@, i as int);
                }
                return Some(i);
            }
            i += 1;
        }
        proof {
            lemma_first_index_absent(self@.ids(), id@);
        }
        None
    }

    /// The index of the first resource stored at `path`.
    pub fn find_by_path(&self, path: &str) -> (found: Option<usize>)
        ensures
            match found {
                Some(i) => first_index(self@.paths(), path@) == Some(i as int) && i < self.resources@.len(),
                None => first_index(self@.paths(), path@) is None,
            },
    {
        let mut i: usize = 0;
        while i < self.resources.len()
            invariant
                i <= self.resources@.len(),
                forall|j: int| 0 <= j < i ==> self@.paths()[j] != path@,
            decreases self.resources@.len() - i,
        {
            if str_eq(self.resources[i].path.as_str(), path) {
                proof {
                    lemma_first_index_found(self@.paths(), path@, i as int);
                }
                return Some(i);
            }
            i += 1;
        }
        proof {
            lemma_first_index_absent(self@.paths(), path@);
        }
        None
    }

    /// The first position at which the spine names `id`.
    pub fn spine_position(&self, id: &str) -> (found: Option<usize>)
        ensures
            match found {
                Some(i) => first_index(self@.spine, id@) == Some(i as int) && i < self.spine@.len(),
                None => first_index(self@.spine, id@) is None,
            },
    {
        let mut i: usize = 0;
        while i < self.spine.len()
            invariant
                i <= self.spine@.len(),
                forall|j: int| 0 <= j < i ==> self@.spine[j] != id@,
            decreases self.spine@.len() - i,
        {
            if str_eq(self.spine[i].as_str(), id) {
                proof {
                    lemma_first_index_found(self@.spine, id@, i as int);
                }
                return Some(i);
            }
            i += 1;
        }
        proof {
            lemma_first_index_absent(self@.spine, id@);
        }
        None
    }

    /// The path of the resource that the spine names at position `k`; `None`
    /// where there is no such position or the entry names no resource.
    pub fn spine_path(&self, k: usize) -> (path: Option<&String>)
        ensures
            match self@.spine_path(k as int) {
                Some(p) => path is Some && path->Some_0@ == p,
                None => path is None,
            },
    {
        if k >= self.spine.len() {
            return None;
        }
        assert(self@.spine[k as int] == self.spine@[k as int]@);
        match self.find_by_id(self.spine[k].as_str()) {
            Some(r) => {
                assert(self@.resources[r as int] == self.resources@[r as int]@);
                Some(&self.resources[r].path)
            },
            None => None,
        }
    }
}

/// In a well-formed archive every position of the spine has a path.
pub proof fn lemma_spine_path_resolves(a: ArchiveView, k: int)
    requires
        a.wf(),
        0 <= k < a.spine.len(),
    ensures
        a.spine_path(k) is Some,
{
    assert(first_index(a.ids(), a.spine[k]) is Some);
}

/// The path that the spine names at a position is the path of a resource
/// of the table.
pub proof fn lemma_spine_path_is_listed(a: ArchiveView, k: int)
    requires
        a.spine_path(k) is Some,
    ensures
        first_index(a.paths(), a.spine_path(k)->Some_0) is Some,
{
    let path = a.spine_path(k)->Some_0;
    crate::lookup::lemma_first_index_is_first(a.ids(), a.spine[k]);
    let r = first_index(a.ids(), a.spine[k])->Some_0;
    assert(a.paths()[r] == path);
    crate::lookup::lemma_first_index_is_first(a.paths(), path);
}

} // verus!
