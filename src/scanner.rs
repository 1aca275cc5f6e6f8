//! Recognising repository markers while walking a directory tree, and the
//! deduplicated set of repositories found.
use vstd::prelude::*;

verus! {

/// Name of the native-format marker directory.
pub open spec fn native_marker() -> Seq<char> {
    seq!['.', 'g', 'i', 't']
}

/// Name of the log-subprocess marker directory.
pub open spec fn log_marker() -> Seq<char> {
    seq!['.', 'j', 'j']
}

/// Directory names whose subtrees are never searched.
pub open spec fn excluded_name(name: Seq<char>) -> bool {
    name == seq!['n', 'o', 'd', 'e', '_', 'm', 'o', 'd', 'u', 'l', 'e', 's'] || name == seq![
        'v',
        'e',
        'n',
        'd',
        'o',
        'r',
    ]
}

/// Whether an entry, given by its path components below the scan root,
/// lies outside every excluded directory.
pub open spec fn reachable(rel: Seq<Seq<char>>) -> bool {
    forall|i: int| 0 <= i < rel.len() ==> !excluded_name(#[trigger] rel[i])
}

/// Whether an entry names a repository: it is a reachable directory that
/// is named like a marker.
pub open spec fn marks_repository(rel: Seq<Seq<char>>, is_dir: bool) -> bool {
    &&& rel.len() > 0
    &&& reachable(rel)
    &&& is_dir
    &&& (rel.last() == native_marker() || rel.last() == log_marker())
}

/// A set of paths with `path` in it.
pub open spec fn with_path(s: Seq<Seq<char>>, path: Seq<char>) -> Seq<Seq<char>> {
    if s.contains(path) {
        s
    } else {
        s.push(path)
    }
}

/// The set after the walk has met an entry whose parent is `parent`.
pub open spec fn after_entry(
    s: Seq<Seq<char>>,
    rel: Seq<Seq<char>>,
    is_dir: bool,
    parent: Seq<char>,
) -> Seq<Seq<char>> {
    if marks_repository(rel, is_dir) {
        with_path(s, parent)
    } else {
        s
    }
}

/// Whether two texts are equal.
pub(crate) fn same_text(a: &str, b: &str) -> (r: bool)
    ensures
        r == (a@ == b@),
{
    a.to_owned() == b.to_owned()
}

/// Whether a directory of this name is left out of the walk, with all
/// below it.
pub fn is_ignored(name: &str) -> (r: bool)
    ensures
        r == excluded_name(name@),
{
    proof {
        reveal_strlit("node_modules");
        reveal_strlit("vendor");
        assert("node_modules"@ =~= seq!['n', 'o', 'd', 'e', '_', 'm', 'o', 'd', 'u', 'l', 'e', 's']);
        assert("vendor"@ =~= seq!['v', 'e', 'n', 'd', 'o', 'r']);
    }
    same_text(name, "node_modules") || same_text(name, "vendor")
}

/// Whether an entry of this name and file type marks its parent as a
/// repository.
pub fn is_repo_marker(name: &str, is_dir: bool) -> (r: bool)
    ensures
        r == (is_dir && (name@ == native_marker() || name@ == log_marker())),
{
    proof {
        reveal_strlit(".git");
        reveal_strlit(".jj");
        assert(".git"@ =~= native_marker());
        assert(".jj"@ =~= log_marker());
    }
    is_dir && (same_text(name, ".git") || same_text(name, ".jj"))
}

/// Which history backend serves a repository.
#[derive(Clone, Copy, Debug, PartialEq, Eq, Structural)]
pub enum RepoKind {
    NativeFormat,
    LogSubprocess,
}

/// The backend for a repository, from which markers it has: the native
/// format wins where both are present.
pub fn repo_kind(has_native_marker: bool, has_log_marker: bool) -> (r: Option<RepoKind>)
    ensures
        r == (if has_native_marker {
            Some(RepoKind::NativeFormat)
        } else if has_log_marker {
            Some(RepoKind::LogSubprocess)
        } else {
            None
        }),
{
    if has_native_marker {
        Some(RepoKind::NativeFormat)
    } else if has_log_marker {
        Some(RepoKind::LogSubprocess)
    } else {
        None
    }
}

/// The texts of a list of strings.
pub open spec fn texts(v: Seq<String>) -> Seq<Seq<char>> {
    v.map_values(|s: String| s@)
}

/// Repository paths found so far, each once.
pub struct DiscoveredSet {
    repos: Vec<String>,
}

impl View for DiscoveredSet {
    type V = Seq<Seq<char>>;

    closed spec fn view(&self) -> Seq<Seq<char>> {
        texts(self.repos@)
    }
}

impl DiscoveredSet {
    /// No path occurs twice.
    pub open spec fn wf(&self) -> bool {
        self@.no_duplicates()
    }

    /// The empty set.
    pub fn new() -> (r: DiscoveredSet)
        ensures
            r.wf(),
            r@ == Seq::<Seq<char>>::empty(),
    {
        let r = DiscoveredSet { repos: Vec::new() };
        proof {
            assert(r@ =~= Seq::<Seq<char>>::empty());
        }
        r
    }

    /// The number of paths.
    pub fn len(&self) -> (r: usize)
        ensures
            r == self@.len(),
    {
        self.repos.len()
    }

    /// Whether `path` is in the set.
    pub fn contains(&self, path: &str) -> (r: bool)
        ensures
            r == self@.contains(path@),
    {
        let mut i: usize = 0;
        while i < self.repos.len()
            invariant
                i <= self.repos.len(),
                forall|k: int| 0 <= k < i ==> self@[k] != path@,
            decreases self.repos.len() - i,
        {
            if same_text(self.repos[i].as_str(), path) {
                proof {
                    assert(self@[i as int] == path@);
                }
                return true;
            }
            i = i + 1;
        }
        false
    }

    /// Adds `path` unless it is there already; says whether it was added.
    pub fn insert(&mut self, path: String) -> (r: bool)
        requires
            old(self).wf(),
        ensures
            final(self).wf(),
            final(self)@ == with_path(old(self)@, path@),
            r == !old(self)@.contains(path@),
    {
        if self.contains(path.as_str()) {
            false
        } else {
            let ghost before = self@;
            let ghost p = path@;
            self.repos.push(path);
            proof {
                assert(self@ =~= before.push(p));
            }
            true
        }
    }

    /// Takes in one entry of the walk, given by its path components below
    /// the scan root, whether it is a directory, and its parent's path:
    /// where it marks a repository, the parent is added. Says whether the
    /// set grew.
    pub fn record_entry(&mut self, rel: &Vec<String>, is_dir: bool, parent: String) -> (r: bool)
        requires
            old(self).wf(),
        ensures
            final(self).wf(),
            final(self)@ == after_entry(old(self)@, texts(rel@), is_dir, parent@),
            r == (final(self)@ != old(self)@),
    {
        let n = rel.len();
        if n == 0 || !is_repo_marker(rel[n - 1].as_str(), is_dir) {
            return false;
        }
        let mut i: usize = 0;
        while i < n
            invariant
                n == rel@.len(),
                i <= n,
                self.wf(),
                forall|k: int| 0 <= k < i ==> !excluded_name(#[trigger] texts(rel@)[k]),
            decreases n - i,
        {
            if is_ignored(rel[i].as_str()) {
                proof {
                    assert(excluded_name(texts(rel@)[i as int]));
                }
                return false;
            }
            i = i + 1;
        }
        proof {
            assert(texts(rel@).last() == rel@[n - 1]@);
        }
        let ghost before = self@;
        let added = self.insert(parent);
        proof {
            if !added {
                assert(self@ == before);
            } else {
                assert(self@.len() == before.len() + 1);
            }
        }
        added
    }

    /// A copy of the paths, each once.
    pub fn paths(&self) -> (r: Vec<String>)
        ensures
            texts(r@) == self@,
    {
        let mut out: Vec<String> = Vec::new();
        let mut i: usize = 0;
        while i < self.repos.len()
            invariant
                i <= self.repos.len(),
                texts(out@) == texts(self.repos@).take(i as int),
            decreases self.repos.len() - i,
        {
            let item = self.repos[i].clone();
            let ghost before = out@;
            out.push(item);
            proof {
                assert(out@ == before.push(item));
                assert(texts(before).len() == i);
                assert(item@ == self.repos@[i as int]@);
                assert(texts(out@) =~= texts(before).push(item@));
                assert(texts(out@) =~= texts(self.repos@).take(i as int + 1));
            }
            i = i + 1;
        }
        proof {
            assert(texts(self.repos@).take(i as int) =~= texts(self.repos@));
        }
        out
    }

    /// The paths, each once.
    pub fn into_paths(self) -> (r: Vec<String>)
        ensures
            texts(r@) == self@,
    {
        self.repos
    }

    /// The set of the distinct paths of a list.
    pub fn from_paths(paths: Vec<String>) -> (r: DiscoveredSet)
        ensures
            r.wf(),
            forall|p: Seq<char>| r@.contains(p) <==> texts(paths@).contains(p),
    {
        let mut set = DiscoveredSet::new();
        let mut i: usize = 0;
        while i < paths.len()
            invariant
                i <= paths.len(),
                set.wf(),
                forall|p: Seq<char>| set@.contains(p) <==> texts(paths@).take(i as int).contains(p),
            decreases paths.len() - i,
        {
            let ghost before = set@;
            let item = paths[i].clone();
            proof {
                assert(item@ == texts(paths@)[i as int]);
            }
            set.insert(item);
            proof {
                assert forall|p: Seq<char>| set@.contains(p) <==> (before.contains(p) || p
                    == texts(paths@)[i as int]) by {
                    if !before.contains(texts(paths@)[i as int]) {
                        assert(before.push(texts(paths@)[i as int])[before.len() as int]
                            == texts(paths@)[i as int]);
                        if before.contains(p) {
                            let k = choose|k: int| 0 <= k < before.len() && #[trigger] before[k] == p;
                            assert(set@[k] == p);
                        }
                    }
                }
                let t = texts(paths@);
                assert(t.take(i as int + 1) =~= t.take(i as int).push(t[i as int]));
                assert forall|p: Seq<char>| t.take(i as int + 1).contains(p) <==> (t.take(
                    i as int,
                ).contains(p) || p == t[i as int]) by {
                    if t.take(i as int + 1).contains(p) {
                        let k = choose|k: int| 0 <= k < i + 1 && #[trigger] t.take(i as int + 1)[k] == p;
                        if k < i {
                            assert(t.take(i as int)[k] == p);
                        }
                    }
                    if t.take(i as int).contains(p) {
                        let k = choose|k: int| 0 <= k < i && #[trigger] t.take(i as int)[k] == p;
                        assert(t.take(i as int + 1)[k] == p);
                    }
                    if p == t[i as int] {
                        assert(t.take(i as int + 1)[i as int] == p);
                    }
                }
                assert forall|p: Seq<char>| set@.contains(p) <==> t.take(i as int + 1).contains(
                    p,
                ) by {
                    assert(before.contains(p) <==> t.take(i as int).contains(p));
                }
            }
            i = i + 1;
        }
        proof {
            assert(texts(paths@).take(i as int) =~= texts(paths@));
        }
        set
    }
}

/// A directory that holds a native-format marker is found, and is all
/// that is found.
pub proof fn lemma_marker_detection(rel: Seq<Seq<char>>, parent: Seq<char>)
    requires
        rel.len() > 0,
        reachable(rel),
        rel.last() == native_marker(),
    ensures
        after_entry(Seq::empty(), rel, true, parent) == seq![parent],
{
    assert(Seq::<Seq<char>>::empty().push(parent) =~= seq![parent]);
}

/// A directory that holds both markers is found once, in whichever order
/// the walk meets them.
pub proof fn lemma_both_markers_once(
    s: Seq<Seq<char>>,
    rel_native: Seq<Seq<char>>,
    rel_log: Seq<Seq<char>>,
    parent: Seq<char>,
)
    requires
        rel_native.len() > 0,
        reachable(rel_native),
        rel_native.last() == native_marker(),
        rel_log.len() > 0,
        reachable(rel_log),
        rel_log.last() == log_marker(),
    ensures
        after_entry(after_entry(s, rel_native, true, parent), rel_log, true, parent) == with_path(
            s,
            parent,
        ),
        after_entry(after_entry(s, rel_log, true, parent), rel_native, true, parent) == with_path(
            s,
            parent,
        ),
{
    if !s.contains(parent) {
        assert(s.push(parent)[s.len() as int] == parent);
        assert(s.push(parent).contains(parent));
    }
}

/// An entry below an excluded directory never adds a repository, whatever
/// its name.
pub proof fn lemma_excluded_never_found(
    s: Seq<Seq<char>>,
    rel: Seq<Seq<char>>,
    is_dir: bool,
    parent: Seq<char>,
    i: int,
)
    requires
        0 <= i < rel.len(),
        excluded_name(rel[i]),
    ensures
        after_entry(s, rel, is_dir, parent) == s,
{
}

} // verus!
