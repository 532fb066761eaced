use vstd::prelude::*;

verus! {

/// Metadata recorded for one regular file: its size in bytes and its
/// modification time, truncated to whole seconds since the Unix epoch.
#[derive(Clone, Copy, Debug, PartialEq, Eq, Structural)]
pub struct FileState {
    pub modified: u64,
    pub size: u64,
}

/// A point-in-time snapshot of one directory level: the files and the
/// subdirectory snapshots it holds, each keyed by entry name.
pub struct DirState {
    files: Vec<(String, FileState)>,
    subdirs: Vec<(String, DirState)>,
}

/// The mathematical model of a snapshot: finite maps from entry names to
/// file records and to subtree models.
#[verifier::ext_equal]
pub struct TreeView {
    pub files: Map<Seq<char>, FileState>,
    pub subdirs: Map<Seq<char>, TreeView>,
}

/// The map from file names to file records described by an association list.
/// A later entry with the same name would shadow an earlier one; well-formed
/// snapshots never hold two entries with one name.
pub open spec fn files_map_of(s: Seq<(String, FileState)>) -> Map<Seq<char>, FileState>
    decreases s.len(),
{
    if s.len() == 0 {
        Map::empty()
    } else {
        files_map_of(s.drop_last()).insert(s.last().0@, s.last().1)
    }
}

/// The map from subdirectory names to subtree models described by an
/// association list of subdirectory snapshots.
pub open spec fn subdirs_map_of(s: Seq<(String, DirState)>) -> Map<Seq<char>, TreeView>
    decreases s,
{
    if s.len() == 0 {
        Map::empty()
    } else {
        subdirs_map_of(s.drop_last()).insert(s.last().0@, view_of(s.last().1))
    }
}

/// The model of a snapshot.
pub closed spec fn view_of(d: DirState) -> TreeView
    decreases d,
{
    TreeView { files: files_map_of(d.files@), subdirs: subdirs_map_of(d.subdirs@) }
}

impl View for DirState {
    type V = TreeView;

    closed spec fn view(&self) -> TreeView {
        view_of(*self)
    }
}

impl TreeView {
    /// The model of a snapshot of a directory with no entries at all.
    pub open spec fn empty() -> TreeView {
        TreeView { files: Map::empty(), subdirs: Map::empty() }
    }

    /// A tree is empty when its top level holds no files and no
    /// subdirectories; a tree whose only entries are empty subdirectories
    /// is not empty.
    pub open spec fn is_empty(self) -> bool {
        self.files.dom() == Set::<Seq<char>>::empty() && self.subdirs.dom() == Set::<
            Seq<char>,
        >::empty()
    }
}

/// Deep structural equality of two trees: the same file names with the same
/// records, the same subdirectory names, and recursively equal subtrees.
pub open spec fn equal_contents(a: TreeView, b: TreeView) -> bool
    decreases a,
{
    &&& a.files == b.files
    &&& a.subdirs.dom() == b.subdirs.dom()
    &&& forall|n: Seq<char>|
        #[trigger] a.subdirs.dom().contains(n) ==> equal_contents(a.subdirs[n], b.subdirs[n])
}

/// Some file present in both trees, at any depth, has a strictly greater
/// modification time in `a` than in `b`. Files present on one side only
/// contribute no evidence.
pub open spec fn any_newer(a: TreeView, b: TreeView) -> bool
    decreases a,
{
    ||| exists|n: Seq<char>|
        #![trigger a.files.dom().contains(n)]
        {
            &&& a.files.dom().contains(n)
            &&& b.files.dom().contains(n)
            &&& a.files[n].modified > b.files[n].modified
        }
    ||| exists|n: Seq<char>|
        #![trigger a.subdirs.dom().contains(n)]
        {
            &&& a.subdirs.dom().contains(n)
            &&& b.subdirs.dom().contains(n)
            &&& any_newer(a.subdirs[n], b.subdirs[n])
        }
}

/// The mirror of `any_newer`: some file present in both trees has a strictly
/// smaller modification time in `a` than in `b`.
pub open spec fn any_older(a: TreeView, b: TreeView) -> bool {
    any_newer(b, a)
}

/// Tree `a` counts as generally newer than tree `b` when three things hold
/// at once: `a` is not empty, no shared file is older on `a`'s side, and at
/// least one shared file is strictly newer there. An empty tree never counts
/// as generally newer, whatever stands on the other side.
pub open spec fn generally_newer(a: TreeView, b: TreeView) -> bool {
    &&& !a.is_empty()
    &&& !any_older(a, b)
    &&& any_newer(a, b)
}

/// The state of a destination tree after the contents of snapshot `s` are
/// copied into it: every file of `s` overwrites or joins the destination's
/// files, every subdirectory of `s` is recursively copied into the matching
/// destination subdirectory (or into a fresh empty one), and destination
/// entries with no counterpart in `s` are left in place.
pub open spec fn copy_effect(s: TreeView, d: TreeView) -> TreeView
    decreases s,
{
    TreeView {
        files: d.files.union_prefer_right(s.files),
        subdirs: Map::new(
            |n: Seq<char>| d.subdirs.dom().contains(n) || s.subdirs.dom().contains(n),
            |n: Seq<char>|
                if s.subdirs.dom().contains(n) {
                    copy_effect(
                        s.subdirs[n],
                        if d.subdirs.dom().contains(n) {
                            d.subdirs[n]
                        } else {
                            TreeView::empty()
                        },
                    )
                } else {
                    d.subdirs[n]
                },
        ),
    }
}

/// The state of a destination tree after entries extraneous to snapshot `s`
/// are removed from it: destination files whose name `s` does not record are
/// deleted, destination subdirectories unknown to `s` are deleted whole, and
/// the shared subdirectories are pruned recursively.
pub open spec fn prune_effect(s: TreeView, d: TreeView) -> TreeView
    decreases d,
{
    TreeView {
        files: d.files.restrict(s.files.dom()),
        subdirs: Map::new(
            |n: Seq<char>| d.subdirs.dom().contains(n) && s.subdirs.dom().contains(n),
            |n: Seq<char>|
                if d.subdirs.dom().contains(n) && s.subdirs.dom().contains(n) {
                    prune_effect(s.subdirs[n], d.subdirs[n])
                } else {
                    TreeView::empty()
                },
        ),
    }
}

/// Structural equality is reflexive: every snapshot equals itself.
pub proof fn lemma_equal_contents_reflexive(s: TreeView)
    ensures
        equal_contents(s, s),
    decreases s,
{
    assert forall|n: Seq<char>| #[trigger] s.subdirs.dom().contains(n) implies equal_contents(
        s.subdirs[n],
        s.subdirs[n],
    ) by {
        lemma_equal_contents_reflexive(s.subdirs[n]);
    }
}

/// Structural equality is symmetric: comparing two snapshots in either order
/// gives the same verdict.
pub proof fn lemma_equal_contents_symmetric(a: TreeView, b: TreeView)
    ensures
        equal_contents(a, b) == equal_contents(b, a),
    decreases a,
{
    if equal_contents(a, b) {
        assert forall|n: Seq<char>| #[trigger] b.subdirs.dom().contains(n) implies equal_contents(
            b.subdirs[n],
            a.subdirs[n],
        ) by {
            assert(a.subdirs.dom().contains(n));
            lemma_equal_contents_symmetric(a.subdirs[n], b.subdirs[n]);
        }
        assert(equal_contents(b, a));
    }
    if equal_contents(b, a) {
        assert forall|n: Seq<char>| #[trigger] a.subdirs.dom().contains(n) implies equal_contents(
            a.subdirs[n],
            b.subdirs[n],
        ) by {
            assert(b.subdirs.dom().contains(n));
            lemma_equal_contents_symmetric(a.subdirs[n], b.subdirs[n]);
        }
        assert(equal_contents(a, b));
    }
}

/// An empty snapshot is never generally newer than anything, whatever the
/// other side holds.
pub proof fn lemma_empty_never_generally_newer(a: TreeView, b: TreeView)
    ensures
        a.is_empty() ==> !generally_newer(a, b),
{
}

/// Copying a snapshot into an empty destination and then removing the
/// entries extraneous to it leaves the destination structurally equal to the
/// snapshot.
pub proof fn lemma_copy_prune_round_trip(s: TreeView, d: TreeView)
    requires
        d.is_empty(),
    ensures
        equal_contents(prune_effect(s, copy_effect(s, d)), s),
    decreases s,
{
    let c = copy_effect(s, d);
    let p = prune_effect(s, c);
    assert(d.files =~= Map::empty());
    assert(c.files =~= s.files);
    assert(p.files =~= s.files);
    assert(c.subdirs.dom() =~= s.subdirs.dom());
    assert(p.subdirs.dom() =~= s.subdirs.dom());
    assert forall|n: Seq<char>| #[trigger] p.subdirs.dom().contains(n) implies equal_contents(
        p.subdirs[n],
        s.subdirs[n],
    ) by {
        assert(!d.subdirs.dom().contains(n));
        assert(c.subdirs[n] == copy_effect(s.subdirs[n], TreeView::empty()));
        assert(p.subdirs[n] == prune_effect(s.subdirs[n], c.subdirs[n]));
        lemma_copy_prune_round_trip(s.subdirs[n], TreeView::empty());
    }
}

/// Names of an association list of files are pairwise distinct.
pub open spec fn file_names_unique(s: Seq<(String, FileState)>) -> bool {
    forall|i: int, j: int| 0 <= i < j < s.len() ==> s[i].0@ != s[j].0@
}

/// Names of an association list of subdirectories are pairwise distinct.
pub open spec fn subdir_names_unique(s: Seq<(String, DirState)>) -> bool {
    forall|i: int, j: int| 0 <= i < j < s.len() ==> s[i].0@ != s[j].0@
}

proof fn lemma_files_map_dom(s: Seq<(String, FileState)>)
    ensures
        forall|k: Seq<char>|
            #[trigger] files_map_of(s).dom().contains(k) <==> exists|i: int|
                0 <= i < s.len() && (#[trigger] s[i]).0@ == k,
    decreases s.len(),
{
    if s.len() == 0 {
    } else {
        let t = s.drop_last();
        lemma_files_map_dom(t);
        assert forall|k: Seq<char>| #[trigger]
            files_map_of(s).dom().contains(k) implies exists|i: int|
            0 <= i < s.len() && (#[trigger] s[i]).0@ == k by {
            if k == s.last().0@ {
                assert(s[s.len() - 1].0@ == k);
            } else {
                assert(files_map_of(t).dom().contains(k));
                let i = choose|i: int| 0 <= i < t.len() && (#[trigger] t[i]).0@ == k;
                assert(s[i].0@ == k);
            }
        }
        assert forall|k: Seq<char>|
            (exists|i: int|
                0 <= i < s.len() && (#[trigger] s[i]).0@ == k) implies #[trigger] files_map_of(
            s,
        ).dom().contains(k) by {
            let i = choose|i: int| 0 <= i < s.len() && (#[trigger] s[i]).0@ == k;
            if i < s.len() - 1 {
                assert(t[i].0@ == k);
                assert(files_map_of(t).dom().contains(k));
            }
        }
    }
}

proof fn lemma_files_map_at(s: Seq<(String, FileState)>)
    requires
        file_names_unique(s),
    ensures
        forall|i: int|
            0 <= i < s.len() ==> files_map_of(s)[(#[trigger] s[i]).0@] == s[i].1,
    decreases s.len(),
{
    if s.len() == 0 {
    } else {
        let t = s.drop_last();
        assert(file_names_unique(t)) by {
            assert(forall|i: int, j: int|
                0 <= i < j < t.len() ==> t[i] == s[i] && t[j] == s[j]);
        }
        lemma_files_map_at(t);
        assert forall|i: int|
            0 <= i < s.len() implies files_map_of(s)[(#[trigger] s[i]).0@] == s[i].1 by {
            if i < s.len() - 1 {
                assert(s[i].0@ != s.last().0@);
                assert(t[i] == s[i]);
                assert(files_map_of(t)[s[i].0@] == s[i].1);
            }
        }
    }
}

proof fn lemma_subdirs_map_dom(s: Seq<(String, DirState)>)
    ensures
        forall|k: Seq<char>|
            #[trigger] subdirs_map_of(s).dom().contains(k) <==> exists|i: int|
                0 <= i < s.len() && (#[trigger] s[i]).0@ == k,
    decreases s.len(),
{
    if s.len() == 0 {
    } else {
        let t = s.drop_last();
        lemma_subdirs_map_dom(t);
        assert forall|k: Seq<char>| #[trigger]
            subdirs_map_of(s).dom().contains(k) implies exists|i: int|
            0 <= i < s.len() && (#[trigger] s[i]).0@ == k by {
            if k == s.last().0@ {
                assert(s[s.len() - 1].0@ == k);
            } else {
                assert(subdirs_map_of(t).dom().contains(k));
                let i = choose|i: int| 0 <= i < t.len() && (#[trigger] t[i]).0@ == k;
                assert(s[i].0@ == k);
            }
        }
        assert forall|k: Seq<char>|
            (exists|i: int|
                0 <= i < s.len() && (#[trigger] s[i]).0@ == k) implies #[trigger] subdirs_map_of(
            s,
        ).dom().contains(k) by {
            let i = choose|i: int| 0 <= i < s.len() && (#[trigger] s[i]).0@ == k;
            if i < s.len() - 1 {
                assert(t[i].0@ == k);
                assert(subdirs_map_of(t).dom().contains(k));
            }
        }
    }
}

proof fn lemma_subdirs_map_at(s: Seq<(String, DirState)>)
    requires
        subdir_names_unique(s),
    ensures
        forall|i: int|
            0 <= i < s.len() ==> subdirs_map_of(s)[(#[trigger] s[i]).0@] == view_of(s[i].1),
    decreases s.len(),
{
    if s.len() == 0 {
    } else {
        let t = s.drop_last();
        assert(subdir_names_unique(t)) by {
            assert(forall|i: int, j: int|
                0 <= i < j < t.len() ==> t[i] == s[i] && t[j] == s[j]);
        }
        lemma_subdirs_map_at(t);
        assert forall|i: int|
            0 <= i < s.len() implies subdirs_map_of(s)[(#[trigger] s[i]).0@] == view_of(
            s[i].1,
        ) by {
            if i < s.len() - 1 {
                assert(s[i].0@ != s.last().0@);
                assert(t[i] == s[i]);
                assert(subdirs_map_of(t)[s[i].0@] == view_of(s[i].1));
            }
        }
    }
}

proof fn lemma_files_map_congruence(s1: Seq<(String, FileState)>, s2: Seq<(String, FileState)>)
    requires
        s1.len() == s2.len(),
        forall|i: int|
            0 <= i < s1.len() ==> (#[trigger] s1[i]).0@ == s2[i].0@ && s1[i].1 == s2[i].1,
    ensures
        files_map_of(s1) == files_map_of(s2),
    decreases s1.len(),
{
    if s1.len() == 0 {
        assert(files_map_of(s1) =~= files_map_of(s2));
    } else {
        let t1 = s1.drop_last();
        let t2 = s2.drop_last();
        assert(forall|i: int|
            0 <= i < t1.len() ==> (#[trigger] t1[i]).0@ == t2[i].0@ && t1[i].1 == t2[i].1);
        lemma_files_map_congruence(t1, t2);
        assert(s1[s1.len() - 1].0@ == s2[s2.len() - 1].0@);
        assert(files_map_of(s1) =~= files_map_of(s2));
    }
}

proof fn lemma_subdirs_map_congruence(s1: Seq<(String, DirState)>, s2: Seq<(String, DirState)>)
    requires
        s1.len() == s2.len(),
        forall|i: int|
            0 <= i < s1.len() ==> (#[trigger] s1[i]).0@ == s2[i].0@ && view_of(s1[i].1)
                == view_of(s2[i].1),
    ensures
        subdirs_map_of(s1) == subdirs_map_of(s2),
    decreases s1.len(),
{
    if s1.len() == 0 {
        assert(subdirs_map_of(s1) =~= subdirs_map_of(s2));
    } else {
        let t1 = s1.drop_last();
        let t2 = s2.drop_last();
        assert(forall|i: int|
            0 <= i < t1.len() ==> (#[trigger] t1[i]).0@ == t2[i].0@ && view_of(t1[i].1)
                == view_of(t2[i].1));
        lemma_subdirs_map_congruence(t1, t2);
        assert(s1[s1.len() - 1].0@ == s2[s2.len() - 1].0@);
        assert(view_of(s1[s1.len() - 1].1) == view_of(s2[s2.len() - 1].1));
        assert(subdirs_map_of(s1) =~= subdirs_map_of(s2));
    }
}

fn find_file_index(files: &Vec<(String, FileState)>, name: &String) -> (r: Option<usize>)
    ensures
        match r {
            Some(i) => 0 <= i < files@.len() && files@[i as int].0@ == name@,
            None => forall|i: int| 0 <= i < files@.len() ==> (#[trigger] files@[i]).0@ != name@,
        },
{
    let mut i: usize = 0;
    while i < files.len()
        invariant
            i <= files@.len(),
            forall|j: int| 0 <= j < i ==> (#[trigger] files@[j]).0@ != name@,
        decreases files@.len() - i,
    {
        if files[i].0 == *name {
            return Some(i);
        }
        i += 1;
    }
    None
}

fn find_subdir_index(subdirs: &Vec<(String, DirState)>, name: &String) -> (r: Option<usize>)
    ensures
        match r {
            Some(i) => 0 <= i < subdirs@.len() && subdirs@[i as int].0@ == name@,
            None => forall|i: int|
                0 <= i < subdirs@.len() ==> (#[trigger] subdirs@[i]).0@ != name@,
        },
{
    let mut i: usize = 0;
    while i < subdirs.len()
        invariant
            i <= subdirs@.len(),
            forall|j: int| 0 <= j < i ==> (#[trigger] subdirs@[j]).0@ != name@,
        decreases subdirs@.len() - i,
    {
        if subdirs[i].0 == *name {
            return Some(i);
        }
        i += 1;
    }
    None
}

impl DirState {
    /// Every name at every level names at most one entry, as filesystem
    /// directory listings guarantee.
    pub closed spec fn wf(self) -> bool
        decreases self,
    {
        &&& (forall|i: int, j: int|
            0 <= i < j < self.files@.len() ==> self.files@[i].0@ != self.files@[j].0@)
        &&& (forall|i: int, j: int|
            0 <= i < j < self.subdirs@.len() ==> self.subdirs@[i].0@ != self.subdirs@[j].0@)
        &&& (forall|i: int|
            0 <= i < self.subdirs@.len() ==> (#[trigger] self.subdirs@[i].1).wf())
    }

    /// A fresh snapshot of a directory with no entries.
    pub fn new() -> (d: DirState)
        ensures
            d@ == TreeView::empty(),
            d.wf(),
    {
        let d = DirState { files: Vec::new(), subdirs: Vec::new() };
        proof {
            assert(d@.files =~= Map::empty());
            assert(d@.subdirs =~= Map::empty());
            assert(d@ =~= TreeView::empty());
        }
        d
    }

    /// Whether this snapshot has no top-level files and no top-level
    /// subdirectories.
    pub fn is_empty(&self) -> (r: bool)
        ensures
            r == self@.is_empty(),
    {
        let r = self.files.len() == 0 && self.subdirs.len() == 0;
        proof {
            if self.files@.len() == 0 {
                assert(self@.files.dom() =~= Set::<Seq<char>>::empty());
            } else {
                assert(files_map_of(self.files@).dom().contains(self.files@.last().0@));
            }
            if self.subdirs@.len() == 0 {
                assert(self@.subdirs.dom() =~= Set::<Seq<char>>::empty());
            } else {
                assert(subdirs_map_of(self.subdirs@).dom().contains(self.subdirs@.last().0@));
            }
        }
        r
    }

    /// Whether a file of the given name stands at this level.
    pub fn has_file(&self, name: &String) -> (r: bool)
        ensures
            r == self@.files.dom().contains(name@),
    {
        proof {
            lemma_files_map_dom(self.files@);
        }
        find_file_index(&self.files, name).is_some()
    }

    /// The record of the file of the given name at this level, if one stands
    /// there.
    pub fn get_file(&self, name: &String) -> (r: Option<FileState>)
        requires
            self.wf(),
        ensures
            match r {
                Some(st) => self@.files.dom().contains(name@) && st == self@.files[name@],
                None => !self@.files.dom().contains(name@),
            },
    {
        proof {
            lemma_files_map_dom(self.files@);
            lemma_files_map_at(self.files@);
        }
        match find_file_index(&self.files, name) {
            Some(i) => Some(self.files[i].1),
            None => None,
        }
    }

    /// The snapshot of the subdirectory of the given name at this level, if
    /// one stands there.
    pub fn find_subdir<'a>(&'a self, name: &String) -> (r: Option<&'a DirState>)
        requires
            self.wf(),
        ensures
            match r {
                Some(d) => {
                    &&& self@.subdirs.dom().contains(name@)
                    &&& d@ == self@.subdirs[name@]
                    &&& d.wf()
                },
                None => !self@.subdirs.dom().contains(name@),
            },
    {
        proof {
            lemma_subdirs_map_dom(self.subdirs@);
            lemma_subdirs_map_at(self.subdirs@);
        }
        match find_subdir_index(&self.subdirs, name) {
            Some(i) => Some(&self.subdirs[i].1),
            None => None,
        }
    }

    /// Whether a subdirectory of the given name stands at this level.
    pub fn has_subdir(&self, name: &String) -> (r: bool)
        ensures
            r == self@.subdirs.dom().contains(name@),
    {
        let r = find_subdir_index(&self.subdirs, name);
        proof {
            lemma_subdirs_map_dom(self.subdirs@);
            assert(self@.subdirs == subdirs_map_of(self.subdirs@));
            if r is Some {
                let i = r->Some_0 as int;
                assert(self.subdirs@[i].0@ == name@);
                assert(subdirs_map_of(self.subdirs@).dom().contains(name@));
            }
            if r is None && self@.subdirs.dom().contains(name@) {
                assert(subdirs_map_of(self.subdirs@).dom().contains(name@));
                let j = choose|j: int|
                    0 <= j < self.subdirs@.len() && (#[trigger] self.subdirs@[j]).0@ == name@;
                assert(self.subdirs@[j].0@ == name@);
            }
        }
        r.is_some()
    }

    /// Deep structural equality: the same file names with the same sizes and
    /// modification times, the same subdirectory names, and recursively equal
    /// subdirectories. A name present on one side only makes the trees
    /// unequal.
    pub fn are_contents_equal_to(&self, other: &DirState) -> (r: bool)
        requires
            self.wf(),
            other.wf(),
        ensures
            r == equal_contents(self@, other@),
        decreases *self,
    {
        proof {
            lemma_files_map_dom(self.files@);
            lemma_files_map_at(self.files@);
            lemma_subdirs_map_dom(self.subdirs@);
            lemma_subdirs_map_at(self.subdirs@);
        }
        let mut i: usize = 0;
        while i < self.files.len()
            invariant
                self.wf(),
                other.wf(),
                i <= self.files@.len(),
                forall|j: int|
                    0 <= j < i ==> {
                        let k = (#[trigger] self.files@[j]).0@;
                        &&& other@.files.dom().contains(k)
                        &&& other@.files[k] == self.files@[j].1
                    },
            decreases self.files@.len() - i,
        {
            proof {
                lemma_files_map_dom(self.files@);
                lemma_files_map_at(self.files@);
            }
            let name = &self.files[i].0;
            let st = self.files[i].1;
            match other.get_file(name) {
                None => {
                    proof {
                        assert(self@.files.dom().contains(name@));
                        if equal_contents(self@, other@) {
                            assert(other@.files.dom().contains(name@));
                        }
                    }
                    return false;
                },
                Some(ost) => {
                    if ost != st {
                        proof {
                            assert(self@.files[name@] == st);
                            if equal_contents(self@, other@) {
                                assert(other@.files[name@] == st);
                            }
                        }
                        return false;
                    }
                },
            }
            i += 1;
        }
        let ghost files_covered = self.files@;
        let mut i: usize = 0;
        while i < other.files.len()
            invariant
                self.wf(),
                other.wf(),
                i <= other.files@.len(),
                files_covered == self.files@,
                forall|j: int|
                    0 <= j < files_covered.len() ==> {
                        let k = (#[trigger] files_covered[j]).0@;
                        &&& other@.files.dom().contains(k)
                        &&& other@.files[k] == files_covered[j].1
                    },
                forall|j: int|
                    0 <= j < i ==> self@.files.dom().contains(
                        (#[trigger] other.files@[j]).0@,
                    ),
            decreases other.files@.len() - i,
        {
            proof {
                lemma_files_map_dom(other.files@);
            }
            let name = &other.files[i].0;
            if !self.has_file(name) {
                proof {
                    assert(other@.files.dom().contains(name@));
                    if equal_contents(self@, other@) {
                        assert(self@.files.dom().contains(name@));
                    }
                }
                return false;
            }
            i += 1;
        }
        proof {
            lemma_files_map_dom(self.files@);
            lemma_files_map_at(self.files@);
            lemma_files_map_dom(other.files@);
            lemma_files_map_at(other.files@);
            assert(self@.files =~= other@.files);
        }
        let mut i: usize = 0;
        while i < self.subdirs.len()
            invariant
                self.wf(),
                other.wf(),
                i <= self.subdirs@.len(),
                self@.files == other@.files,
                forall|j: int|
                    0 <= j < i ==> {
                        let k = (#[trigger] self.subdirs@[j]).0@;
                        &&& other@.subdirs.dom().contains(k)
                        &&& equal_contents(view_of(self.subdirs@[j].1), other@.subdirs[k])
                    },
            decreases self.subdirs@.len() - i,
        {
            proof {
                lemma_subdirs_map_dom(self.subdirs@);
                lemma_subdirs_map_at(self.subdirs@);
            }
            let name = &self.subdirs[i].0;
            let sub = &self.subdirs[i].1;
            match other.find_subdir(name) {
                None => {
                    proof {
                        assert(self@.subdirs.dom().contains(name@));
                        if equal_contents(self@, other@) {
                            assert(other@.subdirs.dom().contains(name@));
                        }
                    }
                    return false;
                },
                Some(osub) => {
                    if !sub.are_contents_equal_to(osub) {
                        proof {
                            assert(self@.subdirs[name@] == view_of(*sub));
                            if equal_contents(self@, other@) {
                                assert(equal_contents(
                                    self@.subdirs[name@],
                                    other@.subdirs[name@],
                                ));
                            }
                        }
                        return false;
                    }
                },
            }
            i += 1;
        }
        let ghost subdirs_covered = self.subdirs@;
        let mut i: usize = 0;
        while i < other.subdirs.len()
            invariant
                self.wf(),
                other.wf(),
                i <= other.subdirs@.len(),
                self@.files == other@.files,
                subdirs_covered == self.subdirs@,
                forall|j: int|
                    0 <= j < subdirs_covered.len() ==> {
                        let k = (#[trigger] subdirs_covered[j]).0@;
                        &&& other@.subdirs.dom().contains(k)
                        &&& equal_contents(view_of(subdirs_covered[j].1), other@.subdirs[k])
                    },
                forall|j: int|
                    0 <= j < i ==> self@.subdirs.dom().contains(
                        (#[trigger] other.subdirs@[j]).0@,
                    ),
            decreases other.subdirs@.len() - i,
        {
            proof {
                lemma_subdirs_map_dom(other.subdirs@);
            }
            let name = &other.subdirs[i].0;
            if !self.has_subdir(name) {
                proof {
                    assert(other.subdirs@[i as int].0@ == name@);
                    assert(subdirs_map_of(other.subdirs@).dom().contains(name@));
                    assert(other@.subdirs.dom().contains(name@));
                    if equal_contents(self@, other@) {
                        assert(self@.subdirs.dom().contains(name@));
                    }
                }
                return false;
            }
            i += 1;
        }
        proof {
            lemma_subdirs_map_dom(self.subdirs@);
            lemma_subdirs_map_at(self.subdirs@);
            lemma_subdirs_map_dom(other.subdirs@);
            assert forall|n: Seq<char>| #[trigger]
                self@.subdirs.dom().contains(n) implies other@.subdirs.dom().contains(n) by {
                let j = choose|j: int|
                    0 <= j < self.subdirs@.len() && (#[trigger] self.subdirs@[j]).0@ == n;
                assert(other@.subdirs.dom().contains(self.subdirs@[j].0@));
            }
            assert forall|n: Seq<char>| #[trigger]
                other@.subdirs.dom().contains(n) implies self@.subdirs.dom().contains(n) by {
                assert(subdirs_map_of(other.subdirs@).dom().contains(n));
                let j = choose|j: int|
                    0 <= j < other.subdirs@.len() && (#[trigger] other.subdirs@[j]).0@ == n;
                assert(self@.subdirs.dom().contains(other.subdirs@[j].0@));
            }
            assert(self@.subdirs.dom() =~= other@.subdirs.dom());
            assert forall|n: Seq<char>| #[trigger]
                self@.subdirs.dom().contains(n) implies equal_contents(
                self@.subdirs[n],
                other@.subdirs[n],
            ) by {
                let j = choose|j: int|
                    0 <= j < self.subdirs@.len() && (#[trigger] self.subdirs@[j]).0@ == n;
                assert(self@.subdirs[n] == view_of(self.subdirs@[j].1));
            }
        }
        true
    }

    /// Whether some file present in both trees, at any depth, is strictly
    /// newer on this side. Files present on one side only are ignored; their
    /// fate is settled by copying and pruning, not by timestamps.
    pub fn are_any_contents_newer_than(&self, other: &DirState) -> (r: bool)
        requires
            self.wf(),
            other.wf(),
        ensures
            r == any_newer(self@, other@),
        decreases *self,
    {
        let mut i: usize = 0;
        while i < self.files.len()
            invariant
                self.wf(),
                other.wf(),
                i <= self.files@.len(),
                forall|j: int|
                    0 <= j < i ==> {
                        let k = (#[trigger] self.files@[j]).0@;
                        !(other@.files.dom().contains(k) && self.files@[j].1.modified
                            > other@.files[k].modified)
                    },
            decreases self.files@.len() - i,
        {
            proof {
                lemma_files_map_dom(self.files@);
                lemma_files_map_at(self.files@);
            }
            let name = &self.files[i].0;
            let st = self.files[i].1;
            match other.get_file(name) {
                Some(ost) => {
                    if st.modified > ost.modified {
                        proof {
                            assert(self.files@[i as int].0@ == name@);
                            assert(files_map_of(self.files@).dom().contains(name@));
                            assert(self@.files.dom().contains(name@));
                            assert(self@.files[name@] == st);
                        }
                        return true;
                    }
                },
                None => {},
            }
            i += 1;
        }
        let mut i: usize = 0;
        while i < self.subdirs.len()
            invariant
                self.wf(),
                other.wf(),
                i <= self.subdirs@.len(),
                forall|j: int|
                    0 <= j < self.files@.len() ==> {
                        let k = (#[trigger] self.files@[j]).0@;
                        !(other@.files.dom().contains(k) && self.files@[j].1.modified
                            > other@.files[k].modified)
                    },
                forall|j: int|
                    0 <= j < i ==> {
                        let k = (#[trigger] self.subdirs@[j]).0@;
                        !(other@.subdirs.dom().contains(k) && any_newer(
                            view_of(self.subdirs@[j].1),
                            other@.subdirs[k],
                        ))
                    },
            decreases self.subdirs@.len() - i,
        {
            proof {
                lemma_subdirs_map_dom(self.subdirs@);
                lemma_subdirs_map_at(self.subdirs@);
            }
            let name = &self.subdirs[i].0;
            let sub = &self.subdirs[i].1;
            match other.find_subdir(name) {
                Some(osub) => {
                    if sub.are_any_contents_newer_than(osub) {
                        proof {
                            assert(self.subdirs@[i as int].0@ == name@);
                            assert(subdirs_map_of(self.subdirs@).dom().contains(name@));
                            assert(self@.subdirs.dom().contains(name@));
                            assert(self@.subdirs[name@] == view_of(*sub));
                        }
                        return true;
                    }
                },
                None => {},
            }
            i += 1;
        }
        proof {
            lemma_files_map_dom(self.files@);
            lemma_files_map_at(self.files@);
            lemma_subdirs_map_dom(self.subdirs@);
            lemma_subdirs_map_at(self.subdirs@);
            if any_newer(self@, other@) {
                if exists|n: Seq<char>|
                    #![trigger self@.files.dom().contains(n)]
                    {
                        &&& self@.files.dom().contains(n)
                        &&& other@.files.dom().contains(n)
                        &&& self@.files[n].modified > other@.files[n].modified
                    } {
                    let n = choose|n: Seq<char>|
                        #![trigger self@.files.dom().contains(n)]
                        {
                            &&& self@.files.dom().contains(n)
                            &&& other@.files.dom().contains(n)
                            &&& self@.files[n].modified > other@.files[n].modified
                        };
                    assert(files_map_of(self.files@).dom().contains(n));
                    let j = choose|j: int|
                        0 <= j < self.files@.len() && (#[trigger] self.files@[j]).0@ == n;
                    assert(self@.files[n] == self.files@[j].1);
                } else {
                    let n = choose|n: Seq<char>|
                        #![trigger self@.subdirs.dom().contains(n)]
                        {
                            &&& self@.subdirs.dom().contains(n)
                            &&& other@.subdirs.dom().contains(n)
                            &&& any_newer(self@.subdirs[n], other@.subdirs[n])
                        };
                    assert(subdirs_map_of(self.subdirs@).dom().contains(n));
                    let j = choose|j: int|
                        0 <= j < self.subdirs@.len() && (#[trigger] self.subdirs@[j]).0@ == n;
                    assert(self@.subdirs[n] == view_of(self.subdirs@[j].1));
                }
                assert(false);
            }
        }
        false
    }

    /// The mirror of `are_any_contents_newer_than`: whether some file present
    /// in both trees is strictly older on this side.
    pub fn are_any_contents_older_than(&self, other: &DirState) -> (r: bool)
        requires
            self.wf(),
            other.wf(),
        ensures
            r == any_older(self@, other@),
    {
        other.are_any_contents_newer_than(self)
    }

    /// The one-way recency verdict of this snapshot over another:
    /// this side is not empty, no shared file is older here, and at least one
    /// shared file is strictly newer here.
    pub fn are_contents_generally_newer_than(&self, other: &DirState) -> (r: bool)
        requires
            self.wf(),
            other.wf(),
        ensures
            r == generally_newer(self@, other@),
    {
        !self.is_empty() && !self.are_any_contents_older_than(other)
            && self.are_any_contents_newer_than(other)
    }

    /// An independent copy of this snapshot with the same model.
    pub fn duplicate(&self) -> (r: DirState)
        requires
            self.wf(),
        ensures
            r.wf(),
            r@ == self@,
        decreases *self,
    {
        let mut files: Vec<(String, FileState)> = Vec::new();
        let mut i: usize = 0;
        while i < self.files.len()
            invariant
                self.wf(),
                i <= self.files@.len(),
                files@.len() == i,
                forall|j: int|
                    0 <= j < i ==> (#[trigger] files@[j]).0@ == self.files@[j].0@ && files@[j].1
                        == self.files@[j].1,
            decreases self.files@.len() - i,
        {
            let name = self.files[i].0.clone();
            files.push((name, self.files[i].1));
            i += 1;
        }
        let mut subdirs: Vec<(String, DirState)> = Vec::new();
        let mut i: usize = 0;
        while i < self.subdirs.len()
            invariant
                self.wf(),
                i <= self.subdirs@.len(),
                subdirs@.len() == i,
                forall|j: int|
                    0 <= j < i ==> (#[trigger] subdirs@[j]).0@ == self.subdirs@[j].0@ && view_of(
                        subdirs@[j].1,
                    ) == view_of(self.subdirs@[j].1) && subdirs@[j].1.wf(),
            decreases self.subdirs@.len() - i,
        {
            let name = self.subdirs[i].0.clone();
            let sub = self.subdirs[i].1.duplicate();
            subdirs.push((name, sub));
            i += 1;
        }
        let r = DirState { files, subdirs };
        proof {
            lemma_files_map_congruence(r.files@, self.files@);
            lemma_subdirs_map_congruence(r.subdirs@, self.subdirs@);
            assert(r@ =~= self@);
        }
        r
    }

    /// The state the destination tree reaches when every file and
    /// subdirectory recorded in this snapshot is copied into it: this
    /// snapshot's files overwrite or join the destination's, its
    /// subdirectories are merged recursively, and destination entries with no
    /// counterpart here are left in place.
    #[verifier::rlimit(100)]
    pub fn copy_into(&self, dest: &DirState) -> (r: DirState)
        requires
            self.wf(),
            dest.wf(),
        ensures
            r.wf(),
            r@ == copy_effect(self@, dest@),
        decreases *self,
    {
        let mut files: Vec<(String, FileState)> = Vec::new();
        let mut i: usize = 0;
        while i < dest.files.len()
            invariant
                self.wf(),
                dest.wf(),
                i <= dest.files@.len(),
                forall|j: int|
                    0 <= j < files@.len() ==> {
                        let k = (#[trigger] files@[j]).0@;
                        &&& !self@.files.dom().contains(k)
                        &&& dest@.files.dom().contains(k)
                        &&& files@[j].1 == dest@.files[k]
                    },
                forall|j: int|
                    0 <= j < files@.len() ==> exists|jd: int|
                        0 <= jd < i && (#[trigger] files@[j]).0@ == dest.files@[jd].0@,
                forall|jd: int|
                    0 <= jd < i ==> self@.files.dom().contains(
                        (#[trigger] dest.files@[jd]).0@,
                    ) || exists|j: int|
                        0 <= j < files@.len() && (#[trigger] files@[j]).0@ == dest.files@[jd].0@,
                file_names_unique(files@),
            decreases dest.files@.len() - i,
        {
            proof {
                lemma_files_map_dom(dest.files@);
                lemma_files_map_at(dest.files@);
            }
            let name = &dest.files[i].0;
            if !self.has_file(name) {
                proof {
                    assert(dest.files@[i as int].0@ == name@);
                    assert(files_map_of(dest.files@).dom().contains(name@));
                    assert(dest@.files[name@] == dest.files@[i as int].1);
                    assert forall|j: int|
                        0 <= j < files@.len() implies (#[trigger] files@[j]).0@ != name@ by {
                        let jd = choose|jd: int|
                            0 <= jd < i && (#[trigger] files@[j]).0@ == dest.files@[jd].0@;
                        assert(dest.files@[jd].0@ != dest.files@[i as int].0@);
                    }
                }
                let ghost prev = files@;
                files.push((name.clone(), dest.files[i].1));
                proof {
                    assert(files@.len() == prev.len() + 1);
                    assert(forall|j: int| 0 <= j < prev.len() ==> #[trigger] prev[j] == files@[j]);
                    assert(files@[prev.len() as int].0@ == name@);
                    assert forall|jd: int|
                        0 <= jd < i + 1 implies self@.files.dom().contains(
                        (#[trigger] dest.files@[jd]).0@,
                    ) || exists|j: int|
                        0 <= j < files@.len() && (#[trigger] files@[j]).0@
                            == dest.files@[jd].0@ by {
                        if jd == i as int {
                            assert(files@[prev.len() as int].0@ == dest.files@[jd].0@);
                        } else if !self@.files.dom().contains(dest.files@[jd].0@) {
                            let j0 = choose|j0: int|
                                0 <= j0 < prev.len() && (#[trigger] prev[j0]).0@
                                    == dest.files@[jd].0@;
                            assert(files@[j0].0@ == dest.files@[jd].0@);
                        }
                    }
                }
            }
            i += 1;
        }
        let ghost p1 = files@;
        let mut i: usize = 0;
        while i < self.files.len()
            invariant
                self.wf(),
                dest.wf(),
                i <= self.files@.len(),
                files@.len() == p1.len() + i,
                forall|j: int| 0 <= j < p1.len() ==> files@[j] == p1[j],
                forall|j: int|
                    0 <= j < p1.len() ==> {
                        let k = (#[trigger] p1[j]).0@;
                        &&& !self@.files.dom().contains(k)
                        &&& dest@.files.dom().contains(k)
                        &&& p1[j].1 == dest@.files[k]
                    },
                forall|jd: int|
                    0 <= jd < dest.files@.len() ==> self@.files.dom().contains(
                        (#[trigger] dest.files@[jd]).0@,
                    ) || exists|j: int|
                        0 <= j < p1.len() && (#[trigger] p1[j]).0@ == dest.files@[jd].0@,
                file_names_unique(p1),
                forall|j: int|
                    p1.len() <= j < files@.len() ==> (#[trigger] files@[j]).0@ == self.files@[j
                        - p1.len()].0@ && files@[j].1 == self.files@[j - p1.len()].1,
            decreases self.files@.len() - i,
        {
            files.push((self.files[i].0.clone(), self.files[i].1));
            i += 1;
        }
        proof {
            lemma_files_map_dom(self.files@);
            lemma_files_map_at(self.files@);
            lemma_files_map_dom(dest.files@);
            lemma_files_map_at(dest.files@);
            assert forall|j1: int, j2: int|
                0 <= j1 < j2 < files@.len() implies (#[trigger] files@[j1]).0@ != (
            #[trigger] files@[j2]).0@ by {
                if j2 < p1.len() {
                    assert(files@[j1] == p1[j1]);
                    assert(files@[j2] == p1[j2]);
                    assert(p1[j1].0@ != p1[j2].0@);
                } else if j1 >= p1.len() {
                    assert(files@[j1].0@ == self.files@[j1 - p1.len()].0@);
                    assert(files@[j2].0@ == self.files@[j2 - p1.len()].0@);
                    assert(self.files@[j1 - p1.len()].0@ != self.files@[j2 - p1.len()].0@);
                } else {
                    let k2 = self.files@[j2 - p1.len()].0@;
                    assert(files@[j2].0@ == k2);
                    assert(files@[j1] == p1[j1]);
                    assert(files_map_of(self.files@).dom().contains(k2));
                    assert(self@.files == files_map_of(self.files@));
                    assert(!self@.files.dom().contains(p1[j1].0@));
                }
            }
            assert(file_names_unique(files@));
            lemma_files_map_dom(files@);
            lemma_files_map_at(files@);
            assert forall|k: Seq<char>| #[trigger]
                files_map_of(files@).dom().contains(k) implies dest@.files.union_prefer_right(
                self@.files,
            ).dom().contains(k) && files_map_of(files@)[k] == dest@.files.union_prefer_right(
                self@.files,
            )[k] by {
                let j = choose|j: int| 0 <= j < files@.len() && (#[trigger] files@[j]).0@ == k;
                assert(files_map_of(files@)[k] == files@[j].1);
                if j < p1.len() {
                    assert(files@[j] == p1[j]);
                } else {
                    assert(files@[j].1 == self.files@[j - p1.len()].1);
                    assert(self.files@[j - p1.len()].0@ == k);
                    assert(files_map_of(self.files@).dom().contains(k));
                    assert(self@.files[k] == self.files@[j - p1.len()].1);
                }
            }
            assert forall|k: Seq<char>| #[trigger]
                dest@.files.union_prefer_right(self@.files).dom().contains(
                    k,
                ) implies files_map_of(files@).dom().contains(k) by {
                if self@.files.dom().contains(k) {
                    assert(files_map_of(self.files@).dom().contains(k));
                    let js = choose|js: int|
                        0 <= js < self.files@.len() && (#[trigger] self.files@[js]).0@ == k;
                    assert(files@[p1.len() + js].0@ == k);
                } else {
                    assert(dest@.files.dom().contains(k));
                    assert(files_map_of(dest.files@).dom().contains(k));
                    let jd = choose|jd: int|
                        0 <= jd < dest.files@.len() && (#[trigger] dest.files@[jd]).0@ == k;
                    let j = choose|j: int|
                        0 <= j < p1.len() && (#[trigger] p1[j]).0@ == dest.files@[jd].0@;
                    assert(files@[j] == p1[j]);
                    assert(files@[j].0@ == k);
                }
            }
            assert(files_map_of(files@) =~= dest@.files.union_prefer_right(self@.files));
        }
        let ghost files_done = files@;
        let mut subdirs: Vec<(String, DirState)> = Vec::new();
        let mut i: usize = 0;
        while i < dest.subdirs.len()
            invariant
                self.wf(),
                dest.wf(),
                i <= dest.subdirs@.len(),
                forall|j: int|
                    0 <= j < subdirs@.len() ==> {
                        let k = (#[trigger] subdirs@[j]).0@;
                        &&& !self@.subdirs.dom().contains(k)
                        &&& dest@.subdirs.dom().contains(k)
                        &&& view_of(subdirs@[j].1) == dest@.subdirs[k]
                        &&& subdirs@[j].1.wf()
                    },
                forall|j: int|
                    0 <= j < subdirs@.len() ==> exists|jd: int|
                        0 <= jd < i && (#[trigger] subdirs@[j]).0@ == dest.subdirs@[jd].0@,
                forall|jd: int|
                    0 <= jd < i ==> self@.subdirs.dom().contains(
                        (#[trigger] dest.subdirs@[jd]).0@,
                    ) || exists|j: int|
                        0 <= j < subdirs@.len() && (#[trigger] subdirs@[j]).0@
                            == dest.subdirs@[jd].0@,
                subdir_names_unique(subdirs@),
            decreases dest.subdirs@.len() - i,
        {
            proof {
                lemma_subdirs_map_dom(dest.subdirs@);
                lemma_subdirs_map_at(dest.subdirs@);
            }
            let name = &dest.subdirs[i].0;
            if !self.has_subdir(name) {
                proof {
                    assert(dest.subdirs@[i as int].0@ == name@);
                    assert(subdirs_map_of(dest.subdirs@).dom().contains(name@));
                    assert(dest@.subdirs[name@] == view_of(dest.subdirs@[i as int].1));
                    assert forall|j: int|
                        0 <= j < subdirs@.len() implies (#[trigger] subdirs@[j]).0@ != name@ by {
                        let jd = choose|jd: int|
                            0 <= jd < i && (#[trigger] subdirs@[j]).0@ == dest.subdirs@[jd].0@;
                        assert(dest.subdirs@[jd].0@ != dest.subdirs@[i as int].0@);
                    }
                    assert(dest.subdirs@[i as int].1.wf());
                }
                let dup = dest.subdirs[i].1.duplicate();
                let ghost prev = subdirs@;
                subdirs.push((name.clone(), dup));
                proof {
                    assert(subdirs@.len() == prev.len() + 1);
                    assert(forall|j: int|
                        0 <= j < prev.len() ==> #[trigger] prev[j] == subdirs@[j]);
                    assert(subdirs@[prev.len() as int].0@ == name@);
                    assert forall|jd: int|
                        0 <= jd < i + 1 implies self@.subdirs.dom().contains(
                        (#[trigger] dest.subdirs@[jd]).0@,
                    ) || exists|j: int|
                        0 <= j < subdirs@.len() && (#[trigger] subdirs@[j]).0@
                            == dest.subdirs@[jd].0@ by {
                        if jd == i as int {
                            assert(subdirs@[prev.len() as int].0@ == dest.subdirs@[jd].0@);
                        } else if !self@.subdirs.dom().contains(dest.subdirs@[jd].0@) {
                            let j0 = choose|j0: int|
                                0 <= j0 < prev.len() && (#[trigger] prev[j0]).0@
                                    == dest.subdirs@[jd].0@;
                            assert(subdirs@[j0].0@ == dest.subdirs@[jd].0@);
                        }
                    }
                }
            }
            i += 1;
        }
        let ghost p3 = subdirs@;
        let mut i: usize = 0;
        while i < self.subdirs.len()
            invariant
                self.wf(),
                dest.wf(),
                i <= self.subdirs@.len(),
                subdirs@.len() == p3.len() + i,
                forall|j: int| 0 <= j < p3.len() ==> subdirs@[j] == p3[j],
                forall|j: int|
                    0 <= j < p3.len() ==> {
                        let k = (#[trigger] p3[j]).0@;
                        &&& !self@.subdirs.dom().contains(k)
                        &&& dest@.subdirs.dom().contains(k)
                        &&& view_of(p3[j].1) == dest@.subdirs[k]
                        &&& p3[j].1.wf()
                    },
                forall|jd: int|
                    0 <= jd < dest.subdirs@.len() ==> self@.subdirs.dom().contains(
                        (#[trigger] dest.subdirs@[jd]).0@,
                    ) || exists|j: int|
                        0 <= j < p3.len() && (#[trigger] p3[j]).0@ == dest.subdirs@[jd].0@,
                subdir_names_unique(p3),
                forall|j: int|
                    p3.len() <= j < subdirs@.len() ==> {
                        let js = j - p3.len();
                        let k = (#[trigger] subdirs@[j]).0@;
                        &&& k == self.subdirs@[js].0@
                        &&& subdirs@[j].1.wf()
                        &&& view_of(subdirs@[j].1) == copy_effect(
                            view_of(self.subdirs@[js].1),
                            if dest@.subdirs.dom().contains(k) {
                                dest@.subdirs[k]
                            } else {
                                TreeView::empty()
                            },
                        )
                    },
            decreases self.subdirs@.len() - i,
        {
            proof {
                lemma_subdirs_map_dom(self.subdirs@);
                lemma_subdirs_map_at(self.subdirs@);
            }
            let name = &self.subdirs[i].0;
            let sub = &self.subdirs[i].1;
            let merged = match dest.find_subdir(name) {
                Some(dsub) => sub.copy_into(dsub),
                None => {
                    let fresh = DirState::new();
                    sub.copy_into(&fresh)
                },
            };
            subdirs.push((name.clone(), merged));
            i += 1;
        }
        let r = DirState { files, subdirs };
        proof {
            lemma_subdirs_map_dom(self.subdirs@);
            lemma_subdirs_map_at(self.subdirs@);
            lemma_subdirs_map_dom(dest.subdirs@);
            lemma_subdirs_map_at(dest.subdirs@);
            assert forall|j1: int, j2: int|
                0 <= j1 < j2 < r.subdirs@.len() implies (#[trigger] r.subdirs@[j1]).0@ != (
            #[trigger] r.subdirs@[j2]).0@ by {
                if j2 < p3.len() {
                    assert(r.subdirs@[j1] == p3[j1]);
                    assert(r.subdirs@[j2] == p3[j2]);
                    assert(p3[j1].0@ != p3[j2].0@);
                } else if j1 >= p3.len() {
                    assert(r.subdirs@[j1].0@ == self.subdirs@[j1 - p3.len()].0@);
                    assert(r.subdirs@[j2].0@ == self.subdirs@[j2 - p3.len()].0@);
                    assert(self.subdirs@[j1 - p3.len()].0@ != self.subdirs@[j2 - p3.len()].0@);
                } else {
                    let k2 = self.subdirs@[j2 - p3.len()].0@;
                    assert(r.subdirs@[j2].0@ == k2);
                    assert(r.subdirs@[j1] == p3[j1]);
                    assert(subdirs_map_of(self.subdirs@).dom().contains(k2));
                    assert(self@.subdirs == subdirs_map_of(self.subdirs@));
                    assert(!self@.subdirs.dom().contains(p3[j1].0@));
                }
            }
            assert(subdir_names_unique(r.subdirs@));
            lemma_subdirs_map_dom(r.subdirs@);
            lemma_subdirs_map_at(r.subdirs@);
            let target = copy_effect(self@, dest@).subdirs;
            assert forall|k: Seq<char>| #[trigger]
                subdirs_map_of(r.subdirs@).dom().contains(k) implies target.dom().contains(k)
                && subdirs_map_of(r.subdirs@)[k] == target[k] by {
                let j = choose|j: int|
                    0 <= j < r.subdirs@.len() && (#[trigger] r.subdirs@[j]).0@ == k;
                assert(subdirs_map_of(r.subdirs@)[k] == view_of(r.subdirs@[j].1));
                if j < p3.len() {
                    assert(r.subdirs@[j] == p3[j]);
                } else {
                    assert(self.subdirs@[j - p3.len()].0@ == k);
                    assert(subdirs_map_of(self.subdirs@).dom().contains(k));
                    assert(self@.subdirs[k] == view_of(self.subdirs@[j - p3.len()].1));
                }
            }
            assert forall|k: Seq<char>| #[trigger]
                target.dom().contains(k) implies subdirs_map_of(r.subdirs@).dom().contains(
                k,
            ) by {
                if self@.subdirs.dom().contains(k) {
                    assert(subdirs_map_of(self.subdirs@).dom().contains(k));
                    let js = choose|js: int|
                        0 <= js < self.subdirs@.len() && (#[trigger] self.subdirs@[js]).0@ == k;
                    assert(r.subdirs@[p3.len() + js].0@ == k);
                } else {
                    assert(dest@.subdirs.dom().contains(k));
                    assert(subdirs_map_of(dest.subdirs@).dom().contains(k));
                    let jd = choose|jd: int|
                        0 <= jd < dest.subdirs@.len() && (#[trigger] dest.subdirs@[jd]).0@ == k;
                    let j = choose|j: int|
                        0 <= j < p3.len() && (#[trigger] p3[j]).0@ == dest.subdirs@[jd].0@;
                    assert(r.subdirs@[j] == p3[j]);
                    assert(r.subdirs@[j].0@ == k);
                }
            }
            assert(subdirs_map_of(r.subdirs@) =~= target);
            assert(r.files@ == files_done);
            assert(file_names_unique(r.files@));
            assert forall|j: int|
                0 <= j < r.subdirs@.len() implies (#[trigger] r.subdirs@[j].1).wf() by {
                if j < p3.len() {
                    assert(r.subdirs@[j] == p3[j]);
                    assert(p3[j].1.wf());
                }
            }
            assert(r.wf());
            assert(r@ =~= copy_effect(self@, dest@));
        }
        r
    }

    /// The state the destination tree reaches when every entry extraneous to
    /// this snapshot is removed from it: destination files whose name this
    /// snapshot does not record are deleted, destination subdirectories
    /// unknown to it are deleted whole, and the shared subdirectories are
    /// pruned recursively. What this snapshot records and the destination
    /// lacks is not created; that is the copy step's task.
    #[verifier::rlimit(100)]
    pub fn remove_extraneous_files_from(&self, dest: &DirState) -> (r: DirState)
        requires
            self.wf(),
            dest.wf(),
        ensures
            r.wf(),
            r@ == prune_effect(self@, dest@),
        decreases *dest,
    {
        let mut files: Vec<(String, FileState)> = Vec::new();
        let mut i: usize = 0;
        while i < dest.files.len()
            invariant
                self.wf(),
                dest.wf(),
                i <= dest.files@.len(),
                forall|j: int|
                    0 <= j < files@.len() ==> {
                        let k = (#[trigger] files@[j]).0@;
                        &&& self@.files.dom().contains(k)
                        &&& dest@.files.dom().contains(k)
                        &&& files@[j].1 == dest@.files[k]
                    },
                forall|j: int|
                    0 <= j < files@.len() ==> exists|jd: int|
                        0 <= jd < i && (#[trigger] files@[j]).0@ == dest.files@[jd].0@,
                forall|jd: int|
                    0 <= jd < i ==> !self@.files.dom().contains(
                        (#[trigger] dest.files@[jd]).0@,
                    ) || exists|j: int|
                        0 <= j < files@.len() && (#[trigger] files@[j]).0@ == dest.files@[jd].0@,
                file_names_unique(files@),
            decreases dest.files@.len() - i,
        {
            proof {
                lemma_files_map_dom(dest.files@);
                lemma_files_map_at(dest.files@);
            }
            let name = &dest.files[i].0;
            if self.has_file(name) {
                proof {
                    assert(dest.files@[i as int].0@ == name@);
                    assert(files_map_of(dest.files@).dom().contains(name@));
                    assert(dest@.files[name@] == dest.files@[i as int].1);
                    assert forall|j: int|
                        0 <= j < files@.len() implies (#[trigger] files@[j]).0@ != name@ by {
                        let jd = choose|jd: int|
                            0 <= jd < i && (#[trigger] files@[j]).0@ == dest.files@[jd].0@;
                        assert(dest.files@[jd].0@ != dest.files@[i as int].0@);
                    }
                }
                let ghost prev = files@;
                files.push((name.clone(), dest.files[i].1));
                proof {
                    assert(files@.len() == prev.len() + 1);
                    assert(forall|j: int| 0 <= j < prev.len() ==> #[trigger] prev[j] == files@[j]);
                    assert(files@[prev.len() as int].0@ == name@);
                    assert forall|jd: int|
                        0 <= jd < i + 1 implies !self@.files.dom().contains(
                        (#[trigger] dest.files@[jd]).0@,
                    ) || exists|j: int|
                        0 <= j < files@.len() && (#[trigger] files@[j]).0@
                            == dest.files@[jd].0@ by {
                        if jd == i as int {
                            assert(files@[prev.len() as int].0@ == dest.files@[jd].0@);
                        } else if self@.files.dom().contains(dest.files@[jd].0@) {
                            let j0 = choose|j0: int|
                                0 <= j0 < prev.len() && (#[trigger] prev[j0]).0@
                                    == dest.files@[jd].0@;
                            assert(files@[j0].0@ == dest.files@[jd].0@);
                        }
                    }
                }
            }
            i += 1;
        }
        proof {
            lemma_files_map_dom(self.files@);
            lemma_files_map_dom(dest.files@);
            lemma_files_map_at(dest.files@);
            lemma_files_map_dom(files@);
            lemma_files_map_at(files@);
            let target = dest@.files.restrict(self@.files.dom());
            assert forall|k: Seq<char>| #[trigger]
                files_map_of(files@).dom().contains(k) implies target.dom().contains(k)
                && files_map_of(files@)[k] == target[k] by {
                let j = choose|j: int| 0 <= j < files@.len() && (#[trigger] files@[j]).0@ == k;
                assert(files_map_of(files@)[k] == files@[j].1);
            }
            assert forall|k: Seq<char>| #[trigger]
                target.dom().contains(k) implies files_map_of(files@).dom().contains(k) by {
                assert(dest@.files.dom().contains(k));
                assert(files_map_of(dest.files@).dom().contains(k));
                let jd = choose|jd: int|
                    0 <= jd < dest.files@.len() && (#[trigger] dest.files@[jd]).0@ == k;
                let j = choose|j: int|
                    0 <= j < files@.len() && (#[trigger] files@[j]).0@ == dest.files@[jd].0@;
                assert(files@[j].0@ == k);
            }
            assert(files_map_of(files@) =~= target);
        }
        let ghost files_done = files@;
        let mut subdirs: Vec<(String, DirState)> = Vec::new();
        let mut i: usize = 0;
        while i < dest.subdirs.len()
            invariant
                self.wf(),
                dest.wf(),
                i <= dest.subdirs@.len(),
                forall|j: int|
                    0 <= j < subdirs@.len() ==> {
                        let k = (#[trigger] subdirs@[j]).0@;
                        &&& self@.subdirs.dom().contains(k)
                        &&& dest@.subdirs.dom().contains(k)
                        &&& view_of(subdirs@[j].1) == prune_effect(
                            self@.subdirs[k],
                            dest@.subdirs[k],
                        )
                        &&& subdirs@[j].1.wf()
                    },
                forall|j: int|
                    0 <= j < subdirs@.len() ==> exists|jd: int|
                        0 <= jd < i && (#[trigger] subdirs@[j]).0@ == dest.subdirs@[jd].0@,
                forall|jd: int|
                    0 <= jd < i ==> !self@.subdirs.dom().contains(
                        (#[trigger] dest.subdirs@[jd]).0@,
                    ) || exists|j: int|
                        0 <= j < subdirs@.len() && (#[trigger] subdirs@[j]).0@
                            == dest.subdirs@[jd].0@,
                subdir_names_unique(subdirs@),
            decreases dest.subdirs@.len() - i,
        {
            proof {
                lemma_subdirs_map_dom(dest.subdirs@);
                lemma_subdirs_map_at(dest.subdirs@);
            }
            let name = &dest.subdirs[i].0;
            let dsub = &dest.subdirs[i].1;
            match self.find_subdir(name) {
                Some(ssub) => {
                    proof {
                        assert(dest.subdirs@[i as int].0@ == name@);
                        assert(subdirs_map_of(dest.subdirs@).dom().contains(name@));
                        assert(dest@.subdirs[name@] == view_of(dest.subdirs@[i as int].1));
                        assert(dest.subdirs@[i as int].1.wf());
                        assert forall|j: int|
                            0 <= j < subdirs@.len() implies (#[trigger] subdirs@[j]).0@
                            != name@ by {
                            let jd = choose|jd: int|
                                0 <= jd < i && (#[trigger] subdirs@[j]).0@
                                    == dest.subdirs@[jd].0@;
                            assert(dest.subdirs@[jd].0@ != dest.subdirs@[i as int].0@);
                        }
                    }
                    let pruned = ssub.remove_extraneous_files_from(dsub);
                    let ghost prev = subdirs@;
                    subdirs.push((name.clone(), pruned));
                    proof {
                        assert(subdirs@.len() == prev.len() + 1);
                        assert(forall|j: int|
                            0 <= j < prev.len() ==> #[trigger] prev[j] == subdirs@[j]);
                        assert(subdirs@[prev.len() as int].0@ == name@);
                        assert forall|jd: int|
                            0 <= jd < i + 1 implies !self@.subdirs.dom().contains(
                            (#[trigger] dest.subdirs@[jd]).0@,
                        ) || exists|j: int|
                            0 <= j < subdirs@.len() && (#[trigger] subdirs@[j]).0@
                                == dest.subdirs@[jd].0@ by {
                            if jd == i as int {
                                assert(subdirs@[prev.len() as int].0@ == dest.subdirs@[jd].0@);
                            } else if self@.subdirs.dom().contains(dest.subdirs@[jd].0@) {
                                let j0 = choose|j0: int|
                                    0 <= j0 < prev.len() && (#[trigger] prev[j0]).0@
                                        == dest.subdirs@[jd].0@;
                                assert(subdirs@[j0].0@ == dest.subdirs@[jd].0@);
                            }
                        }
                    }
                },
                None => {},
            }
            i += 1;
        }
        let r = DirState { files, subdirs };
        proof {
            lemma_subdirs_map_dom(self.subdirs@);
            lemma_subdirs_map_dom(dest.subdirs@);
            lemma_subdirs_map_at(dest.subdirs@);
            lemma_subdirs_map_dom(r.subdirs@);
            lemma_subdirs_map_at(r.subdirs@);
            let target = prune_effect(self@, dest@).subdirs;
            assert forall|k: Seq<char>| #[trigger]
                subdirs_map_of(r.subdirs@).dom().contains(k) implies target.dom().contains(k)
                && subdirs_map_of(r.subdirs@)[k] == target[k] by {
                let j = choose|j: int|
                    0 <= j < r.subdirs@.len() && (#[trigger] r.subdirs@[j]).0@ == k;
                assert(subdirs_map_of(r.subdirs@)[k] == view_of(r.subdirs@[j].1));
            }
            assert forall|k: Seq<char>| #[trigger]
                target.dom().contains(k) implies subdirs_map_of(r.subdirs@).dom().contains(
                k,
            ) by {
                assert(dest@.subdirs.dom().contains(k));
                assert(subdirs_map_of(dest.subdirs@).dom().contains(k));
                let jd = choose|jd: int|
                    0 <= jd < dest.subdirs@.len() && (#[trigger] dest.subdirs@[jd]).0@ == k;
                let j = choose|j: int|
                    0 <= j < r.subdirs@.len() && (#[trigger] r.subdirs@[j]).0@
                        == dest.subdirs@[jd].0@;
                assert(r.subdirs@[j].0@ == k);
            }
            assert(subdirs_map_of(r.subdirs@) =~= target);
            assert(r.files@ == files_done);
            assert(file_names_unique(r.files@));
            assert(r.wf());
            assert(r@ =~= prune_effect(self@, dest@));
        }
        r
    }

    /// The file entries recorded at this level, in capture order.
    pub fn file_entries(&self) -> (r: &Vec<(String, FileState)>)
        ensures
            files_map_of(r@) == self@.files,
            self.wf() ==> file_names_unique(r@),
    {
        &self.files
    }

    /// The subdirectory snapshots recorded at this level, in capture order.
    pub fn subdir_entries(&self) -> (r: &Vec<(String, DirState)>)
        ensures
            subdirs_map_of(r@) == self@.subdirs,
            self.wf() ==> subdir_names_unique(r@) && forall|i: int|
                0 <= i < r@.len() ==> (#[trigger] r@[i]).1.wf(),
    {
        &self.subdirs
    }

    /// Record a file of the given name at this level. Directory listings
    /// never repeat a name, so the name must be fresh.
    pub fn add_file(&mut self, name: String, st: FileState)
        requires
            old(self).wf(),
            !old(self)@.files.dom().contains(name@),
        ensures
            final(self).wf(),
            final(self)@.files == old(self)@.files.insert(name@, st),
            final(self)@.subdirs == old(self)@.subdirs,
    {
        proof {
            lemma_files_map_dom(self.files@);
        }
        self.files.push((name, st));
        proof {
            assert(self.files@.drop_last() =~= old(self).files@);
            assert(self@.files == old(self)@.files.insert(name@, st));
            let n = self.files@.len();
            assert(forall|i: int|
                0 <= i < n - 1 ==> #[trigger] self.files@[i] == old(self).files@[i]);
            assert forall|i: int, j: int|
                0 <= i < j < n implies self.files@[i].0@ != self.files@[j].0@ by {
                if j == n - 1 {
                    let s0 = old(self).files@;
                    if s0[i].0@ == name@ {
                        assert(files_map_of(s0).dom().contains(name@));
                        assert(false);
                    }
                }
            }
        }
    }

    /// Record a subdirectory snapshot of the given name at this level. The
    /// name must be fresh.
    pub fn add_subdir(&mut self, name: String, sub: DirState)
        requires
            old(self).wf(),
            sub.wf(),
            !old(self)@.subdirs.dom().contains(name@),
        ensures
            final(self).wf(),
            final(self)@.files == old(self)@.files,
            final(self)@.subdirs == old(self)@.subdirs.insert(name@, sub@),
    {
        proof {
            lemma_subdirs_map_dom(self.subdirs@);
        }
        self.subdirs.push((name, sub));
        proof {
            assert(self.subdirs@.drop_last() =~= old(self).subdirs@);
            assert(self@.subdirs == old(self)@.subdirs.insert(name@, sub@));
            let n = self.subdirs@.len();
            assert(forall|i: int|
                0 <= i < n - 1 ==> #[trigger] self.subdirs@[i] == old(self).subdirs@[i]);
            assert forall|i: int, j: int|
                0 <= i < j < n implies self.subdirs@[i].0@ != self.subdirs@[j].0@ by {
                if j == n - 1 {
                    let s0 = old(self).subdirs@;
                    if s0[i].0@ == name@ {
                        assert(subdirs_map_of(s0).dom().contains(name@));
                        assert(false);
                    }
                }
            }
            assert forall|i: int| 0 <= i < n implies (#[trigger] self.subdirs@[i]).1.wf() by {
                if i < n - 1 {
                    assert(old(self).subdirs@[i].1.wf());
                }
            }
        }
    }
}

} // verus!
