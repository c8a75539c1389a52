//! The dead-file classifier: a pure function of the catalog's final
//! reference state.  Every non-root file lands in exactly one of three
//! terminal states: alive (some live reference), dead (no reference at
//! all), or comment-only-dead (referenced only from comments).  Root files
//! are excluded from classification altogether.

use vstd::prelude::*;

use crate::catalog::Catalog;
use crate::catalog::FileRecord;
use crate::text::bytes_eq;
use crate::text::opt_view;

verus! {

/// Whether `p` is the designated root path.
pub open spec fn is_root_path(p: Seq<u8>, root: Option<Seq<u8>>) -> bool {
    root == Some(p)
}

/// Dead: non-root, no live reference, no comment reference.
pub open spec fn is_dead(f: FileRecord, root: Option<Seq<u8>>) -> bool {
    &&& !is_root_path(f.path@, root)
    &&& f.referenced_by@.len() == 0
    &&& f.referenced_in_comments@.len() == 0
}

/// Comment-only-dead: non-root, no live reference, some comment reference.
pub open spec fn is_comment_dead(f: FileRecord, root: Option<Seq<u8>>) -> bool {
    &&& !is_root_path(f.path@, root)
    &&& f.referenced_by@.len() == 0
    &&& f.referenced_in_comments@.len() > 0
}

/// Alive: non-root with at least one live reference.
pub open spec fn is_alive(f: FileRecord, root: Option<Seq<u8>>) -> bool {
    &&& !is_root_path(f.path@, root)
    &&& f.referenced_by@.len() > 0
}

/// The indices of the dead files, in catalog order.
pub open spec fn dead_indices(files: Seq<FileRecord>, root: Option<Seq<u8>>) -> Seq<int>
    decreases files.len(),
{
    if files.len() == 0 {
        Seq::empty()
    } else {
        let pre = dead_indices(files.drop_last(), root);
        if is_dead(files.last(), root) {
            pre.push(files.len() - 1)
        } else {
            pre
        }
    }
}

/// The indices of the comment-only-dead files, in catalog order.
pub open spec fn comment_dead_indices(files: Seq<FileRecord>, root: Option<Seq<u8>>) -> Seq<int>
    decreases files.len(),
{
    if files.len() == 0 {
        Seq::empty()
    } else {
        let pre = comment_dead_indices(files.drop_last(), root);
        if is_comment_dead(files.last(), root) {
            pre.push(files.len() - 1)
        } else {
            pre
        }
    }
}

/// The indices of the alive files, in catalog order.
pub open spec fn alive_indices(files: Seq<FileRecord>, root: Option<Seq<u8>>) -> Seq<int>
    decreases files.len(),
{
    if files.len() == 0 {
        Seq::empty()
    } else {
        let pre = alive_indices(files.drop_last(), root);
        if is_alive(files.last(), root) {
            pre.push(files.len() - 1)
        } else {
            pre
        }
    }
}

/// The views of a list of indices, as mathematical integers.
pub open spec fn idx_views(l: Seq<usize>) -> Seq<int> {
    Seq::new(l.len(), |i: int| l[i] as int)
}

proof fn lemma_push_contains(pre: Seq<int>, e: int, x: int)
    ensures
        pre.push(e).contains(x) <==> (pre.contains(x) || x == e),
{
    if pre.contains(x) {
        let i = choose|i: int| 0 <= i < pre.len() && pre[i] == x;
        assert(pre.push(e)[i] == x);
    }
    if x == e {
        assert(pre.push(e)[pre.len() as int] == x);
    }
    if pre.push(e).contains(x) && !(pre.contains(x) || x == e) {
        let i = choose|i: int| 0 <= i < pre.push(e).len() && pre.push(e)[i] == x;
        if i < pre.len() {
            assert(pre[i] == x);
        }
    }
}

proof fn lemma_dead_indices_range(files: Seq<FileRecord>, root: Option<Seq<u8>>)
    ensures
        forall|x: int| #[trigger] dead_indices(files, root).contains(x) ==> 0 <= x < files.len(),
    decreases files.len(),
{
    if files.len() > 0 {
        lemma_dead_indices_range(files.drop_last(), root);
        let pre = dead_indices(files.drop_last(), root);
        if is_dead(files.last(), root) {
            assert forall|x: int| #[trigger] dead_indices(files, root).contains(x) implies 0 <= x
                < files.len() by {
                lemma_push_contains(pre, files.len() - 1, x);
            }
        }
    }
}

proof fn lemma_comment_dead_indices_range(files: Seq<FileRecord>, root: Option<Seq<u8>>)
    ensures
        forall|x: int| #[trigger]
            comment_dead_indices(files, root).contains(x) ==> 0 <= x < files.len(),
    decreases files.len(),
{
    if files.len() > 0 {
        lemma_comment_dead_indices_range(files.drop_last(), root);
        let pre = comment_dead_indices(files.drop_last(), root);
        if is_comment_dead(files.last(), root) {
            assert forall|x: int| #[trigger]
                comment_dead_indices(files, root).contains(x) implies 0 <= x < files.len() by {
                lemma_push_contains(pre, files.len() - 1, x);
            }
        }
    }
}

proof fn lemma_alive_indices_range(files: Seq<FileRecord>, root: Option<Seq<u8>>)
    ensures
        forall|x: int| #[trigger] alive_indices(files, root).contains(x) ==> 0 <= x < files.len(),
    decreases files.len(),
{
    if files.len() > 0 {
        lemma_alive_indices_range(files.drop_last(), root);
        let pre = alive_indices(files.drop_last(), root);
        if is_alive(files.last(), root) {
            assert forall|x: int| #[trigger] alive_indices(files, root).contains(x) implies 0 <= x
                < files.len() by {
                lemma_push_contains(pre, files.len() - 1, x);
            }
        }
    }
}

/// Membership in the dead list means exactly that the file is dead.
pub proof fn lemma_dead_characterization(files: Seq<FileRecord>, root: Option<Seq<u8>>, k: int)
    requires
        0 <= k < files.len(),
    ensures
        dead_indices(files, root).contains(k) <==> is_dead(files[k], root),
    decreases files.len(),
{
    let pre = dead_indices(files.drop_last(), root);
    if is_dead(files.last(), root) {
        lemma_push_contains(pre, files.len() - 1, k);
    }
    if k == files.len() - 1 {
        lemma_dead_indices_range(files.drop_last(), root);
        assert(!pre.contains(k));
    } else {
        lemma_dead_characterization(files.drop_last(), root, k);
        assert(files.drop_last()[k] == files[k]);
    }
}

/// Membership in the comment-only-dead list means exactly that the file is
/// comment-only-dead.
pub proof fn lemma_comment_dead_characterization(
    files: Seq<FileRecord>,
    root: Option<Seq<u8>>,
    k: int,
)
    requires
        0 <= k < files.len(),
    ensures
        comment_dead_indices(files, root).contains(k) <==> is_comment_dead(files[k], root),
    decreases files.len(),
{
    let pre = comment_dead_indices(files.drop_last(), root);
    if is_comment_dead(files.last(), root) {
        lemma_push_contains(pre, files.len() - 1, k);
    }
    if k == files.len() - 1 {
        lemma_comment_dead_indices_range(files.drop_last(), root);
        assert(!pre.contains(k));
    } else {
        lemma_comment_dead_characterization(files.drop_last(), root, k);
        assert(files.drop_last()[k] == files[k]);
    }
}

/// Membership in the alive list means exactly that the file is alive.
pub proof fn lemma_alive_characterization(files: Seq<FileRecord>, root: Option<Seq<u8>>, k: int)
    requires
        0 <= k < files.len(),
    ensures
        alive_indices(files, root).contains(k) <==> is_alive(files[k], root),
    decreases files.len(),
{
    let pre = alive_indices(files.drop_last(), root);
    if is_alive(files.last(), root) {
        lemma_push_contains(pre, files.len() - 1, k);
    }
    if k == files.len() - 1 {
        lemma_alive_indices_range(files.drop_last(), root);
        assert(!pre.contains(k));
    } else {
        lemma_alive_characterization(files.drop_last(), root, k);
        assert(files.drop_last()[k] == files[k]);
    }
}

/// A file with at least one live reference never appears in either output
/// list, root or not.
pub proof fn lemma_alive_never_listed(files: Seq<FileRecord>, root: Option<Seq<u8>>, k: int)
    requires
        0 <= k < files.len(),
        files[k].referenced_by@.len() > 0,
    ensures
        !dead_indices(files, root).contains(k),
        !comment_dead_indices(files, root).contains(k),
{
    lemma_dead_characterization(files, root, k);
    lemma_comment_dead_characterization(files, root, k);
}

/// The three states partition the non-root catalog: every non-root file is
/// in exactly one of the alive, dead, and comment-only-dead lists.
pub proof fn lemma_partition(files: Seq<FileRecord>, root: Option<Seq<u8>>, k: int)
    requires
        0 <= k < files.len(),
        !is_root_path(files[k].path@, root),
    ensures
        alive_indices(files, root).contains(k) || dead_indices(files, root).contains(k)
            || comment_dead_indices(files, root).contains(k),
        !(alive_indices(files, root).contains(k) && dead_indices(files, root).contains(k)),
        !(alive_indices(files, root).contains(k) && comment_dead_indices(files, root).contains(k)),
        !(dead_indices(files, root).contains(k) && comment_dead_indices(files, root).contains(k)),
{
    lemma_dead_characterization(files, root, k);
    lemma_comment_dead_characterization(files, root, k);
    lemma_alive_characterization(files, root, k);
}

/// Classification is a pure function of the reference state: catalogs whose
/// records agree pointwise on path and reference counts classify
/// identically, so repeating a classification yields the same sets.
pub proof fn lemma_classify_extensional(
    a: Seq<FileRecord>,
    b: Seq<FileRecord>,
    root: Option<Seq<u8>>,
)
    requires
        a.len() == b.len(),
        forall|k: int|
            0 <= k < a.len() ==> {
                &&& (#[trigger] b[k]).path@ == a[k].path@
                &&& b[k].referenced_by@.len() == a[k].referenced_by@.len()
                &&& b[k].referenced_in_comments@.len() == a[k].referenced_in_comments@.len()
            },
    ensures
        dead_indices(a, root) == dead_indices(b, root),
        comment_dead_indices(a, root) == comment_dead_indices(b, root),
        alive_indices(a, root) == alive_indices(b, root),
    decreases a.len(),
{
    if a.len() > 0 {
        assert(forall|k: int|
            0 <= k < a.drop_last().len() ==> {
                &&& (#[trigger] b.drop_last()[k]).path@ == a.drop_last()[k].path@
                &&& b.drop_last()[k].referenced_by@.len() == a.drop_last()[k].referenced_by@.len()
                &&& b.drop_last()[k].referenced_in_comments@.len()
                    == a.drop_last()[k].referenced_in_comments@.len()
            });
        lemma_classify_extensional(a.drop_last(), b.drop_last(), root);
        assert(b.last().path@ == a.last().path@);
    }
}

impl Catalog {
    /// Partitions the catalogued files against the given root: the first
    /// list holds the indices of the dead files, the second those of the
    /// comment-only-dead files, each in catalog order.  Alive files and the
    /// root appear in neither.  The classification reads nothing but the
    /// final reference state, so repeated calls return identical lists.
    #[verifier::loop_isolation(false)]
    pub fn find_dead_files(&self, root: &Option<Vec<u8>>) -> (r: (Vec<usize>, Vec<usize>))
        ensures
            idx_views(r.0@) == dead_indices(self.files@, opt_view(*root)),
            idx_views(r.1@) == comment_dead_indices(self.files@, opt_view(*root)),
    {
        let ghost rv = opt_view(*root);
        let n = self.files.len();
        let mut dead: Vec<usize> = Vec::new();
        let mut cdead: Vec<usize> = Vec::new();
        let mut k: usize = 0;
        proof {
            assert(self.files@.take(0) =~= Seq::<FileRecord>::empty());
            assert(idx_views(dead@) =~= dead_indices(self.files@.take(0), rv));
            assert(idx_views(cdead@) =~= comment_dead_indices(self.files@.take(0), rv));
        }
        while k < n
            invariant
                k <= n,
                idx_views(dead@) == dead_indices(self.files@.take(k as int), rv),
                idx_views(cdead@) == comment_dead_indices(self.files@.take(k as int), rv),
            decreases n - k,
        {
            proof {
                let tk = self.files@.take(k + 1);
                assert(tk.drop_last() =~= self.files@.take(k as int));
                assert(tk.last() == self.files@[k as int]);
            }
            let at_root: bool = match root {
                Some(rp) => bytes_eq(rp, &self.files[k].path),
                None => false,
            };
            proof {
                assert(at_root == is_root_path(self.files@[k as int].path@, rv));
            }
            if !at_root && self.files[k].referenced_by.len() == 0 {
                if self.files[k].referenced_in_comments.len() == 0 {
                    let ghost before = dead@;
                    dead.push(k);
                    proof {
                        assert(idx_views(before.push(k)) =~= idx_views(before).push(k as int));
                    }
                } else {
                    let ghost before = cdead@;
                    cdead.push(k);
                    proof {
                        assert(idx_views(before.push(k)) =~= idx_views(before).push(k as int));
                    }
                }
            }
            k = k + 1;
        }
        proof {
            assert(self.files@.take(n as int) =~= self.files@);
        }
        (dead, cdead)
    }

    /// The indices of the alive files, in catalog order: the non-root files
    /// with at least one live referrer.
    #[verifier::loop_isolation(false)]
    pub fn find_alive_files(&self, root: &Option<Vec<u8>>) -> (r: Vec<usize>)
        ensures
            idx_views(r@) == alive_indices(self.files@, opt_view(*root)),
    {
        let ghost rv = opt_view(*root);
        let n = self.files.len();
        let mut alive: Vec<usize> = Vec::new();
        let mut k: usize = 0;
        proof {
            assert(self.files@.take(0) =~= Seq::<FileRecord>::empty());
            assert(idx_views(alive@) =~= alive_indices(self.files@.take(0), rv));
        }
        while k < n
            invariant
                k <= n,
                idx_views(alive@) == alive_indices(self.files@.take(k as int), rv),
            decreases n - k,
        {
            proof {
                let tk = self.files@.take(k + 1);
                assert(tk.drop_last() =~= self.files@.take(k as int));
                assert(tk.last() == self.files@[k as int]);
            }
            let at_root: bool = match root {
                Some(rp) => bytes_eq(rp, &self.files[k].path),
                None => false,
            };
            proof {
                assert(at_root == is_root_path(self.files@[k as int].path@, rv));
            }
            if !at_root && self.files[k].referenced_by.len() > 0 {
                let ghost before = alive@;
                alive.push(k);
                proof {
                    assert(idx_views(before.push(k)) =~= idx_views(before).push(k as int));
                }
            }
            k = k + 1;
        }
        proof {
            assert(self.files@.take(n as int) =~= self.files@);
        }
        alive
    }
}

} // verus!
