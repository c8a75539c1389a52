//! The reference scanner: one pass over the PHP sources that fills in the
//! catalog's reference lists.
//!
//! For a referrer `P` and a target `F` (any catalogued file other than `P`
//! itself), the match is pure substring containment of `F`'s base filename:
//! in `P`'s code-only text it is a live reference, otherwise in `P`'s
//! comment-only text it is a comment-only reference.  A referrer contributes
//! to at most one of the two lists of a given target.  The substring match
//! carries no word-boundary or path awareness; that trade-off, favoring few
//! false negatives over some false positives, is deliberate.

use vstd::prelude::*;

use crate::catalog::php_paths_of;
use crate::catalog::Catalog;
use crate::catalog::FileRecord;
use crate::comments::code_only;
use crate::comments::code_only_of;
use crate::comments::comment_only;
use crate::comments::comment_only_of;
use crate::source::PhpSource;
use crate::text::basename;
use crate::text::basename_of;
use crate::text::bytes_eq;
use crate::text::contains_sub;
use crate::text::copy_bytes;
use crate::text::seq_views;
use crate::text::spec_contains;

verus! {

/// Whether the code-only text of a referrer's content contains the base
/// filename of `target` as a substring.
pub open spec fn code_refs(content: Seq<u8>, target: Seq<u8>) -> bool {
    spec_contains(code_only_of(content), basename_of(target))
}

/// Whether only the comment-only text of a referrer's content contains the
/// base filename of `target`.
pub open spec fn comment_refs(content: Seq<u8>, target: Seq<u8>) -> bool {
    !code_refs(content, target) && spec_contains(comment_only_of(content), basename_of(target))
}

/// The paths of the sources, other than `target` itself, whose code-only
/// text mentions `target`'s base filename, in scan order.
pub open spec fn code_referrers(ss: Seq<PhpSource>, target: Seq<u8>) -> Seq<Seq<u8>>
    decreases ss.len(),
{
    if ss.len() == 0 {
        Seq::empty()
    } else {
        let pre = code_referrers(ss.drop_last(), target);
        if ss.last().path@ != target && code_refs(ss.last().content@, target) {
            pre.push(ss.last().path@)
        } else {
            pre
        }
    }
}

/// The paths of the sources, other than `target` itself, that mention
/// `target`'s base filename only in comments, in scan order.
pub open spec fn comment_referrers(ss: Seq<PhpSource>, target: Seq<u8>) -> Seq<Seq<u8>>
    decreases ss.len(),
{
    if ss.len() == 0 {
        Seq::empty()
    } else {
        let pre = comment_referrers(ss.drop_last(), target);
        if ss.last().path@ != target && comment_refs(ss.last().content@, target) {
            pre.push(ss.last().path@)
        } else {
            pre
        }
    }
}

/// One scanned referrer: its path and its two derived texts.
struct ScannedSource {
    path: Vec<u8>,
    code: Vec<u8>,
    cmt: Vec<u8>,
}

proof fn lemma_php_paths_congruent(a: Seq<FileRecord>, b: Seq<FileRecord>)
    requires
        a.len() == b.len(),
        forall|k: int|
            0 <= k < a.len() ==> (#[trigger] b[k]).path@ == a[k].path@ && b[k].kind == a[k].kind,
    ensures
        php_paths_of(a) == php_paths_of(b),
    decreases a.len(),
{
    if a.len() > 0 {
        assert(forall|k: int|
            0 <= k < a.drop_last().len() ==> (#[trigger] b.drop_last()[k]).path@
                == a.drop_last()[k].path@ && b.drop_last()[k].kind == a.drop_last()[k].kind);
        lemma_php_paths_congruent(a.drop_last(), b.drop_last());
        assert(b.last().path@ == a.last().path@ && b.last().kind == a.last().kind);
    }
}

impl Catalog {
    /// Scans every handed PHP source against every catalogued file and
    /// appends to the reference lists: for each target other than the
    /// referrer itself, the referrer's path is appended to `referenced_by`
    /// when its code-only text contains the target's base filename, and
    /// otherwise to `referenced_in_comments` when its comment-only text
    /// does.  Paths, kinds, and the PHP list are unchanged.
    #[verifier::loop_isolation(false)]
    pub fn find_references(&mut self, sources: &Vec<PhpSource>)
        requires
            old(self).wf(),
        ensures
            final(self).wf(),
            final(self).php_files == old(self).php_files,
            final(self).files@.len() == old(self).files@.len(),
            forall|k: int|
                0 <= k < old(self).files@.len() ==> {
                    &&& (#[trigger] final(self).files@[k]).path == old(self).files@[k].path
                    &&& final(self).files@[k].kind == old(self).files@[k].kind
                    &&& seq_views(final(self).files@[k].referenced_by@) == seq_views(
                        old(self).files@[k].referenced_by@,
                    ) + code_referrers(sources@, old(self).files@[k].path@)
                    &&& seq_views(final(self).files@[k].referenced_in_comments@) == seq_views(
                        old(self).files@[k].referenced_in_comments@,
                    ) + comment_referrers(sources@, old(self).files@[k].path@)
                },
    {
        let m = sources.len();
        let mut derived: Vec<ScannedSource> = Vec::new();
        let mut t: usize = 0;
        while t < m
            invariant
                t <= m,
                derived@.len() == t,
                forall|tt: int|
                    0 <= tt < t ==> {
                        &&& (#[trigger] derived@[tt]).path@ == sources@[tt].path@
                        &&& derived@[tt].code@ == code_only_of(sources@[tt].content@)
                        &&& derived@[tt].cmt@ == comment_only_of(sources@[tt].content@)
                    },
            decreases m - t,
        {
            let d = ScannedSource {
                path: copy_bytes(&sources[t].path),
                code: code_only(&sources[t].content),
                cmt: comment_only(&sources[t].content),
            };
            derived.push(d);
            t = t + 1;
        }
        let n = self.files.len();
        let mut rebuilt: Vec<FileRecord> = Vec::new();
        proof {
            assert(self.files@.skip(0) =~= self.files@);
        }
        while rebuilt.len() < n
            invariant
                rebuilt@.len() <= n,
                self.php_files == old(self).php_files,
                self.files@ == old(self).files@.skip(rebuilt@.len() as int),
                forall|kk: int|
                    0 <= kk < rebuilt@.len() ==> {
                        &&& (#[trigger] rebuilt@[kk]).path == old(self).files@[kk].path
                        &&& rebuilt@[kk].kind == old(self).files@[kk].kind
                        &&& seq_views(rebuilt@[kk].referenced_by@) == seq_views(
                            old(self).files@[kk].referenced_by@,
                        ) + code_referrers(sources@, old(self).files@[kk].path@)
                        &&& seq_views(rebuilt@[kk].referenced_in_comments@) == seq_views(
                            old(self).files@[kk].referenced_in_comments@,
                        ) + comment_referrers(sources@, old(self).files@[kk].path@)
                    },
            decreases n - rebuilt@.len(),
        {
            let ghost done = rebuilt@.len() as int;
            let ghost f0 = old(self).files@[done];
            proof {
                assert(old(self).files@.skip(done)[0] == old(self).files@[done]);
                assert(old(self).files@.skip(done).remove(0) =~= old(self).files@.skip(done + 1));
            }
            let mut f = self.files.remove(0);
            let name = basename(&f.path);
            let mut t2: usize = 0;
            proof {
                assert(sources@.take(0) =~= Seq::<PhpSource>::empty());
                assert(seq_views(f.referenced_by@) + Seq::<Seq<u8>>::empty() =~= seq_views(
                    f.referenced_by@,
                ));
                assert(seq_views(f.referenced_in_comments@) + Seq::<Seq<u8>>::empty() =~= seq_views(
                    f.referenced_in_comments@,
                ));
            }
            while t2 < m
                invariant
                    t2 <= m,
                    f.path == f0.path,
                    f.kind == f0.kind,
                    f.referenced_by@.len() <= f0.referenced_by@.len() + t2,
                    seq_views(f.referenced_by@) == seq_views(f0.referenced_by@) + code_referrers(
                        sources@.take(t2 as int),
                        f0.path@,
                    ),
                    seq_views(f.referenced_in_comments@) == seq_views(f0.referenced_in_comments@)
                        + comment_referrers(sources@.take(t2 as int), f0.path@),
                decreases m - t2,
            {
                proof {
                    let tk = sources@.take(t2 + 1);
                    assert(tk.drop_last() =~= sources@.take(t2 as int));
                    assert(tk.last() == sources@[t2 as int]);
                }
                let same = bytes_eq(&derived[t2].path, &f.path);
                if !same && contains_sub(&derived[t2].code, &name) {
                    let c = copy_bytes(&derived[t2].path);
                    let ghost before = f.referenced_by@;
                    f.referenced_by.push(c);
                    proof {
                        assert(seq_views(before.push(c)) =~= seq_views(before).push(c@));
                        assert((seq_views(f0.referenced_by@) + code_referrers(
                            sources@.take(t2 as int),
                            f0.path@,
                        )).push(sources@[t2 as int].path@) =~= seq_views(f0.referenced_by@)
                            + code_referrers(sources@.take(t2 as int), f0.path@).push(
                            sources@[t2 as int].path@,
                        ));
                    }
                } else if !same && contains_sub(&derived[t2].cmt, &name) {
                    let c = copy_bytes(&derived[t2].path);
                    let ghost before = f.referenced_in_comments@;
                    f.referenced_in_comments.push(c);
                    proof {
                        assert(seq_views(before.push(c)) =~= seq_views(before).push(c@));
                        assert((seq_views(f0.referenced_in_comments@) + comment_referrers(
                            sources@.take(t2 as int),
                            f0.path@,
                        )).push(sources@[t2 as int].path@) =~= seq_views(
                            f0.referenced_in_comments@,
                        ) + comment_referrers(sources@.take(t2 as int), f0.path@).push(
                            sources@[t2 as int].path@,
                        ));
                    }
                }
                t2 = t2 + 1;
            }
            proof {
                assert(sources@.take(m as int) =~= sources@);
            }
            rebuilt.push(f);
        }
        self.files = rebuilt;
        proof {
            assert(forall|k: int|
                0 <= k < old(self).files@.len() ==> (#[trigger] self.files@[k]).path@ == old(
                    self,
                ).files@[k].path@ && self.files@[k].kind == old(self).files@[k].kind);
            lemma_php_paths_congruent(old(self).files@, self.files@);
        }
    }
}

} // verus!
