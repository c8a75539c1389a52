//! The file catalog: one record per discovered file, keyed by path, with the
//! ordered list of PHP paths that drives reference scanning.

use vstd::prelude::*;

use crate::text::basename;
use crate::text::basename_of;
use crate::text::bytes_eq;
use crate::text::copy_bytes;
use crate::text::opt_view;
use crate::text::seq_views;

verus! {

/// The kind of an analyzable file, fixed once by its extension.
#[derive(Clone, Copy, PartialEq, Eq, Structural, Debug)]
pub enum FileKind {
    Php,
    JavaScript,
    Css,
}

/// Lowercases one ASCII byte; every other byte is unchanged.
pub open spec fn lower_byte(c: u8) -> u8 {
    if 65 <= c <= 90 {
        (c + 32) as u8
    } else {
        c
    }
}

/// The ASCII lowercasing of a byte string.
pub open spec fn lower_of(s: Seq<u8>) -> Seq<u8> {
    Seq::new(s.len(), |i: int| lower_byte(s[i]))
}

/// The extension bytes `php`.
pub open spec fn ext_php() -> Seq<u8> {
    seq![112u8, 104u8, 112u8]
}

/// The extension bytes `js`.
pub open spec fn ext_js() -> Seq<u8> {
    seq![106u8, 115u8]
}

/// The extension bytes `css`.
pub open spec fn ext_css() -> Seq<u8> {
    seq![99u8, 115u8, 115u8]
}

/// The kind an extension selects, compared case-insensitively; `None` for
/// any unrecognized extension.
pub open spec fn kind_of_ext(ext: Seq<u8>) -> Option<FileKind> {
    if lower_of(ext) == ext_php() {
        Some(FileKind::Php)
    } else if lower_of(ext) == ext_js() {
        Some(FileKind::JavaScript)
    } else if lower_of(ext) == ext_css() {
        Some(FileKind::Css)
    } else {
        None
    }
}

/// The ASCII-lowercased copy of a byte string.
fn lower_ascii(s: &Vec<u8>) -> (r: Vec<u8>)
    ensures
        r@ == lower_of(s@),
{
    let n = s.len();
    let mut r: Vec<u8> = Vec::new();
    let mut i: usize = 0;
    while i < n
        invariant
            n == s@.len(),
            i <= n,
            r@.len() == i,
            forall|k: int| 0 <= k < i ==> r@[k] == lower_byte(s@[k]),
        decreases n - i,
    {
        let c = s[i];
        if 65 <= c && c <= 90 {
            r.push(c + 32);
        } else {
            r.push(c);
        }
        i = i + 1;
    }
    proof {
        assert(r@ =~= lower_of(s@));
    }
    r
}

impl FileKind {
    /// The kind for an extension, compared ASCII-case-insensitively against
    /// `php`, `js` and `css`.
    pub fn from_extension(ext: &Vec<u8>) -> (r: Option<FileKind>)
        ensures
            r == kind_of_ext(ext@),
    {
        let low = lower_ascii(ext);
        let php: Vec<u8> = vec![112u8, 104u8, 112u8];
        let js: Vec<u8> = vec![106u8, 115u8];
        let css: Vec<u8> = vec![99u8, 115u8, 115u8];
        proof {
            assert(php@ =~= ext_php());
            assert(js@ =~= ext_js());
            assert(css@ =~= ext_css());
        }
        if bytes_eq(&low, &php) {
            Some(FileKind::Php)
        } else if bytes_eq(&low, &js) {
            Some(FileKind::JavaScript)
        } else if bytes_eq(&low, &css) {
            Some(FileKind::Css)
        } else {
            None
        }
    }

    /// The extensions recognized for this kind, each as a byte string.
    pub fn extensions(&self) -> (r: Vec<Vec<u8>>)
        ensures
            r@.len() == 1,
            *self == FileKind::Php ==> r@[0]@ == ext_php(),
            *self == FileKind::JavaScript ==> r@[0]@ == ext_js(),
            *self == FileKind::Css ==> r@[0]@ == ext_css(),
    {
        let mut r: Vec<Vec<u8>> = Vec::new();
        match self {
            FileKind::Php => {
                let v: Vec<u8> = vec![112u8, 104u8, 112u8];
                proof {
                    assert(v@ =~= ext_php());
                }
                r.push(v);
            },
            FileKind::JavaScript => {
                let v: Vec<u8> = vec![106u8, 115u8];
                proof {
                    assert(v@ =~= ext_js());
                }
                r.push(v);
            },
            FileKind::Css => {
                let v: Vec<u8> = vec![99u8, 115u8, 115u8];
                proof {
                    assert(v@ =~= ext_css());
                }
                r.push(v);
            },
        }
        r
    }
}

/// One discovered file: its path, its kind, and the PHP files that mention
/// its base filename in code, or only in comments.  The two lists are
/// appended to during the single scanning pass and never otherwise changed;
/// a given referrer lands in at most one of them.
#[derive(Debug)]
pub struct FileRecord {
    pub path: Vec<u8>,
    pub kind: FileKind,
    pub referenced_by: Vec<Vec<u8>>,
    pub referenced_in_comments: Vec<Vec<u8>>,
}

/// The catalog of discovered files.
#[derive(Debug)]
pub struct Catalog {
    pub files: Vec<FileRecord>,
    pub php_files: Vec<Vec<u8>>,
}

/// Whether some record of `files` has path `p`.
pub open spec fn spec_has_path(files: Seq<FileRecord>, p: Seq<u8>) -> bool {
    exists|k: int| 0 <= k < files.len() && (#[trigger] files[k]).path@ == p
}

/// The paths of the PHP records of `files`, in catalog order.
pub open spec fn php_paths_of(files: Seq<FileRecord>) -> Seq<Seq<u8>>
    decreases files.len(),
{
    if files.len() == 0 {
        Seq::empty()
    } else {
        let pre = php_paths_of(files.drop_last());
        if files.last().kind == FileKind::Php {
            pre.push(files.last().path@)
        } else {
            pre
        }
    }
}

/// The first record of `files`, in order, whose base filename is `name`.
pub open spec fn first_with_basename(files: Seq<FileRecord>, name: Seq<u8>) -> Option<Seq<u8>>
    decreases files.len(),
{
    if files.len() == 0 {
        None
    } else if basename_of(files[0].path@) == name {
        Some(files[0].path@)
    } else {
        first_with_basename(files.skip(1), name)
    }
}

impl Catalog {
    /// Well-formedness: paths are unique, and `php_files` lists exactly the
    /// paths of the PHP records, in catalog order.
    pub open spec fn wf(&self) -> bool {
        &&& forall|a: int, b: int|
            #![trigger self.files@[a], self.files@[b]]
            0 <= a < b < self.files@.len() ==> self.files@[a].path@ != self.files@[b].path@
        &&& seq_views(self.php_files@) == php_paths_of(self.files@)
    }

    /// An empty catalog.
    pub fn new() -> (r: Catalog)
        ensures
            r.wf(),
            r.files@.len() == 0,
            r.php_files@.len() == 0,
    {
        let r = Catalog { files: Vec::new(), php_files: Vec::new() };
        proof {
            assert(seq_views(r.php_files@) =~= php_paths_of(r.files@));
        }
        r
    }

    /// Whether `p` is already catalogued.
    pub fn has_path(&self, p: &Vec<u8>) -> (r: bool)
        ensures
            r == spec_has_path(self.files@, p@),
    {
        let n = self.files.len();
        let mut k: usize = 0;
        while k < n
            invariant
                n == self.files@.len(),
                k <= n,
                forall|kk: int| 0 <= kk < k ==> (#[trigger] self.files@[kk]).path@ != p@,
            decreases n - k,
        {
            if bytes_eq(&self.files[k].path, p) {
                return true;
            }
            k = k + 1;
        }
        false
    }

    /// Catalogues a newly discovered file with empty reference lists,
    /// keyed by its path; a PHP path is also appended to `php_files`.
    /// A path that is already catalogued leaves the catalog unchanged.
    pub fn insert_file(&mut self, path: Vec<u8>, kind: FileKind)
        requires
            old(self).wf(),
        ensures
            final(self).wf(),
            spec_has_path(old(self).files@, path@) ==> *final(self) == *old(self),
            !spec_has_path(old(self).files@, path@) ==> {
                &&& final(self).files@.len() == old(self).files@.len() + 1
                &&& final(self).files@.subrange(0, old(self).files@.len() as int) == old(
                    self,
                ).files@
                &&& final(self).files@.last().path@ == path@
                &&& final(self).files@.last().kind == kind
                &&& final(self).files@.last().referenced_by@.len() == 0
                &&& final(self).files@.last().referenced_in_comments@.len() == 0
                &&& kind == FileKind::Php ==> final(self).php_files@.len() == old(
                    self,
                ).php_files@.len() + 1 && final(self).php_files@.last()@ == path@
                &&& kind != FileKind::Php ==> final(self).php_files == old(self).php_files
            },
    {
        if self.has_path(&path) {
            return ;
        }
        if kind == FileKind::Php {
            let c = copy_bytes(&path);
            self.php_files.push(c);
        }
        let rec = FileRecord {
            path,
            kind,
            referenced_by: Vec::new(),
            referenced_in_comments: Vec::new(),
        };
        self.files.push(rec);
        proof {
            assert(self.files@.drop_last() =~= old(self).files@);
            assert(self.files@.subrange(0, old(self).files@.len() as int) =~= old(self).files@);
            assert(seq_views(self.php_files@) =~= php_paths_of(self.files@));
        }
    }

    /// Looks a name up by base filename: the first catalogued file, in
    /// catalog (insertion) order, whose base filename equals `name`.  The
    /// insertion order makes the tie-break among files sharing a basename
    /// deterministic.
    pub fn find_by_basename(&self, name: &Vec<u8>) -> (r: Option<Vec<u8>>)
        ensures
            opt_view(r) == first_with_basename(self.files@, name@),
    {
        let n = self.files.len();
        let mut k: usize = 0;
        proof {
            assert(self.files@.skip(0) =~= self.files@);
        }
        while k < n
            invariant
                n == self.files@.len(),
                k <= n,
                first_with_basename(self.files@, name@) == first_with_basename(
                    self.files@.skip(k as int),
                    name@,
                ),
            decreases n - k,
        {
            proof {
                let t = self.files@.skip(k as int);
                assert(t[0] == self.files@[k as int]);
                assert(t.skip(1) =~= self.files@.skip(k + 1));
            }
            let b = basename(&self.files[k].path);
            if bytes_eq(&b, name) {
                return Some(copy_bytes(&self.files[k].path));
            }
            k = k + 1;
        }
        proof {
            assert(self.files@.skip(n as int) =~= Seq::<FileRecord>::empty());
        }
        None
    }
}

} // verus!
