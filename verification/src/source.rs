//! PHP source texts and the root locator.
//!
//! A project declares its single entry point by a structural header line:
//! at the start of some line, behind optional whitespace and an optional
//! `*` (itself possibly followed by whitespace), the literal text
//! `Plugin Name:`.  The first PHP source bearing that marker, in scan
//! order, is the project's root; a project has at most one root by design.

use vstd::prelude::*;

use crate::comments::NL;
use crate::comments::STAR;
use crate::text::opt_view;

verus! {

/// A PHP file handed to the scanner: its path and its full content.
#[derive(Debug)]
pub struct PhpSource {
    pub path: Vec<u8>,
    pub content: Vec<u8>,
}

/// Whitespace within a line: space, tab, carriage return, form feed,
/// vertical tab.  The newline is not included; it ends the line instead.
pub open spec fn is_space(c: u8) -> bool {
    c == 32 || c == 9 || c == 13 || c == 12 || c == 11
}

/// The marker bytes, the text `Plugin Name:`.
pub open spec fn marker() -> Seq<u8> {
    seq![80u8, 108u8, 117u8, 103u8, 105u8, 110u8, 32u8, 78u8, 97u8, 109u8, 101u8, 58u8]
}

/// `s` with its leading in-line whitespace removed.
pub open spec fn skip_spaces(s: Seq<u8>) -> Seq<u8>
    decreases s.len(),
{
    if s.len() > 0 && is_space(s[0]) {
        skip_spaces(s.skip(1))
    } else {
        s
    }
}

/// Whether the line beginning at the head of `s` bears the header marker:
/// whitespace, an optional `*` with more whitespace, then `Plugin Name:`.
pub open spec fn line_has_marker(s: Seq<u8>) -> bool {
    let t = skip_spaces(s);
    let u = if t.len() > 0 && t[0] == STAR {
        skip_spaces(t.skip(1))
    } else {
        t
    };
    u.len() >= marker().len() && u.take(marker().len() as int) == marker()
}

/// Whether position `p` starts a line of `s`.
pub open spec fn is_line_start(s: Seq<u8>, p: int) -> bool {
    0 <= p <= s.len() && (p == 0 || s[p - 1] == NL)
}

/// Whether some line of `s` bears the plugin header marker.
pub open spec fn has_plugin_header(s: Seq<u8>) -> bool {
    exists|p: int| is_line_start(s, p) && #[trigger] line_has_marker(s.skip(p))
}

/// Whether the marker stands verbatim at position `q` of `s`.
fn marker_at(s: &Vec<u8>, q: usize) -> (r: bool)
    requires
        q <= s@.len(),
    ensures
        r == (s@.skip(q as int).len() >= marker().len() && s@.skip(q as int).take(
            marker().len() as int,
        ) == marker()),
{
    let n = s.len();
    let m: Vec<u8> = vec![80u8, 108u8, 117u8, 103u8, 105u8, 110u8, 32u8, 78u8, 97u8, 109u8, 101u8, 58u8];
    proof {
        assert(m@ =~= marker());
    }
    if n - q < 12 {
        return false;
    }
    let mut idx: usize = 0;
    while idx < 12
        invariant
            n == s@.len(),
            q + 12 <= n,
            m@ == marker(),
            idx <= 12,
            forall|k: int| 0 <= k < idx ==> s@[q + k] == marker()[k],
        decreases 12 - idx,
    {
        if s[q + idx] != m[idx] {
            proof {
                assert(s@.skip(q as int).take(marker().len() as int)[idx as int] == s@[q + idx]);
            }
            return false;
        }
        idx = idx + 1;
    }
    proof {
        assert(s@.skip(q as int).take(marker().len() as int) =~= marker());
    }
    true
}

/// Whether the line of `s` beginning at `p` bears the header marker.
fn line_marker_at(s: &Vec<u8>, p: usize) -> (r: bool)
    requires
        p <= s@.len(),
    ensures
        r == line_has_marker(s@.skip(p as int)),
{
    let n = s.len();
    let mut q: usize = p;
    proof {
        assert(s@.skip(p as int).skip(0) =~= s@.skip(p as int));
    }
    while q < n && (s[q] == 32 || s[q] == 9 || s[q] == 13 || s[q] == 12 || s[q] == 11)
        invariant
            n == s@.len(),
            p <= q <= n,
            skip_spaces(s@.skip(p as int)) == skip_spaces(s@.skip(q as int)),
        decreases n - q,
    {
        proof {
            let t = s@.skip(q as int);
            assert(t[0] == s@[q as int]);
            assert(t.skip(1) =~= s@.skip(q + 1));
        }
        q = q + 1;
    }
    proof {
        let t = s@.skip(q as int);
        if t.len() > 0 {
            assert(t[0] == s@[q as int]);
        }
        assert(skip_spaces(s@.skip(q as int)) == s@.skip(q as int));
    }
    let start: usize = if q < n && s[q] == STAR {
        let mut q2: usize = q + 1;
        proof {
            let t = s@.skip(q as int);
            assert(t[0] == STAR);
            assert(t.skip(1) =~= s@.skip(q + 1));
        }
        while q2 < n && (s[q2] == 32 || s[q2] == 9 || s[q2] == 13 || s[q2] == 12 || s[q2] == 11)
            invariant
                n == s@.len(),
                q + 1 <= q2 <= n,
                skip_spaces(s@.skip(q + 1)) == skip_spaces(s@.skip(q2 as int)),
            decreases n - q2,
        {
            proof {
                let t = s@.skip(q2 as int);
                assert(t[0] == s@[q2 as int]);
                assert(t.skip(1) =~= s@.skip(q2 + 1));
            }
            q2 = q2 + 1;
        }
        proof {
            let t = s@.skip(q2 as int);
            if t.len() > 0 {
                assert(t[0] == s@[q2 as int]);
            }
            assert(skip_spaces(s@.skip(q2 as int)) == s@.skip(q2 as int));
        }
        q2
    } else {
        q
    };
    marker_at(s, start)
}

/// Whether some line of the content bears the plugin header marker.
pub fn content_has_header(s: &Vec<u8>) -> (r: bool)
    ensures
        r == has_plugin_header(s@),
{
    let n = s.len();
    let mut p: usize = 0;
    while p < n
        invariant
            n == s@.len(),
            p <= n,
            p == n || is_line_start(s@, p as int),
            forall|pp: int|
                is_line_start(s@, pp) && pp < p ==> !(#[trigger] line_has_marker(s@.skip(pp))),
        decreases n - p,
    {
        if line_marker_at(s, p) {
            return true;
        }
        let mut r: usize = p;
        while r < n && s[r] != NL
            invariant
                n == s@.len(),
                p <= r <= n,
                forall|k: int| p <= k < r ==> s@[k] != NL,
            decreases n - r,
        {
            r = r + 1;
        }
        if r < n {
            p = r + 1;
        } else {
            p = n;
        }
    }
    proof {
        assert(s@.skip(n as int) =~= Seq::<u8>::empty());
        assert(skip_spaces(Seq::<u8>::empty()) == Seq::<u8>::empty());
        assert(!line_has_marker(Seq::<u8>::empty()));
    }
    false
}

/// The index of the first source whose content bears the header marker;
/// the length of `ss` when none does.
pub open spec fn first_root_idx(ss: Seq<PhpSource>) -> int
    decreases ss.len(),
{
    if ss.len() == 0 {
        0
    } else if has_plugin_header(ss[0].content@) {
        0
    } else {
        1 + first_root_idx(ss.skip(1))
    }
}

/// The path of the first source whose content bears the header marker.
pub open spec fn first_root(ss: Seq<PhpSource>) -> Option<Seq<u8>>
    decreases ss.len(),
{
    if ss.len() == 0 {
        None
    } else if has_plugin_header(ss[0].content@) {
        Some(ss[0].path@)
    } else {
        first_root(ss.skip(1))
    }
}

/// Root exclusivity: the root set holds at most one path (it is an
/// `Option`), and where several sources bear the header marker, the first
/// in scan order is the one designated.
pub proof fn lemma_root_first(ss: Seq<PhpSource>)
    ensures
        0 <= first_root_idx(ss) <= ss.len(),
        first_root_idx(ss) < ss.len() ==> has_plugin_header(ss[first_root_idx(ss)].content@)
            && first_root(ss) == Some(ss[first_root_idx(ss)].path@),
        first_root_idx(ss) == ss.len() ==> first_root(ss) is None,
        forall|j: int|
            0 <= j < first_root_idx(ss) ==> !has_plugin_header((#[trigger] ss[j]).content@),
    decreases ss.len(),
{
    if ss.len() == 0 {
    } else if has_plugin_header(ss[0].content@) {
    } else {
        lemma_root_first(ss.skip(1));
        assert forall|j: int| 0 <= j < first_root_idx(ss) implies !has_plugin_header(
            (#[trigger] ss[j]).content@,
        ) by {
            if j > 0 {
                assert(ss.skip(1)[j - 1] == ss[j]);
            }
        }
        if first_root_idx(ss) < ss.len() {
            assert(ss.skip(1)[first_root_idx(ss) - 1] == ss[first_root_idx(ss)]);
        }
    }
}

/// Scans the PHP sources in order for the structural header marker and
/// designates the first match as the project's single root; `None` when no
/// source bears the marker, in which case every file is eligible for
/// classification.
pub fn find_root_files(sources: &Vec<PhpSource>) -> (r: Option<Vec<u8>>)
    ensures
        opt_view(r) == first_root(sources@),
{
    let n = sources.len();
    let mut k: usize = 0;
    proof {
        assert(sources@.skip(0) =~= sources@);
    }
    while k < n
        invariant
            n == sources@.len(),
            k <= n,
            first_root(sources@) == first_root(sources@.skip(k as int)),
        decreases n - k,
    {
        proof {
            let t = sources@.skip(k as int);
            assert(t[0] == sources@[k as int]);
            assert(t.skip(1) =~= sources@.skip(k + 1));
        }
        if content_has_header(&sources[k].content) {
            return Some(crate::text::copy_bytes(&sources[k].path));
        }
        k = k + 1;
    }
    proof {
        assert(sources@.skip(n as int) =~= Seq::<PhpSource>::empty());
    }
    None
}

} // verus!
