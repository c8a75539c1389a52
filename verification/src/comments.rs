//! The comment grammar and the two derived texts of a source file.
//!
//! Three comment patterns are recognized, purely textually (a marker inside a
//! quoted string still starts a comment; that imprecision is deliberate):
//! - line comments: `//` through the end of the line;
//! - block comments: `/*` through the nearest following `*/`, possibly
//!   spanning lines (an unclosed `/*` is not a comment);
//! - hash comments: `#` through the end of the line.
//!
//! From one source text two texts are derived.  `code_only` removes every
//! comment span, block comments first, then line comments, then hash
//! comments.  `comment_only` concatenates every span each pattern captures in
//! the original text, one per line: all line-comment spans, then all
//! block-comment spans, then all hash-comment spans.

use vstd::prelude::*;

use crate::text::spec_contains;
use crate::text::SLASH;

verus! {

/// The byte `'*'`.
pub const STAR: u8 = 42;

/// The byte `'#'`.
pub const HASH: u8 = 35;

/// The newline byte.
pub const NL: u8 = 10;

/// `s` with every block comment removed.  A block comment starts at the
/// first `/*` and ends just past the nearest following `*/`.
pub open spec fn strip_block(s: Seq<u8>) -> Seq<u8>
    decreases s.len(),
{
    if s.len() < 2 {
        s
    } else if s[0] == SLASH && s[1] == STAR && has_close(s.skip(2)) {
        block_tail(s.skip(2))
    } else {
        s.take(1) + strip_block(s.skip(1))
    }
}

/// Whether `*/` occurs somewhere in `s`.
pub open spec fn has_close(s: Seq<u8>) -> bool
    decreases s.len(),
{
    if s.len() < 2 {
        false
    } else if s[0] == STAR && s[1] == SLASH {
        true
    } else {
        has_close(s.skip(1))
    }
}

/// The rest of `strip_block` from inside a block comment: bytes are dropped
/// until just past the closing `*/`.
pub open spec fn block_tail(s: Seq<u8>) -> Seq<u8>
    decreases s.len(),
{
    if s.len() < 2 {
        s
    } else if s[0] == STAR && s[1] == SLASH {
        strip_block(s.skip(2))
    } else {
        block_tail(s.skip(1))
    }
}

/// `s` with every line comment removed: `//` through the end of the line,
/// the newline itself kept.
pub open spec fn strip_line(s: Seq<u8>) -> Seq<u8>
    decreases s.len(),
{
    if s.len() < 2 {
        s
    } else if s[0] == SLASH && s[1] == SLASH {
        line_tail(s.skip(2))
    } else {
        s.take(1) + strip_line(s.skip(1))
    }
}

/// The rest of `strip_line` from inside a line comment: bytes are dropped
/// until the next newline, which is kept.
pub open spec fn line_tail(s: Seq<u8>) -> Seq<u8>
    decreases s.len(),
{
    if s.len() == 0 {
        s
    } else if s[0] == NL {
        seq![NL] + strip_line(s.skip(1))
    } else {
        line_tail(s.skip(1))
    }
}

/// `s` with every hash comment removed: `#` through the end of the line,
/// the newline itself kept.
pub open spec fn strip_hash(s: Seq<u8>) -> Seq<u8>
    decreases s.len(),
{
    if s.len() == 0 {
        s
    } else if s[0] == HASH {
        hash_tail(s.skip(1))
    } else {
        s.take(1) + strip_hash(s.skip(1))
    }
}

/// The rest of `strip_hash` from inside a hash comment.
pub open spec fn hash_tail(s: Seq<u8>) -> Seq<u8>
    decreases s.len(),
{
    if s.len() == 0 {
        s
    } else if s[0] == NL {
        seq![NL] + strip_hash(s.skip(1))
    } else {
        hash_tail(s.skip(1))
    }
}

/// The code-only text: comments removed, block comments first, then line
/// comments, then hash comments.
pub open spec fn code_only_of(s: Seq<u8>) -> Seq<u8> {
    strip_hash(strip_line(strip_block(s)))
}

/// The spans the line-comment pattern captures in `s`, in order.
pub open spec fn line_spans(s: Seq<u8>) -> Seq<Seq<u8>>
    decreases s.len(),
{
    if s.len() < 2 {
        Seq::empty()
    } else if s[0] == SLASH && s[1] == SLASH {
        line_cap(s.skip(2), seq![SLASH, SLASH])
    } else {
        line_spans(s.skip(1))
    }
}

/// Extends the line-comment span `acc` with the bytes of `s` up to the end
/// of the line, then captures the remaining spans.
pub open spec fn line_cap(s: Seq<u8>, acc: Seq<u8>) -> Seq<Seq<u8>>
    decreases s.len(),
{
    if s.len() == 0 {
        seq![acc]
    } else if s[0] == NL {
        seq![acc] + line_spans(s.skip(1))
    } else {
        line_cap(s.skip(1), acc.push(s[0]))
    }
}

/// The spans the block-comment pattern captures in `s`, in order.
pub open spec fn block_spans(s: Seq<u8>) -> Seq<Seq<u8>>
    decreases s.len(),
{
    if s.len() < 2 {
        Seq::empty()
    } else if s[0] == SLASH && s[1] == STAR && has_close(s.skip(2)) {
        block_cap(s.skip(2), seq![SLASH, STAR])
    } else {
        block_spans(s.skip(1))
    }
}

/// Extends the block-comment span `acc` with the bytes of `s` through the
/// closing `*/`, then captures the remaining spans.
pub open spec fn block_cap(s: Seq<u8>, acc: Seq<u8>) -> Seq<Seq<u8>>
    decreases s.len(),
{
    if s.len() < 2 {
        seq![acc]
    } else if s[0] == STAR && s[1] == SLASH {
        seq![acc + seq![STAR, SLASH]] + block_spans(s.skip(2))
    } else {
        block_cap(s.skip(1), acc.push(s[0]))
    }
}

/// The spans the hash-comment pattern captures in `s`, in order.
pub open spec fn hash_spans(s: Seq<u8>) -> Seq<Seq<u8>>
    decreases s.len(),
{
    if s.len() == 0 {
        Seq::empty()
    } else if s[0] == HASH {
        hash_cap(s.skip(1), seq![HASH])
    } else {
        hash_spans(s.skip(1))
    }
}

/// Extends the hash-comment span `acc` with the bytes of `s` up to the end
/// of the line, then captures the remaining spans.
pub open spec fn hash_cap(s: Seq<u8>, acc: Seq<u8>) -> Seq<Seq<u8>>
    decreases s.len(),
{
    if s.len() == 0 {
        seq![acc]
    } else if s[0] == NL {
        seq![acc] + hash_spans(s.skip(1))
    } else {
        hash_cap(s.skip(1), acc.push(s[0]))
    }
}

/// The concatenation of the spans, a newline after each one.
pub open spec fn join_nl(spans: Seq<Seq<u8>>) -> Seq<u8>
    decreases spans.len(),
{
    if spans.len() == 0 {
        Seq::empty()
    } else {
        spans[0] + seq![NL] + join_nl(spans.skip(1))
    }
}

/// The comment-only text: every captured span of the original text, one per
/// line; line-comment spans first, then block, then hash.
pub open spec fn comment_only_of(s: Seq<u8>) -> Seq<u8> {
    join_nl(line_spans(s)) + join_nl(block_spans(s)) + join_nl(hash_spans(s))
}

/// Removes every block comment: `/*` through the nearest `*/`.
pub fn strip_block_comments(s: &Vec<u8>) -> (r: Vec<u8>)
    ensures
        r@ == strip_block(s@),
{
    let n = s.len();
    let mut out: Vec<u8> = Vec::new();
    let mut i: usize = 0;
    proof {
        assert(s@.skip(0) =~= s@);
        assert(Seq::<u8>::empty() + strip_block(s@) =~= strip_block(s@));
    }
    while i < n
        invariant
            n == s@.len(),
            i <= n,
            strip_block(s@) == out@ + strip_block(s@.skip(i as int)),
        decreases n - i,
    {
        if i + 1 < n && s[i] == SLASH && s[i + 1] == STAR {
            let mut j: usize = i + 2;
            while j < n - 1 && !(s[j] == STAR && s[j + 1] == SLASH)
                invariant
                    n == s@.len(),
                    n >= 2,
                    i + 2 <= j <= n,
                    block_tail(s@.skip(i + 2)) == block_tail(s@.skip(j as int)),
                    has_close(s@.skip(i + 2)) == has_close(s@.skip(j as int)),
                decreases n - j,
            {
                proof {
                    let t = s@.skip(j as int);
                    assert(t[0] == s@[j as int] && t[1] == s@[j + 1]);
                    assert(t.skip(1) =~= s@.skip(j + 1));
                }
                j = j + 1;
            }
            proof {
                let u = s@.skip(i as int);
                assert(u[0] == s@[i as int] && u[1] == s@[i + 1]);
                assert(u.skip(2) =~= s@.skip(i + 2));
            }
            if j < n - 1 {
                proof {
                    let t = s@.skip(j as int);
                    assert(t[0] == s@[j as int] && t[1] == s@[j + 1]);
                    assert(t.skip(2) =~= s@.skip(j + 2));
                    assert(has_close(s@.skip(j as int)));
                    assert(strip_block(s@.skip(i as int)) == block_tail(s@.skip(j as int)));
                    assert(block_tail(s@.skip(j as int)) == strip_block(s@.skip(j + 2)));
                }
                i = j + 2;
            } else {
                proof {
                    let t = s@.skip(j as int);
                    assert(t.len() < 2);
                    assert(!has_close(s@.skip(i + 2)));
                    let u = s@.skip(i as int);
                    assert(u.take(1) =~= seq![s@[i as int]]);
                    assert(u.skip(1) =~= s@.skip(i + 1));
                    assert(strip_block(u) == seq![s@[i as int]] + strip_block(s@.skip(i + 1)));
                    assert(out@ + (seq![s@[i as int]] + strip_block(s@.skip(i + 1))) =~= (out@
                        + seq![s@[i as int]]) + strip_block(s@.skip(i + 1)));
                }
                let c = s[i];
                out.push(c);
                i = i + 1;
            }
        } else {
            proof {
                let u = s@.skip(i as int);
                assert(u[0] == s@[i as int]);
                if u.len() < 2 {
                    assert(u =~= seq![s@[i as int]]);
                    assert(s@.skip(i + 1) =~= Seq::<u8>::empty());
                    assert(strip_block(s@.skip(i + 1)) == Seq::<u8>::empty());
                    assert(strip_block(u) == u);
                } else {
                    assert(u[1] == s@[i + 1]);
                    assert(u.take(1) =~= seq![s@[i as int]]);
                    assert(u.skip(1) =~= s@.skip(i + 1));
                }
                assert(strip_block(u) =~= seq![s@[i as int]] + strip_block(s@.skip(i + 1)));
                assert(out@ + (seq![s@[i as int]] + strip_block(s@.skip(i + 1))) =~= (out@
                    + seq![s@[i as int]]) + strip_block(s@.skip(i + 1)));
            }
            let c = s[i];
            out.push(c);
            i = i + 1;
        }
    }
    proof {
        assert(s@.skip(n as int) =~= Seq::<u8>::empty());
        assert(strip_block(Seq::<u8>::empty()) == Seq::<u8>::empty());
        assert(out@ + Seq::<u8>::empty() =~= out@);
    }
    out
}

/// Removes every line comment: `//` through the end of the line.
pub fn strip_line_comments(s: &Vec<u8>) -> (r: Vec<u8>)
    ensures
        r@ == strip_line(s@),
{
    let n = s.len();
    let mut out: Vec<u8> = Vec::new();
    let mut i: usize = 0;
    proof {
        assert(s@.skip(0) =~= s@);
        assert(Seq::<u8>::empty() + strip_line(s@) =~= strip_line(s@));
    }
    while i < n
        invariant
            n == s@.len(),
            i <= n,
            strip_line(s@) == out@ + strip_line(s@.skip(i as int)),
        decreases n - i,
    {
        if i + 1 < n && s[i] == SLASH && s[i + 1] == SLASH {
            let mut j: usize = i + 2;
            while j < n && s[j] != NL
                invariant
                    n == s@.len(),
                    i + 2 <= j <= n,
                    line_tail(s@.skip(i + 2)) == line_tail(s@.skip(j as int)),
                decreases n - j,
            {
                proof {
                    let t = s@.skip(j as int);
                    assert(t[0] == s@[j as int]);
                    assert(t.skip(1) =~= s@.skip(j + 1));
                }
                j = j + 1;
            }
            proof {
                let u = s@.skip(i as int);
                assert(u[0] == s@[i as int] && u[1] == s@[i + 1]);
                assert(u.skip(2) =~= s@.skip(i + 2));
                assert(strip_line(s@.skip(i as int)) == line_tail(s@.skip(j as int)));
            }
            if j < n {
                proof {
                    let t = s@.skip(j as int);
                    assert(t[0] == s@[j as int]);
                    assert(t.skip(1) =~= s@.skip(j + 1));
                    assert(line_tail(t) == seq![NL] + strip_line(s@.skip(j + 1)));
                    assert(out@ + (seq![NL] + strip_line(s@.skip(j + 1))) =~= (out@ + seq![NL])
                        + strip_line(s@.skip(j + 1)));
                }
                out.push(NL);
                i = j + 1;
            } else {
                proof {
                    assert(s@.skip(j as int) =~= Seq::<u8>::empty());
                    assert(line_tail(Seq::<u8>::empty()) == Seq::<u8>::empty());
                }
                i = n;
            }
        } else {
            proof {
                let u = s@.skip(i as int);
                assert(u[0] == s@[i as int]);
                if u.len() < 2 {
                    assert(u =~= seq![s@[i as int]]);
                    assert(s@.skip(i + 1) =~= Seq::<u8>::empty());
                    assert(strip_line(s@.skip(i + 1)) == Seq::<u8>::empty());
                    assert(strip_line(u) == u);
                } else {
                    assert(u[1] == s@[i + 1]);
                    assert(u.take(1) =~= seq![s@[i as int]]);
                    assert(u.skip(1) =~= s@.skip(i + 1));
                }
                assert(strip_line(u) =~= seq![s@[i as int]] + strip_line(s@.skip(i + 1)));
                assert(out@ + (seq![s@[i as int]] + strip_line(s@.skip(i + 1))) =~= (out@
                    + seq![s@[i as int]]) + strip_line(s@.skip(i + 1)));
            }
            let c = s[i];
            out.push(c);
            i = i + 1;
        }
    }
    proof {
        assert(s@.skip(n as int) =~= Seq::<u8>::empty());
        assert(out@ + Seq::<u8>::empty() =~= out@);
    }
    out
}

/// Removes every hash comment: `#` through the end of the line.
pub fn strip_hash_comments(s: &Vec<u8>) -> (r: Vec<u8>)
    ensures
        r@ == strip_hash(s@),
{
    let n = s.len();
    let mut out: Vec<u8> = Vec::new();
    let mut i: usize = 0;
    proof {
        assert(s@.skip(0) =~= s@);
        assert(Seq::<u8>::empty() + strip_hash(s@) =~= strip_hash(s@));
    }
    while i < n
        invariant
            n == s@.len(),
            i <= n,
            strip_hash(s@) == out@ + strip_hash(s@.skip(i as int)),
        decreases n - i,
    {
        if s[i] == HASH {
            let mut j: usize = i + 1;
            while j < n && s[j] != NL
                invariant
                    n == s@.len(),
                    i + 1 <= j <= n,
                    hash_tail(s@.skip(i + 1)) == hash_tail(s@.skip(j as int)),
                decreases n - j,
            {
                proof {
                    let t = s@.skip(j as int);
                    assert(t[0] == s@[j as int]);
                    assert(t.skip(1) =~= s@.skip(j + 1));
                }
                j = j + 1;
            }
            proof {
                let u = s@.skip(i as int);
                assert(u[0] == s@[i as int]);
                assert(u.skip(1) =~= s@.skip(i + 1));
                assert(strip_hash(s@.skip(i as int)) == hash_tail(s@.skip(j as int)));
            }
            if j < n {
                proof {
                    let t = s@.skip(j as int);
                    assert(t[0] == s@[j as int]);
                    assert(t.skip(1) =~= s@.skip(j + 1));
                    assert(hash_tail(t) == seq![NL] + strip_hash(s@.skip(j + 1)));
                    assert(out@ + (seq![NL] + strip_hash(s@.skip(j + 1))) =~= (out@ + seq![NL])
                        + strip_hash(s@.skip(j + 1)));
                }
                out.push(NL);
                i = j + 1;
            } else {
                proof {
                    assert(s@.skip(j as int) =~= Seq::<u8>::empty());
                    assert(hash_tail(Seq::<u8>::empty()) == Seq::<u8>::empty());
                }
                i = n;
            }
        } else {
            proof {
                let u = s@.skip(i as int);
                assert(u[0] == s@[i as int]);
                assert(u.take(1) =~= seq![s@[i as int]]);
                assert(u.skip(1) =~= s@.skip(i + 1));
                assert(strip_hash(u) =~= seq![s@[i as int]] + strip_hash(s@.skip(i + 1)));
                assert(out@ + (seq![s@[i as int]] + strip_hash(s@.skip(i + 1))) =~= (out@
                    + seq![s@[i as int]]) + strip_hash(s@.skip(i + 1)));
            }
            let c = s[i];
            out.push(c);
            i = i + 1;
        }
    }
    proof {
        assert(s@.skip(n as int) =~= Seq::<u8>::empty());
        assert(out@ + Seq::<u8>::empty() =~= out@);
    }
    out
}

/// The code-only text of `s`: block comments removed first, then line
/// comments, then hash comments.
pub fn code_only(s: &Vec<u8>) -> (r: Vec<u8>)
    ensures
        r@ == code_only_of(s@),
{
    let a = strip_block_comments(s);
    let b = strip_line_comments(&a);
    strip_hash_comments(&b)
}

/// Collects every line-comment span, a newline after each.
pub fn extract_line_comments(s: &Vec<u8>) -> (r: Vec<u8>)
    ensures
        r@ == join_nl(line_spans(s@)),
{
    let n = s.len();
    let mut out: Vec<u8> = Vec::new();
    let mut i: usize = 0;
    proof {
        assert(s@.skip(0) =~= s@);
        assert(Seq::<u8>::empty() + join_nl(line_spans(s@)) =~= join_nl(line_spans(s@)));
    }
    while i < n
        invariant
            n == s@.len(),
            i <= n,
            join_nl(line_spans(s@)) == out@ + join_nl(line_spans(s@.skip(i as int))),
        decreases n - i,
    {
        if i + 1 < n && s[i] == SLASH && s[i + 1] == SLASH {
            proof {
                let u = s@.skip(i as int);
                assert(u[0] == s@[i as int] && u[1] == s@[i + 1]);
                assert(u.skip(2) =~= s@.skip(i + 2));
            }
            let ghost pre = out@;
            let ghost mut acc: Seq<u8> = seq![SLASH, SLASH];
            out.push(SLASH);
            out.push(SLASH);
            proof {
                assert(out@ =~= pre + acc);
            }
            let mut j: usize = i + 2;
            while j < n && s[j] != NL
                invariant
                    n == s@.len(),
                    i + 2 <= j <= n,
                    out@ == pre + acc,
                    join_nl(line_spans(s@)) == pre + join_nl(line_cap(s@.skip(j as int), acc)),
                decreases n - j,
            {
                proof {
                    let t = s@.skip(j as int);
                    assert(t[0] == s@[j as int]);
                    assert(t.skip(1) =~= s@.skip(j + 1));
                }
                let c = s[j];
                out.push(c);
                proof {
                    acc = acc.push(s@[j as int]);
                    assert(out@ =~= pre + acc);
                }
                j = j + 1;
            }
            if j < n {
                proof {
                    let t = s@.skip(j as int);
                    assert(t[0] == s@[j as int]);
                    assert(t.skip(1) =~= s@.skip(j + 1));
                    assert(line_cap(t, acc) == seq![acc] + line_spans(s@.skip(j + 1)));
                    lemma_join_nl_cons(acc, line_spans(s@.skip(j + 1)));
                    assert(pre + (acc + seq![NL] + join_nl(line_spans(s@.skip(j + 1)))) =~= ((
                    pre + acc) + seq![NL]) + join_nl(line_spans(s@.skip(j + 1))));
                }
                out.push(NL);
                i = j + 1;
            } else {
                proof {
                    assert(s@.skip(j as int) =~= Seq::<u8>::empty());
                    assert(line_cap(Seq::<u8>::empty(), acc) == seq![acc]);
                    lemma_join_nl_cons(acc, Seq::<Seq<u8>>::empty());
                    assert(seq![acc] + Seq::<Seq<u8>>::empty() =~= seq![acc]);
                    assert(join_nl(Seq::<Seq<u8>>::empty()) == Seq::<u8>::empty());
                    assert(line_spans(Seq::<u8>::empty()) == Seq::<Seq<u8>>::empty());
                    assert(pre + (acc + seq![NL] + Seq::<u8>::empty()) =~= ((pre + acc)
                        + seq![NL]) + Seq::<u8>::empty());
                }
                out.push(NL);
                i = n;
            }
        } else {
            proof {
                let u = s@.skip(i as int);
                assert(u[0] == s@[i as int]);
                if u.len() < 2 {
                    assert(s@.skip(i + 1).len() < 2);
                    assert(line_spans(u) == Seq::<Seq<u8>>::empty());
                    assert(line_spans(s@.skip(i + 1)) == Seq::<Seq<u8>>::empty());
                } else {
                    assert(u[1] == s@[i + 1]);
                    assert(u.skip(1) =~= s@.skip(i + 1));
                }
                assert(line_spans(s@.skip(i as int)) == line_spans(s@.skip(i + 1)));
            }
            i = i + 1;
        }
    }
    proof {
        assert(s@.skip(n as int) =~= Seq::<u8>::empty());
        assert(out@ + Seq::<u8>::empty() =~= out@);
    }
    out
}

/// Collects every block-comment span, a newline after each.
pub fn extract_block_comments(s: &Vec<u8>) -> (r: Vec<u8>)
    ensures
        r@ == join_nl(block_spans(s@)),
{
    let n = s.len();
    let mut out: Vec<u8> = Vec::new();
    let mut i: usize = 0;
    proof {
        assert(s@.skip(0) =~= s@);
        assert(Seq::<u8>::empty() + join_nl(block_spans(s@)) =~= join_nl(block_spans(s@)));
    }
    while i < n
        invariant
            n == s@.len(),
            i <= n,
            join_nl(block_spans(s@)) == out@ + join_nl(block_spans(s@.skip(i as int))),
        decreases n - i,
    {
        if i + 1 < n && s[i] == SLASH && s[i + 1] == STAR {
            let mut tmp: Vec<u8> = Vec::new();
            tmp.push(SLASH);
            tmp.push(STAR);
            let ghost acc0: Seq<u8> = seq![SLASH, STAR];
            proof {
                let u = s@.skip(i as int);
                assert(u[0] == s@[i as int] && u[1] == s@[i + 1]);
                assert(u.skip(2) =~= s@.skip(i + 2));
                assert(tmp@ =~= acc0);
            }
            let mut j: usize = i + 2;
            while j < n - 1 && !(s[j] == STAR && s[j + 1] == SLASH)
                invariant
                    n == s@.len(),
                    n >= 2,
                    i + 2 <= j <= n,
                    block_cap(s@.skip(i + 2), acc0) == block_cap(s@.skip(j as int), tmp@),
                    has_close(s@.skip(i + 2)) == has_close(s@.skip(j as int)),
                    tmp@.len() == 2 + j - i - 2,
                decreases n - j,
            {
                proof {
                    let t = s@.skip(j as int);
                    assert(t[0] == s@[j as int] && t[1] == s@[j + 1]);
                    assert(t.skip(1) =~= s@.skip(j + 1));
                }
                let c = s[j];
                tmp.push(c);
                j = j + 1;
            }
            if j < n - 1 {
                let ghost tpre = tmp@;
                proof {
                    let t = s@.skip(j as int);
                    assert(t[0] == s@[j as int] && t[1] == s@[j + 1]);
                    assert(t.skip(2) =~= s@.skip(j + 2));
                    assert(has_close(s@.skip(j as int)));
                    let u = s@.skip(i as int);
                    assert(block_spans(u) == block_cap(s@.skip(i + 2), acc0));
                    assert(block_cap(t, tpre) == seq![tpre + seq![STAR, SLASH]] + block_spans(
                        s@.skip(j + 2),
                    ));
                }
                tmp.push(STAR);
                tmp.push(SLASH);
                let ghost outpre = out@;
                proof {
                    assert(tmp@ =~= tpre + seq![STAR, SLASH]);
                    assert(seq![tpre + seq![STAR, SLASH]] =~= seq![tmp@]);
                    lemma_join_nl_cons(tmp@, block_spans(s@.skip(j + 2)));
                }
                let ghost tfull = tmp@;
                out.append(&mut tmp);
                out.push(NL);
                proof {
                    assert(out@ =~= (outpre + tfull).push(NL));
                    assert(outpre + (tfull + seq![NL] + join_nl(block_spans(s@.skip(j + 2))))
                        =~= (outpre + tfull).push(NL) + join_nl(block_spans(s@.skip(j + 2))));
                }
                i = j + 2;
            } else {
                proof {
                    let t = s@.skip(j as int);
                    assert(t.len() < 2);
                    assert(!has_close(s@.skip(i + 2)));
                    let u = s@.skip(i as int);
                    assert(u.skip(1) =~= s@.skip(i + 1));
                    assert(block_spans(s@.skip(i as int)) == block_spans(s@.skip(i + 1)));
                }
                i = i + 1;
            }
        } else {
            proof {
                let u = s@.skip(i as int);
                assert(u[0] == s@[i as int]);
                if u.len() < 2 {
                    assert(s@.skip(i + 1).len() < 2);
                    assert(block_spans(u) == Seq::<Seq<u8>>::empty());
                    assert(block_spans(s@.skip(i + 1)) == Seq::<Seq<u8>>::empty());
                } else {
                    assert(u[1] == s@[i + 1]);
                    assert(u.skip(1) =~= s@.skip(i + 1));
                }
                assert(block_spans(s@.skip(i as int)) == block_spans(s@.skip(i + 1)));
            }
            i = i + 1;
        }
    }
    proof {
        assert(s@.skip(n as int) =~= Seq::<u8>::empty());
        assert(out@ + Seq::<u8>::empty() =~= out@);
    }
    out
}

/// Collects every hash-comment span, a newline after each.
pub fn extract_hash_comments(s: &Vec<u8>) -> (r: Vec<u8>)
    ensures
        r@ == join_nl(hash_spans(s@)),
{
    let n = s.len();
    let mut out: Vec<u8> = Vec::new();
    let mut i: usize = 0;
    proof {
        assert(s@.skip(0) =~= s@);
        assert(Seq::<u8>::empty() + join_nl(hash_spans(s@)) =~= join_nl(hash_spans(s@)));
    }
    while i < n
        invariant
            n == s@.len(),
            i <= n,
            join_nl(hash_spans(s@)) == out@ + join_nl(hash_spans(s@.skip(i as int))),
        decreases n - i,
    {
        if s[i] == HASH {
            proof {
                let u = s@.skip(i as int);
                assert(u[0] == s@[i as int]);
                assert(u.skip(1) =~= s@.skip(i + 1));
            }
            let ghost pre = out@;
            let ghost mut acc: Seq<u8> = seq![HASH];
            out.push(HASH);
            proof {
                assert(out@ =~= pre + acc);
            }
            let mut j: usize = i + 1;
            while j < n && s[j] != NL
                invariant
                    n == s@.len(),
                    i + 1 <= j <= n,
                    out@ == pre + acc,
                    join_nl(hash_spans(s@)) == pre + join_nl(hash_cap(s@.skip(j as int), acc)),
                decreases n - j,
            {
                proof {
                    let t = s@.skip(j as int);
                    assert(t[0] == s@[j as int]);
                    assert(t.skip(1) =~= s@.skip(j + 1));
                }
                let c = s[j];
                out.push(c);
                proof {
                    acc = acc.push(s@[j as int]);
                    assert(out@ =~= pre + acc);
                }
                j = j + 1;
            }
            if j < n {
                proof {
                    let t = s@.skip(j as int);
                    assert(t[0] == s@[j as int]);
                    assert(t.skip(1) =~= s@.skip(j + 1));
                    assert(hash_cap(t, acc) == seq![acc] + hash_spans(s@.skip(j + 1)));
                    lemma_join_nl_cons(acc, hash_spans(s@.skip(j + 1)));
                    assert(pre + (acc + seq![NL] + join_nl(hash_spans(s@.skip(j + 1)))) =~= ((
                    pre + acc) + seq![NL]) + join_nl(hash_spans(s@.skip(j + 1))));
                }
                out.push(NL);
                i = j + 1;
            } else {
                proof {
                    assert(s@.skip(j as int) =~= Seq::<u8>::empty());
                    assert(hash_cap(Seq::<u8>::empty(), acc) == seq![acc]);
                    lemma_join_nl_cons(acc, Seq::<Seq<u8>>::empty());
                    assert(seq![acc] + Seq::<Seq<u8>>::empty() =~= seq![acc]);
                    assert(join_nl(Seq::<Seq<u8>>::empty()) == Seq::<u8>::empty());
                    assert(hash_spans(Seq::<u8>::empty()) == Seq::<Seq<u8>>::empty());
                    assert(pre + (acc + seq![NL] + Seq::<u8>::empty()) =~= ((pre + acc)
                        + seq![NL]) + Seq::<u8>::empty());
                }
                out.push(NL);
                i = n;
            }
        } else {
            proof {
                let u = s@.skip(i as int);
                assert(u[0] == s@[i as int]);
                assert(u.skip(1) =~= s@.skip(i + 1));
                assert(hash_spans(s@.skip(i as int)) == hash_spans(s@.skip(i + 1)));
            }
            i = i + 1;
        }
    }
    proof {
        assert(s@.skip(n as int) =~= Seq::<u8>::empty());
        assert(out@ + Seq::<u8>::empty() =~= out@);
    }
    out
}

/// The comment-only text of `s`: all line-comment spans, then all
/// block-comment spans, then all hash-comment spans, one per line.
pub fn comment_only(s: &Vec<u8>) -> (r: Vec<u8>)
    ensures
        r@ == comment_only_of(s@),
{
    let mut r = extract_line_comments(s);
    let mut b = extract_block_comments(s);
    let mut h = extract_hash_comments(s);
    r.append(&mut b);
    r.append(&mut h);
    proof {
        assert(r@ =~= comment_only_of(s@));
    }
    r
}

proof fn lemma_join_nl_cons(a: Seq<u8>, rest: Seq<Seq<u8>>)
    ensures
        join_nl(seq![a] + rest) == a + seq![NL] + join_nl(rest),
{
    let l = seq![a] + rest;
    assert(l[0] == a);
    assert(l.skip(1) =~= rest);
}

proof fn lemma_join_nl_contains(spans: Seq<Seq<u8>>, k: int)
    requires
        0 <= k < spans.len(),
    ensures
        spec_contains(join_nl(spans), spans[k]),
    decreases k,
{
    if k == 0 {
        assert(join_nl(spans).subrange(0, 0 + spans[0].len() as int) =~= spans[0]);
    } else {
        lemma_join_nl_contains(spans.skip(1), k - 1);
        assert(spans.skip(1)[k - 1] == spans[k]);
        crate::text::lemma_contains_extend(
            spans[0] + seq![NL],
            join_nl(spans.skip(1)),
            Seq::empty(),
            spans[k],
        );
        assert((spans[0] + seq![NL]) + join_nl(spans.skip(1)) + Seq::<u8>::empty() =~= join_nl(
            spans,
        ));
    }
}

/// Every character span captured by a comment pattern appears verbatim in
/// the comment-only text.  (The code-only and comment-only texts need not
/// reassemble into the original file.)
pub proof fn lemma_captured_spans_verbatim(s: Seq<u8>)
    ensures
        forall|k: int|
            0 <= k < line_spans(s).len() ==> spec_contains(
                comment_only_of(s),
                #[trigger] line_spans(s)[k],
            ),
        forall|k: int|
            0 <= k < block_spans(s).len() ==> spec_contains(
                comment_only_of(s),
                #[trigger] block_spans(s)[k],
            ),
        forall|k: int|
            0 <= k < hash_spans(s).len() ==> spec_contains(
                comment_only_of(s),
                #[trigger] hash_spans(s)[k],
            ),
{
    let j1 = join_nl(line_spans(s));
    let j2 = join_nl(block_spans(s));
    let j3 = join_nl(hash_spans(s));
    assert forall|k: int| 0 <= k < line_spans(s).len() implies spec_contains(
        comment_only_of(s),
        #[trigger] line_spans(s)[k],
    ) by {
        lemma_join_nl_contains(line_spans(s), k);
        crate::text::lemma_contains_extend(Seq::empty(), j1, j2 + j3, line_spans(s)[k]);
        assert(Seq::<u8>::empty() + j1 + (j2 + j3) =~= comment_only_of(s));
    }
    assert forall|k: int| 0 <= k < block_spans(s).len() implies spec_contains(
        comment_only_of(s),
        #[trigger] block_spans(s)[k],
    ) by {
        lemma_join_nl_contains(block_spans(s), k);
        crate::text::lemma_contains_extend(j1, j2, j3, block_spans(s)[k]);
        assert(j1 + j2 + j3 =~= comment_only_of(s));
    }
    assert forall|k: int| 0 <= k < hash_spans(s).len() implies spec_contains(
        comment_only_of(s),
        #[trigger] hash_spans(s)[k],
    ) by {
        lemma_join_nl_contains(hash_spans(s), k);
        crate::text::lemma_contains_extend(j1 + j2, j3, Seq::empty(), hash_spans(s)[k]);
        assert((j1 + j2) + j3 + Seq::<u8>::empty() =~= comment_only_of(s));
    }
}

} // verus!
