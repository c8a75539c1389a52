use fdc::comments::code_only;
use fdc::comments::comment_only;

#[test]
fn code_only_strips_line_comment() {
    let s = b"a//b\nc".to_vec();
    assert_eq!(code_only(&s), b"a\nc".to_vec());
}

#[test]
fn comment_only_captures_line_comment() {
    let s = b"a//b\nc".to_vec();
    assert_eq!(comment_only(&s), b"//b\n".to_vec());
}

#[test]
fn code_only_strips_block_comment() {
    let s = b"x/*y*/z".to_vec();
    assert_eq!(code_only(&s), b"xz".to_vec());
}

#[test]
fn comment_only_captures_block_comment() {
    let s = b"x/*y*/z".to_vec();
    assert_eq!(comment_only(&s), b"/*y*/\n".to_vec());
}

#[test]
fn block_comment_spans_lines() {
    let s = b"a/*b\nc*/d".to_vec();
    assert_eq!(code_only(&s), b"ad".to_vec());
    assert_eq!(comment_only(&s), b"/*b\nc*/\n".to_vec());
}

#[test]
fn block_comment_is_non_greedy() {
    let s = b"a/*b*/c/*d*/e".to_vec();
    assert_eq!(code_only(&s), b"ace".to_vec());
    assert_eq!(comment_only(&s), b"/*b*/\n/*d*/\n".to_vec());
}

#[test]
fn unclosed_block_comment_is_no_comment() {
    let s = b"a/*b".to_vec();
    assert_eq!(code_only(&s), b"a/*b".to_vec());
    assert_eq!(comment_only(&s), b"".to_vec());
}

#[test]
fn code_only_strips_hash_comment() {
    let s = b"a#b\nc".to_vec();
    assert_eq!(code_only(&s), b"a\nc".to_vec());
    assert_eq!(comment_only(&s), b"#b\n".to_vec());
}

#[test]
fn block_removal_happens_before_line_removal() {
    // The `//` inside the block comment must not confuse the line pass.
    let s = b"/*a//b*/c".to_vec();
    assert_eq!(code_only(&s), b"c".to_vec());
    // Extraction works on the original text, pattern by pattern: the line
    // pattern captures `//b*/c` (through the end of the line), then the
    // block pattern captures the whole block span.
    assert_eq!(comment_only(&s), b"//b*/c\n/*a//b*/\n".to_vec());
}

#[test]
fn line_comment_at_end_of_input() {
    let s = b"a//b".to_vec();
    assert_eq!(code_only(&s), b"a".to_vec());
    assert_eq!(comment_only(&s), b"//b\n".to_vec());
}

#[test]
fn derived_texts_need_not_reassemble_the_original() {
    // The comment-stripping round trip is lossy by design: code-only plus
    // comment-only need not reconstruct the file.
    let s = b"a//b\nc".to_vec();
    let mut glued = code_only(&s);
    glued.extend(comment_only(&s));
    assert_ne!(glued, s);
}

#[test]
fn empty_input_yields_empty_texts() {
    let s = b"".to_vec();
    assert_eq!(code_only(&s), b"".to_vec());
    assert_eq!(comment_only(&s), b"".to_vec());
}
