use fdc::catalog::Catalog;
use fdc::catalog::FileKind;
use fdc::source::find_root_files;
use fdc::source::PhpSource;
use fdc::text::basename;
use fdc::text::contains_sub;

fn catalog_of(entries: &[(&str, FileKind)]) -> Catalog {
    let mut c = Catalog::new();
    for (p, k) in entries {
        c.insert_file(p.as_bytes().to_vec(), *k);
    }
    c
}

fn src(path: &str, content: &str) -> PhpSource {
    PhpSource { path: path.as_bytes().to_vec(), content: content.as_bytes().to_vec() }
}

#[test]
fn from_extension_recognizes_kinds_case_insensitively() {
    assert_eq!(FileKind::from_extension(&b"php".to_vec()), Some(FileKind::Php));
    assert_eq!(FileKind::from_extension(&b"PHP".to_vec()), Some(FileKind::Php));
    assert_eq!(FileKind::from_extension(&b"Js".to_vec()), Some(FileKind::JavaScript));
    assert_eq!(FileKind::from_extension(&b"css".to_vec()), Some(FileKind::Css));
    assert_eq!(FileKind::from_extension(&b"txt".to_vec()), None);
    assert_eq!(FileKind::from_extension(&b"".to_vec()), None);
}

#[test]
fn extensions_lists_the_recognized_extension() {
    assert_eq!(FileKind::Php.extensions(), vec![b"php".to_vec()]);
    assert_eq!(FileKind::JavaScript.extensions(), vec![b"js".to_vec()]);
    assert_eq!(FileKind::Css.extensions(), vec![b"css".to_vec()]);
}

#[test]
fn basename_takes_the_part_after_the_last_slash() {
    assert_eq!(basename(&b"/p/sub/util.php".to_vec()), b"util.php".to_vec());
    assert_eq!(basename(&b"util.php".to_vec()), b"util.php".to_vec());
}

#[test]
fn contains_sub_is_plain_substring_containment() {
    assert!(contains_sub(&b"myutil.php.bak".to_vec(), &b"util.php".to_vec()));
    assert!(!contains_sub(&b"util_php".to_vec(), &b"util.php".to_vec()));
    assert!(contains_sub(&b"x".to_vec(), &b"".to_vec()));
}

#[test]
fn insert_keeps_paths_unique() {
    let mut c = catalog_of(&[("/p/a.php", FileKind::Php)]);
    c.insert_file(b"/p/a.php".to_vec(), FileKind::Php);
    assert_eq!(c.files.len(), 1);
    assert_eq!(c.php_files.len(), 1);
}

#[test]
fn php_files_lists_only_php_paths_in_order() {
    let c = catalog_of(&[
        ("/p/a.php", FileKind::Php),
        ("/p/s.css", FileKind::Css),
        ("/p/b.php", FileKind::Php),
    ]);
    assert_eq!(c.php_files, vec![b"/p/a.php".to_vec(), b"/p/b.php".to_vec()]);
}

#[test]
fn scenario_included_helper_is_alive_and_unreferenced_helper_is_dead() {
    // main.php is the root; helper.php includes util.php; nothing includes
    // helper.php itself.
    let mut c = catalog_of(&[
        ("/p/main.php", FileKind::Php),
        ("/p/helper.php", FileKind::Php),
        ("/p/util.php", FileKind::Php),
    ]);
    let sources = vec![
        src("/p/main.php", "/*\n * Plugin Name: Test\n */\n"),
        src("/p/helper.php", "include 'util.php';\n"),
        src("/p/util.php", "$x = 1;\n"),
    ];
    c.find_references(&sources);
    let root = find_root_files(&sources);
    assert_eq!(root, Some(b"/p/main.php".to_vec()));
    let (dead, cdead) = c.find_dead_files(&root);
    assert_eq!(dead.len(), 1);
    assert_eq!(c.files[dead[0]].path, b"/p/helper.php".to_vec());
    assert!(cdead.is_empty());
    let alive = c.find_alive_files(&root);
    assert_eq!(alive.len(), 1);
    assert_eq!(c.files[alive[0]].path, b"/p/util.php".to_vec());
    assert_eq!(c.files[alive[0]].referenced_by, vec![b"/p/helper.php".to_vec()]);
}

#[test]
fn scenario_file_mentioned_only_in_a_comment_is_comment_only_dead() {
    let mut c = catalog_of(&[
        ("/p/app.php", FileKind::Php),
        ("/p/old.js", FileKind::JavaScript),
    ]);
    let sources = vec![src("/p/app.php", "// require old.js\n$a = 1;\n")];
    c.find_references(&sources);
    let root = find_root_files(&sources);
    assert_eq!(root, None);
    let (dead, cdead) = c.find_dead_files(&root);
    assert_eq!(cdead.len(), 1);
    assert_eq!(c.files[cdead[0]].path, b"/p/old.js".to_vec());
    assert_eq!(c.files[cdead[0]].referenced_in_comments, vec![b"/p/app.php".to_vec()]);
    // app.php itself has no referrer at all, so it is dead.
    assert_eq!(dead.len(), 1);
    assert_eq!(c.files[dead[0]].path, b"/p/app.php".to_vec());
}

#[test]
fn scenario_without_header_every_file_is_classified() {
    let mut c = catalog_of(&[
        ("/p/entry.php", FileKind::Php),
        ("/p/lib.php", FileKind::Php),
    ]);
    let sources = vec![
        src("/p/entry.php", "include 'lib.php';\n"),
        src("/p/lib.php", "$x = 2;\n"),
    ];
    c.find_references(&sources);
    let root = find_root_files(&sources);
    assert_eq!(root, None);
    let (dead, cdead) = c.find_dead_files(&root);
    // The would-be entry point is eligible like any other file: nothing
    // references it, so it is dead.
    assert_eq!(dead.len(), 1);
    assert_eq!(c.files[dead[0]].path, b"/p/entry.php".to_vec());
    assert!(cdead.is_empty());
    let alive = c.find_alive_files(&root);
    assert_eq!(alive.len(), 1);
    assert_eq!(c.files[alive[0]].path, b"/p/lib.php".to_vec());
}

#[test]
fn scenario_deletion_selects_only_the_dead_file() {
    // One dead file and one comment-only-dead file: only the dead one is
    // handed to the deleter (the first list); the comment-only-dead file is
    // kept as a safety rail.
    let mut c = catalog_of(&[
        ("/p/a.php", FileKind::Php),
        ("/p/gone.css", FileKind::Css),
        ("/p/maybe.js", FileKind::JavaScript),
    ]);
    let sources = vec![src("/p/a.php", "/* maybe.js */ $keep = 1;\n")];
    c.find_references(&sources);
    let root = find_root_files(&sources);
    let (dead, cdead) = c.find_dead_files(&root);
    let dead_paths: Vec<Vec<u8>> = dead.iter().map(|&i| c.files[i].path.clone()).collect();
    let cdead_paths: Vec<Vec<u8>> = cdead.iter().map(|&i| c.files[i].path.clone()).collect();
    assert!(dead_paths.contains(&b"/p/gone.css".to_vec()));
    assert!(!dead_paths.contains(&b"/p/maybe.js".to_vec()));
    assert!(cdead_paths.contains(&b"/p/maybe.js".to_vec()));
    assert!(!cdead_paths.contains(&b"/p/gone.css".to_vec()));
}

#[test]
fn classification_is_idempotent() {
    let mut c = catalog_of(&[
        ("/p/a.php", FileKind::Php),
        ("/p/b.php", FileKind::Php),
    ]);
    let sources = vec![src("/p/a.php", "include 'b.php';\n"), src("/p/b.php", "$x = 1;\n")];
    c.find_references(&sources);
    let root = find_root_files(&sources);
    let first = c.find_dead_files(&root);
    let second = c.find_dead_files(&root);
    assert_eq!(first, second);
}

#[test]
fn first_header_in_scan_order_wins() {
    let sources = vec![
        src("/p/x.php", "$x = 1;\n"),
        src("/p/one.php", " * Plugin Name: One\n"),
        src("/p/two.php", " * Plugin Name: Two\n"),
    ];
    assert_eq!(find_root_files(&sources), Some(b"/p/one.php".to_vec()));
}

#[test]
fn header_is_found_behind_whitespace_and_optional_star() {
    let sources = vec![src("/p/m.php", "<?php\n\t * Plugin Name: X\n")];
    assert_eq!(find_root_files(&sources), Some(b"/p/m.php".to_vec()));
    let bare = vec![src("/p/n.php", "Plugin Name: Y\n")];
    assert_eq!(find_root_files(&bare), Some(b"/p/n.php".to_vec()));
    let mid = vec![src("/p/o.php", "$x = 'Plugin Name: Z';\n")];
    assert_eq!(find_root_files(&mid), None);
}

#[test]
fn find_by_basename_prefers_the_first_catalogued_match() {
    let c = catalog_of(&[
        ("/p/a/util.php", FileKind::Php),
        ("/p/b/util.php", FileKind::Php),
    ]);
    assert_eq!(c.find_by_basename(&b"util.php".to_vec()), Some(b"/p/a/util.php".to_vec()));
    assert_eq!(c.find_by_basename(&b"other.php".to_vec()), None);
}

#[test]
fn referrer_never_references_itself() {
    let mut c = catalog_of(&[("/p/self.php", FileKind::Php)]);
    let sources = vec![src("/p/self.php", "include 'self.php';\n")];
    c.find_references(&sources);
    assert!(c.files[0].referenced_by.is_empty());
    assert!(c.files[0].referenced_in_comments.is_empty());
}

#[test]
fn one_referrer_lands_in_at_most_one_list() {
    // The code mention wins: a file named both in code and in a comment of
    // the same referrer is recorded as a live reference only.
    let mut c = catalog_of(&[
        ("/p/a.php", FileKind::Php),
        ("/p/both.js", FileKind::JavaScript),
    ]);
    let sources = vec![src("/p/a.php", "load('both.js'); // both.js is loaded\n")];
    c.find_references(&sources);
    let target = c.files.iter().find(|f| f.path == b"/p/both.js".to_vec()).unwrap();
    assert_eq!(target.referenced_by, vec![b"/p/a.php".to_vec()]);
    assert!(target.referenced_in_comments.is_empty());
}

#[test]
fn referrers_accumulate_in_scan_order() {
    let mut c = catalog_of(&[
        ("/p/a.php", FileKind::Php),
        ("/p/b.php", FileKind::Php),
        ("/p/util.js", FileKind::JavaScript),
    ]);
    let sources = vec![
        src("/p/a.php", "load('util.js');\n"),
        src("/p/b.php", "load('util.js');\n"),
    ];
    c.find_references(&sources);
    let target = c.files.iter().find(|f| f.path == b"/p/util.js".to_vec()).unwrap();
    assert_eq!(
        target.referenced_by,
        vec![b"/p/a.php".to_vec(), b"/p/b.php".to_vec()]
    );
}

#[test]
fn hash_comment_reference_counts_as_comment_only() {
    let mut c = catalog_of(&[
        ("/p/a.php", FileKind::Php),
        ("/p/style.css", FileKind::Css),
    ]);
    let sources = vec![src("/p/a.php", "<?php # uses style.css\n$x = 1;\n")];
    c.find_references(&sources);
    let target = c.files.iter().find(|f| f.path == b"/p/style.css".to_vec()).unwrap();
    assert!(target.referenced_by.is_empty());
    assert_eq!(target.referenced_in_comments, vec![b"/p/a.php".to_vec()]);
}
