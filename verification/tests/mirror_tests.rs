use backup::cleaner::{plan_clean, CleanEntry};
use backup::engine::{plan_mirror, Action, WalkEntry};
use backup::mapper::map_entry;
use backup::paths::FsPath;

fn b(s: &str) -> Vec<u8> {
    s.as_bytes().to_vec()
}

fn bl(items: &[&str]) -> Vec<Vec<u8>> {
    items.iter().map(|s| b(s)).collect()
}

fn p(parts: &[&str]) -> FsPath {
    FsPath { parts: bl(parts) }
}

fn dir(parts: &[&str]) -> WalkEntry {
    WalkEntry { path: p(parts), is_dir: true }
}

fn file(parts: &[&str]) -> WalkEntry {
    WalkEntry { path: p(parts), is_dir: false }
}

#[test]
fn path_parent_and_prefix() {
    let q = p(&["/", "a", "b"]);
    assert_eq!(q.parent(), p(&["/", "a"]));
    assert!(q.starts_with(&p(&["/", "a"])));
    assert!(q.starts_with(&q));
    assert!(!q.starts_with(&p(&["/", "b"])));
    assert_eq!(FsPath::empty().parent(), FsPath::empty());
}

#[test]
fn map_keeps_root_name_under_destination() {
    // Source root /a/b/c, entry /a/b/c/d/e.txt, destination /dst:
    // the mapped path is /dst/c/d/e.txt.
    let mapped = map_entry(
        &p(&["/", "a", "b", "c"]),
        &p(&["/", "a", "b", "c", "d", "e.txt"]),
        &p(&["/", "dst"]),
    );
    assert_eq!(mapped.unwrap(), p(&["/", "dst", "c", "d", "e.txt"]));
}

#[test]
fn map_single_file_root_lands_directly_under_destination() {
    let mapped = map_entry(&p(&["f.txt"]), &p(&["f.txt"]), &p(&["/", "dst"]));
    assert_eq!(mapped.unwrap(), p(&["/", "dst", "f.txt"]));
}

#[test]
fn map_rejects_entry_outside_root_parent() {
    let mapped = map_entry(
        &p(&["/", "a", "b", "c"]),
        &p(&["/", "x", "y", "z.txt"]),
        &p(&["/", "dst"]),
    );
    assert!(mapped.is_err());
}

#[test]
fn clean_protects_exactly_two_names() {
    let entries = vec![
        CleanEntry { name: b("backup.ini"), is_dir: false },
        CleanEntry { name: b("backup"), is_dir: false },
        CleanEntry { name: b("notes.txt"), is_dir: false },
        CleanEntry { name: b("old"), is_dir: true },
    ];
    let plan = plan_clean(&entries, &bl(&["backup.ini", "backup"]));
    assert_eq!(
        plan,
        vec![
            CleanEntry { name: b("notes.txt"), is_dir: false },
            CleanEntry { name: b("old"), is_dir: true },
        ]
    );
}

#[test]
fn clean_matches_protected_names_case_insensitively() {
    let entries = vec![
        CleanEntry { name: b("BACKUP.INI"), is_dir: false },
        CleanEntry { name: b("junk"), is_dir: false },
    ];
    let plan = plan_clean(&entries, &bl(&["backup.ini", "backup"]));
    assert_eq!(plan, vec![CleanEntry { name: b("junk"), is_dir: false }]);
}

#[test]
fn clean_of_empty_directory_removes_nothing() {
    let plan = plan_clean(&Vec::new(), &bl(&["backup.ini", "backup"]));
    assert_eq!(plan, Vec::new());
}

#[test]
fn mirror_end_to_end_scenario() {
    // Source root src/ holds a.txt, b.tmp and sub/c.log; excludes tmp,log.
    // The destination receives src/a.txt and the empty directory src/sub.
    let root = p(&["src"]);
    let entries = vec![
        dir(&["src"]),
        file(&["src", "a.txt"]),
        file(&["src", "b.tmp"]),
        dir(&["src", "sub"]),
        file(&["src", "sub", "c.log"]),
    ];
    let plan = plan_mirror(&root, &entries, &bl(&["tmp", "log"]), &p(&["dst"])).unwrap();
    assert_eq!(
        plan,
        vec![
            Action::CreateDir { dest: p(&["dst", "src"]) },
            Action::CopyFile {
                source: p(&["src", "a.txt"]),
                dest: p(&["dst", "src", "a.txt"]),
            },
            Action::CreateDir { dest: p(&["dst", "src", "sub"]) },
        ]
    );
}

#[test]
fn mirror_copies_files_without_extension() {
    let root = p(&["src"]);
    let entries = vec![dir(&["src"]), file(&["src", "README"])];
    let plan = plan_mirror(&root, &entries, &bl(&["tmp"]), &p(&["dst"])).unwrap();
    assert_eq!(
        plan,
        vec![
            Action::CreateDir { dest: p(&["dst", "src"]) },
            Action::CopyFile { source: p(&["src", "README"]), dest: p(&["dst", "src", "README"]) },
        ]
    );
}

#[test]
fn mirror_aborts_on_misrooted_entry() {
    let root = p(&["/", "a", "src"]);
    let entries = vec![dir(&["/", "a", "src"]), file(&["/", "elsewhere", "x.txt"])];
    assert!(plan_mirror(&root, &entries, &bl(&[]), &p(&["dst"])).is_err());
}

#[test]
fn mirror_plan_is_reproducible() {
    // With unchanged sources, a second run computes the same plan, so it
    // rewrites the same directories and the same file contents.
    let root = p(&["src"]);
    let entries = vec![dir(&["src"]), file(&["src", "a.txt"]), file(&["src", "b.tmp"])];
    let excludes = bl(&["tmp"]);
    let dest = p(&["dst"]);
    let first = plan_mirror(&root, &entries, &excludes, &dest).unwrap();
    let second = plan_mirror(&root, &entries, &excludes, &dest).unwrap();
    assert_eq!(first, second);
}

#[test]
fn mirror_of_no_entries_is_empty() {
    let plan = plan_mirror(&p(&["src"]), &Vec::new(), &bl(&[]), &p(&["dst"])).unwrap();
    assert_eq!(plan, Vec::new());
}
