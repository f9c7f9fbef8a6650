use fimble::entry::{Entry, EntryKind};
use fimble::error::Error;
use fimble::manifest::Manifest;
use fimble::scanner::Scanner;

fn file_entry(path: &str, content: &str) -> Entry {
    Entry {
        path: path.as_bytes().to_vec(),
        kind: EntryKind::File,
        readonly: false,
        mode: Some(0o644),
        content: content.as_bytes().to_vec(),
    }
}

fn dir_entry(path: &str) -> Entry {
    Entry {
        path: path.as_bytes().to_vec(),
        kind: EntryKind::Directory,
        readonly: false,
        mode: Some(0o755),
        content: Vec::new(),
    }
}

fn sample_tree() -> Vec<Entry> {
    vec![
        dir_entry("./test"),
        file_entry("./test/README.md", "a test tree\n"),
        dir_entry("./test/sub"),
        file_entry("./test/sub/data.bin", "payload"),
    ]
}

#[test]
fn basic_test() {
    let scanner = Scanner::new();
    let entries = sample_tree();
    let manifest = scanner.build_manifest("./test".to_string(), &entries);

    let hash = scanner.scan(&entries);

    manifest.check_hash(&hash).unwrap();
    manifest.quick_check(&entries).unwrap();
    let changed = manifest.scan_check(&entries);
    assert_eq!(changed.len(), 0);
}

#[test]
fn failure_test() {
    // Build a baseline over a tree we can then modify in place.
    let scanner = Scanner::new();
    let mut entries = sample_tree();
    let manifest = scanner.build_manifest("./temp_test".to_string(), &entries);

    // So far so good - nothing has changed
    let hash = scanner.scan(&entries);
    manifest.check_hash(&hash).unwrap();
    manifest.quick_check(&entries).unwrap();
    assert_eq!(manifest.scan_check(&entries).len(), 0);

    // Modify a file
    entries[1] = file_entry("./test/README.md", "   EXTRA DATA");
    let hash = scanner.scan(&entries);

    // Both the quick check and the full scan check notice
    assert!(manifest.check_hash(&hash).is_err());
    assert!(manifest.quick_check(&entries).is_err());
    let changed = manifest.scan_check(&entries);
    assert_eq!(changed, vec![b"./test/README.md".to_vec()]);
}

#[test]
fn it_works() {
    let scanner = Scanner::new();
    let hash = scanner.scan(&sample_tree());
    assert_eq!(hash.len(), 32);
}

#[test]
fn scan_is_deterministic() {
    let scanner = Scanner::new();
    let first = scanner.scan(&sample_tree());
    let second = scanner.scan(&sample_tree());
    assert_eq!(first, second);
}

#[test]
fn scenario_two_files() {
    let scanner = Scanner::new();
    let base = vec![
        file_entry("a.txt", "hello"),
        dir_entry("b"),
        file_entry("b/c.txt", "world"),
    ];
    let manifest = scanner.build_manifest(".".to_string(), &base);
    manifest.quick_check(&base).unwrap();
    assert_eq!(manifest.scan_check(&base).len(), 0);

    // appending a byte to a.txt fails the quick check and names the file
    let mut modified = base.clone();
    modified[0] = file_entry("a.txt", "hello!");
    assert!(manifest.quick_check(&modified).is_err());
    assert_eq!(manifest.scan_check(&modified), vec![b"a.txt".to_vec()]);

    // deleting b/c.txt is reported through the unseen-path rule
    let mut removed = base.clone();
    removed.remove(2);
    assert_eq!(manifest.scan_check(&removed), vec![b"b/c.txt".to_vec()]);

    // adding d.txt is reported although nothing else changed
    let mut added = base.clone();
    added.push(file_entry("d.txt", "new"));
    assert_eq!(manifest.scan_check(&added), vec![b"d.txt".to_vec()]);
}

#[test]
fn metadata_change_is_detected() {
    let scanner = Scanner::new();
    let base = vec![file_entry("a.txt", "hello")];
    let baseline = scanner.scan(&base);

    let mut readonly_toggled = base.clone();
    readonly_toggled[0].readonly = true;
    assert_ne!(scanner.scan(&readonly_toggled), baseline);

    let mut mode_changed = base.clone();
    mode_changed[0].mode = Some(0o600);
    assert_ne!(scanner.scan(&mode_changed), baseline);

    let manifest = scanner.build_manifest(".".to_string(), &base);
    assert!(manifest.quick_check(&readonly_toggled).is_err());
    assert!(manifest.quick_check(&mode_changed).is_err());
}

#[test]
fn rename_is_removal_plus_addition() {
    let scanner = Scanner::new();
    let base = vec![file_entry("a.txt", "hello"), file_entry("z.txt", "same")];
    let manifest = scanner.build_manifest(".".to_string(), &base);

    let renamed = vec![file_entry("a.txt", "hello"), file_entry("moved.txt", "same")];
    let mut changed = manifest.scan_check(&renamed);
    changed.sort();
    assert_eq!(changed, vec![b"moved.txt".to_vec(), b"z.txt".to_vec()]);
}

#[test]
fn symlink_target_changes_digest() {
    let scanner = Scanner::new();
    let link = |target: &str| Entry {
        path: b"link".to_vec(),
        kind: EntryKind::Symlink,
        readonly: false,
        mode: Some(0o777),
        content: target.as_bytes().to_vec(),
    };
    let one = scanner.scan(&vec![link("target-one")]);
    let two = scanner.scan(&vec![link("target-two")]);
    assert_ne!(one, two);
}

#[test]
fn check_hash_mismatch_is_integrity_failure() {
    let scanner = Scanner::new();
    let entries = sample_tree();
    let manifest = scanner.build_manifest("./test".to_string(), &entries);
    let wrong = vec![0u8; 32];
    match manifest.check_hash(&wrong) {
        Err(Error::ManifestCheckFail) => {},
        _ => panic!("expected an integrity-check failure"),
    }
}

#[test]
fn error_variants_carry_their_context() {
    let io = Error::IoErr("broken pipe".to_string());
    assert!(matches!(io, Error::IoErr(_)));
    let entry = Error::EntryErr("permission denied".to_string(), "./test/README.md".to_string());
    match entry {
        Error::EntryErr(message, path) => {
            assert_eq!(message, "permission denied");
            assert_eq!(path, "./test/README.md");
        },
        _ => panic!("expected an entry-scoped error"),
    }
}

#[test]
fn manifest_records_root_and_digest() {
    let scanner = Scanner::new();
    let entries = sample_tree();
    let manifest = scanner.build_manifest("./test".to_string(), &entries);
    assert_eq!(manifest.path, "./test");
    assert_eq!(manifest.digest, scanner.scan(&entries));
    let probabilistic =
        scanner.build_manifest_probabilistic("./test".to_string(), &entries, 100_000);
    assert_eq!(probabilistic.path, "./test");
    assert_eq!(probabilistic.digest, scanner.scan(&entries));
}

#[test]
fn probabilistic_round_trip_succeeds() {
    let scanner = Scanner::new();
    let entries = sample_tree();
    let manifest = scanner.build_manifest_probabilistic("./test".to_string(), &entries, 100_000);
    scanner.check_manifest(&entries, &manifest).unwrap();
}

#[test]
fn probabilistic_check_flags_divergence() {
    let scanner = Scanner::new();
    let entries = sample_tree();
    let manifest = scanner.build_manifest_probabilistic("./test".to_string(), &entries, 100_000);

    let mut modified = entries.clone();
    modified[1] = file_entry("./test/README.md", "   EXTRA DATA");
    assert!(scanner.check_manifest(&modified, &manifest).is_err());
}
