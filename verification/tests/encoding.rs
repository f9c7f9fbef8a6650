use fimble::entry::{canonical_bytes, entry_digest, Entry, EntryKind};
use fimble::scanner::Scanner;
use fimble::strategy::use_memory_map;

#[test]
fn canonical_bytes_of_a_file() {
    let entry = Entry {
        path: b"a".to_vec(),
        kind: EntryKind::File,
        readonly: false,
        mode: None,
        content: b"h".to_vec(),
    };
    // kind byte, readonly byte, content, path
    assert_eq!(canonical_bytes(&entry), vec![2u8, 1, b'h', b'a']);
}

#[test]
fn canonical_bytes_of_a_directory_with_mode() {
    let entry = Entry {
        path: b"a".to_vec(),
        kind: EntryKind::Directory,
        readonly: true,
        mode: Some(0o755),
        content: Vec::new(),
    };
    // kind byte, readonly byte, big-endian mode, path; a directory
    // contributes no content bytes
    assert_eq!(canonical_bytes(&entry), vec![0u8, 0, 0x00, 0x00, 0x01, 0xed, b'a']);
}

#[test]
fn canonical_bytes_of_special_kinds() {
    let kinds = [
        (EntryKind::Symlink, 1u8),
        (EntryKind::BlockDevice, 3),
        (EntryKind::CharDevice, 4),
        (EntryKind::Fifo, 5),
        (EntryKind::Socket, 6),
        (EntryKind::Unknown, 255),
    ];
    for (kind, code) in kinds {
        let entry = Entry {
            path: b"p".to_vec(),
            kind,
            readonly: false,
            mode: None,
            content: Vec::new(),
        };
        assert_eq!(canonical_bytes(&entry)[0], code);
    }
}

#[test]
fn entry_digest_matches_reference_hash() {
    let entry = Entry {
        path: b"./test/README.md".to_vec(),
        kind: EntryKind::File,
        readonly: false,
        mode: Some(0o644),
        content: b"a test tree\n".to_vec(),
    };
    let expected = blake3::hash(&canonical_bytes(&entry));
    assert_eq!(entry_digest(&entry), expected.as_bytes().to_vec());
}

#[test]
fn tree_digest_matches_reference_fold() {
    let one = Entry {
        path: b"a".to_vec(),
        kind: EntryKind::File,
        readonly: false,
        mode: Some(0o644),
        content: b"hello".to_vec(),
    };
    let two = Entry {
        path: b"b".to_vec(),
        kind: EntryKind::File,
        readonly: true,
        mode: Some(0o444),
        content: b"world".to_vec(),
    };
    let mut folded = Vec::new();
    folded.extend_from_slice(blake3::hash(&canonical_bytes(&one)).as_bytes());
    folded.extend_from_slice(blake3::hash(&canonical_bytes(&two)).as_bytes());
    let expected = blake3::hash(&folded);

    let scanner = Scanner::new();
    let digest = scanner.scan(&vec![one, two]);
    assert_eq!(digest, expected.as_bytes().to_vec());
}

#[test]
fn memory_map_choice_respects_size_bounds() {
    assert!(!use_memory_map(0));
    assert!(use_memory_map(1));
    assert!(use_memory_map(isize::MAX as u64));
    assert!(!use_memory_map(isize::MAX as u64 + 1));
    assert!(!use_memory_map(u64::MAX));
}
