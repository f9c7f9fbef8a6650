use fimble::entry::{Entry, EntryKind};
use fimble::order::{bytes_lt, paths_strictly_sorted};

fn entry_at(path: &[u8]) -> Entry {
    Entry {
        path: path.to_vec(),
        kind: EntryKind::File,
        readonly: false,
        mode: Some(0o644),
        content: Vec::new(),
    }
}

#[test]
fn byte_order_basics() {
    assert!(bytes_lt(&b"a".to_vec(), &b"b".to_vec()));
    assert!(bytes_lt(&b"a".to_vec(), &b"aa".to_vec()));
    assert!(bytes_lt(&Vec::new(), &b"a".to_vec()));
    assert!(!bytes_lt(&b"b".to_vec(), &b"a".to_vec()));
    assert!(!bytes_lt(&b"same".to_vec(), &b"same".to_vec()));
    assert!(!bytes_lt(&b"aa".to_vec(), &b"a".to_vec()));
    // '.' sorts before '/'
    assert!(bytes_lt(&b"a.txt".to_vec(), &b"a/x".to_vec()));
}

#[test]
fn sorted_walks_are_recognised() {
    assert!(paths_strictly_sorted(&Vec::new()));
    assert!(paths_strictly_sorted(&vec![entry_at(b"only")]));
    assert!(paths_strictly_sorted(&vec![
        entry_at(b"a"),
        entry_at(b"a/b"),
        entry_at(b"b"),
    ]));
    assert!(!paths_strictly_sorted(&vec![entry_at(b"b"), entry_at(b"a")]));
    assert!(!paths_strictly_sorted(&vec![entry_at(b"a"), entry_at(b"a")]));
}
