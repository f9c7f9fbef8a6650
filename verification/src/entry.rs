use vstd::prelude::*;
use crate::hashing::{blake3_of, blake3_digest};

verus! {

/// The kind of a filesystem entry. Special files beyond directories,
/// symlinks and regular files are told apart where the platform can;
/// anything unclassifiable is `Unknown`.
#[derive(Clone, Copy, PartialEq, Eq, Structural, Debug)]
pub enum EntryKind {
    Directory,
    Symlink,
    File,
    BlockDevice,
    CharDevice,
    Fifo,
    Socket,
    Unknown,
}

/// One filesystem entry, reduced to the plain values the digest reads:
/// its full path in platform-native bytes, its kind, its permission bits,
/// and — for a regular file — its content bytes, or — for a symlink —
/// the raw bytes of its target path.
#[derive(Clone, Debug)]
pub struct Entry {
    /// Full path of the entry, platform-native bytes.
    pub path: Vec<u8>,
    /// What the entry is.
    pub kind: EntryKind,
    /// Whether the readonly permission flag is set.
    pub readonly: bool,
    /// Full permission/mode bits, on platforms that expose them.
    pub mode: Option<u32>,
    /// File content bytes when `kind` is `File`; target path bytes when
    /// `kind` is `Symlink`; ignored otherwise.
    pub content: Vec<u8>,
}

/// The mathematical value of an `Entry`.
pub struct EntryView {
    pub path: Seq<u8>,
    pub kind: EntryKind,
    pub readonly: bool,
    pub mode: Option<u32>,
    pub content: Seq<u8>,
}

impl View for Entry {
    type V = EntryView;

    open spec fn view(&self) -> EntryView {
        EntryView {
            path: self.path@,
            kind: self.kind,
            readonly: self.readonly,
            mode: self.mode,
            content: self.content@,
        }
    }
}

/// The views of a sequence of entries.
pub open spec fn views_of(entries: Seq<Entry>) -> Seq<EntryView> {
    entries.map_values(|e: Entry| e@)
}

/// No two entries share a path.
pub open spec fn distinct_paths(vs: Seq<EntryView>) -> bool {
    forall|i: int, j: int| 0 <= i < j < vs.len() ==> vs[i].path != vs[j].path
}

/// The single byte that encodes an entry's kind in its canonical sequence.
pub open spec fn kind_code_spec(kind: EntryKind) -> u8 {
    match kind {
        EntryKind::Directory => 0,
        EntryKind::Symlink => 1,
        EntryKind::File => 2,
        EntryKind::BlockDevice => 3,
        EntryKind::CharDevice => 4,
        EntryKind::Fifo => 5,
        EntryKind::Socket => 6,
        EntryKind::Unknown => 255,
    }
}

pub fn kind_code(kind: EntryKind) -> (code: u8)
    ensures
        code == kind_code_spec(kind),
{
    match kind {
        EntryKind::Directory => 0,
        EntryKind::Symlink => 1,
        EntryKind::File => 2,
        EntryKind::BlockDevice => 3,
        EntryKind::CharDevice => 4,
        EntryKind::Fifo => 5,
        EntryKind::Socket => 6,
        EntryKind::Unknown => 255,
    }
}

/// The single byte that encodes the readonly flag: 0 when set, 1 when not.
pub open spec fn readonly_code_spec(readonly: bool) -> u8 {
    if readonly {
        0
    } else {
        1
    }
}

/// The big-endian encoding of the full mode bits, four bytes; empty where
/// the platform exposes none.
pub open spec fn mode_bytes_spec(mode: Option<u32>) -> Seq<u8> {
    match mode {
        Option::None => Seq::empty(),
        Option::Some(m) => seq![(m >> 24) as u8, (m >> 16) as u8, (m >> 8) as u8, m as u8],
    }
}

/// The content-or-target bytes an entry contributes: file content for a
/// regular file, the target path bytes for a symlink, nothing otherwise.
pub open spec fn payload_spec(v: EntryView) -> Seq<u8> {
    if v.kind == EntryKind::File || v.kind == EntryKind::Symlink {
        v.content
    } else {
        Seq::empty()
    }
}

/// The canonical byte sequence of one entry, in fixed order: kind byte,
/// readonly byte, big-endian mode bytes, content or link target, and the
/// full path last.
pub open spec fn canonical_spec(v: EntryView) -> Seq<u8> {
    seq![kind_code_spec(v.kind), readonly_code_spec(v.readonly)] + mode_bytes_spec(v.mode)
        + payload_spec(v) + v.path
}

/// The digest of one entry: the hash of its canonical byte sequence.
pub open spec fn entry_digest_spec(v: EntryView) -> Seq<u8> {
    blake3_of(canonical_spec(v))
}

/// Appends all of `data` to `out`.
pub fn push_bytes(out: &mut Vec<u8>, data: &Vec<u8>)
    ensures
        final(out)@ == old(out)@ + data@,
{
    let n = data.len();
    let ghost base = out@;
    for i in 0..n
        invariant
            n == data@.len(),
            out@ == base + data@.take(i as int),
    {
        out.push(data[i]);
        proof {
            assert(base + data@.take(i + 1) =~= (base + data@.take(i as int)).push(data@[i as int]));
        }
    }
    proof {
        assert(base + data@.take(n as int) =~= base + data@);
    }
}

/// Compares two byte vectors for equality.
pub fn bytes_eq(a: &Vec<u8>, b: &Vec<u8>) -> (eq: bool)
    ensures
        eq == (a@ == b@),
{
    if a.len() != b.len() {
        return false;
    }
    let n = a.len();
    for i in 0..n
        invariant
            n == a@.len(),
            n == b@.len(),
            forall|k: int| 0 <= k < i ==> a@[k] == b@[k],
    {
        if a[i] != b[i] {
            return false;
        }
    }
    proof {
        assert(a@ =~= b@);
    }
    true
}

/// Copies a byte vector.
pub fn copy_bytes(src: &Vec<u8>) -> (out: Vec<u8>)
    ensures
        out@ == src@,
{
    let mut out: Vec<u8> = Vec::new();
    push_bytes(&mut out, src);
    proof {
        assert(out@ =~= src@);
    }
    out
}

/// Builds the canonical byte sequence of `entry`.
pub fn canonical_bytes(entry: &Entry) -> (out: Vec<u8>)
    ensures
        out@ == canonical_spec(entry@),
{
    let mut out: Vec<u8> = Vec::new();
    out.push(kind_code(entry.kind));
    out.push(if entry.readonly { 0 } else { 1 });
    match entry.mode {
        Option::Some(m) => {
            out.push((m >> 24) as u8);
            out.push((m >> 16) as u8);
            out.push((m >> 8) as u8);
            out.push(m as u8);
        },
        Option::None => {},
    }
    let ghost head = seq![kind_code_spec(entry@.kind), readonly_code_spec(entry@.readonly)]
        + mode_bytes_spec(entry@.mode);
    assert(out@ =~= head);
    let is_payload_kind = match entry.kind {
        EntryKind::File => true,
        EntryKind::Symlink => true,
        _ => false,
    };
    if is_payload_kind {
        push_bytes(&mut out, &entry.content);
    }
    assert(out@ =~= head + payload_spec(entry@));
    push_bytes(&mut out, &entry.path);
    proof {
        assert(out@ =~= canonical_spec(entry@));
    }
    out
}

/// Computes the digest of one entry: a fresh hash over its canonical bytes.
pub fn entry_digest(entry: &Entry) -> (digest: Vec<u8>)
    ensures
        digest@ == entry_digest_spec(entry@),
        digest@.len() == 32,
{
    let bytes = canonical_bytes(entry);
    blake3_digest(bytes.as_slice())
}

} // verus!
