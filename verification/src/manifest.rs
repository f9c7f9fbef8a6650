use vstd::prelude::*;
use crate::accum::tree_digest_spec;
use crate::bloom::GrowableBloom;
use crate::entry::{Entry, EntryView, bytes_eq, entry_digest_spec, views_of};
use crate::error::Error;
use crate::scanner::Scanner;

verus! {

/// One row of an exact manifest: a path and the digest its entry had
/// when the baseline was captured.
pub struct TableEntry {
    pub path: Vec<u8>,
    pub digest: Vec<u8>,
}

/// The exact baseline representation: one digest per path.
pub struct FileTable {
    pub rows: Vec<TableEntry>,
}

/// Some row maps path `p`.
pub open spec fn table_has_path(rows: Seq<TableEntry>, p: Seq<u8>) -> bool {
    exists|i: int| 0 <= i < rows.len() && (#[trigger] rows[i]).path@ == p
}

/// Some row maps path `p` to digest `d`.
pub open spec fn table_has_digest(rows: Seq<TableEntry>, p: Seq<u8>, d: Seq<u8>) -> bool {
    exists|i: int|
        0 <= i < rows.len() && (#[trigger] rows[i]).path@ == p && rows[i].digest@ == d
}

/// No two rows share a path.
pub open spec fn distinct_table_paths(rows: Seq<TableEntry>) -> bool {
    forall|i: int, j: int|
        0 <= i < j < rows.len() ==> (#[trigger] rows[i]).path@ != (#[trigger] rows[j]).path@
}

/// Some walked entry has path `p`.
pub open spec fn walk_has_path(vs: Seq<EntryView>, p: Seq<u8>) -> bool {
    exists|i: int| 0 <= i < vs.len() && (#[trigger] vs[i]).path == p
}

/// The paths an exact-mode scan check reports as changed: every walked
/// path whose current digest the table does not hold (modified or newly
/// added), and every table path the walk no longer visits (removed).
pub open spec fn changed_set(rows: Seq<TableEntry>, vs: Seq<EntryView>) -> Set<Seq<u8>> {
    Set::new(
        |p: Seq<u8>|
            (exists|i: int|
                0 <= i < vs.len() && (#[trigger] vs[i]).path == p && !table_has_digest(
                    rows,
                    p,
                    entry_digest_spec(vs[i]),
                )) || (table_has_path(rows, p) && !walk_has_path(vs, p)),
    )
}

/// The table rows record exactly the walk `vs`: one row per entry, in
/// walk order, each holding the entry's path and digest.
pub open spec fn table_matches_walk(rows: Seq<TableEntry>, vs: Seq<EntryView>) -> bool {
    &&& rows.len() == vs.len()
    &&& forall|i: int|
        0 <= i < vs.len() ==> (#[trigger] rows[i]).path@ == vs[i].path && rows[i].digest@
            == entry_digest_spec(vs[i])
}

/// The views of a sequence of owned paths.
pub open spec fn path_views(paths: Seq<Vec<u8>>) -> Seq<Seq<u8>> {
    paths.map_values(|p: Vec<u8>| p@)
}

/// Membership in a pushed sequence: the old members, plus the new last
/// element.
proof fn lemma_contains_push<A>(s: Seq<A>, x: A, y: A)
    ensures
        s.push(x).contains(y) <==> (s.contains(y) || y == x),
{
    if s.contains(y) {
        let w = choose|w: int| 0 <= w < s.len() && s[w] == y;
        assert(s.push(x)[w] == y);
    }
    if y == x {
        assert(s.push(x)[s.len() as int] == y);
    }
    if s.push(x).contains(y) {
        let w = choose|w: int| 0 <= w < s.push(x).len() && s.push(x)[w] == y;
        if w < s.len() {
            assert(s[w] == y);
        }
    }
}

/// After the walk loop pushes the path of entry `i`, the reported
/// paths are exactly those of the first `i + 1` entries whose digest
/// the table does not hold, still without duplicates.
proof fn lemma_path_views_push_changed(
    pre: Seq<Vec<u8>>,
    post: Seq<Vec<u8>>,
    vs: Seq<EntryView>,
    rows: Seq<TableEntry>,
    i: int,
)
    requires
        0 <= i < vs.len(),
        post.len() == pre.len() + 1,
        forall|a: int| 0 <= a < pre.len() ==> post[a] == pre[a],
        post[pre.len() as int]@ == vs[i].path,
        crate::entry::distinct_paths(vs),
        !table_has_digest(rows, vs[i].path, entry_digest_spec(vs[i])),
        forall|p: Seq<u8>|
            path_views(pre).contains(p) <==> exists|jj: int|
                0 <= jj < i && (#[trigger] vs[jj]).path == p && !table_has_digest(
                    rows,
                    p,
                    entry_digest_spec(vs[jj]),
                ),
        forall|a: int, b: int| 0 <= a < b < pre.len() ==> pre[a]@ != pre[b]@,
    ensures
        forall|p: Seq<u8>|
            path_views(post).contains(p) <==> exists|jj: int|
                0 <= jj < i + 1 && (#[trigger] vs[jj]).path == p && !table_has_digest(
                    rows,
                    p,
                    entry_digest_spec(vs[jj]),
                ),
        forall|a: int, b: int| 0 <= a < b < post.len() ==> post[a]@ != post[b]@,
{
    assert(post =~= pre.push(post[pre.len() as int]));
    assert(path_views(post) =~= path_views(pre).push(vs[i].path));
    assert forall|p: Seq<u8>| path_views(post).contains(p) <==> exists|jj: int|
        0 <= jj < i + 1 && (#[trigger] vs[jj]).path == p && !table_has_digest(
            rows,
            p,
            entry_digest_spec(vs[jj]),
        ) by {
        lemma_contains_push(path_views(pre), vs[i].path, p);
        if path_views(post).contains(p) {
            if path_views(pre).contains(p) {
                let jj = choose|jj: int|
                    0 <= jj < i && (#[trigger] vs[jj]).path == p && !table_has_digest(
                        rows,
                        p,
                        entry_digest_spec(vs[jj]),
                    );
                assert(0 <= jj < i + 1 && vs[jj].path == p && !table_has_digest(
                    rows,
                    p,
                    entry_digest_spec(vs[jj]),
                ));
            } else {
                assert(p == vs[i].path);
                assert(0 <= i < i + 1 && vs[i].path == p && !table_has_digest(
                    rows,
                    p,
                    entry_digest_spec(vs[i]),
                ));
            }
        }
        if exists|jj: int|
            0 <= jj < i + 1 && (#[trigger] vs[jj]).path == p && !table_has_digest(
                rows,
                p,
                entry_digest_spec(vs[jj]),
            ) {
            let jj = choose|jj: int|
                0 <= jj < i + 1 && (#[trigger] vs[jj]).path == p && !table_has_digest(
                    rows,
                    p,
                    entry_digest_spec(vs[jj]),
                );
            if jj < i {
                assert(path_views(pre).contains(p));
            } else {
                assert(p == vs[i].path);
            }
        }
    }
    assert forall|a: int, b: int| 0 <= a < b < post.len() implies post[a]@ != post[b]@ by {
        if b == pre.len() {
            assert(path_views(pre)[a] == pre[a]@);
            assert(path_views(pre).contains(pre[a]@));
            let jj = choose|jj: int|
                0 <= jj < i && (#[trigger] vs[jj]).path == pre[a]@ && !table_has_digest(
                    rows,
                    pre[a]@,
                    entry_digest_spec(vs[jj]),
                );
            assert(vs[jj].path != vs[i].path);
        }
    }
}

/// After the table loop pushes unvisited row `k`, the reported paths
/// gain exactly that row's path, still without duplicates.
proof fn lemma_push_removed_row(
    pre: Seq<Vec<u8>>,
    post: Seq<Vec<u8>>,
    vs: Seq<EntryView>,
    rows: Seq<TableEntry>,
    k: int,
)
    requires
        0 <= k < rows.len(),
        post.len() == pre.len() + 1,
        forall|a: int| 0 <= a < pre.len() ==> post[a] == pre[a],
        post[pre.len() as int]@ == rows[k].path@,
        distinct_table_paths(rows),
        !walk_has_path(vs, rows[k].path@),
        forall|p: Seq<u8>|
            path_views(pre).contains(p) <==> ((exists|jj: int|
                0 <= jj < vs.len() && (#[trigger] vs[jj]).path == p && !table_has_digest(
                    rows,
                    p,
                    entry_digest_spec(vs[jj]),
                )) || (exists|kk: int|
                0 <= kk < k && (#[trigger] rows[kk]).path@ == p && !walk_has_path(vs, p))),
        forall|a: int, b: int| 0 <= a < b < pre.len() ==> pre[a]@ != pre[b]@,
    ensures
        forall|p: Seq<u8>|
            path_views(post).contains(p) <==> ((exists|jj: int|
                0 <= jj < vs.len() && (#[trigger] vs[jj]).path == p && !table_has_digest(
                    rows,
                    p,
                    entry_digest_spec(vs[jj]),
                )) || (exists|kk: int|
                0 <= kk < k + 1 && (#[trigger] rows[kk]).path@ == p && !walk_has_path(vs, p))),
        forall|a: int, b: int| 0 <= a < b < post.len() ==> post[a]@ != post[b]@,
{
    let p0 = rows[k].path@;
    assert(post =~= pre.push(post[pre.len() as int]));
    assert(path_views(post) =~= path_views(pre).push(p0));
    assert forall|p: Seq<u8>| path_views(post).contains(p) <==> ((exists|jj: int|
        0 <= jj < vs.len() && (#[trigger] vs[jj]).path == p && !table_has_digest(
            rows,
            p,
            entry_digest_spec(vs[jj]),
        )) || (exists|kk: int|
        0 <= kk < k + 1 && (#[trigger] rows[kk]).path@ == p && !walk_has_path(vs, p))) by {
        lemma_contains_push(path_views(pre), p0, p);
        if path_views(post).contains(p) && !path_views(pre).contains(p) {
            assert(p == p0);
            assert(0 <= k < k + 1 && rows[k].path@ == p && !walk_has_path(vs, p));
        }
        if exists|kk: int|
            0 <= kk < k + 1 && (#[trigger] rows[kk]).path@ == p && !walk_has_path(vs, p) {
            let kk = choose|kk: int|
                0 <= kk < k + 1 && (#[trigger] rows[kk]).path@ == p && !walk_has_path(vs, p);
            if kk == k {
                assert(p == p0);
            } else {
                assert(path_views(pre).contains(p));
            }
        }
    }
    assert forall|a: int, b: int| 0 <= a < b < post.len() implies post[a]@ != post[b]@ by {
        if b == pre.len() {
            assert(path_views(pre)[a] == pre[a]@);
            assert(path_views(pre).contains(pre[a]@));
            if pre[a]@ == p0 {
                if exists|jj: int|
                    0 <= jj < vs.len() && (#[trigger] vs[jj]).path == p0 && !table_has_digest(
                        rows,
                        p0,
                        entry_digest_spec(vs[jj]),
                    ) {
                    let jj = choose|jj: int|
                        0 <= jj < vs.len() && (#[trigger] vs[jj]).path == p0 && !table_has_digest(
                            rows,
                            p0,
                            entry_digest_spec(vs[jj]),
                        );
                    assert(walk_has_path(vs, p0));
                } else {
                    let kk = choose|kk: int|
                        0 <= kk < k && (#[trigger] rows[kk]).path@ == p0 && !walk_has_path(vs, p0);
                    assert(rows[kk].path@ != rows[k].path@);
                }
            }
        }
    }
}

impl FileTable {
    /// Finds the row holding `path`, if any.
    pub fn find(&self, path: &Vec<u8>) -> (found: Option<usize>)
        ensures
            match found {
                Option::Some(i) => i < self.rows@.len() && self.rows@[i as int].path@ == path@,
                Option::None => !table_has_path(self.rows@, path@),
            },
    {
        let n = self.rows.len();
        for i in 0..n
            invariant
                n == self.rows@.len(),
                forall|k: int| 0 <= k < i ==> (#[trigger] self.rows@[k]).path@ != path@,
        {
            if bytes_eq(&self.rows[i].path, path) {
                return Some(i);
            }
        }
        None
    }
}

/// What a manifest stores beside the root path and the whole-tree
/// digest: the exact per-path table, or the probabilistic checkpoint
/// filter.
pub enum ManifestData {
    Exact(FileTable),
    Probabilistic(GrowableBloom),
}

/// A captured baseline: the walked root, the whole-tree digest at
/// capture time, and one of the two per-entry representations.
pub struct Manifest {
    pub path: String,
    pub digest: Vec<u8>,
    pub data: ManifestData,
}

impl Manifest {
    pub open spec fn is_exact(self) -> bool {
        self.data is Exact
    }

    pub open spec fn is_probabilistic(self) -> bool {
        self.data is Probabilistic
    }

    pub open spec fn spec_table(self) -> FileTable
        recommends
            self.is_exact(),
    {
        self.data->Exact_0
    }

    pub open spec fn spec_bloom(self) -> GrowableBloom
        recommends
            self.is_probabilistic(),
    {
        self.data->Probabilistic_0
    }

    pub open spec fn wf(self) -> bool {
        &&& self.digest@.len() == 32
        &&& match self.data {
            ManifestData::Exact(t) => distinct_table_paths(t.rows@),
            ManifestData::Probabilistic(b) => b.wf(),
        }
    }

    /// Compares a freshly computed whole-tree digest against the stored
    /// one; equality is the only success, and a mismatch is an
    /// integrity-check failure, never an I/O error.
    pub fn check_hash(&self, digest: &Vec<u8>) -> (r: Result<(), Error>)
        ensures
            r is Ok <==> self.digest@ == digest@,
            r is Err ==> r->Err_0 is ManifestCheckFail,
    {
        if bytes_eq(&self.digest, digest) {
            Ok(())
        } else {
            Err(Error::ManifestCheckFail)
        }
    }

    /// Quick check: recompute the whole-tree digest over a fresh walk of
    /// the same subtree and compare it with the stored digest. Succeeds
    /// exactly when the two are equal; a mismatch is an integrity-check
    /// failure, never an I/O error.
    pub fn quick_check(&self, entries: &Vec<Entry>) -> (r: Result<(), Error>)
        ensures
            r is Ok <==> self.digest@ == tree_digest_spec(views_of(entries@)),
            r is Err ==> r->Err_0 is ManifestCheckFail,
    {
        let scanner = Scanner::new();
        let digest = scanner.scan(entries);
        self.check_hash(&digest)
    }

    /// Scan check, exact mode: re-walk the subtree and report every
    /// changed path — modified entries, newly added entries, and table
    /// paths no longer visited. An empty result means no detected
    /// change; the result holds no duplicates.
    pub fn scan_check(&self, entries: &Vec<Entry>) -> (changed: Vec<Vec<u8>>)
        requires
            self.wf(),
            self.is_exact(),
            crate::entry::distinct_paths(views_of(entries@)),
        ensures
            forall|p: Seq<u8>|
                path_views(changed@).contains(p) == changed_set(
                    self.spec_table().rows@,
                    views_of(entries@),
                ).contains(p),
            forall|a: int, b: int| 0 <= a < b < changed@.len() ==> changed@[a]@ != changed@[b]@,
    {
        let t = match &self.data {
            ManifestData::Exact(t) => t,
            ManifestData::Probabilistic(_) => {
                proof {
                    assert(false);
                }
                vstd::pervasive::unreached()
            },
        };
        let ghost rows = t.rows@;
        let ghost vs = views_of(entries@);
        let rows_len = t.rows.len();
        let mut seen: Vec<bool> = Vec::new();
        let mut k0: usize = 0;
        while k0 < rows_len
            invariant
                k0 <= rows_len,
                seen@.len() == k0,
                forall|k: int| 0 <= k < k0 ==> !seen@[k],
            decreases rows_len - k0,
        {
            seen.push(false);
            k0 = k0 + 1;
        }
        let mut changed: Vec<Vec<u8>> = Vec::new();
        let n = entries.len();
        for i in 0..n
            invariant
                n == entries@.len(),
                vs == views_of(entries@),
                rows == t.rows@,
                rows_len == rows.len(),
                seen@.len() == rows.len(),
                distinct_table_paths(rows),
                crate::entry::distinct_paths(vs),
                forall|k: int|
                    0 <= k < rows.len() ==> ((#[trigger] seen@[k]) <==> exists|jj: int|
                        0 <= jj < i && (#[trigger] vs[jj]).path == rows[k].path@),
                forall|p: Seq<u8>|
                    path_views(changed@).contains(p) <==> exists|jj: int|
                        0 <= jj < i && (#[trigger] vs[jj]).path == p && !table_has_digest(
                            rows,
                            p,
                            entry_digest_spec(vs[jj]),
                        ),
                forall|a: int, b: int| 0 <= a < b < changed@.len() ==> changed@[a]@ != changed@[b]@,
        {
            let e = &entries[i];
            let digest = crate::entry::entry_digest(e);
            let ghost pre_changed = changed@;
            let ghost pre_seen = seen@;
            proof {
                assert(vs[i as int] == entries@[i as int]@);
            }
            match t.find(&e.path) {
                Option::Some(k) => {
                    let matches_row = bytes_eq(&t.rows[k].digest, &digest);
                    seen[k] = true;
                    proof {
                        // any row holding this path is row k, the paths being distinct
                        assert forall|w: int|
                            0 <= w < rows.len() && (#[trigger] rows[w]).path@ == vs[i as int].path
                                implies w == k by {
                            if w != k {
                                assert(rows[w].path@ != rows[k as int].path@);
                            }
                        }
                        assert(table_has_digest(rows, vs[i as int].path, entry_digest_spec(vs[i as int]))
                            <==> matches_row);
                        // the new witness extends the seen flags at row k alone
                        assert forall|kk: int| 0 <= kk < rows.len() implies ((#[trigger] seen@[kk])
                            <==> exists|jj: int|
                                0 <= jj < i + 1 && (#[trigger] vs[jj]).path == rows[kk].path@) by {
                            if kk == k {
                                assert(vs[i as int].path == rows[kk].path@);
                            } else {
                                assert(seen@[kk] == pre_seen[kk]);
                                if exists|jj: int|
                                    0 <= jj < i + 1 && (#[trigger] vs[jj]).path == rows[kk].path@ {
                                    let jj = choose|jj: int|
                                        0 <= jj < i + 1 && (#[trigger] vs[jj]).path
                                            == rows[kk].path@;
                                    assert(jj != i);
                                }
                            }
                        }
                    }
                    if !matches_row {
                        changed.push(crate::entry::copy_bytes(&e.path));
                        proof {
                            lemma_path_views_push_changed(pre_changed, changed@, vs, rows, i as int);
                        }
                    } else {
                        proof {
                            assert forall|p: Seq<u8>| path_views(changed@).contains(p)
                                <==> exists|jj: int|
                                    0 <= jj < i + 1 && (#[trigger] vs[jj]).path == p
                                        && !table_has_digest(
                                        rows,
                                        p,
                                        entry_digest_spec(vs[jj]),
                                    ) by {
                                if exists|jj: int|
                                    0 <= jj < i + 1 && (#[trigger] vs[jj]).path == p
                                        && !table_has_digest(rows, p, entry_digest_spec(vs[jj])) {
                                    let jj = choose|jj: int|
                                        0 <= jj < i + 1 && (#[trigger] vs[jj]).path == p
                                            && !table_has_digest(
                                            rows,
                                            p,
                                            entry_digest_spec(vs[jj]),
                                        );
                                    assert(jj != i);
                                }
                            }
                        }
                    }
                },
                Option::None => {
                    changed.push(crate::entry::copy_bytes(&e.path));
                    proof {
                        // an absent path has no digest row either
                        assert forall|d: Seq<u8>| !table_has_digest(rows, vs[i as int].path, d) by {
                            if table_has_digest(rows, vs[i as int].path, d) {
                                let w = choose|w: int|
                                    0 <= w < rows.len() && (#[trigger] rows[w]).path@
                                        == vs[i as int].path && rows[w].digest@ == d;
                                assert(table_has_path(rows, vs[i as int].path));
                            }
                        }
                        lemma_path_views_push_changed(pre_changed, changed@, vs, rows, i as int);
                        // no row holds this path, so no seen flag gains a witness
                        assert forall|kk: int| 0 <= kk < rows.len() implies ((#[trigger] seen@[kk])
                            <==> exists|jj: int|
                                0 <= jj < i + 1 && (#[trigger] vs[jj]).path == rows[kk].path@) by {
                            if exists|jj: int|
                                0 <= jj < i + 1 && (#[trigger] vs[jj]).path == rows[kk].path@ {
                                let jj = choose|jj: int|
                                    0 <= jj < i + 1 && (#[trigger] vs[jj]).path == rows[kk].path@;
                                if jj == i {
                                    assert(table_has_path(rows, vs[i as int].path));
                                }
                            }
                        }
                    }
                },
            }
        }
        let mut k: usize = 0;
        while k < rows_len
            invariant
                k <= rows_len,
                n == entries@.len(),
                vs == views_of(entries@),
                rows == t.rows@,
                rows_len == rows.len(),
                seen@.len() == rows.len(),
                distinct_table_paths(rows),
                crate::entry::distinct_paths(vs),
                forall|kk: int|
                    0 <= kk < rows.len() ==> ((#[trigger] seen@[kk]) <==> walk_has_path(
                        vs,
                        rows[kk].path@,
                    )),
                forall|p: Seq<u8>|
                    path_views(changed@).contains(p) <==> ((exists|jj: int|
                        0 <= jj < vs.len() && (#[trigger] vs[jj]).path == p && !table_has_digest(
                            rows,
                            p,
                            entry_digest_spec(vs[jj]),
                        )) || (exists|kk: int|
                        0 <= kk < k && (#[trigger] rows[kk]).path@ == p && !walk_has_path(vs, p))),
                forall|a: int, b: int| 0 <= a < b < changed@.len() ==> changed@[a]@ != changed@[b]@,
            decreases rows_len - k,
        {
            let is_seen = seen[k];
            if !is_seen {
                let ghost pre_changed = changed@;
                changed.push(crate::entry::copy_bytes(&t.rows[k].path));
                proof {
                    lemma_push_removed_row(pre_changed, changed@, vs, rows, k as int);
                }
            } else {
                proof {
                    assert forall|p: Seq<u8>| path_views(changed@).contains(p) <==> ((exists|jj: int|
                        0 <= jj < vs.len() && (#[trigger] vs[jj]).path == p && !table_has_digest(
                            rows,
                            p,
                            entry_digest_spec(vs[jj]),
                        )) || (exists|kk: int|
                        0 <= kk < k + 1 && (#[trigger] rows[kk]).path@ == p && !walk_has_path(
                            vs,
                            p,
                        ))) by {
                        if exists|kk: int|
                            0 <= kk < k + 1 && (#[trigger] rows[kk]).path@ == p && !walk_has_path(
                                vs,
                                p,
                            ) {
                            let kk = choose|kk: int|
                                0 <= kk < k + 1 && (#[trigger] rows[kk]).path@ == p
                                    && !walk_has_path(vs, p);
                            assert(kk != k);
                        }
                    }
                }
            }
            k = k + 1;
        }
        proof {
            assert forall|p: Seq<u8>| path_views(changed@).contains(p) == changed_set(
                rows,
                vs,
            ).contains(p) by {
                if table_has_path(rows, p) && !walk_has_path(vs, p) {
                    let w = choose|w: int| 0 <= w < rows.len() && (#[trigger] rows[w]).path@ == p;
                    assert(0 <= w < rows.len() && rows[w].path@ == p && !walk_has_path(vs, p));
                }
            }
        }
        changed
    }
}

} // verus!
