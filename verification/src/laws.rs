use vstd::prelude::*;
use crate::accum::{checkpoint_spec, tree_digest_spec};
use crate::bloom::GrowableBloom;
use crate::entry::{
    EntryKind,
    EntryView,
    canonical_spec,
    distinct_paths,
    entry_digest_spec,
    mode_bytes_spec,
    readonly_code_spec,
};
use crate::manifest::{
    TableEntry,
    changed_set,
    table_has_digest,
    table_has_path,
    table_matches_walk,
    walk_has_path,
};
use crate::scanner::checkpoint_set;

verus! {

/// Law: determinism. The whole-tree digest is a function of the walked
/// entries alone, so two walks that yield the same entries yield the
/// same digest.
pub proof fn lemma_scan_deterministic(vs1: Seq<EntryView>, vs2: Seq<EntryView>)
    requires
        vs1 =~= vs2,
    ensures
        tree_digest_spec(vs1) == tree_digest_spec(vs2),
{
}

/// Law: build/verify round trip, exact mode. A scan check of an
/// unmodified walk against the table its own build produced reports no
/// changed path.
pub proof fn lemma_exact_round_trip(rows: Seq<TableEntry>, vs: Seq<EntryView>)
    requires
        distinct_paths(vs),
        table_matches_walk(rows, vs),
    ensures
        changed_set(rows, vs) =~= Set::<Seq<u8>>::empty(),
{
    assert forall|p: Seq<u8>| !changed_set(rows, vs).contains(p) by {
        if exists|i: int|
            0 <= i < vs.len() && (#[trigger] vs[i]).path == p && !table_has_digest(
                rows,
                p,
                entry_digest_spec(vs[i]),
            ) {
            let i = choose|i: int|
                0 <= i < vs.len() && (#[trigger] vs[i]).path == p && !table_has_digest(
                    rows,
                    p,
                    entry_digest_spec(vs[i]),
                );
            assert(rows[i].path@ == p && rows[i].digest@ == entry_digest_spec(vs[i]));
        }
        if table_has_path(rows, p) && !walk_has_path(vs, p) {
            let w = choose|w: int| 0 <= w < rows.len() && (#[trigger] rows[w]).path@ == p;
            assert(vs[w].path == p);
        }
    }
}

/// Law: build/verify round trip, probabilistic mode. Every checkpoint
/// the build inserted is found by a later membership test, so a
/// probabilistic scan check of an unmodified walk succeeds.
pub proof fn lemma_probabilistic_round_trip(b: GrowableBloom, vs: Seq<EntryView>)
    requires
        b.wf(),
        forall|c: Seq<u8>| b@.contains(c) == checkpoint_set(vs).contains(c),
    ensures
        forall|i: int| 0 <= i < vs.len() ==> b.spec_hits(checkpoint_spec(vs, i)),
{
    assert forall|i: int| 0 <= i < vs.len() implies b.spec_hits(checkpoint_spec(vs, i)) by {
        assert(checkpoint_set(vs).contains(checkpoint_spec(vs, i)));
        assert(b@.contains(checkpoint_spec(vs, i)));
        crate::bloom::lemma_no_false_negative(b, checkpoint_spec(vs, i));
    }
}

/// Law: change sensitivity, content. Two entries that agree in path,
/// kind and permissions but differ in content have different canonical
/// byte sequences — so their digests agree only on a hash collision.
pub proof fn lemma_content_change(e1: EntryView, e2: EntryView)
    requires
        e1.kind == e2.kind,
        e1.kind == EntryKind::File || e1.kind == EntryKind::Symlink,
        e1.readonly == e2.readonly,
        e1.mode == e2.mode,
        e1.path == e2.path,
        e1.content != e2.content,
    ensures
        canonical_spec(e1) != canonical_spec(e2),
{
    let c1 = canonical_spec(e1);
    let c2 = canonical_spec(e2);
    let head = 2 + mode_bytes_spec(e1.mode).len();
    if e1.content.len() == e2.content.len() {
        if c1 == c2 {
            assert forall|i: int| 0 <= i < e1.content.len() implies e1.content[i]
                == e2.content[i] by {
                assert(c1[head + i] == e1.content[i]);
                assert(c2[head + i] == e2.content[i]);
            }
            assert(e1.content =~= e2.content);
        }
    } else {
        assert(c1.len() != c2.len());
    }
}

/// Law: change sensitivity, metadata. Toggling the readonly flag or
/// changing the mode bits, content and path unchanged, changes the
/// canonical byte sequence — so the digest changes up to a hash
/// collision.
pub proof fn lemma_metadata_change(e1: EntryView, e2: EntryView)
    requires
        e1.kind == e2.kind,
        e1.path == e2.path,
        e1.content == e2.content,
        e1.readonly != e2.readonly || e1.mode != e2.mode,
    ensures
        canonical_spec(e1) != canonical_spec(e2),
{
    let c1 = canonical_spec(e1);
    let c2 = canonical_spec(e2);
    if e1.readonly != e2.readonly {
        assert(c1[1] == readonly_code_spec(e1.readonly));
        assert(c2[1] == readonly_code_spec(e2.readonly));
    } else {
        match (e1.mode, e2.mode) {
            (Option::Some(m1), Option::Some(m2)) => {
                assert(m1 != m2);
                if c1 == c2 {
                    assert(c1[2] == (m1 >> 24) as u8 && c1[3] == (m1 >> 16) as u8 && c1[4] == (m1
                        >> 8) as u8 && c1[5] == m1 as u8);
                    assert(c2[2] == (m2 >> 24) as u8 && c2[3] == (m2 >> 16) as u8 && c2[4] == (m2
                        >> 8) as u8 && c2[5] == m2 as u8);
                    assert(((m1 >> 24) as u8 == (m2 >> 24) as u8 && (m1 >> 16) as u8 == (m2
                        >> 16) as u8 && (m1 >> 8) as u8 == (m2 >> 8) as u8 && m1 as u8
                        == m2 as u8) ==> m1 == m2) by (bit_vector);
                }
            },
            (Option::Some(_), Option::None) => {
                assert(c1.len() == c2.len() + 4);
            },
            (Option::None, Option::Some(_)) => {
                assert(c2.len() == c1.len() + 4);
            },
            (Option::None, Option::None) => {
                assert(false);
            },
        }
    }
}

/// Law: change sensitivity, modification. When one walked entry is
/// replaced by an entry at the same path whose digest differs, the
/// exact scan check reports exactly that path and no other.
pub proof fn lemma_modification_detected(
    rows: Seq<TableEntry>,
    vs: Seq<EntryView>,
    i: int,
    e2: EntryView,
)
    requires
        distinct_paths(vs),
        table_matches_walk(rows, vs),
        0 <= i < vs.len(),
        e2.path == vs[i].path,
        entry_digest_spec(e2) != entry_digest_spec(vs[i]),
    ensures
        changed_set(rows, vs.update(i, e2)) =~= set![vs[i].path],
{
    let vs2 = vs.update(i, e2);
    let p0 = vs[i].path;
    assert forall|p: Seq<u8>| changed_set(rows, vs2).contains(p) <==> p == p0 by {
        if changed_set(rows, vs2).contains(p) {
            if exists|j: int|
                0 <= j < vs2.len() && (#[trigger] vs2[j]).path == p && !table_has_digest(
                    rows,
                    p,
                    entry_digest_spec(vs2[j]),
                ) {
                let j = choose|j: int|
                    0 <= j < vs2.len() && (#[trigger] vs2[j]).path == p && !table_has_digest(
                        rows,
                        p,
                        entry_digest_spec(vs2[j]),
                    );
                if j != i {
                    assert(vs2[j] == vs[j]);
                    assert(rows[j].path@ == p && rows[j].digest@ == entry_digest_spec(vs[j]));
                    assert(false);
                }
            } else {
                let w = choose|w: int| 0 <= w < rows.len() && (#[trigger] rows[w]).path@ == p;
                assert(vs[w].path == p);
                if w == i {
                    assert(vs2[i].path == p0);
                } else {
                    assert(vs2[w] == vs[w]);
                }
                assert(walk_has_path(vs2, p));
                assert(false);
            }
        }
        if p == p0 {
            assert(vs2[i].path == p);
            assert(!table_has_digest(rows, p, entry_digest_spec(vs2[i]))) by {
                if table_has_digest(rows, p, entry_digest_spec(e2)) {
                    let w = choose|w: int|
                        0 <= w < rows.len() && (#[trigger] rows[w]).path@ == p && rows[w].digest@
                            == entry_digest_spec(e2);
                    assert(vs[w].path == p);
                    if w != i {
                        assert(vs[w].path != vs[i].path);
                    }
                    assert(rows[i].digest@ == entry_digest_spec(vs[i]));
                }
            }
        }
    }
}

/// Law: change sensitivity, rename. Moving one walked entry to a path
/// the walk did not hold before is reported as exactly one removal (the
/// old path) and one addition (the new path) by the exact scan check.
pub proof fn lemma_rename_detected(
    rows: Seq<TableEntry>,
    vs: Seq<EntryView>,
    i: int,
    e2: EntryView,
)
    requires
        distinct_paths(vs),
        table_matches_walk(rows, vs),
        0 <= i < vs.len(),
        !walk_has_path(vs, e2.path),
    ensures
        changed_set(rows, vs.update(i, e2)) =~= set![vs[i].path, e2.path],
{
    let vs2 = vs.update(i, e2);
    let old_p = vs[i].path;
    let new_p = e2.path;
    assert(old_p != new_p) by {
        assert(walk_has_path(vs, old_p));
    }
    assert forall|p: Seq<u8>| changed_set(rows, vs2).contains(p) <==> (p == old_p || p
        == new_p) by {
        if changed_set(rows, vs2).contains(p) {
            if exists|j: int|
                0 <= j < vs2.len() && (#[trigger] vs2[j]).path == p && !table_has_digest(
                    rows,
                    p,
                    entry_digest_spec(vs2[j]),
                ) {
                let j = choose|j: int|
                    0 <= j < vs2.len() && (#[trigger] vs2[j]).path == p && !table_has_digest(
                        rows,
                        p,
                        entry_digest_spec(vs2[j]),
                    );
                if j != i {
                    assert(vs2[j] == vs[j]);
                    assert(rows[j].path@ == p && rows[j].digest@ == entry_digest_spec(vs[j]));
                    assert(false);
                }
                assert(p == new_p);
            } else {
                let w = choose|w: int| 0 <= w < rows.len() && (#[trigger] rows[w]).path@ == p;
                assert(vs[w].path == p);
                if w != i {
                    assert(vs2[w] == vs[w]);
                    assert(walk_has_path(vs2, p));
                    assert(false);
                }
                assert(p == old_p);
            }
        }
        if p == new_p {
            assert(vs2[i].path == p);
            assert(!table_has_digest(rows, p, entry_digest_spec(vs2[i]))) by {
                if table_has_digest(rows, p, entry_digest_spec(e2)) {
                    let w = choose|w: int|
                        0 <= w < rows.len() && (#[trigger] rows[w]).path@ == p && rows[w].digest@
                            == entry_digest_spec(e2);
                    assert(vs[w].path == p);
                    assert(walk_has_path(vs, new_p));
                }
            }
            assert(changed_set(rows, vs2).contains(p));
        }
        if p == old_p {
            assert(table_has_path(rows, p)) by {
                assert(rows[i].path@ == p);
            }
            assert(!walk_has_path(vs2, p)) by {
                if walk_has_path(vs2, p) {
                    let j = choose|j: int| 0 <= j < vs2.len() && (#[trigger] vs2[j]).path == p;
                    if j == i {
                        assert(vs2[i].path == new_p);
                    } else {
                        assert(vs[j].path == vs[i].path);
                        assert(vs[j].path != vs[i].path);
                    }
                }
            }
            assert(changed_set(rows, vs2).contains(p));
        }
    }
}

/// Law: addition completeness. Appending an entry at a path the walk
/// did not hold before is reported as exactly that one path by the
/// exact scan check, although no existing entry's digest changed.
pub proof fn lemma_addition_detected(rows: Seq<TableEntry>, vs: Seq<EntryView>, e2: EntryView)
    requires
        distinct_paths(vs),
        table_matches_walk(rows, vs),
        !walk_has_path(vs, e2.path),
    ensures
        changed_set(rows, vs.push(e2)) =~= set![e2.path],
{
    let vs2 = vs.push(e2);
    let new_p = e2.path;
    assert forall|p: Seq<u8>| changed_set(rows, vs2).contains(p) <==> p == new_p by {
        if changed_set(rows, vs2).contains(p) {
            if exists|j: int|
                0 <= j < vs2.len() && (#[trigger] vs2[j]).path == p && !table_has_digest(
                    rows,
                    p,
                    entry_digest_spec(vs2[j]),
                ) {
                let j = choose|j: int|
                    0 <= j < vs2.len() && (#[trigger] vs2[j]).path == p && !table_has_digest(
                        rows,
                        p,
                        entry_digest_spec(vs2[j]),
                    );
                if j < vs.len() {
                    assert(vs2[j] == vs[j]);
                    assert(rows[j].path@ == p && rows[j].digest@ == entry_digest_spec(vs[j]));
                    assert(false);
                }
                assert(p == new_p);
            } else {
                let w = choose|w: int| 0 <= w < rows.len() && (#[trigger] rows[w]).path@ == p;
                assert(vs[w].path == p);
                assert(vs2[w] == vs[w]);
                assert(walk_has_path(vs2, p));
                assert(false);
            }
        }
        if p == new_p {
            assert(vs2[vs.len() as int].path == p);
            assert(!table_has_digest(rows, p, entry_digest_spec(vs2[vs.len() as int]))) by {
                if table_has_digest(rows, p, entry_digest_spec(e2)) {
                    let w = choose|w: int|
                        0 <= w < rows.len() && (#[trigger] rows[w]).path@ == p && rows[w].digest@
                            == entry_digest_spec(e2);
                    assert(vs[w].path == p);
                    assert(walk_has_path(vs, new_p));
                }
            }
            assert(changed_set(rows, vs2).contains(p));
        }
    }
}

/// Law: removal completeness. Dropping one walked entry is reported as
/// exactly that entry's path by the exact scan check, through the
/// unseen-path rule.
pub proof fn lemma_removal_detected(rows: Seq<TableEntry>, vs: Seq<EntryView>, i: int)
    requires
        distinct_paths(vs),
        table_matches_walk(rows, vs),
        0 <= i < vs.len(),
    ensures
        changed_set(rows, vs.remove(i)) =~= set![vs[i].path],
{
    let vs2 = vs.remove(i);
    let p0 = vs[i].path;
    assert forall|p: Seq<u8>| changed_set(rows, vs2).contains(p) <==> p == p0 by {
        if changed_set(rows, vs2).contains(p) {
            if exists|j: int|
                0 <= j < vs2.len() && (#[trigger] vs2[j]).path == p && !table_has_digest(
                    rows,
                    p,
                    entry_digest_spec(vs2[j]),
                ) {
                let j = choose|j: int|
                    0 <= j < vs2.len() && (#[trigger] vs2[j]).path == p && !table_has_digest(
                        rows,
                        p,
                        entry_digest_spec(vs2[j]),
                    );
                let j0 = if j < i {
                    j
                } else {
                    j + 1
                };
                assert(vs2[j] == vs[j0]);
                assert(rows[j0].path@ == p && rows[j0].digest@ == entry_digest_spec(vs[j0]));
                assert(false);
            } else {
                let w = choose|w: int| 0 <= w < rows.len() && (#[trigger] rows[w]).path@ == p;
                assert(vs[w].path == p);
                if w != i {
                    let j = if w < i {
                        w
                    } else {
                        w - 1
                    };
                    assert(vs2[j] == vs[w]);
                    assert(walk_has_path(vs2, p));
                    assert(false);
                }
                assert(p == p0);
            }
        }
        if p == p0 {
            assert(table_has_path(rows, p)) by {
                assert(rows[i].path@ == p);
            }
            assert(!walk_has_path(vs2, p)) by {
                if walk_has_path(vs2, p) {
                    let j = choose|j: int| 0 <= j < vs2.len() && (#[trigger] vs2[j]).path == p;
                    let j0 = if j < i {
                        j
                    } else {
                        j + 1
                    };
                    assert(vs2[j] == vs[j0]);
                    assert(vs[j0].path != vs[i].path);
                }
            }
            assert(changed_set(rows, vs2).contains(p));
        }
    }
}

/// Law: a probabilistic scan-check failure is sound. A checkpoint that
/// misses the filter was never inserted, so it is none of the
/// checkpoints the baseline walk produced: the walks diverge.
pub proof fn lemma_probabilistic_failure_sound(
    b: GrowableBloom,
    base: Seq<EntryView>,
    vs2: Seq<EntryView>,
    i: int,
)
    requires
        b.wf(),
        forall|c: Seq<u8>| b@.contains(c) == checkpoint_set(base).contains(c),
        0 <= i < vs2.len(),
        !b.spec_hits(checkpoint_spec(vs2, i)),
    ensures
        forall|j: int| 0 <= j < base.len() ==> checkpoint_spec(vs2, i) != checkpoint_spec(base, j),
{
    let c = checkpoint_spec(vs2, i);
    crate::bloom::lemma_miss_means_absent(b, c);
    assert(!b@.contains(c));
    assert forall|j: int| 0 <= j < base.len() implies c != checkpoint_spec(base, j) by {
        if c == checkpoint_spec(base, j) {
            assert(checkpoint_set(base).contains(c));
        }
    }
}

} // verus!
