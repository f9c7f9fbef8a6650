use vstd::prelude::*;
use crate::accum::{
    TreeAccumulator,
    checkpoint_spec,
    folded_bytes,
    lemma_folded_bytes_step,
    tree_digest_spec,
};
use crate::bloom::GrowableBloom;
use crate::entry::{Entry, EntryView, copy_bytes, distinct_paths, entry_digest, entry_digest_spec, views_of};
use crate::error::Error;
use crate::manifest::{FileTable, Manifest, ManifestData, TableEntry, distinct_table_paths};

verus! {

/// The checkpoints a walk over `vs` records: one finalized accumulator
/// state per entry.
pub open spec fn checkpoint_set(vs: Seq<EntryView>) -> Set<Seq<u8>> {
    Set::new(|c: Seq<u8>| exists|i: int| 0 <= i < vs.len() && c == checkpoint_spec(vs, i))
}

/// A scanner drives one walk over a subtree, already read into plain
/// entries in traversal order, and folds every entry into a whole-tree
/// digest.
pub struct Scanner {}

impl Scanner {
    pub fn new() -> (scanner: Scanner) {
        Scanner {}
    }

    /// Computes the whole-tree digest of the walked entries: every entry
    /// digest folded, in order, into one running accumulator.
    pub fn scan(&self, entries: &Vec<Entry>) -> (digest: Vec<u8>)
        ensures
            digest@ == tree_digest_spec(views_of(entries@)),
            digest@.len() == 32,
    {
        let mut acc = TreeAccumulator::new();
        let n = entries.len();
        for i in 0..n
            invariant
                n == entries@.len(),
                acc@ == folded_bytes(views_of(entries@).take(i as int)),
    {
            acc.fold_entry(&entries[i]);
            proof {
                lemma_folded_bytes_step(views_of(entries@), i as int);
            }
        }
        proof {
            assert(views_of(entries@).take(n as int) =~= views_of(entries@));
        }
        acc.checkpoint()
    }

    /// Builds an exact baseline: one digest row per walked entry, in
    /// walk order, beside the whole-tree digest.
    pub fn build_manifest(&self, root: String, entries: &Vec<Entry>) -> (m: Manifest)
        requires
            distinct_paths(views_of(entries@)),
        ensures
            m.wf(),
            m.is_exact(),
            m.path == root,
            m.digest@ == tree_digest_spec(views_of(entries@)),
            crate::manifest::table_matches_walk(m.spec_table().rows@, views_of(entries@)),
    {
        let ghost vs = views_of(entries@);
        let mut acc = TreeAccumulator::new();
        let mut rows: Vec<TableEntry> = Vec::new();
        let n = entries.len();
        for i in 0..n
            invariant
                n == entries@.len(),
                vs == views_of(entries@),
                acc@ == folded_bytes(vs.take(i as int)),
                rows@.len() == i,
                forall|j: int|
                    0 <= j < i ==> (#[trigger] rows@[j]).path@ == vs[j].path && rows@[j].digest@
                        == entry_digest_spec(vs[j]),
        {
            let e = &entries[i];
            let digest = entry_digest(e);
            acc.fold_digest(&digest);
            rows.push(TableEntry { path: copy_bytes(&e.path), digest });
            proof {
                lemma_folded_bytes_step(vs, i as int);
            }
        }
        let digest = acc.checkpoint();
        proof {
            assert(vs.take(n as int) =~= vs);
            assert(distinct_table_paths(rows@));
        }
        Manifest { path: root, digest, data: ManifestData::Exact(FileTable { rows }) }
    }

    /// Builds a probabilistic baseline: every walk checkpoint inserted
    /// into a growable bloom filter sized for the observed entry count
    /// and a false-positive target of one in `fp_inverse`, beside the
    /// whole-tree digest.
    pub fn build_manifest_probabilistic(
        &self,
        root: String,
        entries: &Vec<Entry>,
        fp_inverse: u64,
    ) -> (m: Manifest)
        ensures
            m.wf(),
            m.is_probabilistic(),
            m.path == root,
            m.digest@ == tree_digest_spec(views_of(entries@)),
            m.spec_bloom().probes as int == crate::bloom::chosen_probes(fp_inverse),
            forall|c: Seq<u8>|
                m.spec_bloom()@.contains(c) == checkpoint_set(views_of(entries@)).contains(c),
    {
        let ghost vs = views_of(entries@);
        let mut acc = TreeAccumulator::new();
        let mut checkpoints: Vec<Vec<u8>> = Vec::new();
        let n = entries.len();
        for i in 0..n
            invariant
                n == entries@.len(),
                vs == views_of(entries@),
                acc@ == folded_bytes(vs.take(i as int)),
                checkpoints@.len() == i,
                forall|j: int|
                    0 <= j < i ==> (#[trigger] checkpoints@[j])@ == checkpoint_spec(vs, j),
        {
            acc.fold_entry(&entries[i]);
            proof {
                lemma_folded_bytes_step(vs, i as int);
            }
            checkpoints.push(acc.checkpoint());
        }
        let count = checkpoints.len();
        let mut bloom = GrowableBloom::new(fp_inverse, count);
        let mut inserted: usize = 0;
        while inserted < count
            invariant
                count == checkpoints@.len(),
                count == vs.len(),
                inserted <= count,
                bloom.wf(),
                bloom.probes as int == crate::bloom::chosen_probes(fp_inverse),
                forall|j: int|
                    0 <= j < count ==> (#[trigger] checkpoints@[j])@ == checkpoint_spec(vs, j),
                forall|c: Seq<u8>|
                    bloom@.contains(c) <==> exists|j: int|
                        0 <= j < inserted && c == checkpoint_spec(vs, j),
            decreases count - inserted,
        {
            bloom.insert(&checkpoints[inserted]);
            inserted = inserted + 1;
        }
        let digest = acc.checkpoint();
        proof {
            assert(vs.take(n as int) =~= vs);
        }
        Manifest { path: root, digest, data: ManifestData::Probabilistic(bloom) }
    }

    /// Scan check, probabilistic mode: re-walk the subtree, recompute
    /// every checkpoint, and test each against the stored filter. A
    /// single missing checkpoint is proof of divergence and fails the
    /// check; success means every checkpoint is possibly present,
    /// subject to the filter's false-positive target.
    pub fn check_manifest(&self, entries: &Vec<Entry>, manifest: &Manifest) -> (r: Result<
        (),
        Error,
    >)
        requires
            manifest.wf(),
            manifest.is_probabilistic(),
        ensures
            r is Ok <==> forall|i: int|
                0 <= i < entries@.len() ==> manifest.spec_bloom().spec_hits(
                    checkpoint_spec(views_of(entries@), i),
                ),
            r is Err ==> r->Err_0 is ManifestCheckFail,
    {
        let bloom = match &manifest.data {
            ManifestData::Probabilistic(b) => b,
            ManifestData::Exact(_) => {
                proof {
                    assert(false);
                }
                vstd::pervasive::unreached()
            },
        };
        let ghost vs = views_of(entries@);
        let mut acc = TreeAccumulator::new();
        let n = entries.len();
        for i in 0..n
            invariant
                n == entries@.len(),
                vs == views_of(entries@),
                acc@ == folded_bytes(vs.take(i as int)),
                bloom == manifest.spec_bloom(),
                manifest.wf(),
                manifest.is_probabilistic(),
                forall|j: int| 0 <= j < i ==> bloom.spec_hits(checkpoint_spec(vs, j)),
        {
            acc.fold_entry(&entries[i]);
            proof {
                lemma_folded_bytes_step(vs, i as int);
            }
            let cp = acc.checkpoint();
            if !bloom.contains(&cp) {
                proof {
                    assert(vs[i as int] == entries@[i as int]@);
                    assert(acc@ == folded_bytes(vs.take(i as int + 1)));
                    assert(cp@ == checkpoint_spec(vs, i as int));
                    assert(!bloom.spec_hits(checkpoint_spec(vs, i as int)));
                }
                return Err(Error::ManifestCheckFail);
            }
        }
        Ok(())
    }
}

} // verus!
