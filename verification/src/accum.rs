use vstd::prelude::*;
use crate::entry::{Entry, EntryView, entry_digest, entry_digest_spec};
use crate::hashing::{blake3_of, blake3_digest};

verus! {

/// The bytes folded into the whole-tree accumulator by a walk over
/// `vs`: the concatenation of every entry's digest, in walk order.
pub open spec fn folded_bytes(vs: Seq<EntryView>) -> Seq<u8>
    decreases vs.len(),
{
    if vs.len() == 0 {
        Seq::empty()
    } else {
        folded_bytes(vs.drop_last()) + entry_digest_spec(vs.last())
    }
}

/// The whole-tree digest of a walk over `vs`: the hash of all folded
/// entry digests.
pub open spec fn tree_digest_spec(vs: Seq<EntryView>) -> Seq<u8> {
    blake3_of(folded_bytes(vs))
}

/// The checkpoint right after folding entry `i`: the accumulator state so
/// far, finalized into a digest.
pub open spec fn checkpoint_spec(vs: Seq<EntryView>, i: int) -> Seq<u8> {
    blake3_of(folded_bytes(vs.take(i + 1)))
}

/// Folding one more entry extends the folded bytes by that entry's digest.
pub proof fn lemma_folded_bytes_step(vs: Seq<EntryView>, i: int)
    requires
        0 <= i < vs.len(),
    ensures
        folded_bytes(vs.take(i + 1)) == folded_bytes(vs.take(i)) + entry_digest_spec(vs[i]),
{
    assert(vs.take(i + 1).drop_last() =~= vs.take(i));
    assert(vs.take(i + 1).last() == vs[i]);
}

/// The running whole-tree accumulator: update-only, never reset. Its
/// value is the concatenation of the entry digests folded so far.
pub struct TreeAccumulator {
    folded: Vec<u8>,
}

impl View for TreeAccumulator {
    type V = Seq<u8>;

    closed spec fn view(&self) -> Seq<u8> {
        self.folded@
    }
}

impl TreeAccumulator {
    /// A fresh accumulator, with nothing folded in.
    pub fn new() -> (acc: TreeAccumulator)
        ensures
            acc@ == Seq::<u8>::empty(),
    {
        TreeAccumulator { folded: Vec::new() }
    }

    /// Folds an already computed entry digest into the running
    /// accumulator.
    pub fn fold_digest(&mut self, digest: &Vec<u8>)
        ensures
            final(self)@ == old(self)@ + digest@,
    {
        crate::entry::push_bytes(&mut self.folded, digest);
    }

    /// Folds one entry's digest into the running accumulator. The entry's
    /// own digest uses a hash seeded fresh for this entry alone.
    pub fn fold_entry(&mut self, entry: &Entry)
        ensures
            final(self)@ == old(self)@ + entry_digest_spec(entry@),
    {
        let digest = entry_digest(entry);
        self.fold_digest(&digest);
    }

    /// Finalizes the accumulator state so far into a 256-bit value,
    /// without disturbing the running state.
    pub fn checkpoint(&self) -> (digest: Vec<u8>)
        ensures
            digest@ == blake3_of(self@),
            digest@.len() == 32,
    {
        blake3_digest(self.folded.as_slice())
    }
}

} // verus!
