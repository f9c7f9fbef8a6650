use vstd::prelude::*;
use vstd::arithmetic::div_mod::{lemma_add_mod_noop_right, lemma_mod_multiples_vanish, lemma_small_mod};
use vstd::arithmetic::mul::lemma_mul_upper_bound;

verus! {

/// A byte of `x`, with positions past the end reading as zero.
pub open spec fn byte_at(x: Seq<u8>, i: int) -> u8 {
    if 0 <= i < x.len() {
        x[i]
    } else {
        0
    }
}

/// `n` bytes of `x` starting at `off`, read as a little-endian number.
pub open spec fn le_word_rec(x: Seq<u8>, off: int, n: nat) -> nat
    decreases n,
{
    if n == 0 {
        0
    } else {
        (byte_at(x, off) + 256 * le_word_rec(x, off + 1, (n - 1) as nat)) as nat
    }
}

pub open spec fn pow256(n: nat) -> nat
    decreases n,
{
    if n == 0 {
        1
    } else {
        256 * pow256((n - 1) as nat)
    }
}

proof fn lemma_le_word_bound(x: Seq<u8>, off: int, n: nat)
    ensures
        le_word_rec(x, off, n) < pow256(n),
    decreases n,
{
    if n > 0 {
        lemma_le_word_bound(x, off + 1, (n - 1) as nat);
    }
}

proof fn lemma_pow256_eight()
    ensures
        pow256(7) == 0x100_0000_0000_0000,
        pow256(8) == 0x1_0000_0000_0000_0000,
{
    assert(pow256(0) == 1);
    assert(pow256(1) == 256);
    assert(pow256(2) == 0x1_0000);
    assert(pow256(3) == 0x100_0000);
    assert(pow256(4) == 0x1_0000_0000);
    assert(pow256(5) == 0x100_0000_0000);
    assert(pow256(6) == 0x1_0000_0000_0000);
    assert(pow256(7) == 0x100_0000_0000_0000);
    assert(pow256(8) == 0x1_0000_0000_0000_0000);
}

/// A 64-bit word read little-endian from eight bytes of `x` at `off`.
pub open spec fn word_at(x: Seq<u8>, off: int) -> int {
    le_word_rec(x, off, 8) as int
}

fn read_word(x: &Vec<u8>, off: usize) -> (w: u64)
    requires
        off <= 16,
    ensures
        w == word_at(x@, off as int),
{
    proof {
        lemma_pow256_eight();
    }
    let mut w: u64 = 0;
    let mut i: usize = 8;
    while i > 0
        invariant
            i <= 8,
            off <= 16,
            w == le_word_rec(x@, off + i, (8 - i) as nat),
            w < pow256((8 - i) as nat),
            pow256(7) == 0x100_0000_0000_0000,
            pow256(8) == 0x1_0000_0000_0000_0000,
        decreases i,
    {
        i = i - 1;
        let b: u8 = if off + i < x.len() {
            x[off + i]
        } else {
            0
        };
        proof {
            assert(b == byte_at(x@, off + i));
            // the accumulator so far stays below pow256(7), so one more
            // step stays below pow256(8) - 1 == u64::MAX
            lemma_pow256_monotone((8 - (i + 1)) as nat, 7);
            lemma_le_word_bound(x@, off + i, (8 - i) as nat);
        }
        w = w * 256 + (b as u64);
        assert(w == le_word_rec(x@, off + i, (8 - i) as nat));
    }
    w
}

proof fn lemma_pow256_monotone(a: nat, b: nat)
    requires
        a <= b,
    ensures
        pow256(a) <= pow256(b),
    decreases b,
{
    if a < b {
        lemma_pow256_monotone(a, (b - 1) as nat);
        assert(pow256(b) == 256 * pow256((b - 1) as nat));
    }
}

/// The bit position that probe `j` of element `x` tests, in a generation
/// of `m` bits: a double-hashing mix of two words read from the element.
pub open spec fn probe_index_spec(x: Seq<u8>, j: int, m: int) -> int
    recommends
        0 < m,
{
    ((word_at(x, 0) + j * word_at(x, 8)) % 0x1_0000_0000_0000_0000) % m
}

fn probe_index(x: &Vec<u8>, j: usize, m: usize) -> (idx: usize)
    requires
        0 < m,
        j <= 64,
    ensures
        idx == probe_index_spec(x@, j as int, m as int),
        idx < m,
{
    proof {
        lemma_pow256_eight();
        lemma_le_word_bound(x@, 0, 8);
        lemma_le_word_bound(x@, 8, 8);
    }
    let w1 = read_word(x, 0);
    let w2 = read_word(x, 8);
    let stride = (j as u64).wrapping_mul(w2);
    let mixed = w1.wrapping_add(stride);
    proof {
        let modulus: int = 0x1_0000_0000_0000_0000;
        let jw: int = (j as u64) as int * (w2 as int);
        assert(stride as int == jw % modulus);
        lemma_add_mod_noop_right(w1 as int, jw, modulus);
        if w1 as int + stride as int <= u64::MAX {
            lemma_small_mod((w1 + stride) as nat, modulus as nat);
        } else {
            lemma_mod_multiples_vanish(1, w1 as int + stride as int - modulus, modulus);
            lemma_small_mod((w1 as int + stride as int - modulus) as nat, modulus as nat);
        }
        assert(mixed as int == (w1 as int + jw) % modulus);
    }
    let m64 = m as u64;
    let idx64 = mixed % m64;
    idx64 as usize
}

/// The insertion capacity a generation is actually sized for: at least
/// one, and never more than the per-generation bound, so that a larger
/// request spills into further generations instead of an undersized
/// bit array.
pub open spec fn clamped_capacity(capacity: u64) -> u64 {
    if capacity == 0 {
        1
    } else if capacity > 0x10_0000 {
        0x10_0000
    } else {
        capacity
    }
}

/// The capacity of the generation appended when one fills: the old
/// capacity doubled, held within the per-generation bound.
pub open spec fn grown_capacity(capacity: u64) -> u64 {
    clamped_capacity(
        if capacity > 0x7fff_ffff_ffff_ffff {
            capacity
        } else {
            (2 * capacity) as u64
        },
    )
}

/// The probe count for a false-positive target of one in `fp_inverse`,
/// starting the search at `k`: the smallest count whose per-probe
/// halvings reach the target, held within 1 to 32.
pub open spec fn chosen_probes_from(k: int, fp_inverse: u64) -> int
    decreases 32 - k,
{
    if k >= 32 {
        32
    } else if (1u64 << (k as u64)) >= fp_inverse {
        k
    } else {
        chosen_probes_from(k + 1, fp_inverse)
    }
}

/// The probe count a fresh filter uses for a false-positive target of
/// one in `fp_inverse`.
pub open spec fn chosen_probes(fp_inverse: u64) -> int {
    chosen_probes_from(1, fp_inverse)
}

/// One bloom generation: a fixed array of bits and the insertion
/// capacity it was sized for.
pub struct BloomGen {
    pub bits: Vec<bool>,
    pub capacity: u64,
    pub count: u64,
}

impl BloomGen {
    pub open spec fn wf(self) -> bool {
        1 <= self.bits@.len()
    }

    /// All probe bits of `x` are set in this generation.
    pub open spec fn hits(self, x: Seq<u8>, probes: int) -> bool {
        forall|j: int|
            0 <= j < probes ==> self.bits@[probe_index_spec(x, j, self.bits@.len() as int)]
    }

    /// A fresh generation sized for `capacity` insertions with `probes`
    /// probes each, all bits clear. The insertion capacity a generation
    /// accepts is bounded, so a larger request is cut down and later
    /// insertions spill into further generations; the stored capacity is
    /// always the one the bits were sized for.
    pub fn new(probes: usize, capacity: u64) -> (g: BloomGen)
        requires
            1 <= probes <= 32,
        ensures
            g.wf(),
            g.capacity == clamped_capacity(capacity),
            g.count == 0,
            g.bits@.len() == 2 * probes * g.capacity,
            forall|i: int| 0 <= i < g.bits@.len() ==> !g.bits@[i],
    {
        // Two bits per insertion per probe keeps each generation sparse
        // enough for its false-positive share, provided no generation
        // takes more insertions than the bits were sized for.
        let per: u64 = (probes as u64) * 2;
        let sized: u64 = if capacity == 0 {
            1
        } else if capacity > 0x10_0000 {
            0x10_0000
        } else {
            capacity
        };
        proof {
            lemma_mul_upper_bound(per as int, 64, sized as int, 0x10_0000);
            lemma_mul_upper_bound(1, per as int, 1, sized as int);
            assert(per * sized == 2 * probes * sized) by (nonlinear_arith)
                requires
                    per == (probes as u64) * 2,
            ;
        }
        let m64: u64 = per * sized;
        let m: usize = m64 as usize;
        let mut bits: Vec<bool> = Vec::new();
        let mut i: usize = 0;
        while i < m
            invariant
                bits@.len() == i,
                i <= m,
                forall|b: int| 0 <= b < i ==> !bits@[b],
            decreases m - i,
        {
            bits.push(false);
            i = i + 1;
        }
        BloomGen { bits, capacity: sized, count: 0 }
    }
}

/// An append-only sequence of capacity-bounded bloom generations.
/// Inserting an element sets its probe bits in the newest generation;
/// a membership test asks whether any generation holds all probe bits.
/// Bits are never cleared, so an inserted element is never reported
/// absent.
pub struct GrowableBloom {
    pub gens: Vec<BloomGen>,
    pub probes: usize,
    /// The elements inserted so far; carried for specification only.
    /// Fabricating this set cannot make anything unsound: `wf` ties it
    /// to the stored bits, and every contract that speaks of it asks
    /// for `wf` first.
    pub inserted: Ghost<Set<Seq<u8>>>,
}

impl View for GrowableBloom {
    type V = Set<Seq<u8>>;

    open spec fn view(&self) -> Set<Seq<u8>> {
        self.inserted@
    }
}

impl GrowableBloom {
    pub open spec fn wf(self) -> bool {
        &&& 1 <= self.probes <= 32
        &&& 1 <= self.gens@.len()
        &&& forall|g: int| 0 <= g < self.gens@.len() ==> (#[trigger] self.gens@[g]).wf()
        &&& forall|x: Seq<u8>|
            self.inserted@.contains(x) ==> exists|g: int|
                0 <= g < self.gens@.len() && (#[trigger] self.gens@[g]).hits(x, self.probes as int)
    }

    /// Some generation holds all probe bits of `x`.
    pub open spec fn spec_hits(self, x: Seq<u8>) -> bool {
        exists|g: int|
            0 <= g < self.gens@.len() && (#[trigger] self.gens@[g]).hits(x, self.probes as int)
    }

    /// A fresh filter for a false-positive target of one in
    /// `fp_inverse`, sized for `expected_items` insertions: one probe
    /// per halving of the target, and a first generation sized for the
    /// expected count.
    pub fn new(fp_inverse: u64, expected_items: usize) -> (b: GrowableBloom)
        ensures
            b.wf(),
            b@ =~= Set::<Seq<u8>>::empty(),
            b.probes as int == chosen_probes(fp_inverse),
            b.gens@.len() == 1,
            b.gens@[0].capacity == clamped_capacity(expected_items as u64),
            b.gens@[0].count == 0,
            b.gens@[0].bits@.len() == 2 * b.probes * b.gens@[0].capacity,
            forall|g: int, i: int|
                0 <= g < b.gens@.len() && 0 <= i < b.gens@[g].bits@.len() ==> #[trigger] b.gens@[g].bits@[i] == false,
    {
        // One probe per halving of the false-positive target.
        let mut probes: usize = 1;
        while probes < 32 && (1u64 << probes) < fp_inverse
            invariant
                1 <= probes <= 32,
                chosen_probes_from(probes as int, fp_inverse) == chosen_probes(fp_inverse),
            decreases 32 - probes,
        {
            probes = probes + 1;
        }
        let g = BloomGen::new(probes, expected_items as u64);
        let mut gens: Vec<BloomGen> = Vec::new();
        gens.push(g);
        GrowableBloom { gens, probes, inserted: Ghost(Set::empty()) }
    }

    /// Rebuilds a filter from stored parts, as after decoding a saved
    /// manifest. Nothing is recorded as inserted; membership tests
    /// answer from the stored bits alone.
    pub fn from_parts(probes: usize, gens: Vec<BloomGen>) -> (b: GrowableBloom)
        requires
            1 <= probes <= 32,
            1 <= gens@.len(),
            forall|g: int| 0 <= g < gens@.len() ==> (#[trigger] gens@[g]).wf(),
        ensures
            b.wf(),
            b@ =~= Set::<Seq<u8>>::empty(),
            b.gens@ == gens@,
            b.probes == probes,
    {
        GrowableBloom { gens, probes, inserted: Ghost(Set::empty()) }
    }

    /// Inserts `x`: sets every probe bit of `x` in the newest
    /// generation, appending a larger generation first when — and only
    /// when — the newest is at capacity.
    pub fn insert(&mut self, x: &Vec<u8>)
        requires
            old(self).wf(),
        ensures
            final(self).wf(),
            final(self)@ == old(self)@.insert(x@),
            final(self).probes == old(self).probes,
            forall|y: Seq<u8>| old(self).spec_hits(y) ==> final(self).spec_hits(y),
            old(self).gens@.last().count >= old(self).gens@.last().capacity
                ==> final(self).gens@.len() == old(self).gens@.len() + 1
                && final(self).gens@.last().capacity
                == grown_capacity(old(self).gens@.last().capacity),
            old(self).gens@.last().count < old(self).gens@.last().capacity
                ==> final(self).gens@.len() == old(self).gens@.len(),
    {
        let ghost pre = *self;
        let last = self.gens.len() - 1;
        let need_grow = self.gens[last].count >= self.gens[last].capacity;
        if need_grow {
            let old_cap = self.gens[last].capacity;
            let new_cap: u64 = if old_cap > 0x7fff_ffff_ffff_ffff {
                old_cap
            } else {
                old_cap * 2
            };
            let g = BloomGen::new(self.probes, new_cap);
            self.gens.push(g);
        }
        assert(forall|g: int|
            0 <= g < pre.gens@.len() ==> self.gens@[g] == pre.gens@[g]);
        let mut g = self.gens.pop().unwrap();
        let ghost popped_len = self.gens@.len();
        let ghost pre_bits = g.bits@;
        let ghost pre_cap = g.capacity;
        let probes = self.probes;
        let m = g.bits.len();
        let mut j: usize = 0;
        while j < probes
            invariant
                g.bits@.len() == m,
                g.capacity == pre_cap,
                1 <= m,
                j <= probes,
                probes <= 32,
                forall|i: int| 0 <= i < m && pre_bits[i] ==> g.bits@[i],
                forall|jj: int|
                    0 <= jj < j ==> g.bits@[probe_index_spec(x@, jj, m as int)],
            decreases probes - j,
        {
            let idx = probe_index(x, j, m);
            g.bits[idx] = true;
            j = j + 1;
        }
        g.count = g.count.saturating_add(1);
        self.gens.push(g);
        self.inserted = Ghost(self.inserted@.insert(x@));
        proof {
            let probes_i = self.probes as int;
            let glen = self.gens@.len();
            assert(self.gens@[glen - 1].hits(x@, probes_i));
            assert forall|y: Seq<u8>| pre.spec_hits(y) implies self.spec_hits(y) by {
                let wi = choose|gi: int|
                    0 <= gi < pre.gens@.len() && (#[trigger] pre.gens@[gi]).hits(y, probes_i);
                if wi < glen - 1 {
                    assert(self.gens@[wi] == pre.gens@[wi]);
                    assert(self.gens@[wi].hits(y, probes_i));
                } else {
                    // the witness was the generation just rewritten; its set
                    // bits were preserved
                    assert(pre.gens@[wi].bits@ == pre_bits);
                    assert(self.gens@[glen - 1].bits@.len() == pre_bits.len());
                    assert forall|jj: int| 0 <= jj < probes_i implies self.gens@[glen
                        - 1].bits@[probe_index_spec(y, jj, m as int)] by {
                        assert(pre_bits[probe_index_spec(y, jj, m as int)]);
                    }
                    assert(self.gens@[glen - 1].hits(y, probes_i));
                }
            }
            assert forall|y: Seq<u8>| self.inserted@.contains(y) implies exists|gi: int|
                0 <= gi < glen && (#[trigger] self.gens@[gi]).hits(y, probes_i) by {
                if y == x@ {
                    assert(self.gens@[glen - 1].hits(y, probes_i));
                } else {
                    assert(pre.inserted@.contains(y));
                    assert(pre.spec_hits(y));
                    assert(self.spec_hits(y));
                }
            }
        }
    }

    /// Tests membership: true when some generation holds all probe bits
    /// of `x`. An element that was inserted is never reported absent.
    pub fn contains(&self, x: &Vec<u8>) -> (present: bool)
        requires
            self.wf(),
        ensures
            present == self.spec_hits(x@),
            self@.contains(x@) ==> present,
    {
        let n = self.gens.len();
        let mut gi: usize = 0;
        while gi < n
            invariant
                gi <= n,
                n == self.gens@.len(),
                self.wf(),
                forall|g: int|
                    0 <= g < gi ==> !(#[trigger] self.gens@[g]).hits(x@, self.probes as int),
            decreases n - gi,
    {
            let g = &self.gens[gi];
            let m = g.bits.len();
            let mut j: usize = 0;
            let mut all = true;
            while j < self.probes
                invariant
                    j <= self.probes,
                    self.probes <= 32,
                    1 <= m,
                    m == g.bits@.len(),
                    all == forall|jj: int|
                        0 <= jj < j ==> g.bits@[probe_index_spec(x@, jj, m as int)],
                decreases self.probes - j,
            {
                let idx = probe_index(x, j, m);
                if !g.bits[idx] {
                    all = false;
                }
                j = j + 1;
            }
            if all {
                return true;
            }
            gi = gi + 1;
        }
        false
    }
}

/// Law: the filter never gives a false negative. Every element that was
/// inserted is reported as possibly present by every later membership
/// test.
pub proof fn lemma_no_false_negative(b: GrowableBloom, x: Seq<u8>)
    requires
        b.wf(),
        b@.contains(x),
    ensures
        b.spec_hits(x),
{
}

/// Law: a membership miss is proof of absence. When no generation holds
/// all probe bits of `x`, then `x` was never inserted.
pub proof fn lemma_miss_means_absent(b: GrowableBloom, x: Seq<u8>)
    requires
        b.wf(),
        !b.spec_hits(x),
    ensures
        !b@.contains(x),
{
}

} // verus!
