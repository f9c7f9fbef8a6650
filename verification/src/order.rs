use vstd::prelude::*;
use crate::entry::{distinct_paths, Entry, EntryView, views_of};

verus! {

/// Strict lexicographic order on byte strings: the order the traversal
/// must yield full paths in.
pub open spec fn lex_lt(a: Seq<u8>, b: Seq<u8>) -> bool
    decreases a.len(),
{
    if b.len() == 0 {
        false
    } else if a.len() == 0 {
        true
    } else if a[0] < b[0] {
        true
    } else if a[0] > b[0] {
        false
    } else {
        lex_lt(a.drop_first(), b.drop_first())
    }
}

pub proof fn lemma_lex_lt_irreflexive(a: Seq<u8>)
    ensures
        !lex_lt(a, a),
    decreases a.len(),
{
    if a.len() > 0 {
        lemma_lex_lt_irreflexive(a.drop_first());
    }
}

pub proof fn lemma_lex_lt_transitive(a: Seq<u8>, b: Seq<u8>, c: Seq<u8>)
    requires
        lex_lt(a, b),
        lex_lt(b, c),
    ensures
        lex_lt(a, c),
    decreases a.len() + b.len() + c.len(),
{
    if a.len() > 0 && b.len() > 0 && c.len() > 0 {
        if a[0] == b[0] && b[0] == c[0] {
            lemma_lex_lt_transitive(a.drop_first(), b.drop_first(), c.drop_first());
        }
    }
}

/// Dropping an equal prefix does not change the order.
proof fn lemma_lex_lt_skip(a: Seq<u8>, b: Seq<u8>, i: int)
    requires
        0 <= i <= a.len(),
        i <= b.len(),
        forall|k: int| 0 <= k < i ==> a[k] == b[k],
    ensures
        lex_lt(a, b) == lex_lt(a.skip(i), b.skip(i)),
    decreases i,
{
    if i > 0 {
        assert(a[0] == b[0]);
        assert forall|k: int| 0 <= k < i - 1 implies a.drop_first()[k] == b.drop_first()[k] by {
            assert(a.drop_first()[k] == a[k + 1]);
            assert(b.drop_first()[k] == b[k + 1]);
        }
        lemma_lex_lt_skip(a.drop_first(), b.drop_first(), i - 1);
        assert(a.drop_first().skip(i - 1) =~= a.skip(i));
        assert(b.drop_first().skip(i - 1) =~= b.skip(i));
    } else {
        assert(a.skip(0) =~= a);
        assert(b.skip(0) =~= b);
    }
}

/// Compares two byte strings in lexicographic order.
pub fn bytes_lt(a: &Vec<u8>, b: &Vec<u8>) -> (lt: bool)
    ensures
        lt == lex_lt(a@, b@),
{
    let an = a.len();
    let bn = b.len();
    let n = if an < bn {
        an
    } else {
        bn
    };
    let mut i: usize = 0;
    while i < n
        invariant
            i <= n,
            n <= a@.len(),
            n <= b@.len(),
            n == an || n == bn,
            an == a@.len(),
            bn == b@.len(),
            forall|k: int| 0 <= k < i ==> a@[k] == b@[k],
        decreases n - i,
    {
        let x = a[i];
        let y = b[i];
        if x != y {
            proof {
                lemma_lex_lt_skip(a@, b@, i as int);
                assert(a@.skip(i as int)[0] == x);
                assert(b@.skip(i as int)[0] == y);
            }
            return x < y;
        }
        i = i + 1;
    }
    proof {
        lemma_lex_lt_skip(a@, b@, n as int);
    }
    an < bn
}

/// The walk's paths come in strictly increasing lexicographic order:
/// the repeatable traversal order every digest in this library rests
/// on.
pub open spec fn strictly_sorted_paths(vs: Seq<EntryView>) -> bool {
    forall|i: int| 0 <= i && i + 1 < vs.len() ==> lex_lt((#[trigger] vs[i]).path, vs[i + 1].path)
}

proof fn lemma_sorted_pair(vs: Seq<EntryView>, i: int, j: int)
    requires
        strictly_sorted_paths(vs),
        0 <= i < j < vs.len(),
    ensures
        lex_lt(vs[i].path, vs[j].path),
    decreases j - i,
{
    if i + 1 < j {
        lemma_sorted_pair(vs, i, j - 1);
        lemma_lex_lt_transitive(vs[i].path, vs[j - 1].path, vs[j].path);
    }
}

/// Law: a strictly sorted walk never repeats a path, which is all the
/// exact-mode table and scan check ask of their input.
#[verifier::rlimit(50)]
pub proof fn lemma_sorted_paths_distinct(vs: Seq<EntryView>)
    requires
        strictly_sorted_paths(vs),
    ensures
        distinct_paths(vs),
{
    assert forall|i: int, j: int| 0 <= i < j < vs.len() implies vs[i].path != vs[j].path by {
        lemma_sorted_pair(vs, i, j);
        if vs[i].path == vs[j].path {
            lemma_lex_lt_irreflexive(vs[i].path);
        }
    }
}

/// Checks that the walked entries arrive in strictly increasing path
/// order, as the traversal collaborator promises.
pub fn paths_strictly_sorted(entries: &Vec<Entry>) -> (sorted: bool)
    ensures
        sorted == strictly_sorted_paths(views_of(entries@)),
{
    let ghost vs = views_of(entries@);
    let n = entries.len();
    if n == 0 {
        return true;
    }
    let mut i: usize = 0;
    while i < n - 1
        invariant
            1 <= n,
            n == entries@.len(),
            vs == views_of(entries@),
            i <= n - 1,
            forall|k: int|
                0 <= k && k + 1 < i + 1 ==> lex_lt((#[trigger] vs[k]).path, vs[k + 1].path),
        decreases n - i,
    {
        let in_order = bytes_lt(&entries[i].path, &entries[i + 1].path);
        if !in_order {
            proof {
                assert(vs[i as int] == entries@[i as int]@);
                assert(vs[i as int + 1] == entries@[i as int + 1]@);
                assert(!lex_lt(vs[i as int].path, vs[i as int + 1].path));
            }
            return false;
        }
        i = i + 1;
    }
    true
}

} // verus!
