//! Lexicographic order on byte strings, the order of Rust's `str` comparison.
use vstd::prelude::*;

verus! {

/// `a` comes strictly before `b`: at the first position where they differ `a`
/// holds the smaller byte, or `a` is a proper prefix of `b`.
pub open spec fn lex_lt(a: Seq<u8>, b: Seq<u8>) -> bool {
    exists|i: int| #[trigger] lex_split(a, b, i)
}

/// `i` is the first position at which `a` and `b` differ, and `a` is smaller there.
pub open spec fn lex_split(a: Seq<u8>, b: Seq<u8>, i: int) -> bool {
    &&& 0 <= i <= a.len()
    &&& i <= b.len()
    &&& forall|k: int| 0 <= k < i ==> a[k] == b[k]
    &&& (i == a.len() && i < b.len()) || (i < a.len() && i < b.len() && a[i] < b[i])
}

proof fn lemma_split_unique(a: Seq<u8>, b: Seq<u8>, c: Seq<u8>, i: int, k: int)
    requires
        lex_split(a, b, i),
        0 <= k <= a.len(),
        k <= c.len(),
        forall|m: int| 0 <= m < k ==> a[m] == c[m],
    ensures
        k <= i ==> forall|m: int| 0 <= m < k ==> b[m] == c[m],
{
}

pub proof fn lemma_lex_irreflexive(a: Seq<u8>)
    ensures
        !lex_lt(a, a),
{
}

pub proof fn lemma_lex_asymmetric(a: Seq<u8>, b: Seq<u8>)
    ensures
        !(lex_lt(a, b) && lex_lt(b, a)),
{
    if lex_lt(a, b) && lex_lt(b, a) {
        let i = choose|i: int| lex_split(a, b, i);
        let j = choose|j: int| lex_split(b, a, j);
        if i < j {
            assert(b[i] == a[i]);
        } else if j < i {
            assert(a[j] == b[j]);
        }
    }
}

pub proof fn lemma_lex_transitive(a: Seq<u8>, b: Seq<u8>, c: Seq<u8>)
    requires
        lex_lt(a, b),
        lex_lt(b, c),
    ensures
        lex_lt(a, c),
{
    let i = choose|i: int| lex_split(a, b, i);
    let j = choose|j: int| lex_split(b, c, j);
    if i < j {
        assert(lex_split(a, c, i));
    } else if j < i {
        assert(a[j] == b[j]);
        assert(lex_split(a, c, j));
    } else {
        assert(lex_split(a, c, i));
    }
}

pub proof fn lemma_lex_total(a: Seq<u8>, b: Seq<u8>)
    requires
        a != b,
    ensures
        lex_lt(a, b) || lex_lt(b, a),
{
    let n = if a.len() < b.len() { a.len() as int } else { b.len() as int };
    if forall|k: int| 0 <= k < n ==> a[k] == b[k] {
        if a.len() == b.len() {
            assert(a =~= b);
        } else if a.len() < b.len() {
            assert(lex_split(a, b, n));
        } else {
            assert(lex_split(b, a, n));
        }
    } else {
        let d = choose|d: int| 0 <= d < n && a[d] != b[d];
        let f = first_difference(a, b, d);
        if a[f] < b[f] {
            assert(lex_split(a, b, f));
        } else {
            assert(lex_split(b, a, f));
        }
    }
}

/// The least position at or below `d` where `a` and `b` differ.
proof fn first_difference(a: Seq<u8>, b: Seq<u8>, d: int) -> (f: int)
    requires
        0 <= d < a.len(),
        d < b.len(),
        a[d] != b[d],
    ensures
        0 <= f <= d,
        a[f] != b[f],
        forall|k: int| 0 <= k < f ==> a[k] == b[k],
    decreases d,
{
    if forall|k: int| 0 <= k < d ==> a[k] == b[k] {
        d
    } else {
        let e = choose|e: int| 0 <= e < d && a[e] != b[e];
        first_difference(a, b, e)
    }
}

/// Compares two byte strings: negative when `a` comes first, zero when they
/// are equal, positive when `b` comes first.
pub fn compare_bytes(a: &[u8], b: &[u8]) -> (r: i8)
    ensures
        r < 0 <==> lex_lt(a@, b@),
        r == 0 <==> a@ == b@,
        r > 0 <==> lex_lt(b@, a@),
{
    let mut i: usize = 0;
    while i < a.len() && i < b.len()
        invariant
            i <= a@.len(),
            i <= b@.len(),
            forall|k: int| 0 <= k < i ==> a@[k] == b@[k],
        decreases a@.len() - i,
    {
        if a[i] != b[i] {
            proof {
                lemma_lex_asymmetric(a@, b@);
                if a@[i as int] < b@[i as int] {
                    assert(lex_split(a@, b@, i as int));
                } else {
                    assert(lex_split(b@, a@, i as int));
                }
                assert(a@ != b@) by {
                    assert(a@[i as int] != b@[i as int]);
                }
            }
            if a[i] < b[i] {
                return -1;
            } else {
                return 1;
            }
        }
        i = i + 1;
    }
    proof {
        lemma_lex_asymmetric(a@, b@);
        lemma_lex_irreflexive(a@);
    }
    if a.len() < b.len() {
        assert(lex_split(a@, b@, i as int));
        -1
    } else if b.len() < a.len() {
        assert(lex_split(b@, a@, i as int));
        1
    } else {
        assert(a@ =~= b@);
        proof { lemma_lex_irreflexive(b@); }
        0
    }
}

} // verus!
