//! Facts about sequences that the loops of this library rest on.

use vstd::prelude::*;

verus! {

/// Filtering one element more: the element joins the result exactly when
/// the predicate holds of it.
pub proof fn lemma_filter_step<A>(s: Seq<A>, pred: spec_fn(A) -> bool, i: int)
    requires
        0 <= i < s.len(),
    ensures
        s.take(i + 1).filter(pred) == if pred(s[i]) {
            s.take(i).filter(pred).push(s[i])
        } else {
            s.take(i).filter(pred)
        },
{
    reveal(Seq::filter);
    assert(s.take(i + 1).drop_last() =~= s.take(i));
}

/// A sequence begins with itself, and with each sequence that a sequence
/// with which it begins begins with.
pub proof fn lemma_prefix_chain<A>(a: Seq<A>, b: Seq<A>, c: Seq<A>)
    ensures
        a.is_prefix_of(a),
        a.is_prefix_of(a + b),
        a.is_prefix_of(b) && b.is_prefix_of(c) ==> a.is_prefix_of(c),
{
    assert(a =~= a.subrange(0, a.len() as int));
    assert(a =~= (a + b).subrange(0, a.len() as int));
    if a.is_prefix_of(b) && b.is_prefix_of(c) {
        assert(a =~= c.subrange(0, a.len() as int)) by {
            assert forall|k: int| 0 <= k < a.len() implies a[k] == c[k] by {
                assert(a[k] == b.subrange(0, a.len() as int)[k]);
                assert(b[k] == c.subrange(0, b.len() as int)[k]);
            }
        }
    }
}

/// Of two sequences with which a third begins, one begins with the
/// other.
pub proof fn lemma_prefixes_comparable<A>(a: Seq<A>, b: Seq<A>, c: Seq<A>)
    requires
        a.is_prefix_of(c),
        b.is_prefix_of(c),
    ensures
        a.len() <= b.len() ==> a.is_prefix_of(b),
        b.len() <= a.len() ==> b.is_prefix_of(a),
{
    if a.len() <= b.len() {
        assert(a =~= b.subrange(0, a.len() as int)) by {
            assert forall|k: int| 0 <= k < a.len() implies a[k] == b[k] by {
                assert(a[k] == c.subrange(0, a.len() as int)[k]);
                assert(b[k] == c.subrange(0, b.len() as int)[k]);
            }
        }
    }
    if b.len() <= a.len() {
        assert(b =~= a.subrange(0, b.len() as int)) by {
            assert forall|k: int| 0 <= k < b.len() implies a[k] == b[k] by {
                assert(a[k] == c.subrange(0, a.len() as int)[k]);
                assert(b[k] == c.subrange(0, b.len() as int)[k]);
            }
        }
    }
}

} // verus!
