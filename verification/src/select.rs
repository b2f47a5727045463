//! Selecting lines from a sequence while keeping their relative order.
//!
//! `keep_matching` is the spec-level filter used by the export-sync engine;
//! `is_subsequence` states what "keeps the relative order" means, and the
//! lemmas here connect the two.

use vstd::prelude::*;

verus! {

/// The lines of `s` that satisfy `pred`, in their original order.
pub open spec fn keep_matching(s: Seq<Seq<u8>>, pred: spec_fn(Seq<u8>) -> bool) -> Seq<Seq<u8>>
    decreases s.len(),
{
    if s.len() == 0 {
        Seq::empty()
    } else if pred(s.first()) {
        seq![s.first()] + keep_matching(s.drop_first(), pred)
    } else {
        keep_matching(s.drop_first(), pred)
    }
}

/// `sub` can be obtained from `sup` by deleting elements: the elements of
/// `sub` occur in `sup` in the same relative order.
pub open spec fn is_subsequence(sub: Seq<Seq<u8>>, sup: Seq<Seq<u8>>) -> bool
    decreases sup.len(),
{
    if sub.len() == 0 {
        true
    } else if sup.len() == 0 {
        false
    } else if sub.first() == sup.first() {
        is_subsequence(sub.drop_first(), sup.drop_first())
    } else {
        is_subsequence(sub, sup.drop_first())
    }
}

/// A subsequence of `t` is also a subsequence of `t` with one element put
/// in front.
pub proof fn lemma_subsequence_cons(s: Seq<Seq<u8>>, t: Seq<Seq<u8>>, x: Seq<u8>)
    requires
        is_subsequence(s, t),
    ensures
        is_subsequence(s, seq![x] + t),
    decreases t.len(), 1int,
{
    let ct = seq![x] + t;
    assert(ct.drop_first() =~= t);
    if s.len() == 0 {
    } else if s.first() == x {
        lemma_subsequence_drop(s, t);
    } else {
    }
}

/// Dropping the first element of a subsequence leaves a subsequence.
pub proof fn lemma_subsequence_drop(s: Seq<Seq<u8>>, t: Seq<Seq<u8>>)
    requires
        is_subsequence(s, t),
        s.len() > 0,
    ensures
        is_subsequence(s.drop_first(), t),
    decreases t.len(), 0int,
{
    if s.first() == t.first() {
        if s.drop_first().len() > 0 {
            lemma_subsequence_drop(s.drop_first(), t.drop_first());
            if s.drop_first().first() == t.first() {
                assert(is_subsequence(s.drop_first(), t) == is_subsequence(
                    s.drop_first().drop_first(),
                    t.drop_first(),
                ));
            } else {
                assert(is_subsequence(s.drop_first(), t) == is_subsequence(
                    s.drop_first(),
                    t.drop_first(),
                ));
            }
        }
    } else {
        lemma_subsequence_drop(s, t.drop_first());
        if s.drop_first().len() > 0 && s.drop_first().first() == t.first() {
            lemma_subsequence_drop(s.drop_first(), t.drop_first());
        }
    }
}

/// What `keep_matching` keeps is a subsequence of its input: selection
/// never reorders.
pub proof fn lemma_keep_matching_subsequence(s: Seq<Seq<u8>>, pred: spec_fn(Seq<u8>) -> bool)
    ensures
        is_subsequence(keep_matching(s, pred), s),
    decreases s.len(),
{
    if s.len() == 0 {
    } else {
        lemma_keep_matching_subsequence(s.drop_first(), pred);
        if pred(s.first()) {
            let kept = seq![s.first()] + keep_matching(s.drop_first(), pred);
            assert(kept.first() == s.first());
            assert(kept.drop_first() =~= keep_matching(s.drop_first(), pred));
        } else {
            lemma_subsequence_cons(keep_matching(s.drop_first(), pred), s.drop_first(), s.first());
            assert(s =~= seq![s.first()] + s.drop_first());
        }
    }
}

/// A line is kept exactly when it occurs in the input and satisfies the
/// predicate.
pub proof fn lemma_keep_matching_membership(s: Seq<Seq<u8>>, pred: spec_fn(Seq<u8>) -> bool)
    ensures
        forall|l: Seq<u8>| #[trigger]
            keep_matching(s, pred).contains(l) <==> s.contains(l) && pred(l),
    decreases s.len(),
{
    if s.len() == 0 {
    } else {
        lemma_keep_matching_membership(s.drop_first(), pred);
        assert forall|l: Seq<u8>|
            #[trigger] keep_matching(s, pred).contains(l) <==> s.contains(l) && pred(l) by {
            if keep_matching(s, pred).contains(l) {
                if pred(s.first()) && l == s.first() {
                    assert(s[0] == l);
                } else {
                    let kept = keep_matching(s, pred);
                    let i = choose|i: int| 0 <= i < kept.len() && kept[i] == l;
                    if pred(s.first()) {
                        assert(keep_matching(s.drop_first(), pred)[i - 1] == l);
                        assert(keep_matching(s.drop_first(), pred).contains(l));
                    } else {
                        assert(keep_matching(s.drop_first(), pred).contains(l));
                    }
                    let j = choose|j: int|
                        0 <= j < s.drop_first().len() && s.drop_first()[j] == l;
                    assert(s[j + 1] == l);
                }
            }
            if s.contains(l) && pred(l) {
                let i = choose|i: int| 0 <= i < s.len() && s[i] == l;
                if i == 0 {
                    assert(keep_matching(s, pred)[0] == l);
                } else {
                    assert(s.drop_first()[i - 1] == l);
                    assert(s.drop_first().contains(l));
                    assert(keep_matching(s.drop_first(), pred).contains(l));
                    let j = choose|j: int|
                        0 <= j < keep_matching(s.drop_first(), pred).len() && keep_matching(
                            s.drop_first(),
                            pred,
                        )[j] == l;
                    if pred(s.first()) {
                        assert(keep_matching(s, pred)[j + 1] == l);
                    }
                }
            }
        }
    }
}

/// Selecting from a sequence extended at the back extends the selection
/// at the back.
pub proof fn lemma_keep_matching_push(s: Seq<Seq<u8>>, x: Seq<u8>, pred: spec_fn(Seq<u8>) -> bool)
    ensures
        keep_matching(s.push(x), pred) == keep_matching(s, pred) + (if pred(x) {
            seq![x]
        } else {
            Seq::empty()
        }),
    decreases s.len(),
{
    let tail: Seq<Seq<u8>> = if pred(x) {
        seq![x]
    } else {
        Seq::empty()
    };
    if s.len() == 0 {
        assert(s.push(x).drop_first() =~= Seq::<Seq<u8>>::empty());
        assert(s.push(x).first() == x);
        assert(keep_matching(Seq::<Seq<u8>>::empty(), pred) =~= Seq::<Seq<u8>>::empty());
        assert(keep_matching(s, pred) =~= Seq::<Seq<u8>>::empty());
        assert(keep_matching(s.push(x), pred) =~= keep_matching(s, pred) + tail);
    } else {
        assert(s.push(x).first() == s.first());
        assert(s.push(x).drop_first() =~= s.drop_first().push(x));
        lemma_keep_matching_push(s.drop_first(), x, pred);
        if pred(s.first()) {
            assert(seq![s.first()] + (keep_matching(s.drop_first(), pred) + tail) =~= (
            seq![s.first()] + keep_matching(s.drop_first(), pred)) + tail);
        }
    }
}

/// When no line of the input satisfies the predicate, nothing is kept.
pub proof fn lemma_keep_matching_empty(s: Seq<Seq<u8>>, pred: spec_fn(Seq<u8>) -> bool)
    requires
        forall|i: int| 0 <= i < s.len() ==> !pred(#[trigger] s[i]),
    ensures
        keep_matching(s, pred) == Seq::<Seq<u8>>::empty(),
    decreases s.len(),
{
    if s.len() == 0 {
        assert(keep_matching(s, pred) =~= Seq::<Seq<u8>>::empty());
    } else {
        assert(!pred(s[0]));
        assert(forall|i: int|
            0 <= i < s.drop_first().len() ==> !pred(#[trigger] s.drop_first()[i]));
        lemma_keep_matching_empty(s.drop_first(), pred);
    }
}

} // verus!
