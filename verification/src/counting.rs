//! Counting the entries of a sequence that pass a test.

use vstd::prelude::*;

verus! {

/// Where no entry passes the test, nothing is kept.
pub proof fn lemma_filter_none<A>(s: Seq<A>, pred: spec_fn(A) -> bool)
    requires
        forall|i: int| 0 <= i < s.len() ==> !pred(#[trigger] s[i]),
    ensures
        s.filter(pred).len() == 0,
    decreases s.len(),
{
    reveal(Seq::filter);
    if s.len() > 0 {
        assert(!pred(s[s.len() - 1]));
        assert forall|i: int| 0 <= i < s.drop_last().len() implies !pred(
            #[trigger] s.drop_last()[i],
        ) by {
            assert(s.drop_last()[i] == s[i]);
        }
        lemma_filter_none(s.drop_last(), pred);
    }
}

/// Where every entry passes the test, the sequence is kept as it is.
pub proof fn lemma_filter_all<A>(s: Seq<A>, pred: spec_fn(A) -> bool)
    requires
        forall|i: int| 0 <= i < s.len() ==> pred(#[trigger] s[i]),
    ensures
        s.filter(pred) == s,
    decreases s.len(),
{
    reveal(Seq::filter);
    if s.len() > 0 {
        assert(pred(s[s.len() - 1]));
        assert forall|i: int| 0 <= i < s.drop_last().len() implies pred(
            #[trigger] s.drop_last()[i],
        ) by {
            assert(s.drop_last()[i] == s[i]);
        }
        lemma_filter_all(s.drop_last(), pred);
        assert(s.drop_last().push(s.last()) =~= s);
    }
}

/// Where the entry at `at` passes the test and no other does, one entry is
/// kept.
pub proof fn lemma_filter_one<A>(s: Seq<A>, pred: spec_fn(A) -> bool, at: int)
    requires
        0 <= at < s.len(),
        forall|i: int| 0 <= i < s.len() ==> (pred(#[trigger] s[i]) <==> i == at),
    ensures
        s.filter(pred).len() == 1,
    decreases s.len(),
{
    reveal(Seq::filter);
    let rest = s.drop_last();
    assert forall|i: int| 0 <= i < rest.len() implies (pred(#[trigger] rest[i]) <==> i == at) by {
        assert(rest[i] == s[i]);
    }
    assert(pred(s[s.len() - 1]) <==> s.len() - 1 == at);
    if at == s.len() - 1 {
        lemma_filter_none(rest, pred);
    } else {
        lemma_filter_one(rest, pred, at);
    }
}

/// Where the entry at `at` fails the test and no other does, all but one
/// entry are kept.
pub proof fn lemma_filter_all_but_one<A>(s: Seq<A>, pred: spec_fn(A) -> bool, at: int)
    requires
        0 <= at < s.len(),
        forall|i: int| 0 <= i < s.len() ==> (pred(#[trigger] s[i]) <==> i != at),
    ensures
        s.filter(pred).len() == s.len() - 1,
    decreases s.len(),
{
    reveal(Seq::filter);
    let rest = s.drop_last();
    assert(pred(s[s.len() - 1]) <==> s.len() - 1 != at);
    if at == s.len() - 1 {
        assert forall|i: int| 0 <= i < rest.len() implies pred(#[trigger] rest[i]) by {
            assert(rest[i] == s[i]);
        }
        lemma_filter_all(rest, pred);
    } else {
        assert forall|i: int| 0 <= i < rest.len() implies (pred(#[trigger] rest[i]) <==> i
            != at) by {
            assert(rest[i] == s[i]);
        }
        lemma_filter_all_but_one(rest, pred, at);
    }
}

/// A second test that only passes what the first test passes sees the same
/// entries before and after the first test.
pub proof fn lemma_filter_twice<A>(s: Seq<A>, first: spec_fn(A) -> bool, second: spec_fn(A) -> bool)
    requires
        forall|x: A| #[trigger] second(x) ==> first(x),
    ensures
        s.filter(first).filter(second) == s.filter(second),
    decreases s.len(),
{
    reveal(Seq::filter);
    if s.len() > 0 {
        lemma_filter_twice(s.drop_last(), first, second);
        if first(s.last()) {
            s.drop_last().filter(first).lemma_filter_push(s.last(), second);
        }
    }
}

/// Every entry that is kept passes the test and comes from the sequence.
pub proof fn lemma_filter_kept<A>(s: Seq<A>, pred: spec_fn(A) -> bool, k: int)
    requires
        0 <= k < s.filter(pred).len(),
    ensures
        pred(s.filter(pred)[k]),
        s.contains(s.filter(pred)[k]),
    decreases s.len(),
{
    reveal(Seq::filter);
    if s.len() > 0 {
        let rest = s.drop_last();
        if k < rest.filter(pred).len() {
            lemma_filter_kept(rest, pred, k);
            let i = choose|i: int| 0 <= i < rest.len() && rest[i] == rest.filter(pred)[k];
            assert(s[i] == s.filter(pred)[k]);
        } else {
            assert(s[s.len() - 1] == s.filter(pred)[k]);
        }
    }
}

/// Where two entries pass the test, at least two entries are kept.
pub proof fn lemma_filter_two<A>(s: Seq<A>, pred: spec_fn(A) -> bool, i: int, j: int)
    requires
        0 <= i < j < s.len(),
        pred(s[i]),
        pred(s[j]),
    ensures
        s.filter(pred).len() >= 2,
    decreases s.len(),
{
    reveal(Seq::filter);
    let rest = s.drop_last();
    if j == s.len() - 1 {
        assert(rest[i] == s[i]);
        rest.lemma_filter_contains(pred, i);
    } else {
        assert(rest[i] == s[i]);
        assert(rest[j] == s[j]);
        lemma_filter_two(rest, pred, i, j);
    }
}

} // verus!
