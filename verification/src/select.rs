use vstd::prelude::*;

verus! {

/// Keeps, in order, the results `f` gives for the elements it does not reject.
pub open spec fn select<A, B>(xs: Seq<A>, f: spec_fn(A) -> Option<B>) -> Seq<B>
    decreases xs.len(),
{
    if xs.len() == 0 {
        seq![]
    } else {
        let rest = select(xs.drop_last(), f);
        match f(xs.last()) {
            Some(b) => rest.push(b),
            None => rest,
        }
    }
}

/// Selecting over one more element extends the selection by that element's result.
pub proof fn lemma_select_push<A, B>(xs: Seq<A>, a: A, f: spec_fn(A) -> Option<B>)
    ensures
        select(xs.push(a), f) == (match f(a) {
            Some(b) => select(xs, f).push(b),
            None => select(xs, f),
        }),
{
    assert(xs.push(a).drop_last() =~= xs);
}

/// Selecting over the first `i + 1` elements extends the selection over the first `i`.
pub proof fn lemma_select_take<A, B>(xs: Seq<A>, i: int, f: spec_fn(A) -> Option<B>)
    requires
        0 <= i < xs.len(),
    ensures
        select(xs.take(i + 1), f) == (match f(xs[i]) {
            Some(b) => select(xs.take(i), f).push(b),
            None => select(xs.take(i), f),
        }),
{
    assert(xs.take(i + 1) =~= xs.take(i).push(xs[i]));
    lemma_select_push(xs.take(i), xs[i], f);
}

/// Every selected value is the result of some element, and every result is selected.
pub proof fn lemma_select_contains<A, B>(xs: Seq<A>, f: spec_fn(A) -> Option<B>, b: B)
    ensures
        select(xs, f).contains(b) <==> exists|i: int| 0 <= i < xs.len() && #[trigger] f(xs[i]) == Some(b),
    decreases xs.len(),
{
    if xs.len() > 0 {
        let ys = xs.drop_last();
        lemma_select_contains(ys, f, b);
        let rest = select(ys, f);
        if select(xs, f).contains(b) {
            let k = choose|k: int| 0 <= k < select(xs, f).len() && select(xs, f)[k] == b;
            if f(xs.last()) == Some(b) {
                assert(f(xs[xs.len() - 1]) == Some(b));
            } else {
                match f(xs.last()) {
                    Some(c) => {
                        assert(select(xs, f) == rest.push(c));
                        assert(k < rest.len());
                        assert(rest[k] == b);
                        assert(rest.contains(b));
                    },
                    None => {
                        assert(rest.contains(b));
                    },
                }
                let i = choose|i: int| 0 <= i < ys.len() && #[trigger] f(ys[i]) == Some(b);
                assert(xs[i] == ys[i]);
            }
        }
        if exists|i: int| 0 <= i < xs.len() && #[trigger] f(xs[i]) == Some(b) {
            let i = choose|i: int| 0 <= i < xs.len() && #[trigger] f(xs[i]) == Some(b);
            if i == xs.len() - 1 {
                assert(select(xs, f) == rest.push(b));
                assert(select(xs, f)[rest.len() as int] == b);
            } else {
                assert(ys[i] == xs[i]);
                assert(rest.contains(b));
                let k = choose|k: int| 0 <= k < rest.len() && rest[k] == b;
                match f(xs.last()) {
                    Some(c) => {
                        assert(select(xs, f)[k] == b);
                    },
                    None => {},
                }
            }
        }
    }
}

/// The selection is empty exactly when `f` rejects every element.
pub proof fn lemma_select_empty<A, B>(xs: Seq<A>, f: spec_fn(A) -> Option<B>)
    ensures
        select(xs, f).len() == 0 <==> forall|i: int| 0 <= i < xs.len() ==> (#[trigger] f(xs[i])) is None,
    decreases xs.len(),
{
    if xs.len() > 0 {
        let ys = xs.drop_last();
        lemma_select_empty(ys, f);
        if select(xs, f).len() == 0 {
            assert forall|i: int| 0 <= i < xs.len() implies (#[trigger] f(xs[i])) is None by {
                if i < xs.len() - 1 {
                    assert(xs[i] == ys[i]);
                }
            }
        }
        if forall|i: int| 0 <= i < xs.len() ==> (#[trigger] f(xs[i])) is None {
            assert forall|i: int| 0 <= i < ys.len() implies (#[trigger] f(ys[i])) is None by {
                assert(xs[i] == ys[i]);
            }
            assert(f(xs[xs.len() - 1]) is None);
        }
    }
}

} // verus!
