//! Facts about filtered sequences that several modules build on.
use vstd::prelude::*;

verus! {

/// Filtering after a push is pushing after filtering, where the item passes.
pub(crate) proof fn lemma_filter_push<A>(s: Seq<A>, pred: spec_fn(A) -> bool, item: A)
    ensures
        s.push(item).filter(pred) == if pred(item) {
            s.filter(pred).push(item)
        } else {
            s.filter(pred)
        },
{
    reveal(Seq::filter);
    assert(s.push(item).drop_last() =~= s);
}

/// A filter that every item passes keeps the sequence as it is.
pub(crate) proof fn lemma_filter_all<A>(s: Seq<A>, pred: spec_fn(A) -> bool)
    requires
        forall|i: int| 0 <= i < s.len() ==> pred(#[trigger] s[i]),
    ensures
        s.filter(pred) == s,
    decreases s.len(),
{
    reveal(Seq::filter);
    if s.len() > 0 {
        assert forall|i: int| 0 <= i < s.drop_last().len() implies pred(
            #[trigger] s.drop_last()[i],
        ) by {
            assert(s.drop_last()[i] == s[i]);
        }
        lemma_filter_all(s.drop_last(), pred);
        assert(pred(s[s.len() - 1]));
        assert(s.drop_last().push(s.last()) =~= s);
    } else {
        assert(s.filter(pred) =~= s);
    }
}

/// A filter that no item passes leaves nothing.
pub(crate) proof fn lemma_filter_none<A>(s: Seq<A>, pred: spec_fn(A) -> bool)
    requires
        forall|i: int| 0 <= i < s.len() ==> !pred(#[trigger] s[i]),
    ensures
        s.filter(pred) == Seq::<A>::empty(),
    decreases s.len(),
{
    reveal(Seq::filter);
    if s.len() > 0 {
        assert forall|i: int| 0 <= i < s.drop_last().len() implies !pred(
            #[trigger] s.drop_last()[i],
        ) by {
            assert(s.drop_last()[i] == s[i]);
        }
        lemma_filter_none(s.drop_last(), pred);
        assert(!pred(s[s.len() - 1]));
    } else {
        assert(s.filter(pred) =~= Seq::<A>::empty());
    }
}

/// What a filter keeps are the items that pass it.
pub(crate) proof fn lemma_filter_members<A>(s: Seq<A>, pred: spec_fn(A) -> bool)
    ensures
        forall|item: A| #[trigger]
            s.filter(pred).contains(item) <==> s.contains(item) && pred(item),
    decreases s.len(),
{
    reveal(Seq::filter);
    if s.len() > 0 {
        let front = s.drop_last();
        lemma_filter_members(front, pred);
        lemma_filter_push(front, pred, s.last());
        assert(front.push(s.last()) =~= s);
        assert forall|item: A| #[trigger] s.filter(pred).contains(item) <==> s.contains(item)
            && pred(item) by {
            lemma_push_members(front, s.last(), item);
            lemma_push_members(front.filter(pred), s.last(), item);
        }
    } else {
        assert(s.filter(pred) =~= s);
        assert(s.filter(pred) =~= Seq::<A>::empty());
    }
}

/// The members of a sequence after a push.
pub(crate) proof fn lemma_push_members<A>(s: Seq<A>, last: A, item: A)
    ensures
        s.push(last).contains(item) <==> s.contains(item) || item == last,
{
    if s.contains(item) {
        let i = choose|i: int| 0 <= i < s.len() && s[i] == item;
        assert(s.push(last)[i] == item);
    }
    if item == last {
        assert(s.push(last)[s.len() as int] == item);
    }
    if s.push(last).contains(item) {
        let i = choose|i: int| 0 <= i < s.push(last).len() && s.push(last)[i] == item;
        if i < s.len() {
            assert(s[i] == item);
        }
    }
}

/// Filtering by a wider predicate first makes no difference.
pub(crate) proof fn lemma_filter_filter<A>(
    s: Seq<A>,
    wide: spec_fn(A) -> bool,
    narrow: spec_fn(A) -> bool,
)
    requires
        forall|item: A| #[trigger] narrow(item) ==> wide(item),
    ensures
        s.filter(wide).filter(narrow) == s.filter(narrow),
    decreases s.len(),
{
    reveal(Seq::filter);
    if s.len() > 0 {
        let front = s.drop_last();
        lemma_filter_filter(front, wide, narrow);
        lemma_filter_push(front, wide, s.last());
        lemma_filter_push(front, narrow, s.last());
        lemma_filter_push(front.filter(wide), narrow, s.last());
        assert(front.push(s.last()) =~= s);
    } else {
        assert(s.filter(wide) =~= s);
    }
}

/// Filtering by two predicates that exclude each other leaves nothing.
pub(crate) proof fn lemma_filter_filter_none<A>(
    s: Seq<A>,
    one: spec_fn(A) -> bool,
    other: spec_fn(A) -> bool,
)
    requires
        forall|item: A| #[trigger] other(item) ==> !one(item),
    ensures
        s.filter(one).filter(other) == Seq::<A>::empty(),
{
    lemma_filter_members(s, one);
    let kept = s.filter(one);
    assert forall|i: int| 0 <= i < kept.len() implies !other(#[trigger] kept[i]) by {
        assert(kept.contains(kept[i]));
    }
    lemma_filter_none(kept, other);
}

/// Whether a relation holds between any item and any later one.
pub open spec fn pairwise<A>(s: Seq<A>, relation: spec_fn(A, A) -> bool) -> bool {
    forall|i: int, j: int| 0 <= i < j < s.len() ==> relation(#[trigger] s[i], #[trigger] s[j])
}

/// A filter keeps what holds between any item and any later one.
pub(crate) proof fn lemma_filter_pairwise<A>(
    s: Seq<A>,
    pred: spec_fn(A) -> bool,
    relation: spec_fn(A, A) -> bool,
)
    requires
        pairwise(s, relation),
    ensures
        pairwise(s.filter(pred), relation),
    decreases s.len(),
{
    reveal(Seq::filter);
    if s.len() > 0 {
        let front = s.drop_last();
        lemma_filter_pairwise(front, pred, relation);
        lemma_filter_push(front, pred, s.last());
        assert(front.push(s.last()) =~= s);
        lemma_filter_members(front, pred);
        let kept = front.filter(pred);
        assert forall|i: int, j: int| 0 <= i < j < s.filter(pred).len() implies relation(
            #[trigger] s.filter(pred)[i],
            #[trigger] s.filter(pred)[j],
        ) by {
            if j == kept.len() {
                assert(kept.contains(kept[i]));
                let k = choose|k: int| 0 <= k < front.len() && front[k] == kept[i];
                assert(relation(s[k], s[s.len() - 1]));
            }
        }
    }
}

/// A filter that one item alone passes leaves that item; the opposite filter
/// leaves the others.
pub(crate) proof fn lemma_filter_one<A>(
    s: Seq<A>,
    pred: spec_fn(A) -> bool,
    others: spec_fn(A) -> bool,
    place: int,
)
    requires
        0 <= place < s.len(),
        forall|item: A| #[trigger] others(item) == !pred(item),
        forall|i: int| 0 <= i < s.len() ==> (pred(#[trigger] s[i]) <==> i == place),
    ensures
        s.filter(pred) == seq![s[place]],
        s.filter(others) == s.remove(place),
{
    let front = s.take(place);
    let one = seq![s[place]];
    let back = s.skip(place + 1);
    assert(front + (one + back) =~= s);
    Seq::filter_distributes_over_add(front, one + back, pred);
    Seq::filter_distributes_over_add(one, back, pred);
    Seq::filter_distributes_over_add(front, one + back, others);
    Seq::filter_distributes_over_add(one, back, others);
    lemma_filter_none(front, pred);
    lemma_filter_all(one, pred);
    lemma_filter_none(back, pred);
    lemma_filter_all(front, others);
    lemma_filter_none(one, others);
    lemma_filter_all(back, others);
    assert(s.filter(pred) =~= one);
    assert(s.filter(others) =~= s.remove(place));
}

/// Mapping and then picking out by a property of the images is picking out by the
/// same property of the items and then mapping.
pub(crate) proof fn lemma_filter_mapped<A, B, C>(
    s: Seq<A>,
    f: spec_fn(A) -> B,
    image: spec_fn(B) -> bool,
    read: spec_fn(B) -> C,
    item: spec_fn(A) -> bool,
    direct: spec_fn(A) -> C,
)
    requires
        forall|a: A| #[trigger] image(f(a)) == item(a),
        forall|a: A| #[trigger] read(f(a)) == direct(a),
    ensures
        s.map_values(f).filter(image).map_values(read) == s.filter(item).map_values(direct),
    decreases s.len(),
{
    reveal(Seq::filter);
    if s.len() > 0 {
        let front = s.drop_last();
        let last = s.last();
        lemma_filter_mapped(front, f, image, read, item, direct);
        assert(s.map_values(f) =~= front.map_values(f).push(f(last)));
        assert(front.push(last) =~= s);
        lemma_filter_push(front.map_values(f), image, f(last));
        lemma_filter_push(front, item, last);
        let kept = front.map_values(f).filter(image);
        let picked = front.filter(item);
        assert(image(f(last)) == item(last));
        assert(read(f(last)) == direct(last));
        if item(last) {
            assert(kept.push(f(last)).map_values(read) =~= kept.map_values(read).push(
                read(f(last)),
            ));
            assert(picked.push(last).map_values(direct) =~= picked.map_values(direct).push(
                direct(last),
            ));
        }
    } else {
        assert(s.map_values(f) =~= Seq::<B>::empty());
        assert(s.map_values(f).filter(image).map_values(read) =~= s.filter(item).map_values(
            direct,
        ));
    }
}

} // verus!
