//! The candidate list of an answer.
use vstd::prelude::*;

use crate::lemmas::{lemma_filter_members, lemma_filter_one, lemma_filter_pairwise, pairwise};
use crate::model::Candidate;
use crate::ranking::RankedMove;
use crate::schema::MAX_CANDIDATES;

verus! {

/// A ranked move as a candidate.
pub open spec fn candidate_of(ranked: RankedMove) -> Candidate {
    Candidate {
        action_index: ranked.mv.action() as u8,
        score: ranked.score,
        unit: ranked.unit,
    }
}

/// Whether the list has a candidate with the given action index.
pub open spec fn lists(list: Seq<Candidate>, index: u8) -> bool {
    exists|i: int| 0 <= i < list.len() && (#[trigger] list[i]).action_index == index
}

/// The legal moves of a ranked list as candidates, each index once and in the
/// order of the list.
pub open spec fn distinct_legal(ranked: Seq<RankedMove>, legal: Seq<u8>) -> Seq<Candidate>
    decreases ranked.len(),
{
    if ranked.len() == 0 {
        Seq::empty()
    } else {
        let front = distinct_legal(ranked.drop_last(), legal);
        let last = candidate_of(ranked.last());
        if legal.contains(last.action_index) && !lists(front, last.action_index) {
            front.push(last)
        } else {
            front
        }
    }
}

/// The list with the selected move first and the others behind it in their
/// order.
pub open spec fn led_by(list: Seq<Candidate>, selected: u8) -> Seq<Candidate> {
    list.filter(|c: Candidate| c.action_index == selected) + list.filter(
        |c: Candidate| !(c.action_index == selected),
    )
}

/// The list cut to the longest length that an answer carries.
pub open spec fn capped(list: Seq<Candidate>) -> Seq<Candidate> {
    if list.len() <= MAX_CANDIDATES {
        list
    } else {
        list.take(MAX_CANDIDATES as int)
    }
}

/// The candidate list of an answer. There is none where the selected move is
/// not among the legal moves that the engine ranked.
pub open spec fn sanitised(ranked: Seq<RankedMove>, legal: Seq<u8>, selected: u8) -> Option<
    Seq<Candidate>,
> {
    if lists(distinct_legal(ranked, legal), selected) {
        Some(capped(led_by(distinct_legal(ranked, legal), selected)))
    } else {
        None
    }
}

/// Whether every move of the list has an action index that fits a byte.
pub open spec fn indexable(ranked: Seq<RankedMove>) -> bool {
    forall|i: int| 0 <= i < ranked.len() ==> (#[trigger] ranked[i]).mv.action() <= u8::MAX
}

proof fn lemma_distinct(ranked: Seq<RankedMove>, legal: Seq<u8>)
    ensures
        pairwise(
            distinct_legal(ranked, legal),
            |a: Candidate, b: Candidate| a.action_index != b.action_index,
        ),
    decreases ranked.len(),
{
    if ranked.len() > 0 {
        lemma_distinct(ranked.drop_last(), legal);
    }
}

pub(crate) fn contains_byte(list: &[u8], byte: u8) -> (res: bool)
    ensures
        res == list@.contains(byte),
{
    let mut i: usize = 0;
    while i < list.len()
        invariant
            i <= list@.len(),
            forall|j: int| 0 <= j < i ==> list@[j] != byte,
        decreases list@.len() - i,
    {
        if list[i] == byte {
            return true;
        }
        i += 1;
    }
    false
}

/// Where the list has a candidate with the index, or none.
fn place_of(list: &Vec<Candidate>, index: u8) -> (place: Option<usize>)
    ensures
        match place {
            Some(i) => i < list@.len() && list@[i as int].action_index == index,
            None => !lists(list@, index),
        },
{
    let mut i: usize = 0;
    while i < list.len()
        invariant
            i <= list@.len(),
            forall|j: int| 0 <= j < i ==> (#[trigger] list@[j]).action_index != index,
        decreases list@.len() - i,
    {
        if list[i].action_index == index {
            return Some(i);
        }
        i += 1;
    }
    None
}

/// Keeps only legal, distinct candidates, the selected move first, at most
/// `MAX_CANDIDATES` of them. The engine's own order is otherwise kept. A list
/// without the selected move is dropped.
pub fn sanitise_candidates(ranked: &[RankedMove], legal: &[u8], selected: u8) -> (res: Option<
    Vec<Candidate>,
>)
    requires
        indexable(ranked@),
    ensures
        match res {
            Some(list) => sanitised(ranked@, legal@, selected) == Some(list@),
            None => sanitised(ranked@, legal@, selected) is None,
        },
{
    let mut list: Vec<Candidate> = Vec::new();
    let mut i: usize = 0;
    while i < ranked.len()
        invariant
            i <= ranked@.len(),
            indexable(ranked@),
            list@ == distinct_legal(ranked@.take(i as int), legal@),
        decreases ranked@.len() - i,
    {
        let entry = ranked[i];
        proof {
            assert(ranked@[i as int].mv.action() <= u8::MAX);
            assert(ranked@.take(i + 1).drop_last() =~= ranked@.take(i as int));
        }
        let index: u8 = crate::board::action_index(&entry.mv);
        if contains_byte(legal, index) && place_of(&list, index).is_none() {
            list.push(Candidate { action_index: index, score: entry.score, unit: entry.unit });
        }
        i += 1;
    }
    assert(ranked@.take(ranked@.len() as int) =~= ranked@);
    match place_of(&list, selected) {
        None => None,
        Some(place) => {
            let ghost kept = list@;
            proof {
                lemma_distinct(ranked@, legal@);
                let differ = |a: Candidate, b: Candidate| a.action_index != b.action_index;
                let chosen = |c: Candidate| c.action_index == selected;
                assert forall|j: int| 0 <= j < kept.len() implies (chosen(#[trigger] kept[j])
                    <==> j == place) by {
                    if j < place {
                        assert(differ(kept[j], kept[place as int]));
                    } else if j > place {
                        assert(differ(kept[place as int], kept[j]));
                    }
                }
                lemma_filter_one(
                    kept,
                    chosen,
                    |c: Candidate| !(c.action_index == selected),
                    place as int,
                );
            }
            let chosen = list.remove(place);
            list.insert(0, chosen);
            assert(list@ =~= led_by(kept, selected));
            list.truncate(MAX_CANDIDATES);
            assert(list@ =~= capped(led_by(kept, selected)));
            Some(list)
        },
    }
}

/// Whether the ranked list first names the index at the given place.
pub open spec fn first_named(ranked: Seq<RankedMove>, index: u8, place: int) -> bool {
    &&& 0 <= place < ranked.len()
    &&& ranked[place].mv.action() == index
    &&& forall|i: int| 0 <= i < place ==> (#[trigger] ranked[i]).mv.action() != index
}

/// Whether the ranked list names the index.
pub open spec fn names(ranked: Seq<RankedMove>, index: u8) -> bool {
    exists|i: int| 0 <= i < ranked.len() && (#[trigger] ranked[i]).mv.action() == index
}

/// Whether a candidate has the score and the unit of the first move of its index in
/// the ranked list.
pub open spec fn drawn_from(ranked: Seq<RankedMove>, c: Candidate) -> bool {
    exists|place: int| #[trigger]
        first_named(ranked, c.action_index, place) && c.score == ranked[place].score && c.unit
            == ranked[place].unit
}

/// Whether the ranked list first names one candidate's index before the
/// other's.
pub open spec fn named_before(ranked: Seq<RankedMove>, a: Candidate, b: Candidate) -> bool {
    forall|p: int, q: int|
        #[trigger] first_named(ranked, a.action_index, p) && #[trigger] first_named(
            ranked,
            b.action_index,
            q,
        ) ==> p < q
}

/// The distinct legal candidates are the legal indices that the ranked list
/// names, each with its first score and in the order of first naming.
proof fn lemma_distinct_legal(ranked: Seq<RankedMove>, legal: Seq<u8>)
    requires
        indexable(ranked),
    ensures
        forall|i: int| #![trigger distinct_legal(ranked, legal)[i]]
            0 <= i < distinct_legal(ranked, legal).len() ==> legal.contains(
                distinct_legal(ranked, legal)[i].action_index,
            ) && drawn_from(ranked, distinct_legal(ranked, legal)[i]),
        forall|index: u8| #[trigger]
            lists(distinct_legal(ranked, legal), index) <==> legal.contains(index) && names(
                ranked,
                index,
            ),
        pairwise(
            distinct_legal(ranked, legal),
            |a: Candidate, b: Candidate| named_before(ranked, a, b),
        ),
    decreases ranked.len(),
{
    let list = distinct_legal(ranked, legal);
    if ranked.len() > 0 {
        let front = ranked.drop_last();
        let kept = distinct_legal(front, legal);
        let last = candidate_of(ranked.last());
        let end = ranked.len() - 1;
        lemma_distinct_legal(front, legal);
        assert(ranked[end].mv.action() <= u8::MAX);
        assert forall|index: u8, place: int| #[trigger]
            first_named(front, index, place) implies first_named(
            ranked,
            index,
            place,
        ) by {
            assert(ranked[place] == front[place]);
            assert forall|i: int| 0 <= i < place implies (#[trigger] ranked[i]).mv.action()
                != index by {
                assert(front[i] == ranked[i]);
            }
        }
        assert forall|index: u8, place: int|
            names(front, index) && #[trigger] first_named(ranked, index, place) implies first_named(
            front,
            index,
            place,
        ) by {
            let k = choose|k: int|
                0 <= k < front.len() && (#[trigger] front[k]).mv.action() == index;
            assert(ranked[k] == front[k]);
            assert(place <= k);
            assert forall|i: int| 0 <= i < place implies (#[trigger] front[i]).mv.action()
                != index by {
                assert(front[i] == ranked[i]);
            }
        }
        assert forall|index: u8| #[trigger] names(ranked, index) <==> names(front, index) || index
            == last.action_index by {
            if names(front, index) {
                let k = choose|k: int|
                    0 <= k < front.len() && (#[trigger] front[k]).mv.action() == index;
                assert(ranked[k].mv.action() == index);
            }
            if index == last.action_index {
                assert(ranked[end].mv.action() == index);
            }
            if names(ranked, index) {
                let k = choose|k: int|
                    0 <= k < ranked.len() && (#[trigger] ranked[k]).mv.action() == index;
                if k < end {
                    assert(front[k].mv.action() == index);
                }
            }
        }
        let grows = legal.contains(last.action_index) && !lists(kept, last.action_index);
        assert forall|i: int| #![trigger list[i]] 0 <= i < list.len() implies legal.contains(
            list[i].action_index,
        ) && drawn_from(ranked, list[i]) by {
            if i < kept.len() {
                assert(list[i] == kept[i]);
                let place = choose|place: int| #[trigger]
                    first_named(front, kept[i].action_index, place) && kept[i] == candidate_of(
                        front[place],
                    );
                assert(first_named(ranked, list[i].action_index, place));
                assert(list[i] == candidate_of(ranked[place]));
            } else {
                assert(!names(front, last.action_index));
                assert forall|j: int| 0 <= j < end implies (#[trigger] ranked[j]).mv.action()
                    != last.action_index by {
                    assert(front[j] == ranked[j]);
                }
                assert(first_named(ranked, last.action_index, end));
            }
        }
        assert forall|index: u8| #[trigger] lists(list, index) <==> legal.contains(index) && names(
            ranked,
            index,
        ) by {
            if lists(kept, index) {
                let i = choose|i: int|
                    0 <= i < kept.len() && (#[trigger] kept[i]).action_index == index;
                assert(list[i].action_index == index);
            }
            if grows && index == last.action_index {
                assert(list[kept.len() as int].action_index == index);
            }
            if lists(list, index) {
                let i = choose|i: int|
                    0 <= i < list.len() && (#[trigger] list[i]).action_index == index;
                if i < kept.len() {
                    assert(kept[i].action_index == index);
                }
            }
        }
        let before = |a: Candidate, b: Candidate| named_before(ranked, a, b);
        let before_front = |a: Candidate, b: Candidate| named_before(front, a, b);
        assert forall|i: int, j: int| 0 <= i < j < list.len() implies before(
            #[trigger] list[i],
            #[trigger] list[j],
        ) by {
            assert(lists(kept, kept[i].action_index));
            assert(names(front, list[i].action_index));
            if j < kept.len() {
                assert(lists(kept, kept[j].action_index));
                assert(names(front, list[j].action_index));
                assert(before_front(kept[i], kept[j]));
                assert(named_before(ranked, list[i], list[j]));
            } else {
                assert(!names(front, last.action_index));
                assert forall|p: int, q: int|
                    #[trigger] first_named(ranked, list[i].action_index, p)
                        && #[trigger] first_named(ranked, list[j].action_index, q) implies p
                    < q by {
                    assert(first_named(front, list[i].action_index, p));
                    if q < end {
                        assert(front[q].mv.action() == last.action_index);
                    }
                }
            }
        }
    } else {
        assert forall|index: u8| #[trigger] lists(list, index) <==> legal.contains(index) && names(
            ranked,
            index,
        ) by {}
    }
}

/// An answer has a candidate list exactly where the selected move is a legal
/// move that the engine ranked. The list then leads with the selected move, has
/// at most `MAX_CANDIDATES` entries, all legal and distinct, each with the score
/// that the engine gave it first, and behind the first entry it keeps the
/// engine's order. It lacks a legal move that the engine ranked only where it has
/// eight entries, and then every entry behind the first is one that the engine
/// ranked before that move.
pub proof fn candidates_are_legal_distinct_and_led_by_the_selected_move(
    ranked: Seq<RankedMove>,
    legal: Seq<u8>,
    selected: u8,
)
    requires
        indexable(ranked),
    ensures
        sanitised(ranked, legal, selected) is Some <==> legal.contains(selected) && names(
            ranked,
            selected,
        ),
        sanitised(ranked, legal, selected) matches Some(list) ==> {
            &&& 1 <= list.len() <= 8
            &&& list[0].action_index == selected
            &&& forall|i: int|
                0 <= i < list.len() ==> legal.contains((#[trigger] list[i]).action_index)
                    && drawn_from(ranked, list[i])
            &&& forall|i: int, j: int|
                0 <= i < j < list.len() ==> (#[trigger] list[i]).action_index != (
                #[trigger] list[j]).action_index
            &&& forall|i: int, j: int|
                1 <= i < j < list.len() ==> named_before(
                    ranked,
                    #[trigger] list[i],
                    #[trigger] list[j],
                )
            &&& forall|index: u8|
                legal.contains(index) && names(ranked, index) && !#[trigger] lists(list, index)
                    ==> list.len() == 8
            &&& forall|index: u8, i: int, p: int, q: int|
                legal.contains(index) && !#[trigger] lists(list, index) && 1 <= i < list.len()
                    && #[trigger] first_named(ranked, (#[trigger] list[i]).action_index, p)
                    && #[trigger] first_named(ranked, index, q) ==> p < q
        },
{
    let kept = distinct_legal(ranked, legal);
    lemma_distinct_legal(ranked, legal);
    lemma_distinct(ranked, legal);
    if lists(kept, selected) {
        let chosen = |c: Candidate| c.action_index == selected;
        let others = |c: Candidate| !(c.action_index == selected);
        let differ = |a: Candidate, b: Candidate| a.action_index != b.action_index;
        let before = |a: Candidate, b: Candidate| named_before(ranked, a, b);
        let place = choose|i: int|
            0 <= i < kept.len() && (#[trigger] kept[i]).action_index == selected;
        assert forall|j: int| 0 <= j < kept.len() implies (chosen(#[trigger] kept[j]) <==> j
            == place) by {
            if j < place {
                assert(differ(kept[j], kept[place]));
            } else if j > place {
                assert(differ(kept[place], kept[j]));
            }
        }
        lemma_filter_one(kept, chosen, others, place);
        let rest = kept.filter(others);
        lemma_filter_pairwise(kept, others, differ);
        lemma_filter_pairwise(kept, others, before);
        lemma_filter_members(kept, others);
        let full = led_by(kept, selected);
        let list = capped(full);
        assert(full =~= seq![kept[place]] + rest);
        assert forall|i: int| 0 <= i < list.len() implies legal.contains(
            (#[trigger] list[i]).action_index,
        ) && drawn_from(ranked, list[i]) by {
            if i > 0 {
                assert(list[i] == rest[i - 1]);
                assert(rest.contains(rest[i - 1]));
                let k = choose|k: int| 0 <= k < kept.len() && kept[k] == rest[i - 1];
                assert(list[i] == kept[k]);
            } else {
                assert(list[i] == kept[place]);
            }
        }
        assert forall|i: int, j: int| 0 <= i < j < list.len() implies (
        #[trigger] list[i]).action_index != (#[trigger] list[j]).action_index by {
            assert(list[j] == rest[j - 1]);
            if i == 0 {
                assert(rest.contains(rest[j - 1]));
                assert(others(rest[j - 1]));
            } else {
                assert(list[i] == rest[i - 1]);
                assert(differ(rest[i - 1], rest[j - 1]));
            }
        }
        assert forall|i: int, j: int| 1 <= i < j < list.len() implies named_before(
            ranked,
            #[trigger] list[i],
            #[trigger] list[j],
        ) by {
            assert(list[i] == rest[i - 1]);
            assert(list[j] == rest[j - 1]);
            assert(before(rest[i - 1], rest[j - 1]));
        }
        assert forall|index: u8|
            legal.contains(index) && names(ranked, index) && !#[trigger] lists(
                list,
                index,
            ) implies exists|r: int|
            list.len() == 8 && 7 <= r < rest.len() && (#[trigger] rest[r]).action_index
                == index by {
            assert(lists(kept, index));
            let k = choose|k: int|
                0 <= k < kept.len() && (#[trigger] kept[k]).action_index == index;
            if index == selected {
                assert(list[0].action_index == index);
            } else {
                assert(kept.contains(kept[k]));
                assert(rest.contains(kept[k]));
                let r = choose|r: int| 0 <= r < rest.len() && rest[r] == kept[k];
                if r + 1 < list.len() {
                    assert(list[r + 1].action_index == index);
                }
                assert(rest[r].action_index == index);
            }
        }
        assert forall|index: u8, i: int, p: int, q: int|
            legal.contains(index) && !#[trigger] lists(list, index) && 1 <= i < list.len()
                && #[trigger] first_named(ranked, (#[trigger] list[i]).action_index, p)
                && #[trigger] first_named(ranked, index, q) implies p < q by {
            assert(names(ranked, index)) by {
                assert(ranked[q].mv.action() == index);
            }
            let r = choose|r: int|
                list.len() == 8 && 7 <= r < rest.len() && (#[trigger] rest[r]).action_index
                    == index;
            assert(list[i] == rest[i - 1]);
            assert(before(rest[i - 1], rest[r]));
            assert(named_before(ranked, rest[i - 1], rest[r]));
        }
    }
}

} // verus!
