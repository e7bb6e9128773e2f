//! Ordering an engine's moves from best to worst.
use vstd::prelude::*;

use crate::board::Placement;
use crate::lemmas::{
    lemma_filter_all, lemma_filter_filter, lemma_filter_filter_none, lemma_filter_none,
    lemma_filter_push, lemma_push_members,
};
use crate::model::{Evaluation, Score, Unit};
use crate::values::{ONE, SIGN};

verus! {

/// A move with the score that an engine gave it.
#[derive(Clone, Copy, Debug, PartialEq, Eq, Structural)]
pub struct RankedMove {
    pub mv: Placement,
    pub score: Score,
    pub unit: Unit,
}

impl Score {
    /// Where the score stands among scores of its unit.
    pub open spec fn rank(self) -> int {
        match self {
            Score::Count(count) => count as int,
            Score::Value(value) => value.rank(),
        }
    }

    /// Whether this score is better than the other.
    pub fn outranks(self, other: Score) -> (res: bool)
        ensures
            res == (self.rank() > other.rank()),
    {
        match (self, other) {
            (Score::Count(a), Score::Count(b)) => a > b,
            (Score::Value(a), Score::Value(b)) => a.above(b),
            (Score::Count(a), Score::Value(b)) => b.bits >= SIGN || a > b.bits,
            (Score::Value(a), Score::Count(b)) => a.bits < SIGN && a.bits > b,
        }
    }
}

/// Whether a score that is a value lies between minus one and one.
pub open spec fn within_one(score: Score) -> bool {
    match score {
        Score::Count(_) => true,
        Score::Value(value) => value.magnitude() <= ONE,
    }
}

/// Whether a score is the value that an engine gives to the position.
pub open spec fn scored_as(score: Score, evaluation: Option<Evaluation>) -> bool {
    match (score, evaluation) {
        (Score::Value(a), Some(Evaluation::Value(b))) => a.same_number(b),
        _ => false,
    }
}

/// Whether a score is as good as the other or better. Zero and minus zero are as
/// good as each other.
pub open spec fn not_below(a: Score, b: Score) -> bool {
    a.rank() >= b.rank() || match (a, b) {
        (Score::Value(a), Score::Value(b)) => a.same_number(b),
        _ => false,
    }
}

/// A list with no score after a worse one.
pub open spec fn descending(list: Seq<RankedMove>) -> bool {
    forall|i: int, j: int|
        0 <= i < j < list.len() ==> (#[trigger] list[i]).score.rank() >= (
        #[trigger] list[j]).score.rank()
}

/// The list with one more item: behind what is as good or better, before what
/// is worse.
pub open spec fn inserted(list: Seq<RankedMove>, item: RankedMove) -> Seq<RankedMove> {
    list.filter(|other: RankedMove| other.score.rank() >= item.score.rank()).push(item)
        + list.filter(|other: RankedMove| other.score.rank() < item.score.rank())
}

/// The list from best to worst. Items of the same score keep their order.
pub open spec fn best_first(list: Seq<RankedMove>) -> Seq<RankedMove>
    decreases list.len(),
{
    if list.len() == 0 {
        Seq::empty()
    } else {
        inserted(best_first(list.drop_last()), list.last())
    }
}

/// Where a descending list is cut between the items that are as good as a new
/// one and those that are worse, the new item goes to the cut.
proof fn lemma_inserted_at(list: Seq<RankedMove>, item: RankedMove, cut: int)
    requires
        0 <= cut <= list.len(),
        forall|i: int| 0 <= i < cut ==> (#[trigger] list[i]).score.rank() >= item.score.rank(),
        forall|i: int|
            cut <= i < list.len() ==> (#[trigger] list[i]).score.rank() < item.score.rank(),
    ensures
        inserted(list, item) == list.insert(cut, item),
{
    let good = |other: RankedMove| other.score.rank() >= item.score.rank();
    let worse = |other: RankedMove| other.score.rank() < item.score.rank();
    let front = list.take(cut);
    let back = list.skip(cut);
    assert(front + back =~= list);
    Seq::filter_distributes_over_add(front, back, good);
    Seq::filter_distributes_over_add(front, back, worse);
    lemma_filter_all(front, good);
    lemma_filter_none(back, good);
    lemma_filter_none(front, worse);
    lemma_filter_all(back, worse);
    assert(list.filter(good) =~= front);
    assert(list.filter(worse) =~= back);
    assert(inserted(list, item) =~= list.insert(cut, item));
}

/// Inserting into a descending list leaves it descending.
proof fn lemma_inserted_descending(list: Seq<RankedMove>, item: RankedMove, cut: int)
    requires
        descending(list),
        0 <= cut <= list.len(),
        forall|i: int| 0 <= i < cut ==> (#[trigger] list[i]).score.rank() >= item.score.rank(),
        forall|i: int|
            cut <= i < list.len() ==> (#[trigger] list[i]).score.rank() < item.score.rank(),
    ensures
        descending(inserted(list, item)),
{
    lemma_inserted_at(list, item, cut);
    let longer = list.insert(cut, item);
    assert forall|i: int, j: int| 0 <= i < j < longer.len() implies (
    #[trigger] longer[i]).score.rank() >= (#[trigger] longer[j]).score.rank() by {
        let a = if i < cut { i } else { i - 1 };
        let b = if j < cut { j } else { j - 1 };
        if i != cut {
            assert(longer[i] == list[a]);
        }
        if j != cut {
            assert(longer[j] == list[b]);
        }
    }
}

/// Sorts a list from best to worst. Items of the same score keep their order.
pub fn rank_best_first(items: &Vec<RankedMove>) -> (sorted: Vec<RankedMove>)
    ensures
        sorted@ == best_first(items@),
        descending(sorted@),
{
    let mut sorted: Vec<RankedMove> = Vec::new();
    let mut i: usize = 0;
    while i < items.len()
        invariant
            i <= items@.len(),
            sorted@ == best_first(items@.take(i as int)),
            descending(sorted@),
        decreases items@.len() - i,
    {
        let item = items[i];
        let mut cut: usize = 0;
        while cut < sorted.len() && !item.score.outranks(sorted[cut].score)
            invariant
                cut <= sorted@.len(),
                forall|j: int|
                    0 <= j < cut ==> (#[trigger] sorted@[j]).score.rank() >= item.score.rank(),
            decreases sorted@.len() - cut,
        {
            cut += 1;
        }
        proof {
            let longer = items@.take(i + 1);
            assert(longer.drop_last() =~= items@.take(i as int));
            lemma_inserted_at(sorted@, item, cut as int);
            lemma_inserted_descending(sorted@, item, cut as int);
        }
        sorted.insert(cut, item);
        i += 1;
    }
    assert(items@.take(items@.len() as int) =~= items@);
    sorted
}

/// The sorted list descends from best to worst, holds what the list holds, and
/// keeps the order of any items that have the same score.
pub proof fn best_first_is_a_stable_sort(list: Seq<RankedMove>)
    ensures
        descending(best_first(list)),
        best_first(list).len() == list.len(),
        forall|item: RankedMove| #[trigger]
            best_first(list).contains(item) <==> list.contains(item),
        forall|rank: int| #[trigger] with_rank(best_first(list), rank) == with_rank(list, rank),
    decreases list.len(),
{
    if list.len() > 0 {
        let front = list.drop_last();
        let item = list.last();
        best_first_is_a_stable_sort(front);
        let sorted = best_first(front);
        assert(front.push(item) =~= list);
        let cut = lemma_cut_exists(sorted, item);
        lemma_inserted_at(sorted, item, cut);
        lemma_inserted_descending(sorted, item, cut);
        assert forall|other: RankedMove| #[trigger]
            best_first(list).contains(other) <==> list.contains(other) by {
            lemma_push_members(front, item, other);
            lemma_insert_members(sorted, cut, item, other);
        }
        assert forall|rank: int| #[trigger] with_rank(best_first(list), rank) == with_rank(
            list,
            rank,
        ) by {
            assert(with_rank(sorted, rank) == with_rank(front, rank));
            lemma_insert_keeps_ranks(sorted, item, rank);
            lemma_filter_push(front, |other: RankedMove| other.score.rank() == rank, item);
        }
    }
}

/// The items of one score, in their order.
pub open spec fn with_rank(list: Seq<RankedMove>, rank: int) -> Seq<RankedMove> {
    list.filter(|other: RankedMove| other.score.rank() == rank)
}

proof fn lemma_cut_exists(list: Seq<RankedMove>, item: RankedMove) -> (cut: int)
    requires
        descending(list),
    ensures
        0 <= cut <= list.len(),
        forall|i: int| 0 <= i < cut ==> (#[trigger] list[i]).score.rank() >= item.score.rank(),
        forall|i: int|
            cut <= i < list.len() ==> (#[trigger] list[i]).score.rank() < item.score.rank(),
    decreases list.len(),
{
    if list.len() == 0 {
        0
    } else if list.last().score.rank() >= item.score.rank() {
        list.len() as int
    } else {
        let front = list.drop_last();
        let cut = lemma_cut_exists(front, item);
        assert forall|i: int| 0 <= i < cut implies (#[trigger] list[i]).score.rank()
            >= item.score.rank() by {
            assert(front[i] == list[i]);
        }
        assert forall|i: int| cut <= i < list.len() implies (#[trigger] list[i]).score.rank()
            < item.score.rank() by {
            if i < front.len() {
                assert(front[i] == list[i]);
            }
        }
        cut
    }
}

proof fn lemma_insert_members(list: Seq<RankedMove>, cut: int, item: RankedMove, other: RankedMove)
    requires
        0 <= cut <= list.len(),
    ensures
        list.insert(cut, item).contains(other) <==> list.contains(other) || other == item,
{
    let longer = list.insert(cut, item);
    assert(longer[cut] == item);
    if list.contains(other) {
        let i = choose|i: int| 0 <= i < list.len() && list[i] == other;
        assert(longer[if i < cut { i } else { i + 1 }] == other);
    }
    if longer.contains(other) {
        let i = choose|i: int| 0 <= i < longer.len() && longer[i] == other;
        if i != cut {
            assert(list[if i < cut { i } else { i - 1 }] == other);
        }
    }
}

proof fn lemma_insert_keeps_ranks(list: Seq<RankedMove>, item: RankedMove, rank: int)
    ensures
        with_rank(inserted(list, item), rank) == if item.score.rank() == rank {
            with_rank(list, rank).push(item)
        } else {
            with_rank(list, rank)
        },
{
    let good = |other: RankedMove| other.score.rank() >= item.score.rank();
    let worse = |other: RankedMove| other.score.rank() < item.score.rank();
    let same = |other: RankedMove| other.score.rank() == rank;
    Seq::filter_distributes_over_add(list.filter(good).push(item), list.filter(worse), same);
    lemma_filter_push(list.filter(good), same, item);
    if rank >= item.score.rank() {
        lemma_filter_filter(list, good, same);
        lemma_filter_filter_none(list, worse, same);
    } else {
        lemma_filter_filter_none(list, good, same);
        lemma_filter_filter(list, worse, same);
    }
    assert(with_rank(inserted(list, item), rank) =~= if item.score.rank() == rank {
        with_rank(list, rank).push(item)
    } else {
        with_rank(list, rank)
    });
}

/// Of two counts the greater ranks higher, and of two values the one that comes
/// later in the order of values.
pub proof fn scores_rank_by_what_they_hold(score: Score, other: Score)
    ensures
        (score matches Score::Count(a) && other matches Score::Count(b) && a > b)
            ==> score.rank() > other.rank(),
        (score matches Score::Count(a) && other matches Score::Count(b) && a == b)
            ==> score.rank() == other.rank(),
        (score matches Score::Value(a) && other matches Score::Value(b) && a.rank() > b.rank())
            ==> score.rank() > other.rank(),
        (score matches Score::Value(a) && other matches Score::Value(b) && a == b)
            ==> score.rank() == other.rank(),
{
}

/// The sorted list has the items of the list, none of them before a better one,
/// and the items of any one score in the order that they had.
pub proof fn sorting_moves_items_only_past_worse_ones(list: Seq<RankedMove>, score: Score)
    ensures
        best_first(list).len() == list.len(),
        forall|i: int, j: int|
            0 <= i < j < list.len() ==> (#[trigger] best_first(list)[i]).score.rank() >= (
            #[trigger] best_first(list)[j]).score.rank(),
        best_first(list).filter(|item: RankedMove| item.score == score) == list.filter(
            |item: RankedMove| item.score == score,
        ),
        forall|item: RankedMove| #[trigger]
            best_first(list).contains(item) <==> list.contains(item),
{
    best_first_is_a_stable_sort(list);
    let rank = score.rank();
    let level = |item: RankedMove| item.score.rank() == rank;
    let exact = |item: RankedMove| item.score == score;
    assert(with_rank(best_first(list), rank) == with_rank(list, rank));
    lemma_filter_filter(best_first(list), level, exact);
    lemma_filter_filter(list, level, exact);
}

} // verus!
