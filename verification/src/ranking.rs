//! Ranking by score: the higher score first, what has no score last, and
//! what scores alike in the order in which it came.

use vstd::prelude::*;

verus! {

/// Whether the score `a` ranks strictly above the score `b`. Any score ranks
/// above none, and the higher of two scores above the lower.
pub open spec fn outranks(a: Option<i64>, b: Option<i64>) -> bool {
    match (a, b) {
        (Some(x), Some(y)) => x > y,
        (Some(_), None) => true,
        (None, _) => false,
    }
}

/// Whether no item of `items` is outranked by one that follows it.
pub open spec fn is_ranked<T>(items: Seq<T>, score: spec_fn(T) -> Option<i64>) -> bool {
    forall|i: int, j: int|
        0 <= i < j < items.len() ==> !outranks(#[trigger] score(items[j]), #[trigger] score(items[i]))
}

/// The items of `items` whose score is `wanted`, in their order.
pub open spec fn scoring<T>(
    items: Seq<T>,
    score: spec_fn(T) -> Option<i64>,
    wanted: Option<i64>,
) -> Seq<T>
    decreases items.len(),
{
    if items.len() == 0 {
        Seq::empty()
    } else if score(items.first()) == wanted {
        seq![items.first()] + scoring(items.drop_first(), score, wanted)
    } else {
        scoring(items.drop_first(), score, wanted)
    }
}

/// Whether `output` is the ranking of `input`: it is ranked, and for each
/// score it holds the same items in the same order as `input`. So nothing is
/// lost or added, and items that score alike keep their order.
pub open spec fn is_ranking<T>(
    input: Seq<T>,
    output: Seq<T>,
    score: spec_fn(T) -> Option<i64>,
) -> bool {
    &&& is_ranked(output, score)
    &&& forall|wanted: Option<i64>| #[trigger]
        scoring(output, score, wanted) == scoring(input, score, wanted)
}

/// The score that a scored item carries.
pub open spec fn carried_score<T>() -> spec_fn((T, Option<i64>)) -> Option<i64> {
    |pair: (T, Option<i64>)| pair.1
}

/// The items of a given score in a concatenation are those of its parts.
pub proof fn lemma_scoring_concat<T>(
    a: Seq<T>,
    b: Seq<T>,
    score: spec_fn(T) -> Option<i64>,
    wanted: Option<i64>,
)
    ensures
        scoring(a + b, score, wanted) == scoring(a, score, wanted) + scoring(b, score, wanted),
    decreases a.len(),
{
    if a.len() == 0 {
        assert(a + b == b);
    } else {
        lemma_scoring_concat(a.drop_first(), b, score, wanted);
        assert((a + b).drop_first() == a.drop_first() + b);
        assert((a + b).first() == a.first());
    }
}

/// The items of a given score are exactly the items with that score.
pub proof fn lemma_scoring_members<T>(
    items: Seq<T>,
    score: spec_fn(T) -> Option<i64>,
    wanted: Option<i64>,
)
    ensures
        scoring(items, score, wanted).len() <= items.len(),
        forall|k: int|
            0 <= k < scoring(items, score, wanted).len() ==> {
                &&& items.contains(#[trigger] scoring(items, score, wanted)[k])
                &&& score(scoring(items, score, wanted)[k]) == wanted
            },
        forall|i: int|
            0 <= i < items.len() && score(#[trigger] items[i]) == wanted ==> scoring(
                items,
                score,
                wanted,
            ).contains(items[i]),
    decreases items.len(),
{
    if items.len() > 0 {
        let tail = items.drop_first();
        let found = scoring(items, score, wanted);
        let rest = scoring(tail, score, wanted);
        lemma_scoring_members(tail, score, wanted);
        assert forall|k: int| 0 <= k < found.len() implies items.contains(#[trigger] found[k])
            && score(found[k]) == wanted by {
            if score(items.first()) == wanted && k == 0 {
                assert(items[0] == found[k]);
            } else {
                let at = if score(items.first()) == wanted {
                    k - 1
                } else {
                    k
                };
                assert(found[k] == rest[at]);
                let i = choose|i: int| 0 <= i < tail.len() && tail[i] == rest[at];
                assert(items[i + 1] == found[k]);
            }
        }
        assert forall|i: int| 0 <= i < items.len() && score(#[trigger] items[i])
            == wanted implies found.contains(items[i]) by {
            if i == 0 {
                assert(found[0] == items[0]);
            } else {
                assert(tail[i - 1] == items[i]);
                let k = choose|k: int| 0 <= k < rest.len() && rest[k] == tail[i - 1];
                if score(items.first()) == wanted {
                    assert(found[k + 1] == items[i]);
                } else {
                    assert(found[k] == items[i]);
                }
            }
        }
    }
}

/// Where no item has the score, none is found.
pub proof fn lemma_scoring_none<T>(
    items: Seq<T>,
    score: spec_fn(T) -> Option<i64>,
    wanted: Option<i64>,
)
    requires
        forall|i: int| 0 <= i < items.len() ==> score(#[trigger] items[i]) != wanted,
    ensures
        scoring(items, score, wanted).len() == 0,
    decreases items.len(),
{
    if items.len() > 0 {
        assert(score(items[0]) != wanted);
        assert forall|i: int| 0 <= i < items.drop_first().len() implies score(
            #[trigger] items.drop_first()[i],
        ) != wanted by {
            assert(items.drop_first()[i] == items[i + 1]);
        }
        lemma_scoring_none(items.drop_first(), score, wanted);
    }
}

/// Two ranked sequences that hold, for each score, the same items in the
/// same order are the same sequence.
pub proof fn lemma_ranked_equal<T>(a: Seq<T>, b: Seq<T>, score: spec_fn(T) -> Option<i64>)
    requires
        is_ranked(a, score),
        is_ranked(b, score),
        forall|wanted: Option<i64>| #[trigger]
            scoring(a, score, wanted) == scoring(b, score, wanted),
    ensures
        a == b,
    decreases a.len(),
{
    if a.len() == 0 {
        if b.len() > 0 {
            let wanted = score(b[0]);
            assert(scoring(b, score, wanted)[0] == b[0]);
            assert(scoring(a, score, wanted).len() == 0);
        }
        assert(a =~= b);
    } else {
        let top = score(a[0]);
        assert(scoring(a, score, top)[0] == a[0]);
        assert(scoring(b, score, top).len() > 0);
        assert(b.len() > 0);
        let other = score(b[0]);
        assert(scoring(b, score, other)[0] == b[0]);
        lemma_scoring_members(a, score, other);
        lemma_scoring_members(b, score, top);
        assert(!outranks(top, other)) by {
            let found = scoring(b, score, top)[0];
            assert(b.contains(found));
            let j = choose|j: int| 0 <= j < b.len() && b[j] == found;
            if j > 0 {
                assert(!outranks(score(b[j]), score(b[0])));
            }
        }
        assert(!outranks(other, top)) by {
            let found = scoring(a, score, other)[0];
            assert(a.contains(found));
            let j = choose|j: int| 0 <= j < a.len() && a[j] == found;
            if j > 0 {
                assert(!outranks(score(a[j]), score(a[0])));
            }
        }
        assert(top == other);
        assert(a[0] == b[0]);
        let a_tail = a.drop_first();
        let b_tail = b.drop_first();
        assert forall|i: int, j: int| 0 <= i < j < a_tail.len() implies !outranks(
            #[trigger] score(a_tail[j]),
            #[trigger] score(a_tail[i]),
        ) by {
            assert(a_tail[i] == a[i + 1] && a_tail[j] == a[j + 1]);
        }
        assert forall|i: int, j: int| 0 <= i < j < b_tail.len() implies !outranks(
            #[trigger] score(b_tail[j]),
            #[trigger] score(b_tail[i]),
        ) by {
            assert(b_tail[i] == b[i + 1] && b_tail[j] == b[j + 1]);
        }
        assert forall|wanted: Option<i64>| #[trigger]
            scoring(a_tail, score, wanted) == scoring(b_tail, score, wanted) by {
            assert(scoring(a, score, wanted) == scoring(b, score, wanted));
            if wanted == top {
                assert(scoring(a_tail, score, wanted) == scoring(a, score, wanted).drop_first());
                assert(scoring(b_tail, score, wanted) == scoring(b, score, wanted).drop_first());
            }
        }
        lemma_ranked_equal(a_tail, b_tail, score);
        assert(a == seq![a[0]] + a_tail);
        assert(b == seq![b[0]] + b_tail);
    }
}

/// An input has one ranking only.
pub proof fn lemma_ranking_unique<T>(
    input: Seq<T>,
    a: Seq<T>,
    b: Seq<T>,
    score: spec_fn(T) -> Option<i64>,
)
    requires
        is_ranking(input, a, score),
        is_ranking(input, b, score),
    ensures
        a == b,
{
    assert forall|wanted: Option<i64>| #[trigger]
        scoring(a, score, wanted) == scoring(b, score, wanted) by {
        assert(scoring(a, score, wanted) == scoring(input, score, wanted));
        assert(scoring(b, score, wanted) == scoring(input, score, wanted));
    }
    lemma_ranked_equal(a, b, score);
}

/// Every item of an input occurs in its ranking, and every item of the
/// ranking in the input.
pub proof fn lemma_ranking_members<T>(
    input: Seq<T>,
    output: Seq<T>,
    score: spec_fn(T) -> Option<i64>,
)
    requires
        is_ranking(input, output, score),
    ensures
        forall|i: int| 0 <= i < input.len() ==> output.contains(#[trigger] input[i]),
        forall|j: int| 0 <= j < output.len() ==> input.contains(#[trigger] output[j]),
{
    assert forall|i: int| 0 <= i < input.len() implies output.contains(#[trigger] input[i]) by {
        let wanted = score(input[i]);
        lemma_scoring_members(input, score, wanted);
        lemma_scoring_members(output, score, wanted);
        assert(scoring(output, score, wanted) == scoring(input, score, wanted));
        let found = scoring(input, score, wanted);
        assert(found.contains(input[i]));
        let k = choose|k: int| 0 <= k < found.len() && found[k] == input[i];
        assert(output.contains(scoring(output, score, wanted)[k]));
    }
    assert forall|j: int| 0 <= j < output.len() implies input.contains(#[trigger] output[j]) by {
        let wanted = score(output[j]);
        lemma_scoring_members(input, score, wanted);
        lemma_scoring_members(output, score, wanted);
        assert(scoring(output, score, wanted) == scoring(input, score, wanted));
        let found = scoring(output, score, wanted);
        assert(found.contains(output[j]));
        let k = choose|k: int| 0 <= k < found.len() && found[k] == output[j];
        assert(input.contains(scoring(input, score, wanted)[k]));
    }
}

/// A ranking is as long as its input.
pub proof fn lemma_ranking_len<T>(input: Seq<T>, output: Seq<T>, score: spec_fn(T) -> Option<i64>)
    requires
        is_ranking(input, output, score),
    ensures
        output.len() == input.len(),
{
    lemma_same_scoring_same_len(input, output, score);
}

/// The number of items is the number of those that are passed over for a
/// score plus the number of those that have it; so sequences that agree on
/// the items of every score agree in length.
proof fn lemma_same_scoring_same_len<T>(a: Seq<T>, b: Seq<T>, score: spec_fn(T) -> Option<i64>)
    requires
        forall|wanted: Option<i64>| #[trigger]
            scoring(b, score, wanted) == scoring(a, score, wanted),
    ensures
        a.len() == b.len(),
    decreases a.len(),
{
    if a.len() == 0 {
        if b.len() > 0 {
            let wanted = score(b[0]);
            assert(scoring(b, score, wanted)[0] == b[0]);
            assert(scoring(a, score, wanted).len() == 0);
        }
    } else {
        let top = score(a[0]);
        let found = scoring(a, score, top);
        assert(found[0] == a[0]);
        assert(scoring(b, score, top) == found);
        let at = first_scoring(b, score, top);
        lemma_first_scoring(b, score, top);
        let b_less = b.remove(at);
        let a_tail = a.drop_first();
        assert forall|wanted: Option<i64>| #[trigger]
            scoring(b_less, score, wanted) == scoring(a_tail, score, wanted) by {
            lemma_scoring_remove(b, score, wanted, at);
            assert(scoring(b, score, wanted) == scoring(a, score, wanted));
            if wanted == top {
                assert(scoring(a_tail, score, wanted) == found.drop_first());
            }
        }
        lemma_same_scoring_same_len(a_tail, b_less, score);
    }
}

/// Position of the first item of `items` that has the score `wanted`, or the
/// length of `items` where none has it.
pub open spec fn first_scoring<T>(
    items: Seq<T>,
    score: spec_fn(T) -> Option<i64>,
    wanted: Option<i64>,
) -> int
    decreases items.len(),
{
    if items.len() == 0 || score(items.first()) == wanted {
        0
    } else {
        1 + first_scoring(items.drop_first(), score, wanted)
    }
}

/// Where some item has the score, the first such item lies inside the
/// sequence, has the score, and nothing before it has.
proof fn lemma_first_scoring<T>(
    items: Seq<T>,
    score: spec_fn(T) -> Option<i64>,
    wanted: Option<i64>,
)
    requires
        scoring(items, score, wanted).len() > 0,
    ensures
        0 <= first_scoring(items, score, wanted) < items.len(),
        score(items[first_scoring(items, score, wanted)]) == wanted,
    decreases items.len(),
{
    if items.len() > 0 && score(items.first()) != wanted {
        lemma_first_scoring(items.drop_first(), score, wanted);
        assert(items.drop_first()[first_scoring(items.drop_first(), score, wanted)]
            == items[first_scoring(items, score, wanted)]);
    }
}

/// Taking out the first item that has a score takes it out of the items of
/// that score, where it is the first, and leaves the items of other scores
/// as they are.
proof fn lemma_scoring_remove<T>(
    items: Seq<T>,
    score: spec_fn(T) -> Option<i64>,
    wanted: Option<i64>,
    at: int,
)
    requires
        0 <= at < items.len(),
        at == first_scoring(items, score, score(items[at])),
    ensures
        score(items[at]) == wanted ==> scoring(items.remove(at), score, wanted) == scoring(
            items,
            score,
            wanted,
        ).drop_first(),
        score(items[at]) != wanted ==> scoring(items.remove(at), score, wanted) == scoring(
            items,
            score,
            wanted,
        ),
    decreases items.len(),
{
    let tail = items.drop_first();
    if at == 0 {
        assert(items.remove(0) == tail);
        if score(items[0]) == wanted {
            assert(scoring(items, score, wanted).drop_first() == scoring(tail, score, wanted));
        }
    } else {
        assert(score(items.first()) != score(items[at]));
        assert(tail[at - 1] == items[at]);
        lemma_scoring_remove(tail, score, wanted, at - 1);
        assert(items.remove(at).drop_first() == tail.remove(at - 1));
        assert(items.remove(at).first() == items.first());
        if score(items.first()) == wanted {
            assert(score(items[at]) != wanted);
        }
    }
}

/// The items of a given score among mapped items are the mapped items of
/// that score, where the map keeps the scores.
pub proof fn lemma_scoring_mapped<T, U>(
    items: Seq<T>,
    map: spec_fn(T) -> U,
    score: spec_fn(T) -> Option<i64>,
    mapped_score: spec_fn(U) -> Option<i64>,
    wanted: Option<i64>,
)
    requires
        forall|i: int| 0 <= i < items.len() ==> score(#[trigger] items[i]) == mapped_score(
            map(items[i]),
        ),
    ensures
        scoring(items.map_values(map), mapped_score, wanted) == scoring(
            items,
            score,
            wanted,
        ).map_values(map),
    decreases items.len(),
{
    if items.len() == 0 {
        assert(scoring(items.map_values(map), mapped_score, wanted) =~= scoring(
            items,
            score,
            wanted,
        ).map_values(map));
    } else {
        let tail = items.drop_first();
        assert forall|i: int| 0 <= i < tail.len() implies score(#[trigger] tail[i])
            == mapped_score(map(tail[i])) by {
            assert(tail[i] == items[i + 1]);
        }
        lemma_scoring_mapped(tail, map, score, mapped_score, wanted);
        assert(items.map_values(map).drop_first() == tail.map_values(map));
        assert(items.map_values(map).first() == map(items.first()));
        assert(score(items[0]) == mapped_score(map(items[0])));
        let rest = scoring(tail, score, wanted);
        if score(items.first()) == wanted {
            assert((seq![items.first()] + rest).map_values(map) == seq![map(items.first())]
                + rest.map_values(map));
        }
    }
}

/// Mapping the items of an input and of its ranking gives an input and its
/// ranking again, where the map keeps the scores.
pub proof fn lemma_ranking_mapped<T, U>(
    input: Seq<T>,
    output: Seq<T>,
    map: spec_fn(T) -> U,
    score: spec_fn(T) -> Option<i64>,
    mapped_score: spec_fn(U) -> Option<i64>,
)
    requires
        is_ranking(input, output, score),
        forall|i: int| 0 <= i < input.len() ==> score(#[trigger] input[i]) == mapped_score(
            map(input[i]),
        ),
    ensures
        is_ranking(input.map_values(map), output.map_values(map), mapped_score),
{
    lemma_ranking_members(input, output, score);
    assert forall|j: int| 0 <= j < output.len() implies score(#[trigger] output[j])
        == mapped_score(map(output[j])) by {
        assert(input.contains(output[j]));
        let i = choose|i: int| 0 <= i < input.len() && input[i] == output[j];
        assert(score(input[i]) == mapped_score(map(input[i])));
    }
    let mapped = output.map_values(map);
    assert forall|i: int, j: int| 0 <= i < j < mapped.len() implies !outranks(
        #[trigger] mapped_score(mapped[j]),
        #[trigger] mapped_score(mapped[i]),
    ) by {
        assert(!outranks(score(output[j]), score(output[i])));
    }
    assert forall|wanted: Option<i64>| #[trigger]
        scoring(output.map_values(map), mapped_score, wanted) == scoring(
            input.map_values(map),
            mapped_score,
            wanted,
        ) by {
        lemma_scoring_mapped(input, map, score, mapped_score, wanted);
        lemma_scoring_mapped(output, map, score, mapped_score, wanted);
        assert(scoring(output, score, wanted) == scoring(input, score, wanted));
    }
}

/// Whether the score `a` ranks strictly above the score `b`.
pub fn ranks_above(a: Option<i64>, b: Option<i64>) -> (r: bool)
    ensures
        r == outranks(a, b),
{
    match a {
        Some(x) => match b {
            Some(y) => x > y,
            None => true,
        },
        None => false,
    }
}

/// Ranks scored items: those with the higher score first, those without a
/// score last, and those that score alike in the order in which they came.
pub fn rank_scored<T>(scored: Vec<(T, Option<i64>)>) -> (ranked: Vec<(T, Option<i64>)>)
    ensures
        is_ranking(scored@, ranked@, carried_score::<T>()),
{
    let ghost score = carried_score::<T>();
    let ghost input = scored@;
    let mut rest = scored;
    let mut ranked: Vec<(T, Option<i64>)> = Vec::new();
    assert(input.skip(input.len() as int).len() == 0);
    while rest.len() > 0
        invariant
            score == carried_score::<T>(),
            rest@ == input.take(rest.len() as int),
            rest.len() <= input.len(),
            is_ranked(ranked@, score),
            forall|wanted: Option<i64>| #[trigger]
                scoring(ranked@, score, wanted) == scoring(
                    input.skip(rest.len() as int),
                    score,
                    wanted,
                ),
        decreases rest.len(),
    {
        let ghost n = rest.len() as int;
        let ghost placed = ranked@;
        let pair = match rest.pop() {
            Some(pair) => pair,
            None => {
                return ranked;
            },
        };
        assert(pair == input[n - 1]);
        assert(rest@ == input.take(n - 1));
        let mut k: usize = 0;
        while k < ranked.len() && ranks_above(ranked[k].1, pair.1)
            invariant
                k <= ranked.len(),
                ranked@ == placed,
                score == carried_score::<T>(),
                forall|j: int| 0 <= j < k ==> outranks(score(#[trigger] placed[j]), score(pair)),
            decreases ranked.len() - k,
        {
            k += 1;
        }
        ranked.insert(k, pair);
        proof {
            let before = placed.take(k as int);
            let after = placed.skip(k as int);
            assert(placed == before + after);
            assert(ranked@ == before + seq![pair] + after);
            assert(input.skip(n - 1) == seq![pair] + input.skip(n));
            assert forall|j: int| k <= j < placed.len() implies !outranks(
                score(#[trigger] placed[j]),
                score(pair),
            ) by {
                if j > k {
                    assert(!outranks(score(placed[j]), score(placed[k as int])));
                }
            }
            assert forall|i: int, j: int| 0 <= i < j < ranked@.len() implies !outranks(
                #[trigger] score(ranked@[j]),
                #[trigger] score(ranked@[i]),
            ) by {
                if j < k {
                    assert(ranked@[i] == placed[i] && ranked@[j] == placed[j]);
                } else if j == k {
                    assert(ranked@[i] == placed[i]);
                } else if i < k {
                    assert(ranked@[i] == placed[i] && ranked@[j] == placed[j - 1]);
                } else if i == k {
                    assert(ranked@[j] == placed[j - 1]);
                } else {
                    assert(ranked@[i] == placed[i - 1] && ranked@[j] == placed[j - 1]);
                }
            }
            assert forall|wanted: Option<i64>| #[trigger]
                scoring(ranked@, score, wanted) == scoring(
                    input.skip(n - 1),
                    score,
                    wanted,
                ) by {
                lemma_scoring_concat(before + seq![pair], after, score, wanted);
                lemma_scoring_concat(before, seq![pair], score, wanted);
                lemma_scoring_concat(before, after, score, wanted);
                lemma_scoring_concat(seq![pair], input.skip(n), score, wanted);
                assert(scoring(placed, score, wanted) == scoring(input.skip(n), score, wanted));
                if score(pair) == wanted {
                    assert forall|j: int| 0 <= j < before.len() implies score(
                        #[trigger] before[j],
                    ) != wanted by {
                        assert(before[j] == placed[j]);
                    }
                    lemma_scoring_none(before, score, wanted);
                    assert(scoring(before, score, wanted) == Seq::<(T, Option<i64>)>::empty());
                } else {
                    lemma_scoring_none(seq![pair], score, wanted);
                    assert(scoring(seq![pair], score, wanted) == Seq::<(T, Option<i64>)>::empty());
                }
            }
        }
    }
    assert(input.skip(0) == input);
    ranked
}

} // verus!
