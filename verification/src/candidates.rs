//! Spatial deduplication of ranked document hypotheses.

use vstd::prelude::*;

verus! {

/// `kept` lists, in increasing order, positions of `ranked` whose elements
/// form `result`.
pub open spec fn selects<T>(ranked: Seq<T>, kept: Seq<int>, result: Seq<T>) -> bool {
    &&& kept.len() == result.len()
    &&& forall|k: int| 0 <= k < kept.len() ==> 0 <= #[trigger] kept[k] < ranked.len()
    &&& forall|a: int, b: int| 0 <= a < b < kept.len() ==> kept[a] < kept[b]
    &&& forall|k: int| 0 <= k < kept.len() ==> result[k] == ranked[#[trigger] kept[k]]
}

/// The greedy choice over the first `upto` positions: a hypothesis is kept
/// exactly when `is_duplicate` answered `false` against every hypothesis kept
/// before it; a dropped one was answered `true` against some kept before it.
pub open spec fn greedy_distinct<T, F: Fn(T, T) -> bool>(
    ranked: Seq<T>,
    kept: Seq<int>,
    is_duplicate: F,
    upto: int,
) -> bool {
    &&& forall|k: int| 0 <= k < kept.len() ==> #[trigger] kept[k] < upto
    &&& forall|a: int, b: int|
        #![trigger kept[a], kept[b]]
        0 <= a < b < kept.len() ==> is_duplicate.ensures((ranked[kept[b]], ranked[kept[a]]), false)
    &&& forall|i: int|
        0 <= i < upto && !kept.contains(i) ==> exists|a: int|
            0 <= a < kept.len() && kept[a] < i && #[trigger] is_duplicate.ensures(
                (ranked[i], ranked[kept[a]]),
                true,
            )
}

/// Keeps the first of each group of spatial duplicates in an already ranked
/// list, in rank order. Kept boundaries are never averaged with dropped ones.
pub fn keep_distinct<T: Copy, F: Fn(T, T) -> bool>(ranked: Vec<T>, is_duplicate: F) -> (distinct: Vec<T>)
    requires
        forall|a: T, b: T| is_duplicate.requires((a, b)),
    ensures
        exists|kept: Seq<int>|
            selects(ranked@, kept, distinct@) && greedy_distinct(
                ranked@,
                kept,
                is_duplicate,
                ranked@.len() as int,
            ),
{
    let mut distinct: Vec<T> = Vec::new();
    let ghost mut kept: Seq<int> = Seq::empty();
    let mut i: usize = 0;
    while i < ranked.len()
        invariant
            0 <= i <= ranked@.len(),
            forall|a: T, b: T| is_duplicate.requires((a, b)),
            selects(ranked@, kept, distinct@),
            greedy_distinct(ranked@, kept, is_duplicate, i as int),
        decreases ranked@.len() - i,
    {
        let candidate = ranked[i];
        let mut j: usize = 0;
        let mut duplicate = false;
        while j < distinct.len()
            invariant_except_break
                !duplicate,
                forall|a: int| 0 <= a < j ==> is_duplicate.ensures((candidate, #[trigger] distinct@[a]), false),
            invariant
                0 <= j <= distinct@.len(),
                candidate == ranked@[i as int],
                forall|a: T, b: T| is_duplicate.requires((a, b)),
                selects(ranked@, kept, distinct@),
            ensures
                duplicate ==> exists|a: int|
                    0 <= a < distinct@.len() && #[trigger] is_duplicate.ensures((candidate, distinct@[a]), true),
                !duplicate ==> forall|a: int|
                    0 <= a < distinct@.len() ==> is_duplicate.ensures((candidate, #[trigger] distinct@[a]), false),
            decreases distinct@.len() - j,
        {
            if is_duplicate(candidate, distinct[j]) {
                duplicate = true;
                break;
            }
            j = j + 1;
        }
        let ghost before = kept;
        if !duplicate {
            distinct.push(candidate);
            proof {
                kept = kept.push(i as int);
            }
        }
        proof {
            assert forall|k: int| 0 <= k < kept.len() implies #[trigger] kept[k] < i + 1 by {
                if k < before.len() {
                    assert(kept[k] == before[k]);
                }
            }
            assert forall|ii: int|
                0 <= ii < i + 1 && !kept.contains(ii) implies exists|a: int|
                    0 <= a < kept.len() && kept[a] < ii && #[trigger] is_duplicate.ensures(
                        (ranked@[ii], ranked@[kept[a]]),
                        true,
                    ) by {
                if ii < i {
                    if before.contains(ii) {
                        let k = choose|k: int| 0 <= k < before.len() && before[k] == ii;
                        assert(kept[k] == ii);
                    }
                    let a = choose|a: int|
                        0 <= a < before.len() && before[a] < ii && #[trigger] is_duplicate.ensures(
                            (ranked@[ii], ranked@[before[a]]),
                            true,
                        );
                    assert(kept[a] == before[a]);
                } else {
                    if !duplicate {
                        assert(kept[kept.len() - 1] == ii);
                    }
                    let a = choose|a: int|
                        0 <= a < distinct@.len() && #[trigger] is_duplicate.ensures((candidate, distinct@[a]), true);
                    assert(distinct@[a] == ranked@[kept[a]]);
                }
            }
        }
        i = i + 1;
    }
    distinct
}

/// The best-ranked hypothesis, unless there is none or the runner-up comes
/// too close to it: `near_tie(best, second)` decides, and a near tie abstains.
pub fn unambiguous<T: Copy, F: Fn(T, T) -> bool>(ranked: &Vec<T>, near_tie: F) -> (chosen: Option<T>)
    requires
        forall|a: T, b: T| near_tie.requires((a, b)),
    ensures
        ranked@.len() == 0 ==> chosen is None,
        ranked@.len() == 1 ==> chosen == Some(ranked@[0]),
        ranked@.len() >= 2 ==> (chosen == Some(ranked@[0]) && near_tie.ensures((ranked@[0], ranked@[1]), false))
            || (chosen is None && near_tie.ensures((ranked@[0], ranked@[1]), true)),
{
    if ranked.len() == 0 {
        return None;
    }
    let best = ranked[0];
    if ranked.len() >= 2 && near_tie(best, ranked[1]) {
        return None;
    }
    Some(best)
}

} // verus!
