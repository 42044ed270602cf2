//! The split selector: which characteristic best separates a set of
//! candidates.
//!
//! For `n` candidates of which `k` have a characteristic, the binomial
//! variance is `n·p·(1−p)` with `p = k/n`, that is `k·(n−k)/n`. Over one
//! candidate set `n` is fixed, so ranking by the variance is ranking by the
//! integer score `k·(n−k)`, which is computed exactly.
use vstd::prelude::*;
use crate::knowledge::{Animal, Entity, entities};

verus! {

/// How many candidates have the characteristic.
pub open spec fn count_having(kb: Seq<Entity>, c: Seq<char>) -> nat
    decreases kb.len(),
{
    if kb.len() == 0 {
        0
    } else {
        count_having(kb.drop_last(), c) + if kb.last().has(c) { 1nat } else { 0nat }
    }
}

/// The variance of the characteristic over the candidates, times their number.
pub open spec fn score(kb: Seq<Entity>, c: Seq<char>) -> int {
    count_having(kb, c) * (kb.len() - count_having(kb, c))
}

/// `(i, j)` names the `j`-th characteristic listed by the `i`-th candidate.
pub open spec fn occurs_at(kb: Seq<Entity>, i: int, j: int) -> bool {
    0 <= i < kb.len() && 0 <= j < kb[i].characteristics.len()
}

pub open spec fn label_at(kb: Seq<Entity>, i: int, j: int) -> Seq<char> {
    kb[i].characteristics[j]
}

/// Position `(i1, j1)` comes before `(i2, j2)` in listing order.
pub open spec fn precedes(i1: int, j1: int, i2: int, j2: int) -> bool {
    i1 < i2 || (i1 == i2 && j1 < j2)
}

/// The characteristic at `(i, j)` has a positive score that no other reaches,
/// except at later positions, where it may be matched but not exceeded.
pub open spec fn is_best_at(kb: Seq<Entity>, i: int, j: int) -> bool {
    &&& occurs_at(kb, i, j)
    &&& score(kb, label_at(kb, i, j)) > 0
    &&& forall|i2: int, j2: int|
        occurs_at(kb, i2, j2) ==> score(kb, #[trigger] label_at(kb, i2, j2)) <= score(
            kb,
            label_at(kb, i, j),
        )
    &&& forall|i2: int, j2: int|
        occurs_at(kb, i2, j2) && precedes(i2, j2, i, j) ==> score(
            kb,
            #[trigger] label_at(kb, i2, j2),
        ) < score(kb, label_at(kb, i, j))
}

/// The characteristic to split on: the first listed among those of highest
/// score, or none when every score is zero (all candidates agree on every
/// characteristic).
pub open spec fn best_split(kb: Seq<Entity>) -> Option<Seq<char>> {
    if exists|i: int, j: int| is_best_at(kb, i, j) {
        let (i, j) = choose|i: int, j: int| is_best_at(kb, i, j);
        Some(label_at(kb, i, j))
    } else {
        None
    }
}

pub proof fn lemma_best_unique(kb: Seq<Entity>, i1: int, j1: int, i2: int, j2: int)
    requires
        is_best_at(kb, i1, j1),
        is_best_at(kb, i2, j2),
    ensures
        i1 == i2 && j1 == j2,
{
    assert(label_at(kb, i1, j1) == label_at(kb, i1, j1));
    assert(label_at(kb, i2, j2) == label_at(kb, i2, j2));
}

pub proof fn lemma_best_split_at(kb: Seq<Entity>, i: int, j: int)
    requires
        is_best_at(kb, i, j),
    ensures
        best_split(kb) == Some(label_at(kb, i, j)),
{
    let (i1, j1) = choose|i1: int, j1: int| is_best_at(kb, i1, j1);
    lemma_best_unique(kb, i, j, i1, j1);
}

pub proof fn lemma_count_bounds(kb: Seq<Entity>, c: Seq<char>)
    ensures
        count_having(kb, c) <= kb.len(),
        count_having(kb, c) > 0 ==> exists|k: int| 0 <= k < kb.len() && kb[k].has(c),
        count_having(kb, c) < kb.len() ==> exists|k: int| 0 <= k < kb.len() && !kb[k].has(c),
    decreases kb.len(),
{
    if kb.len() > 0 {
        let rest = kb.drop_last();
        lemma_count_bounds(rest, c);
        if count_having(rest, c) > 0 {
            let k = choose|k: int| 0 <= k < rest.len() && rest[k].has(c);
            assert(kb[k] == rest[k]);
        }
        if count_having(rest, c) < rest.len() {
            let k = choose|k: int| 0 <= k < rest.len() && !rest[k].has(c);
            assert(kb[k] == rest[k]);
        }
    }
}

/// A characteristic of positive score is held by some candidate and lacked by
/// another, so splitting on it leaves both sides smaller than the whole.
pub proof fn lemma_positive_score_splits(kb: Seq<Entity>, c: Seq<char>)
    requires
        score(kb, c) > 0,
    ensures
        0 < count_having(kb, c) < kb.len(),
        exists|k: int| 0 <= k < kb.len() && kb[k].has(c),
        exists|k: int| 0 <= k < kb.len() && !kb[k].has(c),
{
    lemma_count_bounds(kb, c);
    let k = count_having(kb, c) as int;
    let n = kb.len() as int;
    assert(k * (n - k) > 0);
    if k == 0 {
        assert(k * (n - k) == 0);
    }
    if k == n {
        assert(k * (n - k) == 0) by (nonlinear_arith)
            requires
                k == n,
        ;
    }
}

/// How many of the animals have the characteristic.
pub fn count_animals_having(animals: &Vec<Animal>, c: &String) -> (r: usize)
    ensures
        r == count_having(entities(animals@), c@),
{
    let ghost kb = entities(animals@);
    let mut r: usize = 0;
    let mut i: usize = 0;
    while i < animals.len()
        invariant
            i <= animals.len(),
            kb == entities(animals@),
            r == count_having(kb.subrange(0, i as int), c@),
            r <= i,
        decreases animals.len() - i,
    {
        proof {
            assert(kb.subrange(0, i + 1).drop_last() =~= kb.subrange(0, i as int));
            assert(kb.subrange(0, i + 1).last() == animals@[i as int]@);
        }
        if animals[i].has(c) {
            r = r + 1;
        }
        i = i + 1;
    }
    proof {
        assert(kb.subrange(0, animals.len() as int) =~= kb);
    }
    r
}

/// The score of the characteristic over the animals.
pub fn characteristic_score(animals: &Vec<Animal>, c: &String) -> (r: u128)
    ensures
        r == score(entities(animals@), c@),
{
    let k = count_animals_having(animals, c);
    proof {
        lemma_count_bounds(entities(animals@), c@);
    }
    let n = animals.len() as u128;
    let k = k as u128;
    let rest = n - k;
    proof {
        assert(k * rest <= n * n) by (nonlinear_arith)
            requires
                k <= n,
                rest <= n,
        ;
        assert(n * n <= 0xffff_ffff_ffff_ffff * 0xffff_ffff_ffff_ffffu128) by (nonlinear_arith)
            requires
                n <= 0xffff_ffff_ffff_ffff,
        ;
    }
    k * rest
}

/// What the scan of `select_characteristic` knows once it has visited every
/// position before `(i, j)`: no score seen exceeds `best`, and when `best` is
/// positive it was first reached at `(bi, bj)`.
pub open spec fn scan_state(kb: Seq<Entity>, i: int, j: int, best: int, bi: int, bj: int) -> bool {
    &&& forall|i2: int, j2: int|
        occurs_at(kb, i2, j2) && precedes(i2, j2, i, j) ==> score(
            kb,
            #[trigger] label_at(kb, i2, j2),
        ) <= best
    &&& best >= 0
    &&& best > 0 ==> {
        &&& occurs_at(kb, bi, bj)
        &&& precedes(bi, bj, i, j)
        &&& score(kb, label_at(kb, bi, bj)) == best
        &&& forall|i2: int, j2: int|
            occurs_at(kb, i2, j2) && precedes(i2, j2, bi, bj) ==> score(
                kb,
                #[trigger] label_at(kb, i2, j2),
            ) < best
    }
}

/// Picks the characteristic to split the animals on: the first listed among
/// those of highest variance, or none when no characteristic has a positive
/// variance. A characteristic that is picked is held by some animal and
/// lacked by another.
pub fn select_characteristic(animals: &Vec<Animal>) -> (r: Option<String>)
    ensures
        match r {
            Some(c) => best_split(entities(animals@)) == Some(c@),
            None => best_split(entities(animals@)) is None,
        },
        r matches Some(c) ==> {
            &&& exists|k: int| 0 <= k < animals@.len() && entities(animals@)[k].has(c@)
            &&& exists|k: int| 0 <= k < animals@.len() && !entities(animals@)[k].has(c@)
        },
{
    let ghost kb = entities(animals@);
    let mut best: Option<String> = None;
    let mut best_score: u128 = 0;
    let ghost mut bi: int = 0;
    let ghost mut bj: int = 0;
    let mut i: usize = 0;
    while i < animals.len()
        invariant
            i <= animals.len(),
            kb == entities(animals@),
            scan_state(kb, i as int, 0, best_score as int, bi, bj),
            best_score == 0 <==> best is None,
            best matches Some(c) ==> c@ == label_at(kb, bi, bj),
        decreases animals.len() - i,
    {
        let list = &animals[i].characteristics;
        let mut j: usize = 0;
        while j < list.len()
            invariant
                i < animals.len(),
                j <= list.len(),
                list == animals@[i as int].characteristics,
                kb == entities(animals@),
                scan_state(kb, i as int, j as int, best_score as int, bi, bj),
                best_score == 0 <==> best is None,
                best matches Some(c) ==> c@ == label_at(kb, bi, bj),
            decreases list.len() - j,
        {
            let c = &list[j];
            let s = characteristic_score(animals, c);
            proof {
                assert(label_at(kb, i as int, j as int) == c@);
            }
            if s > best_score {
                best = Some(c.clone());
                best_score = s;
                proof {
                    bi = i as int;
                    bj = j as int;
                }
            }
            j = j + 1;
        }
        proof {
            assert forall|i2: int, j2: int|
                occurs_at(kb, i2, j2) && precedes(i2, j2, i + 1, 0) implies score(
                kb,
                #[trigger] label_at(kb, i2, j2),
            ) <= best_score by {
                assert(precedes(i2, j2, i as int, list.len() as int));
            }
        }
        i = i + 1;
    }
    proof {
        assert forall|i2: int, j2: int| occurs_at(kb, i2, j2) implies precedes(
            i2,
            j2,
            animals.len() as int,
            0,
        ) by {}
    }
    match best {
        Some(c) => {
            proof {
                assert(is_best_at(kb, bi, bj));
                lemma_best_split_at(kb, bi, bj);
                lemma_positive_score_splits(kb, c@);
            }
            Some(c)
        },
        None => {
            proof {
                if exists|i2: int, j2: int| is_best_at(kb, i2, j2) {
                    let (i2, j2) = choose|i2: int, j2: int| is_best_at(kb, i2, j2);
                    assert(precedes(i2, j2, animals.len() as int, 0));
                }
            }
            None
        },
    }
}

} // verus!
