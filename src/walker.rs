//! The tree walker: from the root, one question at a time, down to a leaf,
//! keeping the characteristics that were answered "yes".
use vstd::prelude::*;
use crate::knowledge::labels;
use crate::knowledge::Entity;
use crate::selector::{best_split, is_best_at, label_at, lemma_positive_score_splits};
use crate::tree::{
    DecisionTreeNode,
    Tree,
    answer_view,
    asks,
    build_tree,
    having,
    lacking,
    lemma_asked_separates,
    lemma_partition_len,
    lemma_partition_members,
    lemma_split_shrinks,
};

verus! {

/// The outcome of walking the tree with the answers given in order: the
/// leaf's answer and the characteristics confirmed on the way, or none when the
/// answers run out before a leaf. Answers left over at a leaf are not used.
pub open spec fn walk(t: Tree, answers: Seq<bool>) -> Option<(Option<Seq<char>>, Seq<Seq<char>>)>
    decreases answers.len(),
{
    match t {
        Tree::Leaf(a) => Some((a, Seq::empty())),
        Tree::Split(c, yes, no) => {
            if answers.len() == 0 {
                None
            } else {
                match walk(if answers[0] { *yes } else { *no }, answers.drop_first()) {
                    None => None,
                    Some((a, confirmed)) => Some(
                        (a, if answers[0] { seq![c] + confirmed } else { confirmed }),
                    ),
                }
            }
        },
    }
}

/// The characteristics answered "no" on the walk, in order.
pub open spec fn denied(t: Tree, answers: Seq<bool>) -> Seq<Seq<char>>
    decreases answers.len(),
{
    match t {
        Tree::Leaf(_) => Seq::empty(),
        Tree::Split(c, yes, no) => {
            if answers.len() == 0 {
                Seq::empty()
            } else if answers[0] {
                denied(*yes, answers.drop_first())
            } else {
                seq![c] + denied(*no, answers.drop_first())
            }
        },
    }
}

/// The node that a path of answers leads to from the root, if the path stays
/// inside the tree.
pub open spec fn follow(t: Tree, path: Seq<bool>) -> Option<Tree>
    decreases path.len(),
{
    if path.len() == 0 {
        Some(t)
    } else {
        match t {
            Tree::Leaf(_) => None,
            Tree::Split(_, yes, no) => follow(if path[0] { *yes } else { *no }, path.drop_first()),
        }
    }
}

/// The outcome of a walk as plain values.
pub open spec fn outcome_view(r: Option<(Option<String>, Vec<String>)>) -> Option<(Option<Seq<char>>, Seq<Seq<char>>)> {
    match r {
        Some((a, confirmed)) => Some((answer_view(a), labels(confirmed@))),
        None => None,
    }
}

/// Prefixes the confirmed characteristics of a walk's outcome.
pub open spec fn after(prefix: Seq<Seq<char>>, r: Option<(Option<Seq<char>>, Seq<Seq<char>>)>) -> Option<(Option<Seq<char>>, Seq<Seq<char>>)> {
    match r {
        Some((a, confirmed)) => Some((a, prefix + confirmed)),
        None => None,
    }
}

/// The candidates that reach the node at the end of a path of the built tree:
/// each question keeps those that have its characteristic on "yes" and those
/// that lack it on "no".
pub open spec fn reaching(kb: Seq<Entity>, path: Seq<bool>) -> Seq<Entity>
    decreases path.len(),
{
    if path.len() == 0 {
        kb
    } else if kb.len() > 1 && best_split(kb) is Some {
        let c = best_split(kb).unwrap();
        reaching(if path[0] { having(kb, c) } else { lacking(kb, c) }, path.drop_first())
    } else {
        Seq::empty()
    }
}

/// Split validity at every node: a question node of a built tree asks about a
/// characteristic that some candidate reaching it has and another lacks, and
/// its branches are built from the two sides, each non-empty and smaller than
/// the candidates reaching the node.
pub proof fn lemma_every_split_separates(kb: Seq<Entity>, path: Seq<bool>)
    requires
        follow(build_tree(kb), path) matches Some(Tree::Split(_, _, _)),
    ensures
        follow(build_tree(kb), path) matches Some(Tree::Split(c, yes, no)) && {
            let s = reaching(kb, path);
            &&& build_tree(s) == Tree::Split(c, yes, no)
            &&& exists|k: int| 0 <= k < s.len() && s[k].has(c)
            &&& exists|k: int| 0 <= k < s.len() && !s[k].has(c)
            &&& 0 < having(s, c).len() < s.len()
            &&& 0 < lacking(s, c).len() < s.len()
            &&& *yes == build_tree(having(s, c))
            &&& *no == build_tree(lacking(s, c))
        },
    decreases path.len(),
{
    let t = build_tree(kb);
    if path.len() == 0 {
        let c = best_split(kb).unwrap();
        let (i, j) = choose|i: int, j: int| is_best_at(kb, i, j);
        assert(label_at(kb, i, j) == c);
        lemma_positive_score_splits(kb, c);
        lemma_partition_len(kb, c);
    } else {
        let c = best_split(kb).unwrap();
        lemma_split_shrinks(kb, c);
        let side = if path[0] { having(kb, c) } else { lacking(kb, c) };
        assert(follow(t, path) == follow(build_tree(side), path.drop_first()));
        lemma_every_split_separates(side, path.drop_first());
    }
}

/// Leaf correctness: replaying the answers of a path from the root to a leaf
/// that names an animal walks to that leaf and returns exactly that name.
pub proof fn lemma_path_to_leaf_walks_to_it(t: Tree, path: Seq<bool>, name: Seq<char>)
    requires
        follow(t, path) == Some(Tree::Leaf(Some(name))),
    ensures
        walk(t, path) matches Some((a, _)) && a == Some(name),
    decreases path.len(),
{
    if path.len() > 0 {
        match t {
            Tree::Leaf(_) => {},
            Tree::Split(_, yes, no) => {
                lemma_path_to_leaf_walks_to_it(
                    if path[0] { *yes } else { *no },
                    path.drop_first(),
                    name,
                );
            },
        }
    }
}

/// Every characteristic confirmed or denied on a walk is asked by the tree.
pub proof fn lemma_walk_asks(t: Tree, answers: Seq<bool>)
    ensures
        walk(t, answers) matches Some((_, confirmed)) ==> forall|x: Seq<char>|
            confirmed.contains(x) ==> asks(t, x),
        forall|x: Seq<char>| denied(t, answers).contains(x) ==> asks(t, x),
    decreases answers.len(),
{
    if let Tree::Split(c, yes, no) = t {
        if answers.len() > 0 {
            let rest = answers.drop_first();
            lemma_walk_asks(*yes, rest);
            lemma_walk_asks(*no, rest);
            if let Some((_, confirmed)) = walk(t, answers) {
                assert forall|x: Seq<char>| confirmed.contains(x) implies asks(t, x) by {
                    if answers[0] {
                        let (_, tail) = walk(*yes, rest).unwrap();
                        let k = choose|k: int| 0 <= k < confirmed.len() && confirmed[k] == x;
                        if k > 0 {
                            assert(tail[k - 1] == x);
                            assert(tail.contains(x));
                        }
                    } else {
                        let (_, tail) = walk(*no, rest).unwrap();
                        assert(tail == confirmed);
                    }
                }
            }
            assert forall|x: Seq<char>| denied(t, answers).contains(x) implies asks(t, x) by {
                if !answers[0] {
                    let tail = denied(*no, rest);
                    let k = choose|k: int|
                        0 <= k < denied(t, answers).len() && denied(t, answers)[k] == x;
                    assert(denied(t, answers) == seq![c] + tail);
                    if k > 0 {
                        assert(tail[k - 1] == x);
                        assert(tail.contains(x));
                        assert(asks(*no, x));
                    } else {
                        assert(x == c);
                    }
                } else {
                    assert(denied(t, answers) == denied(*yes, rest));
                    assert(asks(*yes, x));
                }
            }
        }
    }
}

/// The sparse-negative invariant: on a walk of a built tree no characteristic
/// is both confirmed and denied, so an animal learned from the confirmed
/// characteristics never holds one that was answered "no".
pub proof fn lemma_confirmed_never_denied(kb: Seq<Entity>, answers: Seq<bool>)
    ensures
        walk(build_tree(kb), answers) matches Some((_, confirmed)) ==> forall|x: Seq<char>|
            confirmed.contains(x) ==> !denied(build_tree(kb), answers).contains(x),
    decreases kb.len(),
{
    let t = build_tree(kb);
    if kb.len() > 1 && answers.len() > 0 {
        if let Some(c) = best_split(kb) {
            lemma_split_shrinks(kb, c);
            lemma_partition_members(kb, c);
            let rest = answers.drop_first();
            let with = having(kb, c);
            let without = lacking(kb, c);
            lemma_confirmed_never_denied(with, rest);
            lemma_confirmed_never_denied(without, rest);
            lemma_walk_asks(build_tree(with), rest);
            lemma_walk_asks(build_tree(without), rest);
            if let Some((_, confirmed)) = walk(t, answers) {
                assert forall|x: Seq<char>| confirmed.contains(x) implies !denied(
                    t,
                    answers,
                ).contains(x) by {
                    if answers[0] {
                        let (_, tail) = walk(build_tree(with), rest).unwrap();
                        let k = choose|k: int| 0 <= k < confirmed.len() && confirmed[k] == x;
                        if k > 0 {
                            assert(tail[k - 1] == x);
                            assert(tail.contains(x));
                        } else if denied(t, answers).contains(x) {
                            lemma_asked_separates(with, c);
                            let j = choose|j: int| 0 <= j < with.len() && !with[j].has(c);
                            assert(with[j].has(c));
                        }
                    } else {
                        let (_, tail) = walk(build_tree(without), rest).unwrap();
                        assert(tail == confirmed);
                        if denied(t, answers).contains(x) {
                            let d = denied(t, answers);
                            let k = choose|k: int| 0 <= k < d.len() && d[k] == x;
                            if k > 0 {
                                assert(denied(build_tree(without), rest)[k - 1] == x);
                                assert(denied(build_tree(without), rest).contains(x));
                            } else {
                                assert(asks(build_tree(without), c));
                                lemma_asked_separates(without, c);
                                let j = choose|j: int| 0 <= j < without.len() && without[j].has(c);
                                assert(!without[j].has(c));
                            }
                        }
                    }
                }
            }
        }
    }
}

/// A guess is consistent with the answers: when a walk of a built tree ends at
/// a leaf that names an animal, the knowledge base holds an animal of that
/// name that has every confirmed characteristic and none of the denied ones.
pub proof fn lemma_guess_fits_answers(kb: Seq<Entity>, answers: Seq<bool>)
    requires
        walk(build_tree(kb), answers) matches Some((Some(_), _)),
    ensures
        walk(build_tree(kb), answers) matches Some((Some(name), confirmed)) && exists|k: int|
            {
                &&& 0 <= k < kb.len()
                &&& kb[k].name == name
                &&& forall|x: Seq<char>| confirmed.contains(x) ==> kb[k].has(x)
                &&& forall|x: Seq<char>|
                    denied(build_tree(kb), answers).contains(x) ==> !kb[k].has(x)
            },
    decreases kb.len(),
{
    let t = build_tree(kb);
    let (name, confirmed) = walk(t, answers).unwrap();
    let name = name.unwrap();
    if kb.len() == 1 {
        assert(kb[0].name == name);
    } else if best_split(kb) is None {
        assert(kb[kb.len() - 1].name == name);
    } else {
        let c = best_split(kb).unwrap();
        lemma_split_shrinks(kb, c);
        lemma_partition_members(kb, c);
        let rest = answers.drop_first();
        let side = if answers[0] { having(kb, c) } else { lacking(kb, c) };
        lemma_guess_fits_answers(side, rest);
        let (_, tail) = walk(build_tree(side), rest).unwrap();
        let k = choose|k: int|
            {
                &&& 0 <= k < side.len()
                &&& side[k].name == name
                &&& forall|x: Seq<char>| tail.contains(x) ==> side[k].has(x)
                &&& forall|x: Seq<char>|
                    denied(build_tree(side), rest).contains(x) ==> !side[k].has(x)
            };
        if answers[0] {
            assert(having(kb, c)[k].has(c));
        } else {
            assert(!lacking(kb, c)[k].has(c));
        }
        assert(side[k].has(c) == answers[0]);
        let j = choose|j: int| 0 <= j < kb.len() && kb[j] == side[k];
        assert forall|x: Seq<char>| confirmed.contains(x) implies kb[j].has(x) by {
            if answers[0] {
                let i = choose|i: int| 0 <= i < confirmed.len() && confirmed[i] == x;
                if i > 0 {
                    assert(tail[i - 1] == x);
                    assert(tail.contains(x));
                }
            } else {
                assert(tail == confirmed);
            }
        }
        assert forall|x: Seq<char>| denied(t, answers).contains(x) implies !kb[j].has(x) by {
            let d = denied(t, answers);
            if answers[0] {
                assert(d == denied(build_tree(side), rest));
            } else {
                assert(d == seq![c] + denied(build_tree(side), rest));
                let i = choose|i: int| 0 <= i < d.len() && d[i] == x;
                if i > 0 {
                    assert(denied(build_tree(side), rest)[i - 1] == x);
                    assert(denied(build_tree(side), rest).contains(x));
                }
            }
        }
    }
}

/// Takes one step from a question node: on "yes" the characteristic is
/// confirmed and the walk goes on in the yes branch, on "no" it goes on in the
/// no branch and nothing is confirmed.
pub fn walk_step<'a>(
    node: &'a DecisionTreeNode,
    has_characteristic: bool,
    confirmed: &mut Vec<String>,
) -> (next: &'a DecisionTreeNode)
    requires
        node@ is Split,
    ensures
        match node@ {
            Tree::Split(c, yes, no) => {
                &&& next@ == if has_characteristic { *yes } else { *no }
                &&& labels(final(confirmed)@) == if has_characteristic {
                    labels(old(confirmed)@).push(c)
                } else {
                    labels(old(confirmed)@)
                }
            },
            Tree::Leaf(_) => false,
        },
{
    match node {
        DecisionTreeNode::Split { characteristic, yes_branch, no_branch } => {
            if has_characteristic {
                confirmed.push(characteristic.clone());
                proof {
                    assert(labels(confirmed@) =~= labels(old(confirmed)@).push(characteristic@));
                }
                yes_branch
            } else {
                no_branch
            }
        },
        DecisionTreeNode::Leaf { .. } => node,
    }
}

/// Walks the tree with the answers given in order, to a leaf: what it names
/// and the characteristics confirmed on the way. Nothing when the answers run
/// out before a leaf.
pub fn traverse_decision_tree(tree: &DecisionTreeNode, answers: &Vec<bool>) -> (r: Option<(Option<String>, Vec<String>)>)
    ensures
        outcome_view(r) == walk(tree@, answers@),
{
    let mut node = tree;
    let mut confirmed: Vec<String> = Vec::new();
    let mut i: usize = 0;
    proof {
        assert(answers@.skip(0) =~= answers@);
        assert(labels(confirmed@) =~= Seq::<Seq<char>>::empty());
        if let Some((a, conf)) = walk(tree@, answers@) {
            assert(Seq::<Seq<char>>::empty() + conf =~= conf);
        }
    }
    loop
        invariant
            i <= answers.len(),
            walk(tree@, answers@) == after(labels(confirmed@), walk(node@, answers@.skip(i as int))),
        decreases answers.len() - i,
    {
        match node {
            DecisionTreeNode::Leaf { answer } => {
                proof {
                    assert(labels(confirmed@) + Seq::<Seq<char>>::empty() =~= labels(confirmed@));
                }
                return Some((answer.clone(), confirmed));
            },
            DecisionTreeNode::Split { .. } => {
                if i == answers.len() {
                    return None;
                }
                let ghost before = labels(confirmed@);
                let ghost rest = answers@.skip(i as int);
                let ghost here = node@;
                proof {
                    assert(rest.drop_first() =~= answers@.skip(i + 1));
                }
                let has = answers[i];
                node = walk_step(node, has, &mut confirmed);
                proof {
                    if let Some((a, conf)) = walk(node@, rest.drop_first()) {
                        if let Tree::Split(c, _, _) = here {
                            if has {
                                assert(before + (seq![c] + conf) =~= labels(confirmed@) + conf);
                            }
                        }
                    }
                }
                i = i + 1;
            },
        }
    }
}

} // verus!
