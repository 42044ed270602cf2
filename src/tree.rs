//! The decision tree and its construction from a candidate set.
use vstd::prelude::*;
use crate::knowledge::{Animal, Entity, entities};
use crate::selector::{
    best_split,
    count_having,
    is_best_at,
    label_at,
    lemma_count_bounds,
    lemma_positive_score_splits,
    select_characteristic,
};

verus! {

/// A decision tree seen mathematically.
pub ghost enum Tree {
    Leaf(Option<Seq<char>>),
    Split(Seq<char>, Box<Tree>, Box<Tree>),
}

/// A node of a decision tree: a leaf that names an animal or knows none, or a
/// question on a characteristic with a branch for each answer.
#[derive(Debug)]
pub enum DecisionTreeNode {
    Leaf { answer: Option<String> },
    Split {
        characteristic: String,
        yes_branch: Box<DecisionTreeNode>,
        no_branch: Box<DecisionTreeNode>,
    },
}

pub open spec fn answer_view(a: Option<String>) -> Option<Seq<char>> {
    match a {
        Some(s) => Some(s@),
        None => None,
    }
}

pub open spec fn tree_of(node: DecisionTreeNode) -> Tree
    decreases node,
{
    match node {
        DecisionTreeNode::Leaf { answer } => Tree::Leaf(answer_view(answer)),
        DecisionTreeNode::Split { characteristic, yes_branch, no_branch } => Tree::Split(
            characteristic@,
            Box::new(tree_of(*yes_branch)),
            Box::new(tree_of(*no_branch)),
        ),
    }
}

impl View for DecisionTreeNode {
    type V = Tree;

    open spec fn view(&self) -> Tree {
        tree_of(*self)
    }
}

/// The candidates that have the characteristic, in their order.
pub open spec fn having(kb: Seq<Entity>, c: Seq<char>) -> Seq<Entity>
    decreases kb.len(),
{
    if kb.len() == 0 {
        kb
    } else if kb.last().has(c) {
        having(kb.drop_last(), c).push(kb.last())
    } else {
        having(kb.drop_last(), c)
    }
}

/// The candidates that lack the characteristic, in their order.
pub open spec fn lacking(kb: Seq<Entity>, c: Seq<char>) -> Seq<Entity>
    decreases kb.len(),
{
    if kb.len() == 0 {
        kb
    } else if kb.last().has(c) {
        lacking(kb.drop_last(), c)
    } else {
        lacking(kb.drop_last(), c).push(kb.last())
    }
}

pub proof fn lemma_partition_len(kb: Seq<Entity>, c: Seq<char>)
    ensures
        having(kb, c).len() == count_having(kb, c),
        lacking(kb, c).len() == kb.len() - count_having(kb, c),
    decreases kb.len(),
{
    lemma_count_bounds(kb, c);
    if kb.len() > 0 {
        lemma_partition_len(kb.drop_last(), c);
        lemma_count_bounds(kb.drop_last(), c);
    }
}

/// A characteristic picked for a split leaves fewer candidates on each side.
pub proof fn lemma_split_shrinks(kb: Seq<Entity>, c: Seq<char>)
    requires
        best_split(kb) == Some(c),
    ensures
        having(kb, c).len() < kb.len(),
        lacking(kb, c).len() < kb.len(),
{
    let (i, j) = choose|i: int, j: int| is_best_at(kb, i, j);
    assert(label_at(kb, i, j) == c);
    lemma_positive_score_splits(kb, c);
    lemma_partition_len(kb, c);
}

/// The tree built from a candidate set. No candidate leaves a failure leaf;
/// one candidate leaves a leaf that names it. Otherwise the candidates are
/// split on the characteristic of highest variance; when every variance is
/// zero the candidates cannot be told apart, and the leaf names the last one.
pub open spec fn build_tree(kb: Seq<Entity>) -> Tree
    decreases kb.len(),
{
    if kb.len() == 0 {
        Tree::Leaf(None)
    } else if kb.len() == 1 {
        Tree::Leaf(Some(kb[0].name))
    } else {
        match best_split(kb) {
            None => Tree::Leaf(Some(kb.last().name)),
            Some(c) => {
                proof {
                    lemma_split_shrinks(kb, c);
                }
                Tree::Split(
                    c,
                    Box::new(build_tree(having(kb, c))),
                    Box::new(build_tree(lacking(kb, c))),
                )
            },
        }
    }
}

/// Whether some question node of the tree asks about the characteristic.
pub open spec fn asks(t: Tree, c: Seq<char>) -> bool
    decreases t,
{
    match t {
        Tree::Leaf(_) => false,
        Tree::Split(d, yes, no) => d == c || asks(*yes, c) || asks(*no, c),
    }
}

/// The number of questions on the longest path from the root to a leaf.
pub open spec fn height(t: Tree) -> nat
    decreases t,
{
    match t {
        Tree::Leaf(_) => 0,
        Tree::Split(_, yes, no) => 1 + if height(*yes) >= height(*no) {
            height(*yes)
        } else {
            height(*no)
        },
    }
}

pub proof fn lemma_partition_members(kb: Seq<Entity>, c: Seq<char>)
    ensures
        forall|k: int|
            0 <= k < having(kb, c).len() ==> #[trigger] having(kb, c)[k].has(c) && kb.contains(
                having(kb, c)[k],
            ),
        forall|k: int|
            0 <= k < lacking(kb, c).len() ==> !#[trigger] lacking(kb, c)[k].has(c) && kb.contains(
                lacking(kb, c)[k],
            ),
    decreases kb.len(),
{
    if kb.len() > 0 {
        let rest = kb.drop_last();
        lemma_partition_members(rest, c);
        assert forall|k: int| 0 <= k < having(kb, c).len() implies #[trigger] having(
            kb,
            c,
        )[k].has(c) && kb.contains(having(kb, c)[k]) by {
            if k < having(rest, c).len() {
                assert(having(rest, c)[k].has(c));
                assert(having(kb, c)[k] == having(rest, c)[k]);
                let j = choose|j: int| 0 <= j < rest.len() && rest[j] == having(rest, c)[k];
                assert(kb[j] == rest[j]);
            } else {
                assert(kb[kb.len() - 1] == kb.last());
            }
        }
        assert forall|k: int| 0 <= k < lacking(kb, c).len() implies !#[trigger] lacking(
            kb,
            c,
        )[k].has(c) && kb.contains(lacking(kb, c)[k]) by {
            if k < lacking(rest, c).len() {
                assert(!lacking(rest, c)[k].has(c));
                assert(lacking(kb, c)[k] == lacking(rest, c)[k]);
                let j = choose|j: int| 0 <= j < rest.len() && rest[j] == lacking(rest, c)[k];
                assert(kb[j] == rest[j]);
            } else {
                assert(kb[kb.len() - 1] == kb.last());
            }
        }
    }
}

/// A built tree asks only about characteristics that some candidate has and
/// some candidate lacks.
pub proof fn lemma_asked_separates(kb: Seq<Entity>, c: Seq<char>)
    requires
        asks(build_tree(kb), c),
    ensures
        exists|k: int| 0 <= k < kb.len() && kb[k].has(c),
        exists|k: int| 0 <= k < kb.len() && !kb[k].has(c),
    decreases kb.len(),
{
    if kb.len() > 1 {
        if let Some(d) = best_split(kb) {
            lemma_split_shrinks(kb, d);
            lemma_partition_members(kb, d);
            if d == c {
                let (i, j) = choose|i: int, j: int| is_best_at(kb, i, j);
                assert(label_at(kb, i, j) == c);
                lemma_positive_score_splits(kb, c);
            } else {
                if asks(build_tree(having(kb, d)), c) {
                    let side = having(kb, d);
                    lemma_asked_separates(side, c);
                    let k1 = choose|k: int| 0 <= k < side.len() && side[k].has(c);
                    let k2 = choose|k: int| 0 <= k < side.len() && !side[k].has(c);
                    assert(having(kb, d)[k1].has(d));
                    assert(having(kb, d)[k2].has(d));
                    let j1 = choose|j: int| 0 <= j < kb.len() && kb[j] == side[k1];
                    let j2 = choose|j: int| 0 <= j < kb.len() && kb[j] == side[k2];
                    assert(kb[j1].has(c) && !kb[j2].has(c));
                } else {
                    let side = lacking(kb, d);
                    lemma_asked_separates(side, c);
                    let k1 = choose|k: int| 0 <= k < side.len() && side[k].has(c);
                    let k2 = choose|k: int| 0 <= k < side.len() && !side[k].has(c);
                    assert(!lacking(kb, d)[k1].has(d));
                    assert(!lacking(kb, d)[k2].has(d));
                    let j1 = choose|j: int| 0 <= j < kb.len() && kb[j] == side[k1];
                    let j2 = choose|j: int| 0 <= j < kb.len() && kb[j] == side[k2];
                    assert(kb[j1].has(c) && !kb[j2].has(c));
                }
            }
        }
    }
}

/// Building terminates: each question splits off at least one candidate, so
/// no path of the tree asks more questions than there are candidates.
pub proof fn lemma_build_height(kb: Seq<Entity>)
    ensures
        height(build_tree(kb)) <= kb.len(),
    decreases kb.len(),
{
    if kb.len() > 1 {
        if let Some(c) = best_split(kb) {
            lemma_split_shrinks(kb, c);
            lemma_build_height(having(kb, c));
            lemma_build_height(lacking(kb, c));
        }
    }
}

/// Building is deterministic: knowledge bases that hold the same animals, with
/// the same characteristics in the same order, give the same tree.
pub proof fn lemma_build_deterministic(kb1: Seq<Animal>, kb2: Seq<Animal>)
    requires
        entities(kb1) == entities(kb2),
    ensures
        build_tree(entities(kb1)) == build_tree(entities(kb2)),
{
}

/// Splits the animals into those that have the characteristic and those that
/// lack it, each side keeping their order.
pub fn partition(animals: &Vec<Animal>, c: &String) -> (r: (Vec<Animal>, Vec<Animal>))
    ensures
        entities(r.0@) == having(entities(animals@), c@),
        entities(r.1@) == lacking(entities(animals@), c@),
{
    let ghost kb = entities(animals@);
    let mut with: Vec<Animal> = Vec::new();
    let mut without: Vec<Animal> = Vec::new();
    let mut i: usize = 0;
    while i < animals.len()
        invariant
            i <= animals.len(),
            kb == entities(animals@),
            entities(with@) == having(kb.subrange(0, i as int), c@),
            entities(without@) == lacking(kb.subrange(0, i as int), c@),
        decreases animals.len() - i,
    {
        proof {
            assert(kb.subrange(0, i + 1).drop_last() =~= kb.subrange(0, i as int));
            assert(kb.subrange(0, i + 1).last() == animals@[i as int]@);
        }
        let a = animals[i].duplicate();
        if animals[i].has(c) {
            proof {
                assert(entities(with@.push(a)) =~= entities(with@).push(a@));
            }
            with.push(a);
        } else {
            proof {
                assert(entities(without@.push(a)) =~= entities(without@).push(a@));
            }
            without.push(a);
        }
        i = i + 1;
    }
    proof {
        assert(kb.subrange(0, animals.len() as int) =~= kb);
    }
    (with, without)
}

/// Builds the decision tree that tells the animals apart.
pub fn build_decision_tree(animals: &Vec<Animal>) -> (r: DecisionTreeNode)
    ensures
        r@ == build_tree(entities(animals@)),
    decreases animals@.len(),
{
    let ghost kb = entities(animals@);
    if animals.len() == 0 {
        return DecisionTreeNode::Leaf { answer: None };
    }
    if animals.len() == 1 {
        return DecisionTreeNode::Leaf { answer: Some(animals[0].name.clone()) };
    }
    match select_characteristic(animals) {
        None => DecisionTreeNode::Leaf { answer: Some(animals[animals.len() - 1].name.clone()) },
        Some(c) => {
            let (with, without) = partition(animals, &c);
            proof {
                lemma_split_shrinks(kb, c@);
            }
            let yes_branch = build_decision_tree(&with);
            let no_branch = build_decision_tree(&without);
            DecisionTreeNode::Split {
                characteristic: c,
                yes_branch: Box::new(yes_branch),
                no_branch: Box::new(no_branch),
            }
        },
    }
}

} // verus!
