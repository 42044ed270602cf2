use genio::answer::{classify_answer, answer_from_matches, Answer, AnswerError, NO_PATTERN, YES_PATTERN};
use genio::knowledge::{get_animals, meet_animal_with_given_characteristics, meet_animal_with_new_characteristic, Animal};
use genio::selector::{characteristic_score, count_animals_having, select_characteristic};
use genio::tree::{build_decision_tree, partition, DecisionTreeNode};
use genio::walker::{traverse_decision_tree, walk_step};

fn animal(name: &str, characteristics: &[&str]) -> Animal {
    Animal {
        name: name.to_string(),
        characteristics: characteristics.iter().map(|c| c.to_string()).collect(),
    }
}

fn pets() -> Vec<Animal> {
    vec![
        animal("Gato", &["Mascota", "Ronronea"]),
        animal("Perro", &["Mascota", "Ladra"]),
    ]
}

/// Walks the tree, answering each question from the set of characteristics
/// that the animal in mind has.
fn play(tree: &DecisionTreeNode, has: &[&str]) -> (Option<String>, Vec<String>, Vec<String>) {
    let mut node = tree;
    let mut confirmed = Vec::new();
    let mut asked = Vec::new();
    loop {
        match node {
            DecisionTreeNode::Leaf { answer } => return (answer.clone(), confirmed, asked),
            DecisionTreeNode::Split { characteristic, .. } => {
                asked.push(characteristic.clone());
                let yes = has.contains(&characteristic.as_str());
                node = walk_step(node, yes, &mut confirmed);
            }
        }
    }
}

#[test]
fn pets_yes_to_pet_and_purrs_is_cat() {
    let tree = build_decision_tree(&pets());
    let (answer, confirmed, _) = play(&tree, &["Mascota", "Ronronea"]);
    assert_eq!(answer, Some("Gato".to_string()));
    assert!(confirmed.iter().all(|c| c == "Mascota" || c == "Ronronea"));
}

#[test]
fn pets_tree_splits_on_first_best_characteristic() {
    // Mascota is held by both, so its variance is zero; Ronronea and Ladra
    // tie, and Ronronea is listed first.
    let tree = build_decision_tree(&pets());
    match &tree {
        DecisionTreeNode::Split { characteristic, yes_branch, no_branch } => {
            assert_eq!(characteristic, "Ronronea");
            assert!(matches!(&**yes_branch, DecisionTreeNode::Leaf { answer: Some(a) } if a == "Gato"));
            assert!(matches!(&**no_branch, DecisionTreeNode::Leaf { answer: Some(a) } if a == "Perro"));
        }
        DecisionTreeNode::Leaf { .. } => panic!("expected a question at the root"),
    }
}

#[test]
fn no_to_pet_reaches_failure_leaf() {
    let tree = DecisionTreeNode::Split {
        characteristic: "Mascota".to_string(),
        yes_branch: Box::new(DecisionTreeNode::Split {
            characteristic: "Ronronea".to_string(),
            yes_branch: Box::new(DecisionTreeNode::Leaf { answer: Some("Gato".to_string()) }),
            no_branch: Box::new(DecisionTreeNode::Leaf { answer: Some("Perro".to_string()) }),
        }),
        no_branch: Box::new(DecisionTreeNode::Leaf { answer: None }),
    };
    let (answer, confirmed, _) = play(&tree, &[]);
    assert_eq!(answer, None);
    assert!(confirmed.is_empty());
    assert_eq!(traverse_decision_tree(&tree, &vec![false]), Some((None, vec![])));
    assert_eq!(
        traverse_decision_tree(&tree, &vec![true, true]),
        Some((Some("Gato".to_string()), vec!["Mascota".to_string(), "Ronronea".to_string()]))
    );
}

#[test]
fn learned_animal_without_characteristics_is_found() {
    let mut kb = pets();
    meet_animal_with_given_characteristics(&mut kb, "León".to_string(), vec![]);
    assert_eq!(kb.len(), 3);
    assert_eq!(kb[2].name, "León");
    assert!(kb[2].characteristics.is_empty());
    let tree = build_decision_tree(&kb);
    let (answer, confirmed, asked) = play(&tree, &[]);
    assert_eq!(answer, Some("León".to_string()));
    assert!(confirmed.is_empty());
    assert_eq!(asked, vec!["Mascota".to_string()]);
}

#[test]
fn empty_knowledge_base_gives_failure_leaf() {
    let tree = build_decision_tree(&vec![]);
    assert!(matches!(tree, DecisionTreeNode::Leaf { answer: None }));
    assert_eq!(traverse_decision_tree(&tree, &vec![]), Some((None, vec![])));
}

#[test]
fn single_animal_gives_its_leaf() {
    let tree = build_decision_tree(&vec![animal("Oveja", &["Tiene lana"])]);
    assert!(matches!(tree, DecisionTreeNode::Leaf { answer: Some(a) } if a == "Oveja"));
}

#[test]
fn identical_characteristics_terminate_in_last_name() {
    let kb = vec![animal("A", &["x", "y"]), animal("B", &["x", "y"]), animal("C", &["y", "x"])];
    let tree = build_decision_tree(&kb);
    assert!(matches!(tree, DecisionTreeNode::Leaf { answer: Some(a) } if a == "C"));
    let none = vec![animal("A", &[]), animal("B", &[])];
    assert!(matches!(build_decision_tree(&none), DecisionTreeNode::Leaf { answer: Some(a) } if a == "B"));
}

#[test]
fn build_is_deterministic() {
    let kb = get_animals();
    let first = format!("{:?}", build_decision_tree(&kb));
    let second = format!("{:?}", build_decision_tree(&kb));
    assert_eq!(first, second);
}

/// Every leaf that names an animal, with the answers that lead to it.
fn leaves(node: &DecisionTreeNode, path: &mut Vec<bool>, out: &mut Vec<(Vec<bool>, String)>) {
    match node {
        DecisionTreeNode::Leaf { answer: Some(a) } => out.push((path.clone(), a.clone())),
        DecisionTreeNode::Leaf { answer: None } => {}
        DecisionTreeNode::Split { yes_branch, no_branch, .. } => {
            path.push(true);
            leaves(yes_branch, path, out);
            path.pop();
            path.push(false);
            leaves(no_branch, path, out);
            path.pop();
        }
    }
}

#[test]
fn every_named_leaf_is_reached_by_its_path() {
    let kb = get_animals();
    let tree = build_decision_tree(&kb);
    let mut out = Vec::new();
    leaves(&tree, &mut Vec::new(), &mut out);
    assert_eq!(out.len(), kb.len());
    for (path, name) in out {
        let (answer, _) = traverse_decision_tree(&tree, &path).unwrap();
        assert_eq!(answer, Some(name));
    }
}

#[test]
fn walk_never_confirms_a_denied_characteristic() {
    let kb = get_animals();
    let tree = build_decision_tree(&kb);
    for a in &kb {
        let has: Vec<&str> = a.characteristics.iter().map(|c| c.as_str()).collect();
        let (answer, confirmed, asked) = play(&tree, &has);
        assert_eq!(answer.as_deref(), Some(a.name.as_str()));
        for c in &asked {
            assert_eq!(confirmed.contains(c), has.contains(&c.as_str()));
        }
        let mut unique = asked.clone();
        unique.sort();
        unique.dedup();
        assert_eq!(unique.len(), asked.len());
    }
}

#[test]
fn traverse_stops_when_answers_run_out() {
    let tree = build_decision_tree(&pets());
    assert_eq!(traverse_decision_tree(&tree, &vec![]), None);
    assert_eq!(
        traverse_decision_tree(&tree, &vec![false, true, true]),
        Some((Some("Perro".to_string()), vec![]))
    );
}

#[test]
fn learning_after_wrong_guess_appends_distinguishing_characteristic() {
    let mut kb = pets();
    let mut confirmed = vec!["Mascota".to_string()];
    meet_animal_with_new_characteristic(&mut kb, &mut confirmed, "Hamster".to_string(), "Roe".to_string());
    assert_eq!(confirmed, vec!["Mascota".to_string(), "Roe".to_string()]);
    assert_eq!(kb.len(), 3);
    assert_eq!(kb[2].name, "Hamster");
    assert_eq!(kb[2].characteristics, vec!["Mascota".to_string(), "Roe".to_string()]);
    assert_eq!(kb[0].name, "Gato");
}

#[test]
fn seed_knowledge_base() {
    let kb = get_animals();
    let names: Vec<&str> = kb.iter().map(|a| a.name.as_str()).collect();
    assert_eq!(names, vec!["Gato", "Perro", "León", "Tigre", "Oso", "Oveja", "Tortuga", "Caballo"]);
    assert_eq!(kb[2].characteristics, vec!["Es un animal salvaje", "Ruge", "Tiene melenena"]);
    assert_eq!(kb[5].characteristics, vec!["Tiene lana"]);
}

#[test]
fn scores_are_count_times_rest() {
    let kb = get_animals();
    let wild = "Es un animal salvaje".to_string();
    assert_eq!(count_animals_having(&kb, &wild), 3);
    assert_eq!(characteristic_score(&kb, &wild), 15);
    assert_eq!(characteristic_score(&kb, &"Ruge".to_string()), 15);
    assert_eq!(characteristic_score(&kb, &"Tiene lana".to_string()), 7);
    assert_eq!(characteristic_score(&kb, &"Vuela".to_string()), 0);
    assert_eq!(characteristic_score(&pets(), &"Mascota".to_string()), 0);
}

#[test]
fn selector_picks_first_of_highest_variance() {
    let kb = get_animals();
    assert_eq!(select_characteristic(&kb), Some("Es un animal salvaje".to_string()));
    assert_eq!(select_characteristic(&pets()), Some("Ronronea".to_string()));
    assert_eq!(select_characteristic(&vec![animal("A", &["x"]), animal("B", &["x"])]), None);
    assert_eq!(select_characteristic(&vec![]), None);
}

#[test]
fn chosen_split_separates_candidates() {
    let kb = get_animals();
    let c = select_characteristic(&kb).unwrap();
    let (with, without) = partition(&kb, &c);
    assert_eq!(with.len(), 3);
    assert_eq!(without.len(), 5);
    assert!(with.iter().all(|a| a.characteristics.contains(&c)));
    assert!(without.iter().all(|a| !a.characteristics.contains(&c)));
    assert_eq!(with[0].name, "León");
    assert_eq!(without[0].name, "Gato");
}

#[test]
fn replies_are_classified() {
    assert_eq!(classify_answer("si", YES_PATTERN, NO_PATTERN), Ok(Answer::Yes));
    assert_eq!(classify_answer("Sí\n", YES_PATTERN, NO_PATTERN), Ok(Answer::Yes));
    assert_eq!(classify_answer("no", YES_PATTERN, NO_PATTERN), Ok(Answer::No));
    assert_eq!(classify_answer("NO", YES_PATTERN, NO_PATTERN), Ok(Answer::No));
    assert_eq!(classify_answer("???", YES_PATTERN, NO_PATTERN), Ok(Answer::Unrecognized));
    assert_eq!(classify_answer("", YES_PATTERN, NO_PATTERN), Ok(Answer::Unrecognized));
    assert_eq!(classify_answer("oui", "^oui$", "^non$"), Ok(Answer::Yes));
    assert_eq!(classify_answer("non", "^oui$", "^non$"), Ok(Answer::No));
}

#[test]
fn invalid_pattern_is_an_error() {
    assert_eq!(classify_answer("si", "(", NO_PATTERN), Err(AnswerError::InvalidPattern));
    assert_eq!(classify_answer("no", YES_PATTERN, "["), Err(AnswerError::InvalidPattern));
}

#[test]
fn no_pattern_is_not_needed_when_yes_matches() {
    assert_eq!(classify_answer("si", YES_PATTERN, "["), Ok(Answer::Yes));
    assert_eq!(classify_answer("???", "(", "["), Err(AnswerError::InvalidPattern));
}

#[test]
fn yes_wins_over_no() {
    assert_eq!(answer_from_matches(true, true), Answer::Yes);
    assert_eq!(answer_from_matches(false, true), Answer::No);
    assert_eq!(answer_from_matches(false, false), Answer::Unrecognized);
}
