//! A "twenty questions" engine: a sparse knowledge base of animals, a
//! variance-guided decision tree built from it, a step-by-step walker over the
//! tree, and a learner that grows the base after a miss.
pub mod answer;
pub mod knowledge;
pub mod selector;
pub mod tree;
pub mod walker;
