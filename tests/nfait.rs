use graph_process_manager_loggers::nfait::{
    GenericNFAITLogger, NFAITBuilderPrinter, NFAITProcessBuilder, NfaitTables,
};

/// Steps are characters; `'_'` is silent. Nodes are integers; even ones accept.
struct CharSteps;

impl NFAITProcessBuilder<u32, char> for CharSteps {
    fn letter_of(&self, step: char) -> Option<char> {
        self.step_into_letter(&step)
    }

    fn is_final(&self, node: u32) -> bool {
        self.is_node_final(&node)
    }

    fn step_into_letter(&self, step: &char) -> Option<char> {
        if *step == '_' {
            None
        } else {
            Some(*step)
        }
    }

    fn is_node_final(&self, node: &u32) -> bool {
        *node % 2 == 0
    }
}

impl NFAITBuilderPrinter<u32, char> for CharSteps {}

fn builder() -> GenericNFAITLogger<u32, char, CharSteps> {
    GenericNFAITLogger::new(CharSteps, "aut".to_string(), "out".to_string())
}

fn sorted(v: &[usize]) -> Vec<usize> {
    let mut v = v.to_vec();
    v.sort();
    v
}

fn targets(t: &NfaitTables, s: usize, l: char) -> Vec<usize> {
    let mut r = vec![];
    for (letter, ts) in &t.transitions[s] {
        if *letter == l {
            r.extend(ts.iter().copied());
        }
    }
    r.sort();
    r
}

#[test]
fn linear_chain_of_five_nodes() {
    let mut b = builder();
    for id in 1..=5u32 {
        b.log_new_node(id, &1);
    }
    for id in 1..5u32 {
        b.log_new_step(id, &'x', id + 1, &1);
    }
    let t = b.finalize();
    assert_eq!(t.alphabet, vec!['x']);
    assert_eq!(t.initials, vec![0]);
    assert_eq!(t.transitions.len(), 5);
    assert_eq!(t.epsilon_trans.len(), 5);
    for i in 0..4 {
        assert_eq!(t.transitions[i], vec![('x', vec![i + 1])]);
    }
    assert!(t.transitions[4].is_empty());
    assert!(t.epsilon_trans.iter().all(|row| row.is_empty()));
    assert!(t.finals.is_empty());
}

#[test]
fn binary_tree_of_depth_two() {
    let mut b = builder();
    for id in 1..=7u32 {
        b.log_new_node(id, &1);
    }
    // node k has children 2k ('A') and 2k + 1 ('B')
    for parent in 1..=3u32 {
        b.log_new_step(parent, &'A', 2 * parent, &1);
        b.log_new_step(parent, &'B', 2 * parent + 1, &1);
    }
    let t = b.finalize();
    assert_eq!(sorted_chars(&t.alphabet), vec!['A', 'B']);
    assert_eq!(t.transitions.len(), 7);
    assert_eq!(b.state_count(), 7);
    assert_eq!(t.transitions[0].len(), 2);
    assert_eq!(targets(&t, 0, 'A'), vec![1]);
    assert_eq!(targets(&t, 0, 'B'), vec![2]);
    assert_eq!(targets(&t, 1, 'A'), vec![3]);
    assert_eq!(targets(&t, 2, 'B'), vec![6]);
    for leaf in 3..7 {
        assert!(t.transitions[leaf].is_empty());
    }
}

fn sorted_chars(v: &[char]) -> Vec<char> {
    let mut v = v.to_vec();
    v.sort();
    v
}

#[test]
fn states_follow_discovery_order_across_gaps() {
    let mut b = builder();
    b.log_new_node(1, &1);
    b.log_new_node(5, &1);
    b.log_new_node(9, &1);
    assert_eq!(b.state_of(1), Some(0));
    assert_eq!(b.state_of(5), Some(1));
    assert_eq!(b.state_of(9), Some(2));
    assert_eq!(b.state_of(2), None);
    assert_eq!(b.state_count(), 3);
}

#[test]
fn silent_steps_become_epsilon_transitions() {
    let mut b = builder();
    b.log_new_node(1, &1);
    b.log_new_node(2, &1);
    b.log_new_node(3, &1);
    b.log_new_step(1, &'_', 2, &1);
    b.log_new_step(1, &'a', 3, &1);
    let t = b.finalize();
    assert_eq!(t.alphabet, vec!['a']);
    assert_eq!(t.epsilon_trans[0], vec![1]);
    assert_eq!(targets(&t, 0, 'a'), vec![2]);
    assert!(t.epsilon_trans[1].is_empty());
}

#[test]
fn repeated_step_is_recorded_once() {
    let mut b = builder();
    b.log_new_node(1, &1);
    b.log_new_node(2, &1);
    b.log_new_step(1, &'a', 2, &1);
    b.log_new_step(1, &'a', 2, &1);
    b.log_new_step(1, &'_', 2, &1);
    b.log_new_step(1, &'_', 2, &1);
    let t = b.finalize();
    assert_eq!(t.alphabet, vec!['a']);
    assert_eq!(t.transitions[0], vec![('a', vec![1])]);
    assert_eq!(t.epsilon_trans[0], vec![1]);
}

#[test]
fn nondeterministic_targets_share_a_letter() {
    let mut b = builder();
    for id in 1..=3u32 {
        b.log_new_node(id, &1);
    }
    b.log_new_step(1, &'a', 3, &1);
    b.log_new_step(1, &'a', 2, &1);
    let t = b.finalize();
    assert_eq!(t.transitions[0].len(), 1);
    assert_eq!(sorted(&t.transitions[0][0].1), vec![1, 2]);
}

#[test]
fn final_nodes_become_accepting_states() {
    let mut b = builder();
    b.log_new_node(1, &3);
    b.log_new_node(2, &4);
    b.log_new_node(3, &6);
    let t = b.finalize();
    assert_eq!(sorted(&t.finals), vec![1, 2]);
    assert_eq!(t.transitions.len(), 3);
    assert!(t.transitions.iter().all(|row| row.is_empty()));
}

#[test]
fn empty_builder_has_no_rows() {
    let b = builder();
    let t = b.finalize();
    assert!(t.transitions.is_empty());
    assert!(t.epsilon_trans.is_empty());
    assert!(t.alphabet.is_empty());
    assert_eq!(b.name(), "aut");
    assert_eq!(b.parent_folder(), "out");
}
