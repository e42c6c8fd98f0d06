//! Builds a non-deterministic finite automaton with epsilon transitions from the
//! trace of an exploration: one state per discovered node, one transition per
//! recorded step.

use std::collections::HashMap;
use std::marker::PhantomData;
use vstd::prelude::*;

verus! {

broadcast use {vstd::std_specs::hash::group_hash_axioms, vstd::prelude::Seq::lemma_push_to_set_commute};

/// What the domain tells the automaton builder about its nodes and steps.
pub trait NFAITProcessBuilder<N, S> {
    /// The letter that `step` is read as, or `None` for a silent step.
    spec fn letter_of(&self, step: S) -> Option<char>;

    /// Whether `node` is accepting.
    spec fn is_final(&self, node: N) -> bool;

    fn step_into_letter(&self, step: &S) -> (r: Option<char>)
        ensures
            r == self.letter_of(*step),
    ;

    fn is_node_final(&self, node: &N) -> (r: bool)
        ensures
            r == self.is_final(*node),
    ;
}

/// A builder that can also be asked to present its letters.
pub trait NFAITBuilderPrinter<N, S>: NFAITProcessBuilder<N, S> {}

/// The targets grouped under letter `l` in one row of a dense transition table.
pub open spec fn group_targets(row: Seq<(char, Vec<usize>)>, l: char) -> Set<usize> {
    Set::new(
        |t: usize|
            exists|j: int| 0 <= j < row.len() && #[trigger] row[j].0 == l && row[j].1@.contains(t),
    )
}

/// A finished automaton as dense tables, one row per state: state `s` reads
/// letter `l` into the states of `targets(s, l)` and moves silently into those
/// of `epsilon_trans[s]`.
pub struct NfaitTables {
    pub alphabet: Vec<char>,
    pub initials: Vec<usize>,
    pub finals: Vec<usize>,
    pub transitions: Vec<Vec<(char, Vec<usize>)>>,
    pub epsilon_trans: Vec<Vec<usize>>,
}

impl NfaitTables {
    pub open spec fn num_states(&self) -> nat {
        self.transitions@.len()
    }

    /// The states reached from `s` by reading `l`.
    pub open spec fn targets(&self, s: int, l: char) -> Set<usize> {
        group_targets(self.transitions@[s]@, l)
    }

    /// The states reached from `s` by one epsilon transition.
    pub open spec fn epsilon_targets(&self, s: int) -> Set<usize> {
        self.epsilon_trans@[s]@.to_set()
    }

    /// No row names a letter without a target.
    pub open spec fn groups_nonempty(&self) -> bool {
        forall|s: int, j: int|
            0 <= s < self.transitions.len() && 0 <= j < self.transitions@[s].len()
                ==> #[trigger] self.transitions@[s]@[j].1.len() > 0
    }

    /// Each row names each letter at most once.
    pub open spec fn letters_distinct(&self) -> bool {
        forall|s: int, j1: int, j2: int|
            0 <= s < self.transitions.len() && 0 <= j1 < self.transitions@[s].len() && 0 <= j2
                < self.transitions@[s].len() && j1 != j2 ==> #[trigger] self.transitions@[s]@[j1].0
                != #[trigger] self.transitions@[s]@[j2].0
    }

    /// Every state named is below the number of rows, every letter used is in
    /// the alphabet, and there are no more epsilon rows than rows.
    pub open spec fn consistent(&self) -> bool {
        let n = self.transitions.len();
        &&& forall|i: int| 0 <= i < self.initials.len() ==> #[trigger] self.initials@[i] < n
        &&& forall|i: int| 0 <= i < self.finals.len() ==> #[trigger] self.finals@[i] < n
        &&& forall|s: int, j: int|
            0 <= s < n && 0 <= j < self.transitions@[s].len() ==> self.alphabet@.contains(
                #[trigger] self.transitions@[s]@[j].0,
            )
        &&& forall|s: int, j: int, k: int|
            0 <= s < n && 0 <= j < self.transitions@[s].len() && 0 <= k
                < self.transitions@[s]@[j].1.len() ==> #[trigger] self.transitions@[s]@[j].1@[k]
                < n
        &&& self.epsilon_trans.len() <= n
        &&& forall|s: int, k: int|
            0 <= s < self.epsilon_trans.len() && 0 <= k < self.epsilon_trans@[s].len()
                ==> #[trigger] self.epsilon_trans@[s]@[k] < n
    }
}

proof fn lemma_group_targets_push(row: Seq<(char, Vec<usize>)>, g: (char, Vec<usize>), l: char)
    ensures
        group_targets(row.push(g), l) == if g.0 == l {
            group_targets(row, l).union(g.1@.to_set())
        } else {
            group_targets(row, l)
        },
{
    let r2 = row.push(g);
    let rhs = if g.0 == l {
        group_targets(row, l).union(g.1@.to_set())
    } else {
        group_targets(row, l)
    };
    assert forall|t: usize| group_targets(r2, l).contains(t) <==> rhs.contains(t) by {
        if group_targets(r2, l).contains(t) {
            let j = choose|j: int|
                0 <= j < r2.len() && #[trigger] r2[j].0 == l && r2[j].1@.contains(t);
            if j < row.len() {
                assert(row[j] == r2[j]);
            }
        }
        if group_targets(row, l).contains(t) {
            let j = choose|j: int|
                0 <= j < row.len() && #[trigger] row[j].0 == l && row[j].1@.contains(t);
            assert(r2[j] == row[j]);
        }
        if g.0 == l && g.1@.contains(t) {
            assert(r2[row.len() as int] == g);
        }
    }
    assert(group_targets(r2, l) =~= rhs);
}

/// Records discovered nodes and recorded steps as the states and the transitions
/// of an automaton.
///
/// Node ids need not be contiguous (filtered or memoized nodes leave gaps): each
/// discovered node gets the next state id, starting at 0 for the first one.
/// Transitions are stored as flat edge lists and densified by `finalize`.
pub struct GenericNFAITLogger<N, S, B: NFAITBuilderPrinter<N, S>> {
    builder_printer: B,
    name: String,
    parent_folder: String,
    node_to_state: HashMap<u32, usize>,
    next_nfa_state_id: usize,
    alphabet: Vec<char>,
    finals: Vec<usize>,
    transitions: Vec<(usize, char, usize)>,
    epsilon_trans: Vec<(usize, usize)>,
    phantom: PhantomData<(N, S)>,
}

impl<N, S, B: NFAITBuilderPrinter<N, S>> GenericNFAITLogger<N, S, B> {
    /// The domain's letter projection and finality predicate.
    pub closed spec fn printer(&self) -> B {
        self.builder_printer
    }

    /// Name of the files the automaton is drawn into.
    pub closed spec fn file_name(&self) -> String {
        self.name
    }

    /// Folder the automaton is drawn into.
    pub closed spec fn folder(&self) -> String {
        self.parent_folder
    }

    /// The state id given to each discovered node.
    pub closed spec fn state_map(&self) -> Map<u32, usize> {
        self.node_to_state@
    }

    /// The number of states allocated so far.
    pub closed spec fn num_states(&self) -> nat {
        self.next_nfa_state_id as nat
    }

    /// The letters read on some recorded step.
    pub closed spec fn alphabet_set(&self) -> Set<char> {
        self.alphabet@.to_set()
    }

    /// The accepting states.
    pub closed spec fn finals_set(&self) -> Set<usize> {
        self.finals@.to_set()
    }

    /// The labeled transitions, as (origin, letter, target).
    pub closed spec fn labeled_edges(&self) -> Set<(usize, char, usize)> {
        self.transitions@.to_set()
    }

    /// The epsilon transitions, as (origin, target).
    pub closed spec fn epsilon_edges(&self) -> Set<(usize, usize)> {
        self.epsilon_trans@.to_set()
    }

    /// `tables` is this automaton made dense: same alphabet and accepting states,
    /// state 0 initial, one row per state holding exactly its transitions.
    pub open spec fn densified_by(&self, tables: NfaitTables) -> bool {
        &&& tables.alphabet@.to_set() == self.alphabet_set()
        &&& tables.alphabet@.no_duplicates()
        &&& tables.initials@ == seq![0usize]
        &&& tables.finals@.to_set() == self.finals_set()
        &&& tables.num_states() == self.num_states()
        &&& tables.epsilon_trans.len() == self.num_states()
        &&& forall|s: int, l: char|
            0 <= s < self.num_states() ==> #[trigger] tables.targets(s, l) == Set::new(
                |t: usize| self.labeled_edges().contains((s as usize, l, t)),
            )
        &&& forall|s: int|
            0 <= s < self.num_states() ==> #[trigger] tables.epsilon_targets(s) == Set::new(
                |t: usize| self.epsilon_edges().contains((s as usize, t)),
            )
        &&& tables.letters_distinct()
        &&& tables.groups_nonempty()
    }

    /// Discovered nodes hold distinct allocated states; letters and accepting
    /// states are listed once; every transition joins allocated states and reads
    /// a letter of the alphabet.
    pub closed spec fn wf(&self) -> bool {
        let n = self.next_nfa_state_id;
        &&& forall|k: u32| #[trigger]
            self.node_to_state@.contains_key(k) ==> self.node_to_state@[k] < n
        &&& forall|k1: u32, k2: u32|
            #![trigger self.node_to_state@[k1], self.node_to_state@[k2]]
            self.node_to_state@.contains_key(k1) && self.node_to_state@.contains_key(k2)
                && self.node_to_state@[k1] == self.node_to_state@[k2] ==> k1 == k2
        &&& self.alphabet@.no_duplicates()
        &&& self.finals@.no_duplicates()
        &&& forall|i: int| 0 <= i < self.finals.len() ==> #[trigger] self.finals@[i] < n
        &&& forall|i: int| 0 <= i < self.transitions.len() ==> {
            let e = #[trigger] self.transitions@[i];
            e.0 < n && e.2 < n && self.alphabet@.contains(e.1)
        }
        &&& forall|i: int| 0 <= i < self.epsilon_trans.len() ==> {
            let e = #[trigger] self.epsilon_trans@[i];
            e.0 < n && e.1 < n
        }
    }

    /// A builder with no state yet.
    pub fn new(builder_printer: B, name: String, parent_folder: String) -> (r: Self)
        ensures
            r.wf(),
            r.printer() == builder_printer,
            r.file_name() == name,
            r.folder() == parent_folder,
            r.state_map() == Map::<u32, usize>::empty(),
            r.num_states() == 0,
            r.alphabet_set() == Set::<char>::empty(),
            r.finals_set() == Set::<usize>::empty(),
            r.labeled_edges() == Set::<(usize, char, usize)>::empty(),
            r.epsilon_edges() == Set::<(usize, usize)>::empty(),
    {
        let r = GenericNFAITLogger {
            builder_printer,
            name,
            parent_folder,
            node_to_state: HashMap::new(),
            next_nfa_state_id: 0,
            alphabet: Vec::new(),
            finals: Vec::new(),
            transitions: Vec::new(),
            epsilon_trans: Vec::new(),
            phantom: PhantomData,
        };
        assert(r.alphabet_set() =~= Set::<char>::empty());
        assert(r.finals_set() =~= Set::<usize>::empty());
        assert(r.labeled_edges() =~= Set::<(usize, char, usize)>::empty());
        assert(r.epsilon_edges() =~= Set::<(usize, usize)>::empty());
        r
    }

    /// Gives the newly discovered node `new_node_id` the next state id, and makes
    /// that state accepting when the domain says the node is final.
    pub fn log_new_node(&mut self, new_node_id: u32, new_node: &N)
        requires
            old(self).wf(),
            !old(self).state_map().contains_key(new_node_id),
            old(self).num_states() < usize::MAX,
        ensures
            final(self).wf(),
            final(self).printer() == old(self).printer(),
            final(self).num_states() == old(self).num_states() + 1,
            final(self).state_map() == old(self).state_map().insert(
                new_node_id,
                old(self).num_states() as usize,
            ),
            final(self).finals_set() == if old(self).printer().is_final(*new_node) {
                old(self).finals_set().insert(old(self).num_states() as usize)
            } else {
                old(self).finals_set()
            },
            final(self).alphabet_set() == old(self).alphabet_set(),
            final(self).labeled_edges() == old(self).labeled_edges(),
            final(self).epsilon_edges() == old(self).epsilon_edges(),
    {
        let nfa_state_id = self.next_nfa_state_id;
        self.next_nfa_state_id = nfa_state_id + 1;
        self.node_to_state.insert(new_node_id, nfa_state_id);
        if self.builder_printer.is_node_final(new_node) {
            proof {
                assert(!self.finals@.contains(nfa_state_id));
            }
            self.finals.push(nfa_state_id);
        }
    }

    /// Records the step from `origin_node_id` to `target_node_id`: a transition
    /// labeled by the step's letter, or an epsilon transition when the step has
    /// none. Recording the same transition twice changes nothing.
    pub fn log_new_step(
        &mut self,
        origin_node_id: u32,
        step: &S,
        target_node_id: u32,
        _target_node: &N,
    )
        requires
            old(self).wf(),
            old(self).state_map().contains_key(origin_node_id),
            old(self).state_map().contains_key(target_node_id),
        ensures
            final(self).wf(),
            final(self).printer() == old(self).printer(),
            final(self).state_map() == old(self).state_map(),
            final(self).num_states() == old(self).num_states(),
            final(self).finals_set() == old(self).finals_set(),
            ({
                let o = old(self).state_map()[origin_node_id];
                let t = old(self).state_map()[target_node_id];
                match old(self).printer().letter_of(*step) {
                    None => {
                        &&& final(self).epsilon_edges() == old(self).epsilon_edges().insert((o, t))
                        &&& final(self).labeled_edges() == old(self).labeled_edges()
                        &&& final(self).alphabet_set() == old(self).alphabet_set()
                    },
                    Some(l) => {
                        &&& final(self).labeled_edges() == old(self).labeled_edges().insert(
                            (o, l, t),
                        )
                        &&& final(self).alphabet_set() == old(self).alphabet_set().insert(l)
                        &&& final(self).epsilon_edges() == old(self).epsilon_edges()
                    },
                }
            }),
    {
        let o = *self.node_to_state.get(&origin_node_id).unwrap();
        let t = *self.node_to_state.get(&target_node_id).unwrap();
        match self.builder_printer.step_into_letter(step) {
            None => {
                if !has_pair(&self.epsilon_trans, o, t) {
                    self.epsilon_trans.push((o, t));
                }
            },
            Some(letter) => {
                if !has_char(&self.alphabet, letter) {
                    self.alphabet.push(letter);
                    assert(self.alphabet@[self.alphabet@.len() - 1] == letter);
                }
                let ghost alphabet_now = self.alphabet@;
                assert(alphabet_now.contains(letter));
                if !has_triple(&self.transitions, o, letter, t) {
                    self.transitions.push((o, letter, t));
                }
                proof {
                    assert forall|i: int| 0 <= i < self.transitions.len() implies {
                        let e = #[trigger] self.transitions@[i];
                        e.0 < self.next_nfa_state_id && e.2 < self.next_nfa_state_id
                            && self.alphabet@.contains(e.1)
                    } by {
                        if i < old(self).transitions.len() {
                            let e = self.transitions@[i];
                            assert(old(self).transitions@[i] == e);
                            assert(old(self).alphabet@.contains(e.1));
                            let k = choose|k: int|
                                0 <= k < old(self).alphabet.len() && old(self).alphabet@[k]
                                    == e.1;
                            assert(self.alphabet@[k] == e.1);
                        }
                    }
                }
            },
        }
    }

    /// The automaton as dense tables: one row per allocated state (empty for a
    /// state with no outgoing transition), state 0 as the only initial state.
    pub fn finalize(&self) -> (r: NfaitTables)
        requires
            self.wf(),
        ensures
            self.densified_by(r),
            self.num_states() > 0 ==> r.consistent(),
    {
        let n = self.next_nfa_state_id;
        let mut transitions: Vec<Vec<(char, Vec<usize>)>> = Vec::new();
        let mut epsilon_trans: Vec<Vec<usize>> = Vec::new();
        let mut s: usize = 0;
        while s < n
            invariant
                self.wf(),
                n == self.next_nfa_state_id,
                s <= n,
                transitions.len() == s,
                epsilon_trans.len() == s,
                forall|i: int, l: char|
                    0 <= i < s ==> #[trigger] group_targets(transitions@[i]@, l) == Set::new(
                        |t: usize| self.transitions@.contains((i as usize, l, t)),
                    ),
                forall|i: int|
                    0 <= i < s ==> #[trigger] epsilon_trans@[i]@.to_set() == Set::new(
                        |t: usize| self.epsilon_trans@.contains((i as usize, t)),
                    ),
                forall|i: int, j1: int, j2: int|
                    0 <= i < s && 0 <= j1 < transitions@[i].len() && 0 <= j2
                        < transitions@[i].len() && j1 != j2 ==> #[trigger] transitions@[i]@[j1].0
                        != #[trigger] transitions@[i]@[j2].0,
                forall|i: int, j: int|
                    0 <= i < s && 0 <= j < transitions@[i].len() ==> self.alphabet@.contains(
                        #[trigger] transitions@[i]@[j].0,
                    ),
                forall|i: int, j: int|
                    0 <= i < s && 0 <= j < transitions@[i].len() ==> #[trigger] transitions@[
                        i
                    ]@[j].1.len() > 0,
                forall|i: int, j: int, k: int|
                    0 <= i < s && 0 <= j < transitions@[i].len() && 0 <= k
                        < transitions@[i]@[j].1.len() ==> #[trigger] transitions@[i]@[j].1@[k] < n,
                forall|i: int, k: int|
                    0 <= i < s && 0 <= k < epsilon_trans@[i].len() ==> #[trigger] epsilon_trans@[
                        i
                    ]@[k] < n,
            decreases n - s,
        {
            let row = self.labeled_row(s);
            let eps = self.epsilon_row(s);
            transitions.push(row);
            epsilon_trans.push(eps);
            s = s + 1;
        }
        let alphabet = self.alphabet.clone();
        let finals = self.finals.clone();
        assert(alphabet@ =~= self.alphabet@);
        assert(finals@ =~= self.finals@);
        let r = NfaitTables {
            alphabet,
            initials: vec![0usize],
            finals,
            transitions,
            epsilon_trans,
        };
        assert forall|s: int, l: char| 0 <= s < self.num_states() implies #[trigger] r.targets(s, l)
            == Set::new(|t: usize| self.labeled_edges().contains((s as usize, l, t))) by {
            assert(r.targets(s, l) =~= Set::new(
                |t: usize| self.labeled_edges().contains((s as usize, l, t)),
            ));
        }
        assert forall|s: int| 0 <= s < self.num_states() implies #[trigger] r.epsilon_targets(s)
            == Set::new(|t: usize| self.epsilon_edges().contains((s as usize, t))) by {
            assert(r.epsilon_targets(s) =~= Set::new(
                |t: usize| self.epsilon_edges().contains((s as usize, t)),
            ));
        }
        assert(r.initials@ == seq![0usize]);
        r
    }

    /// The outgoing labeled transitions of state `s`, grouped by letter in the
    /// order of the alphabet.
    fn labeled_row(&self, s: usize) -> (row: Vec<(char, Vec<usize>)>)
        requires
            self.wf(),
            s < self.next_nfa_state_id,
        ensures
            forall|l: char| #[trigger]
                group_targets(row@, l) == Set::new(
                    |t: usize| self.transitions@.contains((s, l, t)),
                ),
            forall|j1: int, j2: int|
                0 <= j1 < row.len() && 0 <= j2 < row.len() && j1 != j2 ==> #[trigger] row@[j1].0
                    != #[trigger] row@[j2].0,
            forall|j: int| 0 <= j < row.len() ==> self.alphabet@.contains(#[trigger] row@[j].0),
            forall|j: int| 0 <= j < row.len() ==> #[trigger] row@[j].1.len() > 0,
            forall|j: int, k: int|
                0 <= j < row.len() && 0 <= k < row@[j].1.len() ==> #[trigger] row@[j].1@[k]
                    < self.next_nfa_state_id,
    {
        let mut row: Vec<(char, Vec<usize>)> = Vec::new();
        let mut a: usize = 0;
        while a < self.alphabet.len()
            invariant
                self.wf(),
                s < self.next_nfa_state_id,
                a <= self.alphabet.len(),
                forall|l: char| #[trigger]
                    group_targets(row@, l) == Set::new(
                        |t: usize|
                            self.alphabet@.subrange(0, a as int).contains(l)
                                && self.transitions@.contains((s, l, t)),
                    ),
                forall|j1: int, j2: int|
                    0 <= j1 < row.len() && 0 <= j2 < row.len() && j1 != j2 ==> #[trigger] row@[j1].0
                        != #[trigger] row@[j2].0,
                forall|j: int|
                    0 <= j < row.len() ==> self.alphabet@.subrange(0, a as int).contains(
                        #[trigger] row@[j].0,
                    ),
                forall|j: int| 0 <= j < row.len() ==> #[trigger] row@[j].1.len() > 0,
                forall|j: int, k: int|
                    0 <= j < row.len() && 0 <= k < row@[j].1.len() ==> #[trigger] row@[j].1@[k]
                        < self.next_nfa_state_id,
            decreases self.alphabet.len() - a,
        {
            let l = self.alphabet[a];
            let ts = self.targets_of(s, l);
            let ghost old_row = row@;
            let ghost prefix = self.alphabet@.subrange(0, a as int);
            let ghost next_prefix = self.alphabet@.subrange(0, a + 1);
            assert(next_prefix =~= prefix.push(l));
            assert(!prefix.contains(l)) by {
                if prefix.contains(l) {
                    let k = choose|k: int| 0 <= k < prefix.len() && prefix[k] == l;
                    assert(self.alphabet@[k] == self.alphabet@[a as int]);
                }
            }
            if ts.len() > 0 {
                row.push((l, ts));
            }
            assert forall|m: char| #[trigger] group_targets(row@, m) == Set::new(
                |t: usize| next_prefix.contains(m) && self.transitions@.contains((s, m, t)),
            ) by {
                assert(next_prefix.contains(m) <==> prefix.contains(m) || m == l) by {
                    if next_prefix.contains(m) {
                        let k = choose|k: int| 0 <= k < next_prefix.len() && next_prefix[k] == m;
                        if k < a {
                            assert(prefix[k] == m);
                        }
                    }
                    if prefix.contains(m) {
                        let k = choose|k: int| 0 <= k < prefix.len() && prefix[k] == m;
                        assert(next_prefix[k] == m);
                    }
                    if m == l {
                        assert(next_prefix[a as int] == l);
                    }
                }
                assert(group_targets(old_row, m) == Set::new(
                    |t: usize| prefix.contains(m) && self.transitions@.contains((s, m, t)),
                ));
                if ts.len() > 0 {
                    lemma_group_targets_push(old_row, (l, ts), m);
                } else {
                    assert forall|t: usize| !self.transitions@.contains((s, l, t)) by {
                        if self.transitions@.contains((s, l, t)) {
                            assert(ts@.contains(t));
                        }
                    }
                }
                assert(group_targets(row@, m) =~= Set::new(
                    |t: usize| next_prefix.contains(m) && self.transitions@.contains((s, m, t)),
                ));
            }
            assert forall|j: int| 0 <= j < row.len() implies next_prefix.contains(
                #[trigger] row@[j].0,
            ) by {
                if j < old_row.len() {
                    assert(row@[j] == old_row[j]);
                    assert(prefix.contains(old_row[j].0));
                } else {
                    assert(next_prefix[a as int] == l);
                }
            }
            assert forall|j1: int, j2: int|
                0 <= j1 < row.len() && 0 <= j2 < row.len() && j1 != j2 implies #[trigger] row@[j1].0
                != #[trigger] row@[j2].0 by {
                if j1 < old_row.len() && j2 < old_row.len() {
                    assert(row@[j1] == old_row[j1]);
                    assert(row@[j2] == old_row[j2]);
                } else if j1 < old_row.len() {
                    assert(row@[j1] == old_row[j1]);
                    assert(prefix.contains(old_row[j1].0));
                } else {
                    assert(row@[j2] == old_row[j2]);
                    assert(prefix.contains(old_row[j2].0));
                }
            }
            a = a + 1;
        }
        assert(self.alphabet@.subrange(0, a as int) =~= self.alphabet@);
        assert forall|l: char| #[trigger] group_targets(row@, l) == Set::new(
            |t: usize| self.transitions@.contains((s, l, t)),
        ) by {
            assert forall|t: usize| self.transitions@.contains((s, l, t)) implies self.alphabet@.contains(l) by {
                let i = choose|i: int| 0 <= i < self.transitions.len() && self.transitions@[i] == (s, l, t);
                assert(self.alphabet@.contains(self.transitions@[i].1));
            }
            assert(group_targets(row@, l) =~= Set::new(
                |t: usize| self.transitions@.contains((s, l, t)),
            ));
        }
        row
    }

    /// The targets of the labeled transitions from `s` reading `l`.
    fn targets_of(&self, s: usize, l: char) -> (r: Vec<usize>)
        requires
            self.wf(),
        ensures
            forall|t: usize| r@.contains(t) <==> self.transitions@.contains((s, l, t)),
            forall|k: int| 0 <= k < r.len() ==> #[trigger] r@[k] < self.next_nfa_state_id,
    {
        let mut r: Vec<usize> = Vec::new();
        let mut i: usize = 0;
        while i < self.transitions.len()
            invariant
                self.wf(),
                i <= self.transitions.len(),
                forall|t: usize|
                    r@.contains(t) <==> self.transitions@.subrange(0, i as int).contains((s, l, t)),
                forall|k: int| 0 <= k < r.len() ==> #[trigger] r@[k] < self.next_nfa_state_id,
            decreases self.transitions.len() - i,
        {
            let e = self.transitions[i];
            let ghost old_r = r@;
            assert(self.transitions@.subrange(0, i + 1) =~= self.transitions@.subrange(
                0,
                i as int,
            ).push(e));
            if e.0 == s && e.1 == l {
                r.push(e.2);
            }
            assert forall|t: usize|
                r@.contains(t) <==> self.transitions@.subrange(0, i + 1).contains((s, l, t)) by {
                let pre = self.transitions@.subrange(0, i as int);
                if r@.contains(t) && !old_r.contains(t) {
                    assert(t == e.2);
                    assert(pre.push(e)[i as int] == e);
                }
                if old_r.contains(t) {
                    let k = choose|k: int| 0 <= k < old_r.len() && old_r[k] == t;
                    assert(r@[k] == t);
                }
                if pre.push(e).contains((s, l, t)) {
                    let k = choose|k: int| 0 <= k < pre.push(e).len() && pre.push(e)[k] == (s, l, t);
                    if k < i {
                        assert(pre[k] == (s, l, t));
                    } else {
                        assert(r@[r.len() - 1] == t);
                    }
                }
            }
            i = i + 1;
        }
        assert(self.transitions@.subrange(0, i as int) =~= self.transitions@);
        r
    }

    /// The targets of the epsilon transitions from `s`.
    fn epsilon_row(&self, s: usize) -> (r: Vec<usize>)
        requires
            self.wf(),
        ensures
            forall|t: usize| r@.contains(t) <==> self.epsilon_trans@.contains((s, t)),
            forall|k: int| 0 <= k < r.len() ==> #[trigger] r@[k] < self.next_nfa_state_id,
    {
        let mut r: Vec<usize> = Vec::new();
        let mut i: usize = 0;
        while i < self.epsilon_trans.len()
            invariant
                self.wf(),
                i <= self.epsilon_trans.len(),
                forall|t: usize|
                    r@.contains(t) <==> self.epsilon_trans@.subrange(0, i as int).contains((s, t)),
                forall|k: int| 0 <= k < r.len() ==> #[trigger] r@[k] < self.next_nfa_state_id,
            decreases self.epsilon_trans.len() - i,
        {
            let e = self.epsilon_trans[i];
            let ghost old_r = r@;
            assert(self.epsilon_trans@.subrange(0, i + 1) =~= self.epsilon_trans@.subrange(
                0,
                i as int,
            ).push(e));
            if e.0 == s {
                r.push(e.1);
            }
            assert forall|t: usize|
                r@.contains(t) <==> self.epsilon_trans@.subrange(0, i + 1).contains((s, t)) by {
                let pre = self.epsilon_trans@.subrange(0, i as int);
                if r@.contains(t) && !old_r.contains(t) {
                    assert(t == e.1);
                    assert(pre.push(e)[i as int] == e);
                }
                if old_r.contains(t) {
                    let k = choose|k: int| 0 <= k < old_r.len() && old_r[k] == t;
                    assert(r@[k] == t);
                }
                if pre.push(e).contains((s, t)) {
                    let k = choose|k: int| 0 <= k < pre.push(e).len() && pre.push(e)[k] == (s, t);
                    if k < i {
                        assert(pre[k] == (s, t));
                    } else {
                        assert(r@[r.len() - 1] == t);
                    }
                }
            }
            i = i + 1;
        }
        assert(self.epsilon_trans@.subrange(0, i as int) =~= self.epsilon_trans@);
        r
    }

    /// The state id of `node_id`, if it was discovered.
    pub fn state_of(&self, node_id: u32) -> (r: Option<usize>)
        ensures
            r == if self.state_map().contains_key(node_id) {
                Some(self.state_map()[node_id])
            } else {
                None
            },
    {
        match self.node_to_state.get(&node_id) {
            Some(s) => Some(*s),
            None => None,
        }
    }

    /// The number of states allocated so far.
    pub fn state_count(&self) -> (r: usize)
        ensures
            r == self.num_states(),
    {
        self.next_nfa_state_id
    }

    pub fn builder_printer(&self) -> (r: &B)
        ensures
            *r == self.printer(),
    {
        &self.builder_printer
    }

    pub fn name(&self) -> (r: &String)
        ensures
            *r == self.file_name(),
    {
        &self.name
    }

    pub fn parent_folder(&self) -> (r: &String)
        ensures
            *r == self.folder(),
    {
        &self.parent_folder
    }
}

/// Distinct discovered nodes hold distinct states, each below the number of
/// states allocated.
pub proof fn lemma_state_ids_distinct<N, S, B: NFAITBuilderPrinter<N, S>>(
    b: &GenericNFAITLogger<N, S, B>,
    k1: u32,
    k2: u32,
)
    requires
        b.wf(),
        b.state_map().contains_key(k1),
        b.state_map().contains_key(k2),
        k1 != k2,
    ensures
        b.state_map()[k1] != b.state_map()[k2],
        b.state_map()[k1] < b.num_states(),
{
    assert(b.node_to_state@.contains_key(k1));
}

/// A recorded transition is found in the dense tables: one read as letter `l`
/// from state `o` to state `t` puts `t` among the targets of `o` under `l`, a
/// silent one puts `t` among the epsilon targets of `o`.
pub proof fn lemma_recorded_step_in_tables<N, S, B: NFAITBuilderPrinter<N, S>>(
    b: &GenericNFAITLogger<N, S, B>,
    tables: NfaitTables,
    o: usize,
    letter: Option<char>,
    t: usize,
)
    requires
        b.wf(),
        b.densified_by(tables),
        match letter {
            Some(l) => b.labeled_edges().contains((o, l, t)),
            None => b.epsilon_edges().contains((o, t)),
        },
    ensures
        o < tables.num_states(),
        t < tables.num_states(),
        match letter {
            Some(l) => tables.targets(o as int, l).contains(t),
            None => tables.epsilon_targets(o as int).contains(t),
        },
{
    match letter {
        Some(l) => {
            let i = choose|i: int| 0 <= i < b.transitions.len() && b.transitions@[i] == (o, l, t);
            assert(b.transitions@[i].0 < b.next_nfa_state_id);
            assert(tables.targets(o as int, l) == Set::new(
                |x: usize| b.labeled_edges().contains((o, l, x)),
            ));
        },
        None => {
            let i = choose|i: int|
                0 <= i < b.epsilon_trans.len() && b.epsilon_trans@[i] == (o, t);
            assert(b.epsilon_trans@[i].0 < b.next_nfa_state_id);
            assert(tables.epsilon_targets(o as int) == Set::new(
                |x: usize| b.epsilon_edges().contains((o, x)),
            ));
        },
    }
}

/// A state with no recorded outgoing transition has an empty row in both dense
/// tables.
pub proof fn lemma_silent_state_rows_empty<N, S, B: NFAITBuilderPrinter<N, S>>(
    b: &GenericNFAITLogger<N, S, B>,
    tables: NfaitTables,
    s: usize,
)
    requires
        b.densified_by(tables),
        s < b.num_states(),
        forall|l: char, t: usize| !b.labeled_edges().contains((s, l, t)),
        forall|t: usize| !b.epsilon_edges().contains((s, t)),
    ensures
        tables.transitions@[s as int].len() == 0,
        tables.epsilon_trans@[s as int].len() == 0,
{
    if tables.transitions@[s as int].len() > 0 {
        let g = tables.transitions@[s as int]@[0];
        assert(g.1.len() > 0);
        assert(g.1@.contains(g.1@[0]));
        assert(tables.targets(s as int, g.0).contains(g.1@[0]));
        assert(tables.targets(s as int, g.0) == Set::new(
            |x: usize| b.labeled_edges().contains((s, g.0, x)),
        ));
        assert(b.labeled_edges().contains((s, g.0, g.1@[0])));
    }
    if tables.epsilon_trans@[s as int].len() > 0 {
        let t = tables.epsilon_trans@[s as int]@[0];
        assert(tables.epsilon_targets(s as int).contains(t));
        assert(tables.epsilon_targets(s as int) == Set::new(
            |x: usize| b.epsilon_edges().contains((s, x)),
        ));
    }
}

fn has_char(v: &Vec<char>, c: char) -> (r: bool)
    ensures
        r == v@.contains(c),
{
    let mut i: usize = 0;
    while i < v.len()
        invariant
            i <= v.len(),
            forall|k: int| 0 <= k < i ==> v@[k] != c,
        decreases v.len() - i,
    {
        if v[i] == c {
            return true;
        }
        i = i + 1;
    }
    false
}

fn has_pair(v: &Vec<(usize, usize)>, a: usize, b: usize) -> (r: bool)
    ensures
        r == v@.contains((a, b)),
{
    let mut i: usize = 0;
    while i < v.len()
        invariant
            i <= v.len(),
            forall|k: int| 0 <= k < i ==> v@[k] != (a, b),
        decreases v.len() - i,
    {
        if v[i].0 == a && v[i].1 == b {
            return true;
        }
        i = i + 1;
    }
    false
}

fn has_triple(v: &Vec<(usize, char, usize)>, a: usize, c: char, b: usize) -> (r: bool)
    ensures
        r == v@.contains((a, c, b)),
{
    let mut i: usize = 0;
    while i < v.len()
        invariant
            i <= v.len(),
            forall|k: int| 0 <= k < i ==> v@[k] != (a, c, b),
        decreases v.len() - i,
    {
        if v[i].0 == a && v[i].1 == c && v[i].2 == b {
            return true;
        }
        i = i + 1;
    }
    false
}

} // verus!
