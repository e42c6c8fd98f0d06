//! Traces the objects built along the paths of an exploration: each open node
//! holds the distinct objects of the paths explored so far that reach it, each
//! step extends them, and a node's entry is dropped once its subtree is done.

use std::collections::HashMap;
use std::marker::PhantomData;
use vstd::laws_eq::obeys_concrete_eq;
use vstd::prelude::*;
use vstd::string::*;
use crate::ids::{decimal, decimal_string};

verus! {

broadcast use {vstd::std_specs::hash::group_hash_axioms, vstd::prelude::Seq::lemma_push_to_set_commute};

/// The node id the exploration gives its initial node.
pub const ROOT_NODE_ID: u32 = 1;

/// What the domain tells the tracer: the object of the initial node, how a step
/// extends an object, at which nodes objects are emitted, and how one is written.
pub trait StepsTraceProcessPrinter<N, S, O> {
    /// The object of the empty path at `node`.
    spec fn initial(&self, node: N) -> O;

    /// `object` extended by `step`.
    spec fn extended(&self, object: O, step: S) -> O;

    /// Whether the objects reaching `node` are emitted.
    spec fn emits_at(&self, node: N) -> bool;

    fn get_initial_object(&self, node: &N) -> (r: O)
        ensures
            r == self.initial(*node),
    ;

    fn add_step_to_object(&self, object: &O, step: &S) -> (r: O)
        ensures
            r == self.extended(*object, *step),
    ;

    fn should_print_on_node_reached(&self, node: &N) -> (r: bool)
        ensures
            r == self.emits_at(*node),
    ;

    /// Writes `object` into the file `file_name` of the folder `parent_folder`.
    fn print_object(&self, object: &O, parent_folder: &str, file_name: &str);
}

/// Objects compare by value and clone into equal values.
pub open spec fn object_laws<O: PartialEq + Clone>() -> bool {
    &&& obeys_concrete_eq::<O>()
    &&& forall|a: O, b: O| #[trigger] call_ensures(O::clone, (&a,), b) ==> a == b
}

/// The name of the file of the `n`-th emitted object: prefix, number, a dot, extension.
pub open spec fn trace_file_name(prefix: Seq<char>, n: nat, extension: Seq<char>) -> Seq<char> {
    prefix + decimal(n) + seq!['.'] + extension
}

/// The frontier after a step from `origin` reading `step` into `target`: the
/// objects at `origin`, extended by the step and less those of `excluded`, join
/// the objects at `target`.
pub open spec fn advance<N, S, O, P: StepsTraceProcessPrinter<N, S, O>>(
    frontier: Map<u32, Set<O>>,
    printer: P,
    origin: u32,
    step: S,
    target: u32,
    excluded: Set<O>,
) -> Map<u32, Set<O>> {
    let brought = frontier[origin].map(|o: O| printer.extended(o, step)).difference(excluded);
    frontier.insert(target, frontier[target].union(brought))
}

/// The set of objects `v` holds.
pub open spec fn object_set<O>(v: Vec<O>) -> Set<O> {
    v@.to_set()
}

/// Builds, for every open node, the set of objects of the paths that reach it,
/// and emits the new objects that reach a node the domain selects.
pub struct GenericStepsTraceLogger<N, S, O, P: StepsTraceProcessPrinter<N, S, O>> {
    printer: P,
    avoid_duplicates: bool,
    anti_duplication_memoizer: Vec<O>,
    trace_map: HashMap<u32, Vec<O>>,
    prefix: String,
    file_extension: String,
    parent_folder: String,
    trace_counter: u32,
    emitted: Ghost<Seq<O>>,
    phantom: PhantomData<(N, S)>,
}

impl<N, S, O: PartialEq + Clone, P: StepsTraceProcessPrinter<N, S, O>> GenericStepsTraceLogger<
    N,
    S,
    O,
    P,
> {
    pub closed spec fn printer(&self) -> P {
        self.printer
    }

    /// Whether an object equal to one already emitted is held back.
    pub closed spec fn dedup(&self) -> bool {
        self.avoid_duplicates
    }

    /// The objects held at each open node.
    pub closed spec fn frontier(&self) -> Map<u32, Set<O>> {
        self.trace_map@.map_values(|v: Vec<O>| object_set(v))
    }

    /// The objects emitted so far, in order of emission; the `i`-th is written
    /// under number `i + 1`.
    pub closed spec fn emitted(&self) -> Seq<O> {
        self.emitted@
    }

    /// The objects remembered against emitting twice.
    pub closed spec fn memo(&self) -> Set<O> {
        self.anti_duplication_memoizer@.to_set()
    }

    pub closed spec fn file_prefix(&self) -> Seq<char> {
        self.prefix@
    }

    pub closed spec fn extension(&self) -> Seq<char> {
        self.file_extension@
    }

    pub closed spec fn folder(&self) -> Seq<char> {
        self.parent_folder@
    }

    /// The objects that a step from `origin` reading `step` brings to its target:
    /// each object at `origin` extended by the step, less those already emitted
    /// when duplicates are held back.
    pub open spec fn fresh_objects(&self, origin: u32, step: S) -> Set<O> {
        self.frontier()[origin].map(|o: O| self.printer().extended(o, step)).difference(
            self.held_back(),
        )
    }

    /// The objects a step may not bring: those already emitted when duplicates
    /// are held back, none otherwise.
    pub open spec fn held_back(&self) -> Set<O> {
        if self.dedup() {
            self.memo()
        } else {
            Set::empty()
        }
    }

    /// The counter numbers the emitted objects; each open node lists its objects
    /// once; with duplicates held back, the memo is exactly what was emitted and
    /// nothing was emitted twice.
    pub closed spec fn wf(&self) -> bool {
        &&& self.trace_counter == self.emitted@.len()
        &&& forall|id: u32| #[trigger]
            self.trace_map@.contains_key(id) ==> self.trace_map@[id]@.no_duplicates()
        &&& self.avoid_duplicates ==> self.emitted@.no_duplicates()
        &&& self.avoid_duplicates ==> self.anti_duplication_memoizer@.to_set()
            == self.emitted@.to_set()
    }

    /// A tracer with no open node. With `avoid_duplicates`, an object equal to
    /// one already emitted is never emitted again.
    pub fn new(
        printer: P,
        avoid_duplicates: bool,
        prefix: String,
        file_extension: String,
        parent_folder: String,
    ) -> (r: Self)
        ensures
            r.wf(),
            r.printer() == printer,
            r.dedup() == avoid_duplicates,
            r.frontier() == Map::<u32, Set<O>>::empty(),
            r.emitted() == Seq::<O>::empty(),
            r.memo() == Set::<O>::empty(),
            r.file_prefix() == prefix@,
            r.extension() == file_extension@,
            r.folder() == parent_folder@,
    {
        let r = GenericStepsTraceLogger {
            printer,
            avoid_duplicates,
            anti_duplication_memoizer: Vec::new(),
            trace_map: HashMap::new(),
            prefix,
            file_extension,
            parent_folder,
            trace_counter: 0,
            emitted: Ghost(Seq::empty()),
            phantom: PhantomData,
        };
        assert(r.frontier() =~= Map::<u32, Set<O>>::empty());
        assert(r.memo() =~= Set::<O>::empty());
        assert(r.emitted@.to_set() =~= Set::<O>::empty());
        r
    }

    /// The number of objects emitted so far.
    pub fn trace_counter(&self) -> (r: u32)
        requires
            self.wf(),
        ensures
            r == self.emitted().len(),
    {
        self.trace_counter
    }

    /// Whether `node_id` has an open entry.
    pub fn is_open(&self, node_id: u32) -> (r: bool)
        ensures
            r == self.frontier().contains_key(node_id),
    {
        self.trace_map.contains_key(&node_id)
    }

    /// The number of objects held at the open node `node_id`.
    pub fn object_count(&self, node_id: u32) -> (r: usize)
        requires
            self.wf(),
            self.frontier().contains_key(node_id),
        ensures
            r == self.frontier()[node_id].len(),
    {
        let objs = self.trace_map.get(&node_id).unwrap();
        proof {
            objs@.unique_seq_to_set();
        }
        objs.len()
    }

    /// The domain's object operations.
    pub fn steps_printer(&self) -> (r: &P)
        ensures
            *r == self.printer(),
    {
        &self.printer
    }

    /// Whether an object equal to one already emitted is held back.
    pub fn avoids_duplicates(&self) -> (r: bool)
        ensures
            r == self.dedup(),
    {
        self.avoid_duplicates
    }

    /// The folder the objects are written into.
    pub fn parent_folder(&self) -> (r: &String)
        ensures
            r@ == self.folder(),
    {
        &self.parent_folder
    }

    /// Opens the entry of a newly discovered node: the initial object for the
    /// root, no object for any other node.
    pub fn log_new_node(&mut self, new_node_id: u32, new_node: &N)
        requires
            old(self).wf(),
        ensures
            final(self).wf(),
            final(self).printer() == old(self).printer(),
            final(self).dedup() == old(self).dedup(),
            final(self).emitted() == old(self).emitted(),
            final(self).memo() == old(self).memo(),
            final(self).frontier() == old(self).frontier().insert(
                new_node_id,
                if new_node_id == ROOT_NODE_ID {
                    set![old(self).printer().initial(*new_node)]
                } else {
                    Set::<O>::empty()
                },
            ),
    {
        if new_node_id == ROOT_NODE_ID {
            let o = self.printer.get_initial_object(new_node);
            let v = vec![o];
            assert(object_set(v) =~= set![o]);
            self.trace_map.insert(new_node_id, v);
        } else {
            let v: Vec<O> = Vec::new();
            assert(object_set(v) =~= Set::<O>::empty());
            self.trace_map.insert(new_node_id, v);
        }
        assert(self.frontier() =~= old(self).frontier().insert(
            new_node_id,
            if new_node_id == ROOT_NODE_ID {
                set![old(self).printer().initial(*new_node)]
            } else {
                Set::<O>::empty()
            },
        ));
    }

    /// Records the step from `origin_node_id` to `target_node_id`: the objects
    /// it brings (see `fresh_objects`) join those of the target, and when the
    /// domain selects the target they are emitted, each under the next number.
    pub fn log_new_step(
        &mut self,
        origin_node_id: u32,
        step: &S,
        target_node_id: u32,
        target_node: &N,
    )
        requires
            old(self).wf(),
            object_laws::<O>(),
            old(self).frontier().contains_key(origin_node_id),
            old(self).frontier().contains_key(target_node_id),
            old(self).emitted().len() + old(self).frontier()[origin_node_id].len() <= u32::MAX,
        ensures
            final(self).wf(),
            final(self).printer() == old(self).printer(),
            final(self).dedup() == old(self).dedup(),
            final(self).frontier() == advance(
                old(self).frontier(),
                old(self).printer(),
                origin_node_id,
                *step,
                target_node_id,
                old(self).held_back(),
            ),
            old(self).printer().emits_at(*target_node) ==> {
                let n0 = old(self).emitted().len() as int;
                let n1 = final(self).emitted().len() as int;
                &&& n1 == n0 + old(self).fresh_objects(origin_node_id, *step).len()
                &&& final(self).emitted().subrange(0, n0) == old(self).emitted()
                &&& final(self).emitted().subrange(n0, n1).no_duplicates()
                &&& final(self).emitted().subrange(n0, n1).to_set() == old(self).fresh_objects(
                    origin_node_id,
                    *step,
                )
                &&& final(self).memo() == if old(self).dedup() {
                    old(self).memo().union(old(self).fresh_objects(origin_node_id, *step))
                } else {
                    old(self).memo()
                }
            },
            !old(self).printer().emits_at(*target_node) ==> {
                &&& final(self).emitted() == old(self).emitted()
                &&& final(self).memo() == old(self).memo()
            },
            old(self).dedup() ==> old(self).memo() == old(self).emitted().to_set(),
    {
        let ghost fresh_set = self.fresh_objects(origin_node_id, *step);
        let fresh = self.fresh_from(origin_node_id, step);
        if self.printer.should_print_on_node_reached(target_node) {
            self.emit_all(&fresh);
            let ghost n0 = old(self).emitted().len() as int;
            let ghost n1 = self.emitted().len() as int;
            assert(self.emitted().subrange(0, n0) =~= old(self).emitted());
            assert(self.emitted().subrange(n0, n1) =~= fresh@);
            proof {
                fresh@.unique_seq_to_set();
            }
        }
        let mut held = self.trace_map.remove(&target_node_id).unwrap();
        let ghost old_held = held@;
        let mut j: usize = 0;
        while j < fresh.len()
            invariant
                object_laws::<O>(),
                j <= fresh.len(),
                held@.no_duplicates(),
                held@.to_set() == old_held.to_set().union(fresh@.subrange(0, j as int).to_set()),
            decreases fresh.len() - j,
        {
            let ghost pre = held@.to_set();
            assert(fresh@.subrange(0, j + 1) =~= fresh@.subrange(0, j as int).push(fresh@[j as int]));
            if !holds(&held, &fresh[j]) {
                let c = fresh[j].clone();
                assert(c == fresh@[j as int]);
                held.push(c);
            }
            assert(held@.to_set() =~= old_held.to_set().union(fresh@.subrange(0, j + 1).to_set()));
            j = j + 1;
        }
        assert(fresh@.subrange(0, j as int) =~= fresh@);
        self.trace_map.insert(target_node_id, held);
        assert(self.frontier() =~= old(self).frontier().insert(
            target_node_id,
            old(self).frontier()[target_node_id].union(fresh_set),
        ));
    }

    /// The objects of `fresh_objects(origin, step)`, each once.
    fn fresh_from(&self, origin: u32, step: &S) -> (r: Vec<O>)
        requires
            self.wf(),
            object_laws::<O>(),
            self.frontier().contains_key(origin),
        ensures
            r@.no_duplicates(),
            r@.to_set() == self.fresh_objects(origin, *step),
            r.len() <= self.frontier()[origin].len(),
    {
        let objs = self.trace_map.get(&origin).unwrap();
        let ghost excluded = self.held_back();
        let mut r: Vec<O> = Vec::new();
        let mut i: usize = 0;
        while i < objs.len()
            invariant
                object_laws::<O>(),
                i <= objs.len(),
                r.len() <= i,
                r@.no_duplicates(),
                excluded == self.held_back(),
                r@.to_set() == Set::new(
                    |x: O|
                        exists|k: int|
                            0 <= k < i && x == self.printer.extended(#[trigger] objs@[k], *step)
                                && !excluded.contains(x),
                ),
            decreases objs.len() - i,
        {
            let c = self.printer.add_step_to_object(&objs[i], step);
            let ghost before = r@;
            let ghost known = Set::new(
                |x: O|
                    exists|k: int|
                        0 <= k < i && x == self.printer.extended(#[trigger] objs@[k], *step)
                            && !excluded.contains(x),
            );
            let ghost next = Set::new(
                |x: O|
                    exists|k: int|
                        0 <= k < i + 1 && x == self.printer.extended(#[trigger] objs@[k], *step)
                            && !excluded.contains(x),
            );
            let seen = holds(&r, &c);
            let remembered = self.avoid_duplicates && holds(&self.anti_duplication_memoizer, &c);
            if !seen && !remembered {
                r.push(c);
                assert forall|a: int, b: int|
                    0 <= a < r.len() && 0 <= b < r.len() && a != b implies r@[a] != r@[b] by {
                    if a < before.len() && b < before.len() {
                        assert(r@[a] == before[a] && r@[b] == before[b]);
                    } else if a < before.len() {
                        assert(before.contains(r@[a]));
                    } else {
                        assert(before.contains(r@[b]));
                    }
                }
            }
            assert forall|x: O| #[trigger] next.contains(x) <==> known.contains(x) || (x == c
                && !excluded.contains(c)) by {
                if next.contains(x) {
                    let k = choose|k: int|
                        0 <= k < i + 1 && x == self.printer.extended(#[trigger] objs@[k], *step)
                            && !excluded.contains(x);
                    if k < i {
                        assert(known.contains(x));
                    }
                }
                if known.contains(x) {
                    let k = choose|k: int|
                        0 <= k < i && x == self.printer.extended(#[trigger] objs@[k], *step)
                            && !excluded.contains(x);
                    assert(next.contains(x));
                }
                if x == c && !excluded.contains(c) {
                    assert(x == self.printer.extended(objs@[i as int], *step));
                }
            }
            assert(r@.to_set() =~= next);
            i = i + 1;
        }
        let ghost objs_set = objs@.to_set();
        proof {
            objs@.unique_seq_to_set();
            assert(self.frontier()[origin] == objs_set);
        }
        assert forall|x: O| r@.to_set().contains(x) <==> self.fresh_objects(origin, *step).contains(x) by {
            let f = |o: O| self.printer().extended(o, *step);
            if r@.to_set().contains(x) {
                let k = choose|k: int|
                    0 <= k < i && x == self.printer.extended(#[trigger] objs@[k], *step)
                        && !excluded.contains(x);
                assert(objs_set.contains(objs@[k]));
                assert(objs_set.map(f).contains(x));
            }
            if self.fresh_objects(origin, *step).contains(x) {
                assert(objs_set.map(f).contains(x));
                let o = choose|o: O| objs_set.contains(o) && f(o) == x;
                let k = choose|k: int| 0 <= k < objs.len() && objs@[k] == o;
                assert(x == self.printer.extended(objs@[k], *step));
            }
        }
        assert(r@.to_set() =~= self.fresh_objects(origin, *step));
        r
    }

    /// The file name of the object emitted under number `n`.
    fn trace_file(&self, n: u32) -> (r: String)
        ensures
            r@ == trace_file_name(self.prefix@, n as nat, self.file_extension@),
    {
        proof {
            reveal_strlit(".");
        }
        let mut name = String::from_str(self.prefix.as_str());
        let digits = decimal_string(n);
        name.append(digits.as_str());
        name.append(".");
        name.append(self.file_extension.as_str());
        name
    }

    /// Emits each object of `fresh` under the next number.
    fn emit_all(&mut self, fresh: &Vec<O>)
        requires
            old(self).wf(),
            object_laws::<O>(),
            fresh@.no_duplicates(),
            old(self).dedup() ==> fresh@.to_set().disjoint(old(self).memo()),
            old(self).emitted().len() + fresh.len() <= u32::MAX,
        ensures
            final(self).wf(),
            final(self).printer == old(self).printer,
            final(self).avoid_duplicates == old(self).avoid_duplicates,
            final(self).trace_map == old(self).trace_map,
            final(self).emitted() == old(self).emitted() + fresh@,
            final(self).memo() == if old(self).dedup() {
                old(self).memo().union(fresh@.to_set())
            } else {
                old(self).memo()
            },
    {
        let mut j: usize = 0;
        while j < fresh.len()
            invariant
                object_laws::<O>(),
                fresh@.no_duplicates(),
                old(self).wf(),
                old(self).dedup() ==> fresh@.to_set().disjoint(old(self).memo()),
                old(self).emitted().len() + fresh.len() <= u32::MAX,
                j <= fresh.len(),
                self.printer == old(self).printer,
                self.avoid_duplicates == old(self).avoid_duplicates,
                self.trace_map == old(self).trace_map,
                self.emitted@ == old(self).emitted@ + fresh@.subrange(0, j as int),
                self.trace_counter == self.emitted@.len(),
                self.avoid_duplicates ==> self.emitted@.no_duplicates(),
                self.anti_duplication_memoizer@.to_set() == if old(self).avoid_duplicates {
                    old(self).anti_duplication_memoizer@.to_set().union(
                        fresh@.subrange(0, j as int).to_set(),
                    )
                } else {
                    old(self).anti_duplication_memoizer@.to_set()
                },
            decreases fresh.len() - j,
        {
            let x = &fresh[j];
            let ghost before = self.emitted@;
            assert(fresh@.subrange(0, j + 1) =~= fresh@.subrange(0, j as int).push(*x));
            self.trace_counter = self.trace_counter + 1;
            let name = self.trace_file(self.trace_counter);
            self.printer.print_object(x, self.parent_folder.as_str(), name.as_str());
            if self.avoid_duplicates {
                let c = x.clone();
                assert(c == *x);
                self.anti_duplication_memoizer.push(c);
            }
            if self.avoid_duplicates {
                assert(!before.contains(*x)) by {
                    if before.contains(*x) {
                        let k = choose|k: int| 0 <= k < before.len() && before[k] == *x;
                        if k < old(self).emitted@.len() {
                            assert(old(self).emitted@[k] == *x);
                            assert(old(self).emitted@.to_set().contains(*x));
                            assert(fresh@.to_set().contains(*x));
                        } else {
                            assert(fresh@[k - old(self).emitted@.len()] == *x);
                        }
                    }
                }
            }
            self.emitted = Ghost(self.emitted@.push(*x));
            proof {
                if self.avoid_duplicates {
                    assert forall|a: int, b: int|
                        0 <= a < self.emitted@.len() && 0 <= b < self.emitted@.len() && a != b
                        implies self.emitted@[a] != self.emitted@[b] by {
                        if a < before.len() && b < before.len() {
                            assert(self.emitted@[a] == before[a] && self.emitted@[b] == before[b]);
                        } else if a < before.len() {
                            assert(before.contains(self.emitted@[a]));
                        } else {
                            assert(before.contains(self.emitted@[b]));
                        }
                    }
                }
            }
            assert(self.emitted@ =~= old(self).emitted@ + fresh@.subrange(0, j + 1));
            j = j + 1;
        }
        assert(fresh@.subrange(0, j as int) =~= fresh@);
        proof {
            lemma_concat_to_set(old(self).emitted@, fresh@);
        }
    }

    /// Closes the entry of `parent_node_id`, whose outgoing steps have all been
    /// recorded.
    pub fn log_notify_last_child_step_of_node_processed(&mut self, parent_node_id: u32)
        requires
            old(self).wf(),
            old(self).frontier().contains_key(parent_node_id),
        ensures
            final(self).wf(),
            final(self).printer() == old(self).printer(),
            final(self).dedup() == old(self).dedup(),
            final(self).emitted() == old(self).emitted(),
            final(self).memo() == old(self).memo(),
            final(self).frontier() == old(self).frontier().remove(parent_node_id),
    {
        self.trace_map.remove(&parent_node_id);
        assert(self.frontier() =~= old(self).frontier().remove(parent_node_id));
    }
}

/// Along a path root -(s1)-> n1 -(s2)-> n2 of nodes just opened, with nothing
/// held back, n2 holds exactly the root's initial object extended by s1, then by
/// s2.
pub proof fn lemma_two_step_path<N, S, O, P: StepsTraceProcessPrinter<N, S, O>>(
    printer: P,
    frontier: Map<u32, Set<O>>,
    root_node: N,
    n1: u32,
    n2: u32,
    s1: S,
    s2: S,
)
    requires
        frontier.contains_key(ROOT_NODE_ID),
        frontier.contains_key(n1),
        frontier.contains_key(n2),
        n1 != ROOT_NODE_ID,
        n2 != ROOT_NODE_ID,
        n1 != n2,
        frontier[ROOT_NODE_ID] == set![printer.initial(root_node)],
        frontier[n1] == Set::<O>::empty(),
        frontier[n2] == Set::<O>::empty(),
    ensures
        ({
            let f1 = advance(frontier, printer, ROOT_NODE_ID, s1, n1, Set::empty());
            let f2 = advance(f1, printer, n1, s2, n2, Set::empty());
            f2[n2] == set![printer.extended(printer.extended(printer.initial(root_node), s1), s2)]
        }),
{
    let i = printer.initial(root_node);
    let x1 = printer.extended(i, s1);
    let x2 = printer.extended(x1, s2);
    let f1 = advance(frontier, printer, ROOT_NODE_ID, s1, n1, Set::empty());
    let m1 = set![i].map(|o: O| printer.extended(o, s1));
    assert(m1 =~= set![x1]) by {
        assert(set![i].contains(i));
    }
    assert(f1[n1] =~= set![x1]);
    let f2 = advance(f1, printer, n1, s2, n2, Set::empty());
    let m2 = set![x1].map(|o: O| printer.extended(o, s2));
    assert(m2 =~= set![x2]) by {
        assert(set![x1].contains(x1));
    }
    assert(f2[n2] =~= set![x2]);
}

/// With duplicates held back, no object is emitted twice, whichever node it
/// reached.
pub proof fn lemma_dedup_emits_once<N, S, O: PartialEq + Clone, P: StepsTraceProcessPrinter<
    N,
    S,
    O,
>>(t: &GenericStepsTraceLogger<N, S, O, P>)
    requires
        t.wf(),
        t.dedup(),
    ensures
        t.emitted().no_duplicates(),
{
}

/// Once a node's entry is closed the node is no longer open, so no later step may
/// start from it.
pub proof fn lemma_closed_node_not_origin<N, S, O: PartialEq + Clone, P: StepsTraceProcessPrinter<
    N,
    S,
    O,
>>(before: &GenericStepsTraceLogger<N, S, O, P>, after: &GenericStepsTraceLogger<N, S, O, P>, n: u32)
    requires
        after.frontier() == before.frontier().remove(n),
    ensures
        !after.frontier().contains_key(n),
{
}

proof fn lemma_concat_to_set<A>(a: Seq<A>, b: Seq<A>)
    ensures
        (a + b).to_set() == a.to_set().union(b.to_set()),
{
    assert forall|x: A| (a + b).to_set().contains(x) <==> a.to_set().union(b.to_set()).contains(x) by {
        if (a + b).contains(x) {
            let k = choose|k: int| 0 <= k < (a + b).len() && (a + b)[k] == x;
            if k < a.len() {
                assert(a[k] == x);
            } else {
                assert(b[k - a.len()] == x);
            }
        }
        if a.contains(x) {
            let k = choose|k: int| 0 <= k < a.len() && a[k] == x;
            assert((a + b)[k] == x);
        }
        if b.contains(x) {
            let k = choose|k: int| 0 <= k < b.len() && b[k] == x;
            assert((a + b)[k + a.len()] == x);
        }
    }
    assert((a + b).to_set() =~= a.to_set().union(b.to_set()));
}

/// Whether `v` holds an object equal to `x`.
fn holds<O: PartialEq>(v: &Vec<O>, x: &O) -> (r: bool)
    requires
        obeys_concrete_eq::<O>(),
    ensures
        r == v@.contains(*x),
{
    let mut i: usize = 0;
    while i < v.len()
        invariant
            obeys_concrete_eq::<O>(),
            i <= v.len(),
            forall|k: int| 0 <= k < i ==> v@[k] != *x,
        decreases v.len() - i,
    {
        proof {
            reveal(obeys_concrete_eq);
        }
        if v[i].eq(x) {
            return true;
        }
        i = i + 1;
    }
    false
}

} // verus!
