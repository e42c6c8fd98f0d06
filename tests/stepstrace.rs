use std::cell::RefCell;

use graph_process_manager_loggers::stepstrace::{
    GenericStepsTraceLogger, StepsTraceProcessPrinter, ROOT_NODE_ID,
};

/// Objects are the strings of steps taken; objects are emitted at nodes above
/// `emit_from`. Each emission is recorded as (folder, file name, object).
struct PathPrinter {
    emit_from: u32,
    written: RefCell<Vec<(String, String, String)>>,
}

impl StepsTraceProcessPrinter<u32, char, String> for PathPrinter {
    fn initial(&self, node: u32) -> String {
        self.get_initial_object(&node)
    }

    fn extended(&self, object: String, step: char) -> String {
        self.add_step_to_object(&object, &step)
    }

    fn emits_at(&self, node: u32) -> bool {
        self.should_print_on_node_reached(&node)
    }

    fn get_initial_object(&self, _node: &u32) -> String {
        String::new()
    }

    fn add_step_to_object(&self, object: &String, step: &char) -> String {
        let mut o = object.clone();
        o.push(*step);
        o
    }

    fn should_print_on_node_reached(&self, node: &u32) -> bool {
        *node >= self.emit_from
    }

    fn print_object(&self, object: &String, parent_folder: &str, file_name: &str) {
        self.written.borrow_mut().push((
            parent_folder.to_string(),
            file_name.to_string(),
            object.clone(),
        ));
    }
}

fn tracer(
    emit_from: u32,
    avoid_duplicates: bool,
) -> GenericStepsTraceLogger<u32, char, String, PathPrinter> {
    let printer = PathPrinter { emit_from, written: RefCell::new(vec![]) };
    GenericStepsTraceLogger::new(
        printer,
        avoid_duplicates,
        "trace".to_string(),
        "txt".to_string(),
        "traces".to_string(),
    )
}

#[test]
fn root_starts_with_the_initial_object() {
    let mut t = tracer(0, false);
    t.log_new_node(ROOT_NODE_ID, &0);
    assert!(t.is_open(ROOT_NODE_ID));
    assert_eq!(t.object_count(ROOT_NODE_ID), 1);
    t.log_new_node(2, &0);
    assert_eq!(t.object_count(2), 0);
}

#[test]
fn two_steps_build_the_path_object() {
    let printer = PathPrinter { emit_from: 0, written: RefCell::new(vec![]) };
    let mut t: GenericStepsTraceLogger<u32, char, String, PathPrinter> =
        GenericStepsTraceLogger::new(printer, false, "p".to_string(), "txt".to_string(), "d".to_string());
    t.log_new_node(ROOT_NODE_ID, &0);
    t.log_new_node(2, &0);
    t.log_new_step(ROOT_NODE_ID, &'a', 2, &0);
    t.log_new_node(3, &0);
    t.log_new_step(2, &'b', 3, &0);
    assert_eq!(t.object_count(3), 1);
    assert_eq!(t.trace_counter(), 2);
    let objects: Vec<String> = t_printer_log(&t).into_iter().map(|w| w.2).collect();
    assert_eq!(objects, vec!["a".to_string(), "ab".to_string()]);
}

#[test]
fn emitted_objects_are_numbered_files() {
    let mut t = tracer(3, false);
    t.log_new_node(ROOT_NODE_ID, &1);
    t.log_new_node(2, &2);
    t.log_new_step(ROOT_NODE_ID, &'a', 2, &2);
    t.log_new_node(3, &3);
    t.log_new_step(2, &'b', 3, &3);
    t.log_new_node(4, &4);
    t.log_new_step(2, &'c', 4, &4);
    assert_eq!(t.trace_counter(), 2);
    let log = t_printer_log(&t);
    assert_eq!(
        log,
        vec![
            ("traces".to_string(), "trace1.txt".to_string(), "ab".to_string()),
            ("traces".to_string(), "trace2.txt".to_string(), "ac".to_string()),
        ]
    );
}

fn t_printer_log(
    t: &GenericStepsTraceLogger<u32, char, String, PathPrinter>,
) -> Vec<(String, String, String)> {
    t.steps_printer().written.borrow().clone()
}

#[test]
fn duplicates_are_emitted_once_when_held_back() {
    // root -a-> 2, root -a-> 3: both reach the object "a"
    let mut t = tracer(0, true);
    t.log_new_node(ROOT_NODE_ID, &0);
    t.log_new_node(2, &0);
    t.log_new_node(3, &0);
    t.log_new_step(ROOT_NODE_ID, &'a', 2, &0);
    t.log_new_step(ROOT_NODE_ID, &'a', 3, &0);
    assert_eq!(t.trace_counter(), 1);
    assert_eq!(t_printer_log(&t).len(), 1);
    assert_eq!(t.object_count(2), 1);
    assert_eq!(t.object_count(3), 0);
}

#[test]
fn duplicates_are_emitted_again_without_dedup() {
    let mut t = tracer(0, false);
    t.log_new_node(ROOT_NODE_ID, &0);
    t.log_new_node(2, &0);
    t.log_new_node(3, &0);
    t.log_new_step(ROOT_NODE_ID, &'a', 2, &0);
    t.log_new_step(ROOT_NODE_ID, &'a', 3, &0);
    assert_eq!(t.trace_counter(), 2);
    let names: Vec<String> = t_printer_log(&t).into_iter().map(|w| w.1).collect();
    assert_eq!(names, vec!["trace1.txt".to_string(), "trace2.txt".to_string()]);
}

#[test]
fn paths_meeting_at_a_node_are_merged() {
    // root -a-> 2 -c-> 4 and root -b-> 3 -c-> 4: node 4 holds "ac" and "bc"
    let mut t = tracer(10, false);
    for id in 1..=4u32 {
        t.log_new_node(id, &0);
    }
    t.log_new_step(1, &'a', 2, &0);
    t.log_new_step(1, &'b', 3, &0);
    t.log_new_step(2, &'c', 4, &0);
    t.log_new_step(3, &'c', 4, &0);
    t.log_new_step(3, &'c', 4, &0);
    assert_eq!(t.object_count(4), 2);
    assert_eq!(t.trace_counter(), 0);
}

#[test]
fn completed_node_is_closed() {
    let mut t = tracer(0, false);
    t.log_new_node(ROOT_NODE_ID, &0);
    t.log_new_node(2, &0);
    t.log_new_step(ROOT_NODE_ID, &'a', 2, &0);
    t.log_notify_last_child_step_of_node_processed(ROOT_NODE_ID);
    assert!(!t.is_open(ROOT_NODE_ID));
    assert!(t.is_open(2));
}
