use std::cell::RefCell;

use graph_process_manager_loggers::nodesprint::{GenericNodesPrintLogger, NodesPrintProcessPrinter};

struct EvenNodes {
    written: RefCell<Vec<String>>,
}

impl NodesPrintProcessPrinter<u32> for EvenNodes {
    fn prints(&self, node: u32) -> bool {
        self.should_print_node(&node)
    }

    fn should_print_node(&self, node: &u32) -> bool {
        *node % 2 == 0
    }

    fn print_node(&self, node: &u32, parent_folder: &str, file_name: &str) {
        self.written.borrow_mut().push(format!("{}/{}:{}", parent_folder, file_name, node));
    }
}

#[test]
fn selected_node_is_written_under_its_id() {
    let p = EvenNodes { written: RefCell::new(vec![]) };
    let l = GenericNodesPrintLogger::new(p, "fib".to_string(), "txt".to_string(), "out".to_string());
    assert_eq!(l.log_new_node(7, &4), Some("fib_node7.txt".to_string()));
    assert_eq!(l.log_new_node(8, &3), None);
    assert_eq!(l.parent_folder(), "out");
}
