//! Writes the nodes of an exploration that the domain selects, one file each.

use vstd::prelude::*;
use vstd::string::*;
use crate::ids::{decimal, decimal_string};

verus! {

/// What the domain tells the node printer: which nodes to write, and how.
pub trait NodesPrintProcessPrinter<N> {
    /// Whether `node` is written.
    spec fn prints(&self, node: N) -> bool;

    fn should_print_node(&self, node: &N) -> (r: bool)
        ensures
            r == self.prints(*node),
    ;

    /// Writes `node` into the file `file_name` of the folder `parent_folder`.
    fn print_node(&self, node: &N, parent_folder: &str, file_name: &str);
}

/// The name of the file of node `id`: `<prefix>_node<id>.<extension>`.
pub open spec fn node_file_name(prefix: Seq<char>, id: nat, extension: Seq<char>) -> Seq<char> {
    prefix + seq!['_', 'n', 'o', 'd', 'e'] + decimal(id) + seq!['.'] + extension
}

/// Writes each discovered node that the domain selects into a file named after
/// its id.
pub struct GenericNodesPrintLogger<N, P: NodesPrintProcessPrinter<N>> {
    printer: P,
    prefix: String,
    file_extension: String,
    parent_folder: String,
    phantom: std::marker::PhantomData<N>,
}

impl<N, P: NodesPrintProcessPrinter<N>> GenericNodesPrintLogger<N, P> {
    pub closed spec fn printer(&self) -> P {
        self.printer
    }

    pub closed spec fn file_prefix(&self) -> Seq<char> {
        self.prefix@
    }

    pub closed spec fn extension(&self) -> Seq<char> {
        self.file_extension@
    }

    pub closed spec fn folder(&self) -> Seq<char> {
        self.parent_folder@
    }

    pub fn new(printer: P, prefix: String, file_extension: String, parent_folder: String) -> (r:
        Self)
        ensures
            r.printer() == printer,
            r.file_prefix() == prefix@,
            r.extension() == file_extension@,
            r.folder() == parent_folder@,
    {
        GenericNodesPrintLogger {
            printer,
            prefix,
            file_extension,
            parent_folder,
            phantom: std::marker::PhantomData,
        }
    }

    /// The folder the files are written into.
    pub fn parent_folder(&self) -> (r: &String)
        ensures
            r@ == self.folder(),
    {
        &self.parent_folder
    }

    /// Writes the newly discovered node when the domain selects it, and returns
    /// the name of the file it went to.
    pub fn log_new_node(&self, new_node_id: u32, new_node: &N) -> (r: Option<String>)
        ensures
            r is Some <==> self.printer().prints(*new_node),
            r matches Some(name) ==> name@ == node_file_name(
                self.file_prefix(),
                new_node_id as nat,
                self.extension(),
            ),
    {
        if self.printer.should_print_node(new_node) {
            proof {
                reveal_strlit("_node");
                reveal_strlit(".");
            }
            let mut name = String::from_str(self.prefix.as_str());
            name.append("_node");
            let digits = decimal_string(new_node_id);
            name.append(digits.as_str());
            name.append(".");
            name.append(self.file_extension.as_str());
            self.printer.print_node(new_node, self.parent_folder.as_str(), name.as_str());
            Some(name)
        } else {
            None
        }
    }
}

} // verus!
