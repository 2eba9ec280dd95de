//! Where a file stands: by name in the catalog, and on disk in a sync directory.

use vstd::prelude::*;

verus! {

/// A file's human-readable path in the catalog.
#[derive(Debug)]
pub struct LogicalPath {
    pub text: String,
}

/// A file's path on disk, relative to the root of its sync directory.
#[derive(Debug)]
pub struct PhysicalPath {
    pub text: String,
}

impl View for LogicalPath {
    type V = Seq<char>;

    open spec fn view(&self) -> Seq<char> {
        self.text@
    }
}

impl View for PhysicalPath {
    type V = Seq<char>;

    open spec fn view(&self) -> Seq<char> {
        self.text@
    }
}

impl LogicalPath {
    pub fn new(text: &str) -> (r: LogicalPath)
        ensures
            r@ == text@,
    {
        LogicalPath { text: text.to_owned() }
    }

    pub fn as_str(&self) -> (r: &str)
        ensures
            r@ == self@,
    {
        self.text.as_str()
    }
}

impl PhysicalPath {
    pub fn new(text: &str) -> (r: PhysicalPath)
        ensures
            r@ == text@,
    {
        PhysicalPath { text: text.to_owned() }
    }

    pub fn as_str(&self) -> (r: &str)
        ensures
            r@ == self@,
    {
        self.text.as_str()
    }
}

impl Clone for LogicalPath {
    fn clone(&self) -> (r: LogicalPath)
        ensures
            r == *self,
    {
        LogicalPath { text: self.text.clone() }
    }
}

impl Clone for PhysicalPath {
    fn clone(&self) -> (r: PhysicalPath)
        ensures
            r == *self,
    {
        PhysicalPath { text: self.text.clone() }
    }
}

impl PartialEq for LogicalPath {
    fn eq(&self, other: &LogicalPath) -> (r: bool) {
        self.text == other.text
    }
}

impl vstd::std_specs::cmp::PartialEqSpecImpl for LogicalPath {
    open spec fn obeys_eq_spec() -> bool {
        true
    }

    open spec fn eq_spec(&self, other: &LogicalPath) -> bool {
        self.text@ == other.text@
    }
}

impl Eq for LogicalPath {

}

impl PartialEq for PhysicalPath {
    fn eq(&self, other: &PhysicalPath) -> (r: bool) {
        self.text == other.text
    }
}

impl vstd::std_specs::cmp::PartialEqSpecImpl for PhysicalPath {
    open spec fn obeys_eq_spec() -> bool {
        true
    }

    open spec fn eq_spec(&self, other: &PhysicalPath) -> bool {
        self.text@ == other.text@
    }
}

impl Eq for PhysicalPath {

}

} // verus!
