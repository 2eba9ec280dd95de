//! Where the bytes of a file are held.

use vstd::prelude::*;

verus! {

/// The bytes of a file: in memory, or on disk to be copied or moved into place.
#[derive(Debug)]
pub enum FileBytes {
    InMemory(Vec<u8>),
    FileToCopy(String),
    FileToMove(String),
}

impl FileBytes {
    /// The path of the file that holds the bytes, if one does.
    pub fn path(&self) -> (r: Option<&str>)
        ensures
            match (*self, r) {
                (FileBytes::InMemory(_), None) => true,
                (FileBytes::FileToCopy(path), Some(text)) => text@ == path@,
                (FileBytes::FileToMove(path), Some(text)) => text@ == path@,
                _ => false,
            },
    {
        match self {
            FileBytes::InMemory(_) => None,
            FileBytes::FileToCopy(path) => Some(path.as_str()),
            FileBytes::FileToMove(path) => Some(path.as_str()),
        }
    }
}

} // verus!
