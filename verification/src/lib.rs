//! The logic of a peer-to-peer file-tagging daemon.

pub mod clock;
pub mod file_bytes;
pub mod ids;
pub mod operation_laws;
pub mod paths;
pub mod peer;
pub mod preview;
pub mod seqs;
pub mod state;
pub mod store;
pub mod text;
pub mod text_laws;
