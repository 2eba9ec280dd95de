//! Content-addressed chunk transfer.
//!
//! A chunk is named by its file, its content hash and its offset, so any holder of the content
//! can serve it. A receiver keeps a window of requests in flight, puts the chunks in order and
//! checks the hash of the whole.

use vstd::prelude::*;

use crate::file_bytes::FileBytes;
use crate::text::{chars_of, string_of};

pub mod hash;
pub mod receive;
pub mod receive_laws;
pub mod request_laws;
pub mod serve;
pub mod source;

pub use receive::Receiver;
pub use serve::{answer_chunk_request, ChunkAnswer, VerifiedHashCache};
pub use source::{ChunkSource, SourceReader};

verus! {

/// Bytes per chunk. Every device cuts content at multiples of it.
pub const CHUNK_SIZE: usize = 262144;

/// How many requests a receiver keeps in flight.
pub const WINDOW: u64 = 8;

/// How long, in milliseconds, a relayed request lives and a receiver waits without progress.
pub const HOP_TIMEOUT: u64 = 8000;

/// A reply to one of a receiver's requests.
#[derive(Debug)]
pub enum ChunkReply {
    /// The bytes at `offset`.
    Data { offset: u64, bytes: Vec<u8> },
    /// No direction can serve `offset`.
    Miss { offset: u64 },
}

/// The model of a reply.
#[verifier::ext_equal]
pub enum ChunkReplyView {
    Data { offset: u64, bytes: Seq<u8> },
    Miss { offset: u64 },
}

impl View for ChunkReply {
    type V = ChunkReplyView;

    open spec fn view(&self) -> ChunkReplyView {
        match self {
            ChunkReply::Data { offset, bytes } => ChunkReplyView::Data {
                offset: *offset,
                bytes: bytes@,
            },
            ChunkReply::Miss { offset } => ChunkReplyView::Miss { offset: *offset },
        }
    }
}

/// A request that a receiver wants sent.
#[derive(Debug, Clone, Copy, PartialEq, Eq, Structural)]
pub struct ChunkRequest {
    pub offset: u64,
}

/// Why a receive failed.
#[derive(Debug)]
pub enum TransferError {
    /// A chunk was missed from every reachable direction.
    ChunkUnavailable { offset: u64 },
    /// No chunk arrived within the liveness window.
    LivenessTimeout,
    /// The content did not hash to the expected value.
    HashMismatch { expected: String, actual: String },
    /// Writing the content out failed.
    Io(String),
    /// The channel of replies closed before the content was whole.
    ChannelClosed,
}

/// The outcome of a receive.
#[derive(Debug)]
pub enum ReceiveOutcome {
    /// The bytes arrived and hashed correctly.
    Complete(FileBytes),
    Failed(TransferError),
}

/// How many bytes a character takes in UTF-8.
pub open spec fn utf8_length(c: char) -> int {
    if (c as u32) < 0x80 {
        1
    } else if (c as u32) < 0x800 {
        2
    } else if (c as u32) < 0x10000 {
        3
    } else {
        4
    }
}

/// How many leading characters take exactly `bytes` bytes, if any number does.
pub open spec fn leading_chars(text: Seq<char>, bytes: int) -> Option<int>
    decreases text.len(),
{
    if bytes == 0 {
        Some(0)
    } else if text.len() == 0 || utf8_length(text[0]) > bytes {
        None
    } else {
        match leading_chars(text.skip(1), bytes - utf8_length(text[0])) {
            Some(n) => Some(n + 1),
            None => None,
        }
    }
}

/// The first 8 bytes of a hash where a character ends there, else the whole of it.
pub open spec fn shortened(hash: Seq<char>) -> Seq<char> {
    match leading_chars(hash, 8) {
        Some(n) => hash.take(n),
        None => hash,
    }
}

/// A short prefix of a content hash, for messages.
pub fn short_hash(hash: &str) -> (r: String)
    ensures
        r@ == shortened(hash@),
{
    let mut chars = chars_of(hash);
    let mut left: u32 = 8;
    let mut i: usize = 0;
    assert(hash@.skip(0) =~= hash@);
    while i < chars.len() && left > 0
        invariant
            chars@ == hash@,
            i <= chars.len(),
            0 <= left <= 8,
            leading_chars(hash@, 8) == match leading_chars(hash@.skip(i as int), left as int) {
                Some(n) => Some(n + i),
                None => None,
            },
        decreases chars.len() - i,
    {
        let code: u32 = chars[i] as u32;
        let size: u32 = if code < 0x80 {
            1
        } else if code < 0x800 {
            2
        } else if code < 0x10000 {
            3
        } else {
            4
        };
        assert(size == utf8_length(hash@.skip(i as int)[0]));
        if size > left {
            return hash.to_owned();
        }
        assert(hash@.skip(i as int).skip(1) =~= hash@.skip(i + 1));
        left = left - size;
        i = i + 1;
    }
    if left > 0 {
        return hash.to_owned();
    }
    chars.truncate(i);
    assert(chars@ =~= hash@.take(i as int));
    string_of(&chars)
}

} // verus!
