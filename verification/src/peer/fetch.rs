//! Content asked for outside a session: from this device's own bytes, through the relay, or from
//! the peer that announced it.

use vstd::prelude::*;

use crate::file_bytes::FileBytes;
use crate::peer::messages::{ChangeOrigin, OriginView};
use crate::peer::transfer::serve::{
    answer_chunk_request, answer_view, is_served, ChunkAnswer, SourceFile, VerifiedHashCache,
};
use crate::peer::transfer::source::{ChunkSource, SourceReader};
use crate::peer::transfer::{ChunkReply, ReceiveOutcome};

verus! {

/// Why content could not be fetched.
#[derive(Debug, Clone, Copy, PartialEq, Eq, Structural)]
pub enum FetchError {
    /// Nobody who can be reached serves it.
    NotAvailable,
}

/// The local bytes of a file, if they have the requested hash. `read` is what the sync
/// directories gave: the bytes and their hash, or nothing.
pub fn read_local_if_hash_matches(
    read: Option<(FileBytes, String)>,
    expected_hash: &str,
) -> (r: Option<FileBytes>)
    ensures
        r == match read {
            Some((bytes, hash)) => if hash@ == expected_hash@ {
                Some(bytes)
            } else {
                None
            },
            None => None,
        },
{
    let expected = expected_hash.to_owned();
    match read {
        Some((bytes, hash)) => {
            if hash == expected {
                Some(bytes)
            } else {
                None
            }
        },
        None => None,
    }
}

/// What this device holds of a file: a file in a sync directory, with its time and size now, and
/// a temporary provider that is registered for the requested content.
pub struct LocalHoldings<'a, F: ChunkSource, P: ChunkSource> {
    pub file: Option<(SourceReader<'a, F>, SourceFile)>,
    pub provider: Option<SourceReader<'a, P>>,
}

/// Answers a request for a chunk from what this device holds: a file in a sync directory, which
/// is verified against the hash, or else a temporary provider, which is trusted by the key it is
/// registered under. `None` where neither holds the file.
pub fn answer_local_chunk<F: ChunkSource, P: ChunkSource>(
    holdings: &mut LocalHoldings<F, P>,
    cache: &mut VerifiedHashCache,
    content_hash: &str,
    offset: u64,
) -> (r: Option<ChunkAnswer>)
    ensures
        match (old(holdings).file, final(holdings).file) {
            (Some((before, file)), Some((after, same_file))) => {
                &&& same_file == file
                &&& final(holdings).provider == old(holdings).provider
                &&& r matches Some(answer)
                &&& is_served(
                    before,
                    after,
                    Some(&file),
                    old(cache)@,
                    content_hash@,
                    offset,
                    false,
                    answer_view(answer),
                    final(cache)@,
                )
            },
            (None, None) => match (old(holdings).provider, final(holdings).provider) {
                (Some(before), Some(after)) => r matches Some(answer) && is_served(
                    before,
                    after,
                    None,
                    old(cache)@,
                    content_hash@,
                    offset,
                    true,
                    answer_view(answer),
                    final(cache)@,
                ),
                (None, None) => r is None && final(cache)@ == old(cache)@,
                _ => false,
            },
            _ => false,
        },
{
    if let Some((reader, file)) = &mut holdings.file {
        return Some(answer_chunk_request(reader, Some(&*file), cache, content_hash, offset, false));
    }
    if let Some(reader) = &mut holdings.provider {
        return Some(answer_chunk_request(reader, None, cache, content_hash, offset, true));
    }
    None
}

/// Whose session is to pull the bytes of a change: that of the peer that announced it. A change
/// of this device has its bytes already.
pub fn pull_from_origin(origin: &ChangeOrigin) -> (r: Option<String>)
    ensures
        match (origin@, r) {
            (OriginView::Peer { public_key }, Some(text)) => text@ == public_key,
            (OriginView::Local, None) => true,
            _ => false,
        },
{
    match origin {
        ChangeOrigin::Peer { public_key } => Some(public_key.clone()),
        ChangeOrigin::Local => None,
    }
}

/// What a fetch comes to, given how its receive ended; `None` if the receive was dropped.
pub fn fetch_result(outcome: Option<ReceiveOutcome>) -> (r: Result<FileBytes, FetchError>)
    ensures
        r == match outcome {
            Some(ReceiveOutcome::Complete(content)) => Ok::<FileBytes, FetchError>(content),
            _ => Err(FetchError::NotAvailable),
        },
{
    match outcome {
        Some(ReceiveOutcome::Complete(content)) => Ok(content),
        _ => Err(FetchError::NotAvailable),
    }
}

/// Whether anybody else holds some content, given the reply to a request for its first chunk:
/// data proves it. `None` if no reply came.
pub fn is_available(reply: &Option<ChunkReply>) -> (r: bool)
    ensures
        r == (reply matches Some(ChunkReply::Data { .. })),
{
    match reply {
        Some(ChunkReply::Data { .. }) => true,
        _ => false,
    }
}

} // verus!
