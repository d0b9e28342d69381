//! What is told about an indexing run while it goes on.

use vstd::prelude::*;

verus! {

/// Events streamed to the frontend during indexing.
#[derive(Debug)]
pub enum IndexEvent {
    /// Indexing run started for a repo.
    Started { repo: String, total_files: u64, is_rebuild: bool },
    /// A file was parsed.
    FileParsed { file: String, elapsed_ms: u64 },
    /// An embedding API call is starting.
    EmbedCallStart { file: String, chunks: usize, key_hint: String, active_calls: u64 },
    /// An embedding API call finished.
    EmbedCallDone {
        file: String,
        chunks: usize,
        elapsed_ms: u64,
        active_calls: u64,
        cached: bool,
    },
    /// A file completed the full embed and write cycle.
    FileIndexed { file: String, indexed: u64, total: u64, elapsed_ms: u64 },
    /// Edge resolution started.
    Phase2Start { repo: String },
    /// Edge resolution done.
    Phase2Done { repo: String, elapsed_ms: u64 },
    /// Indexing completed successfully.
    Completed { repo: String, indexed_files: u64, total_files: u64, elapsed_ms: u64 },
    /// Indexing failed.
    Failed { repo: String, error: String },
}

impl Clone for IndexEvent {
    fn clone(&self) -> (r: Self)
        ensures
            r == *self,
    {
        match self {
            IndexEvent::Started { repo, total_files, is_rebuild } => IndexEvent::Started {
                repo: repo.clone(),
                total_files: *total_files,
                is_rebuild: *is_rebuild,
            },
            IndexEvent::FileParsed { file, elapsed_ms } => IndexEvent::FileParsed {
                file: file.clone(),
                elapsed_ms: *elapsed_ms,
            },
            IndexEvent::EmbedCallStart { file, chunks, key_hint, active_calls } =>
                IndexEvent::EmbedCallStart {
                    file: file.clone(),
                    chunks: *chunks,
                    key_hint: key_hint.clone(),
                    active_calls: *active_calls,
                },
            IndexEvent::EmbedCallDone { file, chunks, elapsed_ms, active_calls, cached } =>
                IndexEvent::EmbedCallDone {
                    file: file.clone(),
                    chunks: *chunks,
                    elapsed_ms: *elapsed_ms,
                    active_calls: *active_calls,
                    cached: *cached,
                },
            IndexEvent::FileIndexed { file, indexed, total, elapsed_ms } =>
                IndexEvent::FileIndexed {
                    file: file.clone(),
                    indexed: *indexed,
                    total: *total,
                    elapsed_ms: *elapsed_ms,
                },
            IndexEvent::Phase2Start { repo } => IndexEvent::Phase2Start { repo: repo.clone() },
            IndexEvent::Phase2Done { repo, elapsed_ms } => IndexEvent::Phase2Done {
                repo: repo.clone(),
                elapsed_ms: *elapsed_ms,
            },
            IndexEvent::Completed { repo, indexed_files, total_files, elapsed_ms } =>
                IndexEvent::Completed {
                    repo: repo.clone(),
                    indexed_files: *indexed_files,
                    total_files: *total_files,
                    elapsed_ms: *elapsed_ms,
                },
            IndexEvent::Failed { repo, error } => IndexEvent::Failed {
                repo: repo.clone(),
                error: error.clone(),
            },
        }
    }
}

/// The number of active API calls when one more starts and there were `before`.
pub fn inc_api_calls(before: u64) -> (r: u64)
    requires
        before < u64::MAX,
    ensures
        r == before + 1,
{
    before + 1
}

/// The number of active API calls when one ends and there were `before`; none if
/// there were none.
pub fn dec_api_calls(before: u64) -> (r: u64)
    ensures
        r == if before == 0 {
            0
        } else {
            before - 1
        },
{
    if before == 0 {
        0
    } else {
        before - 1
    }
}

} // verus!
