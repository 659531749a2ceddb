//! Notices that a snapshot has become durable.

use std::sync::Arc;
use vstd::prelude::*;

use crate::raft::types::GroupId;

verus! {

/// How a snapshot came about.
#[derive(Debug, Clone, Copy, PartialEq, Eq, Structural)]
pub enum SnapshotCompletionKind {
    Built,
    Installed,
}

/// Emitted only after the bytes of a snapshot have reached their durable checkpoint.
#[derive(Debug, PartialEq, Eq)]
pub struct SnapshotCompletionEvent {
    pub group_id: GroupId,
    pub node_id: u64,
    pub snapshot_id: String,
    pub size_bytes: u64,
    pub digest: [u8; 32],
    pub kind: SnapshotCompletionKind,
}

/// Called for every completed snapshot.
pub trait SnapshotCompletionHook: Send + Sync + 'static {
    fn completed(&self, event: SnapshotCompletionEvent);
}

/// A hook that does nothing.
#[derive(Debug)]
pub struct NoopSnapshotCompletionHook;

impl SnapshotCompletionHook for NoopSnapshotCompletionHook {
    fn completed(&self, _event: SnapshotCompletionEvent) {
    }
}

/// The hook of a storage that was given none.
pub fn noop_completion_hook() -> (hook: Arc<NoopSnapshotCompletionHook>)
    ensures
        *hook == NoopSnapshotCompletionHook,
{
    Arc::new(NoopSnapshotCompletionHook)
}

} // verus!
