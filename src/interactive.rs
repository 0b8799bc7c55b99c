//! What an interactive session hands back once the user leaves it.
use vstd::prelude::*;

use crate::hunk::Hunk;
use crate::session::{
    all_resolved, has_marker, resolved_text, states_of, LifecycleError, LifecycleState, MergeSession, SessionError,
    StructuralError,
};

verus! {

/// Result of interactive processing for a single file.
#[derive(Debug, Clone)]
pub struct TuiResult {
    /// The resolved content, if every hunk was resolved.
    pub content: Option<String>,
    /// Number of hunks that were resolved.
    pub hunks_resolved: usize,
    /// Total number of hunks in the file.
    pub total_hunks: usize,
}

/// How many of the hunks are resolved.
pub open spec fn resolved_count(hs: Seq<Hunk>) -> nat
    decreases hs.len(),
{
    if hs.len() == 0 {
        0
    } else {
        resolved_count(hs.drop_last()) + if hs.last().state is Resolved { 1nat } else { 0nat }
    }
}

/// Turns the session that the user left into the file's result. A file
/// without hunks keeps its `file_text` unchanged. A fully resolved session is
/// applied, validated and completed, and its text returned; otherwise no text
/// is returned, only how many hunks were resolved. A session that has left
/// `Parsed` cannot be applied again and gives a lifecycle error.
pub fn finish_interactive(file_text: String, session: MergeSession) -> (r: Result<TuiResult, SessionError>)
    requires
        session.wf(),
    ensures
        ({
            let hs = session.spec_hunks();
            if hs.len() == 0 {
                r is Ok && r->Ok_0.content == Some(file_text) && r->Ok_0.hunks_resolved == 0
                    && r->Ok_0.total_hunks == 0
            } else if all_resolved(hs) && session.spec_state() != LifecycleState::Parsed {
                r == Err::<TuiResult, SessionError>(SessionError::Lifecycle(
                    LifecycleError { expected: LifecycleState::Parsed, actual: session.spec_state() },
                ))
            } else if all_resolved(hs) {
                let out = resolved_text(session.spec_segments(), hs);
                if has_marker(out) {
                    r == Err::<TuiResult, SessionError>(SessionError::Validation(StructuralError::ResidualMarker))
                } else {
                    r is Ok && r->Ok_0.content is Some && r->Ok_0.content->0@ == out
                        && r->Ok_0.hunks_resolved == hs.len() && r->Ok_0.total_hunks == hs.len()
                }
            } else {
                r is Ok && r->Ok_0.content is None && r->Ok_0.hunks_resolved == resolved_count(hs)
                    && r->Ok_0.total_hunks == hs.len()
            }
        }),
{
    let total = session.hunks().len();
    if total == 0 {
        return Ok(TuiResult { content: Some(file_text), hunks_resolved: 0, total_hunks: 0 });
    }
    let ghost hs = session.spec_hunks();
    let mut count: usize = 0;
    let mut j: usize = 0;
    while j < total
        invariant
            j <= total,
            total == hs.len(),
            hs == session.spec_hunks(),
            count == resolved_count(hs.subrange(0, j as int)),
            count <= j,
        decreases total - j,
    {
        assert(hs.subrange(0, j + 1).drop_last() =~= hs.subrange(0, j as int));
        if let crate::hunk::HunkState::Resolved(_) = session.hunks()[j].state {
            count = count + 1;
        }
        j = j + 1;
    }
    assert(hs.subrange(0, total as int) =~= hs);
    if session.is_fully_resolved() {
        let mut session = session;
        session.apply()?;
        session.validate()?;
        let result = session.complete()?;
        Ok(TuiResult { content: Some(result.content), hunks_resolved: result.summary.resolved_hunks, total_hunks: total })
    } else {
        Ok(TuiResult { content: None, hunks_resolved: count, total_hunks: total })
    }
}

} // verus!
