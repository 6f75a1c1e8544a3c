use vstd::prelude::*;
use crate::mapper::DiagnosticEntry;
use crate::mapper::MapError;
use crate::mapper::Match;
use crate::mapper::mapped_entries;
use crate::mapper::matches_valid;
use crate::mapper::output_diagnostics;
use crate::mapper::validate;
use crate::position::Position;

verus! {

/// One chunk's step of a document pass. `response` is what came back from
/// the checking service: `None` for a service failure (network error or
/// malformed response), `Some` for the chunk's matches. On a failure the
/// chunk's findings are dropped, but the cursor is still advanced by the
/// chunk's full length, so later chunks stay aligned; only a protocol
/// violation in a received response stops the pass with an error.
pub fn process_chunk(start: &mut Position, response: Option<&Vec<Match>>, total: usize) -> (r:
    Result<Vec<DiagnosticEntry>, MapError>)
    requires
        old(start).wf(),
        total <= old(start).remaining(),
    ensures
        final(start).wf(),
        final(start).text_seq() == old(start).text_seq(),
        r is Ok ==> final(start).consumed() == old(start).consumed() + total,
        response is None ==> r is Ok && r->Ok_0@.len() == 0,
        response matches Some(ms) ==> {
            &&& r is Ok <==> matches_valid(ms@, total as int)
            &&& r is Ok ==> mapped_entries(
                r->Ok_0@,
                old(start).text_seq(),
                old(start).consumed(),
                ms@,
            )
            &&& r is Err ==> r->Err_0 == validate(ms@, 0, total as int)->Some_0
        },
{
    match response {
        Option::None => {
            start.advance(total);
            Result::Ok(Vec::new())
        },
        Option::Some(ms) => output_diagnostics(start, ms, total),
    }
}

/// Failure isolation: a service failure on one chunk advances the cursor
/// exactly as a successful chunk does — by the chunk's full length — so
/// two passes that agree up to chunk `k` and differ only in whether chunk
/// `k`'s service call failed hand the very same start position to chunk
/// `k + 1`. `failed` and `succeeded` are the two cursors after chunk `k`:
/// same document, same consumed count, hence the same line and column.
pub proof fn lemma_failure_isolation(failed: Position, succeeded: Position)
    requires
        failed.wf(),
        succeeded.wf(),
        failed.text_seq() == succeeded.text_seq(),
        failed.consumed() == succeeded.consumed(),
    ensures
        failed.line == succeeded.line,
        failed.column == succeeded.column,
{
}

} // verus!
