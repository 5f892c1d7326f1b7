//! The life of a pushdown scan node: which state follows which event, and
//! what the executor has to do then. The executor owns the cursor of the
//! index; this module decides when it is read and when it is released.

use vstd::prelude::*;
use crate::execution::ExecutionError;

verus! {

/// The state of a scan node.
#[derive(Debug, Clone, Copy, PartialEq, Eq, Structural)]
pub enum ScanState {
    /// No cursor was opened yet.
    Unopened,
    /// The cursor is open and has rows to give.
    Open,
    /// The cursor gave its last row; it is still held.
    Exhausted,
    /// The cursor was released, or never came to be.
    Closed,
}

/// What happened to a scan node.
#[derive(Debug, Clone, Copy, PartialEq, Eq, Structural)]
pub enum ScanEvent {
    /// The index opened a cursor for the query.
    Opened,
    /// The index could not open a cursor.
    OpenFailed,
    /// The cursor gave a row.
    Row,
    /// The cursor has no more rows.
    EndOfRows,
    /// The index failed while the cursor was read.
    ReadFailed,
    /// The node is closed: the plan ended, a limit was reached, or the
    /// query was cancelled.
    Terminate,
}

/// What the executor has to do after an event.
#[derive(Debug, Clone, Copy, PartialEq, Eq, Structural)]
pub enum ScanAction {
    /// Nothing.
    Nothing,
    /// Hand the row on and read the next one.
    EmitRow,
    /// Release the cursor.
    ReleaseCursor,
    /// Fail the query; no cursor is held.
    Abort(ExecutionError),
    /// Release the cursor and fail the query.
    ReleaseCursorAndAbort(ExecutionError),
}

/// What the executor has to ask of the index next.
#[derive(Debug, Clone, Copy, PartialEq, Eq, Structural)]
pub enum ScanDemand {
    /// Open a cursor for the query.
    OpenCursor,
    /// Read the next row from the cursor.
    ReadNext,
    /// Close the node: nothing more is wanted of the cursor.
    Terminate,
    /// Nothing: the node is closed.
    Finished,
}

/// What a node in the given state wants next, after `emitted` rows of at
/// most `limit`: an unopened node wants its cursor, an open one the next
/// row until the limit is reached, and then, as after the last row, its
/// end.
pub open spec fn demand(state: ScanState, emitted: int, limit: int) -> ScanDemand {
    match state {
        ScanState::Unopened => ScanDemand::OpenCursor,
        ScanState::Open => if emitted < limit {
            ScanDemand::ReadNext
        } else {
            ScanDemand::Terminate
        },
        ScanState::Exhausted => ScanDemand::Terminate,
        ScanState::Closed => ScanDemand::Finished,
    }
}

/// Says what the executor has to ask of the index next.
pub fn next_demand(state: ScanState, emitted: usize, limit: usize) -> (wanted: ScanDemand)
    ensures
        wanted == demand(state, emitted as int, limit as int),
{
    match state {
        ScanState::Unopened => ScanDemand::OpenCursor,
        ScanState::Open => if emitted < limit {
            ScanDemand::ReadNext
        } else {
            ScanDemand::Terminate
        },
        ScanState::Exhausted => ScanDemand::Terminate,
        ScanState::Closed => ScanDemand::Finished,
    }
}

/// Whether a node in this state holds a cursor.
pub open spec fn holds_cursor(state: ScanState) -> bool {
    state == ScanState::Open || state == ScanState::Exhausted
}

/// Whether the action releases the cursor.
pub open spec fn releases(action: ScanAction) -> bool {
    action == ScanAction::ReleaseCursor || action is ReleaseCursorAndAbort
}

/// The state after an event, and what the executor has to do.
///
/// A node goes from unopened to open, from open to exhausted, and from any
/// state to closed; it never goes back. An event that has no place in the
/// current state changes nothing.
pub open spec fn transition(state: ScanState, event: ScanEvent) -> (ScanState, ScanAction) {
    match (state, event) {
        (ScanState::Unopened, ScanEvent::Opened) => (ScanState::Open, ScanAction::Nothing),
        (ScanState::Unopened, ScanEvent::OpenFailed) => (
            ScanState::Closed,
            ScanAction::Abort(ExecutionError::CursorOpenFailed),
        ),
        (ScanState::Open, ScanEvent::Row) => (ScanState::Open, ScanAction::EmitRow),
        (ScanState::Open, ScanEvent::EndOfRows) => (ScanState::Exhausted, ScanAction::Nothing),
        (ScanState::Open, ScanEvent::ReadFailed) => (
            ScanState::Closed,
            ScanAction::ReleaseCursorAndAbort(ExecutionError::ScanInterrupted),
        ),
        (_, ScanEvent::Terminate) => (
            ScanState::Closed,
            if holds_cursor(state) {
                ScanAction::ReleaseCursor
            } else {
                ScanAction::Nothing
            },
        ),
        _ => (state, ScanAction::Nothing),
    }
}

/// The state of a node after a run of events.
pub open spec fn state_after(state: ScanState, events: Seq<ScanEvent>) -> ScanState
    decreases events.len(),
{
    if events.len() == 0 {
        state
    } else {
        transition(state_after(state, events.drop_last()), events.last()).0
    }
}

/// How often the cursor is released in a run of events.
pub open spec fn releases_in(state: ScanState, events: Seq<ScanEvent>) -> nat
    decreases events.len(),
{
    if events.len() == 0 {
        0
    } else {
        let before = state_after(state, events.drop_last());
        releases_in(state, events.drop_last()) + if releases(
            transition(before, events.last()).1,
        ) {
            1nat
        } else {
            0nat
        }
    }
}

/// Advances a scan node by one event.
pub fn step(state: ScanState, event: ScanEvent) -> (next: (ScanState, ScanAction))
    ensures
        next == transition(state, event),
        releases(next.1) <==> holds_cursor(state) && !holds_cursor(next.0),
        next.0 == ScanState::Closed || holds_cursor(next.0) || next.0 == state,
{
    match (state, event) {
        (ScanState::Unopened, ScanEvent::Opened) => (ScanState::Open, ScanAction::Nothing),
        (ScanState::Unopened, ScanEvent::OpenFailed) => (
            ScanState::Closed,
            ScanAction::Abort(ExecutionError::CursorOpenFailed),
        ),
        (ScanState::Open, ScanEvent::Row) => (ScanState::Open, ScanAction::EmitRow),
        (ScanState::Open, ScanEvent::EndOfRows) => (ScanState::Exhausted, ScanAction::Nothing),
        (ScanState::Open, ScanEvent::ReadFailed) => (
            ScanState::Closed,
            ScanAction::ReleaseCursorAndAbort(ExecutionError::ScanInterrupted),
        ),
        (ScanState::Open, ScanEvent::Terminate) => (ScanState::Closed, ScanAction::ReleaseCursor),
        (ScanState::Exhausted, ScanEvent::Terminate) => (
            ScanState::Closed,
            ScanAction::ReleaseCursor,
        ),
        (_, ScanEvent::Terminate) => (ScanState::Closed, ScanAction::Nothing),
        _ => (state, ScanAction::Nothing),
    }
}

/// Closing is idempotent and final: a closed node stays closed whatever
/// happens, and nothing is released again.
pub proof fn lemma_closed_is_final(event: ScanEvent)
    ensures
        transition(ScanState::Closed, event) == (ScanState::Closed, ScanAction::Nothing),
{
}

/// Whatever the state, terminating closes the node, and terminating once
/// more does nothing.
pub proof fn lemma_terminate_closes(state: ScanState)
    ensures
        transition(state, ScanEvent::Terminate).0 == ScanState::Closed,
        releases(transition(state, ScanEvent::Terminate).1) <==> holds_cursor(state),
        transition(transition(state, ScanEvent::Terminate).0, ScanEvent::Terminate) == (
            ScanState::Closed,
            ScanAction::Nothing,
        ),
{
}

/// Over any run of events that starts at an unopened node, the cursor is
/// released at most once, and it is released exactly when the node was
/// opened and is no longer holding it.
pub proof fn lemma_cursor_released_once(events: Seq<ScanEvent>)
    ensures
        releases_in(ScanState::Unopened, events) <= 1,
        holds_cursor(state_after(ScanState::Unopened, events)) ==> releases_in(
            ScanState::Unopened,
            events,
        ) == 0,
        releases_in(ScanState::Unopened, events) == 1 ==> state_after(ScanState::Unopened, events)
            == ScanState::Closed,
        state_after(ScanState::Unopened, events) == ScanState::Unopened ==> releases_in(
            ScanState::Unopened,
            events,
        ) == 0,
    decreases events.len(),
{
    if events.len() > 0 {
        lemma_cursor_released_once(events.drop_last());
    }
}

} // verus!
