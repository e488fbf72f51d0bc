//! The orchestrator's cross-function guarantees, written out as proof
//! functions over the same spec terms the engine's contracts use.

use vstd::prelude::*;

use crate::json::Json;
use crate::runtime::{
    is_artifact_created, is_run_completed, is_run_failed, is_run_started, is_step_completed,
    is_step_failed, is_step_started, CHANNEL_CAPACITY,
};
use crate::schema_hash::schema_hash_chars;
use crate::types::{Event, EventType, EventV, view_events};

verus! {

/// The event types of a log, in order.
pub open spec fn event_types_of(log: Seq<EventV>) -> Seq<EventType> {
    Seq::new(log.len(), |i: int| log[i].event_type)
}

/// A successful run's event sequence is exactly `run.started`,
/// `step.started`, one `artifact.created` per artifact in production
/// order, `step.completed`, `run.completed`.
///
/// The premises are what `begin_run` leaves in a fresh run's log and what
/// `finish_run_success` appends to it; the conclusion pins the whole log.
pub proof fn lemma_success_event_sequence(
    l1: Seq<EventV>,
    l2: Seq<EventV>,
    run_id: Seq<char>,
    wf_name: Seq<char>,
    wf_version: Option<Seq<char>>,
    artifact_ids: Seq<Seq<char>>,
)
    requires
        l1.len() == 2,
        is_run_started(l1[0], run_id, wf_name, wf_version),
        is_step_started(l1[1], run_id),
        l2.len() == l1.len() + artifact_ids.len() + 2,
        forall|j: int| 0 <= j < l1.len() ==> l2[j] == l1[j],
        forall|t: int|
            0 <= t < artifact_ids.len() ==> is_artifact_created(
                #[trigger] l2[2 + t],
                run_id,
                artifact_ids[t],
            ),
        is_step_completed(l2[2 + artifact_ids.len() as int], run_id),
        is_run_completed(l2[3 + artifact_ids.len() as int], run_id),
    ensures
        event_types_of(l2) == seq![EventType::RunStarted, EventType::StepStarted] + Seq::new(
            artifact_ids.len(),
            |t: int| EventType::ArtifactCreated,
        ) + seq![EventType::StepCompleted, EventType::RunCompleted],
        forall|j: int| 0 <= j < l2.len() ==> (#[trigger] l2[j]).run_id == run_id,
{
    let n = artifact_ids.len() as int;
    let expected = seq![EventType::RunStarted, EventType::StepStarted] + Seq::new(
        artifact_ids.len(),
        |t: int| EventType::ArtifactCreated,
    ) + seq![EventType::StepCompleted, EventType::RunCompleted];
    assert forall|j: int| 0 <= j < l2.len() implies event_types_of(l2)[j] == expected[j] by {
        if j < 2 {
            assert(l2[j] == l1[j]);
        } else if j < 2 + n {
            assert(is_artifact_created(l2[2 + (j - 2)], run_id, artifact_ids[j - 2]));
        } else if j == 2 + n {
            assert(is_step_completed(l2[2 + n], run_id));
        } else {
            assert(is_run_completed(l2[3 + n], run_id));
        }
    }
    assert(event_types_of(l2) =~= expected);
    assert forall|j: int| 0 <= j < l2.len() implies (#[trigger] l2[j]).run_id == run_id by {
        if j < 2 {
            assert(l2[j] == l1[j]);
        } else if j < 2 + n {
            assert(is_artifact_created(l2[2 + (j - 2)], run_id, artifact_ids[j - 2]));
        }
    }
}

/// A failed run's event sequence is exactly `run.started`,
/// `step.started`, `step.failed`, `run.failed` — and it holds zero
/// `artifact.created` events.
pub proof fn lemma_failure_event_sequence(
    l1: Seq<EventV>,
    l2: Seq<EventV>,
    run_id: Seq<char>,
    wf_name: Seq<char>,
    wf_version: Option<Seq<char>>,
)
    requires
        l1.len() == 2,
        is_run_started(l1[0], run_id, wf_name, wf_version),
        is_step_started(l1[1], run_id),
        l2.len() == l1.len() + 2,
        forall|j: int| 0 <= j < l1.len() ==> l2[j] == l1[j],
        is_step_failed(l2[2], run_id),
        is_run_failed(l2[3], run_id),
    ensures
        event_types_of(l2) == seq![
            EventType::RunStarted,
            EventType::StepStarted,
            EventType::StepFailed,
            EventType::RunFailed,
        ],
        forall|j: int| 0 <= j < l2.len() ==> (#[trigger] l2[j]).event_type != EventType::ArtifactCreated,
{
    let expected = seq![
        EventType::RunStarted,
        EventType::StepStarted,
        EventType::StepFailed,
        EventType::RunFailed,
    ];
    assert forall|j: int| 0 <= j < l2.len() implies event_types_of(l2)[j] == expected[j] by {
        if j < 2 {
            assert(l2[j] == l1[j]);
        }
    }
    assert(event_types_of(l2) =~= expected);
    assert forall|j: int|
        0 <= j < l2.len() implies (#[trigger] l2[j]).event_type != EventType::ArtifactCreated by {
        assert(event_types_of(l2)[j] == expected[j]);
    }
}

/// A subscriber attached at run creation — its cursor at zero — that
/// polls once the run is terminal observes, element for element, the
/// same sequence the durable log holds, as long as the log fits the
/// channel window. The terms are the very ones `poll_events` promises:
/// its start position is the cursor, nothing is dropped, and the
/// delivered slice is the whole log.
pub proof fn lemma_initial_subscriber_sees_whole_log(log: Seq<Event>, cursor: int)
    requires
        cursor == 0,
        log.len() <= CHANNEL_CAPACITY,
    ensures
        ({
            let start = if log.len() - cursor > CHANNEL_CAPACITY as int {
                log.len() - CHANNEL_CAPACITY as int
            } else {
                cursor
            };
            &&& start == 0
            &&& start - cursor == 0
            &&& view_events(log.subrange(start, log.len() as int)) == view_events(log)
        }),
{
    assert(log.subrange(0, log.len() as int) =~= log);
}

/// A subscriber that attaches only after the run reached its terminal
/// state — its cursor already at the end of the log, where `subscribe`
/// puts it — receives zero events from the live channel: there is no
/// replay of history.
pub proof fn lemma_late_subscriber_gets_nothing(log: Seq<Event>, cursor: int)
    requires
        cursor == log.len(),
    ensures
        ({
            let start = if log.len() - cursor > CHANNEL_CAPACITY as int {
                log.len() - CHANNEL_CAPACITY as int
            } else {
                cursor
            };
            &&& start - cursor == 0
            &&& log.subrange(start, log.len() as int).len() == 0
        }),
{
}

/// Polling is lossless while the subscriber keeps up: a poll at `cursor`
/// and a second poll after the log grew deliver, concatenated, exactly
/// the log from `cursor` on — provided neither window exceeded the
/// channel capacity. Chained over a run's life from cursor zero, the
/// live channel reproduces the durable log element for element.
pub proof fn lemma_successive_polls_concatenate(l1: Seq<Event>, l2: Seq<Event>, cursor: int)
    requires
        0 <= cursor <= l1.len() <= l2.len(),
        forall|j: int| 0 <= j < l1.len() ==> #[trigger] l2[j] == l1[j],
        l1.len() - cursor <= CHANNEL_CAPACITY as int,
        l2.len() - l1.len() <= CHANNEL_CAPACITY as int,
    ensures
        ({
            let start1 = if l1.len() - cursor > CHANNEL_CAPACITY as int {
                l1.len() - CHANNEL_CAPACITY as int
            } else {
                cursor
            };
            let start2 = if l2.len() - l1.len() > CHANNEL_CAPACITY as int {
                l2.len() - CHANNEL_CAPACITY as int
            } else {
                l1.len() as int
            };
            view_events(l1.subrange(start1, l1.len() as int)) + view_events(
                l2.subrange(start2, l2.len() as int),
            ) == view_events(l2.subrange(cursor, l2.len() as int))
        }),
{
    broadcast use crate::types::lemma_view_events;

    let a = l1.subrange(cursor, l1.len() as int);
    let b = l2.subrange(l1.len() as int, l2.len() as int);
    let whole = l2.subrange(cursor, l2.len() as int);
    assert forall|j: int|
        0 <= j < whole.len() implies view_events(whole)[j] == (view_events(a) + view_events(
        b,
    ))[j] by {
        assert(view_events(whole)[j] == whole[j]@);
        if j < a.len() {
            assert(whole[j] == l2[cursor + j]);
            assert(l2[cursor + j] == l1[cursor + j]);
            assert(view_events(a)[j] == a[j]@);
            assert(a[j] == l1[cursor + j]);
        } else {
            assert(whole[j] == l2[cursor + j]);
            assert(view_events(b)[j - a.len()] == b[j - a.len()]@);
            assert(b[j - a.len()] == l2[cursor + j]);
        }
    }
    assert(view_events(a) + view_events(b) =~= view_events(whole));
}

/// The schema fingerprint is a function of the schema content alone:
/// byte-identical schema documents hash identically, however and
/// whenever they were registered.
pub proof fn lemma_schema_hash_deterministic(
    input_a: Option<Json>,
    output_a: Option<Json>,
    input_b: Option<Json>,
    output_b: Option<Json>,
)
    requires
        input_a == input_b,
        output_a == output_b,
    ensures
        schema_hash_chars(input_a, output_a) == schema_hash_chars(input_b, output_b),
{
}

} // verus!
