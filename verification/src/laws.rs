//! What holds of the correlator over whole runs of events.

use crate::model::advanced;
use crate::model::all_from;
use crate::model::as_emissions;
use crate::model::emitted_by;
use crate::model::lines_of;
use crate::model::released;
use crate::model::run_output;
use crate::model::run_store;
use crate::model::step_output;
use crate::model::step_store;
use crate::model::store_after;
use crate::model::store_wf;
use crate::model::swept;
use crate::model::transaction_for;
use crate::model::Emission;
use crate::model::Event;
use crate::model::LogLineView;
use crate::model::StoreView;
use crate::model::TransactionView;
use vstd::prelude::*;

verus! {

/// The transaction of `id` is live and triggered.
pub open spec fn triggered_in(store: StoreView, id: Seq<char>) -> bool {
    store.contains_key(id) && store[id].triggered
}

/// No record of `id` among `events` matches a flush rule.
pub open spec fn never_flushes(events: Seq<Event>, id: Seq<char>) -> bool {
    forall|i: int| 0 <= i < events.len() ==> !(#[trigger] events[i]).flushes_for(id)
}

/// No record of `id` among `events` matches a completion rule.
pub open spec fn never_completes(events: Seq<Event>, id: Seq<char>) -> bool {
    forall|i: int| 0 <= i < events.len() ==> !(#[trigger] events[i]).completes_for(id)
}

/// No record of `id` is among `events`.
pub open spec fn silent(events: Seq<Event>, id: Seq<char>) -> bool {
    forall|i: int| 0 <= i < events.len() ==> !(#[trigger] events[i]).is_for(id)
}

/// No sweep among `events` finds the transaction of `id` expired.
pub open spec fn survives_sweeps(
    store: StoreView,
    timeout: u128,
    events: Seq<Event>,
    id: Seq<char>,
) -> bool {
    forall|i: int|
        0 <= i < events.len() ==> (#[trigger] events[i] matches Event::Sweep { now } ==> !transaction_for(
            run_store(store, timeout, events.take(i)),
            id,
        ).expired(now, timeout))
}

/// Nothing in `output` is a record of `id`.
pub open spec fn nothing_from(output: Seq<Emission>, id: Seq<char>) -> bool {
    forall|k: int| 0 <= k < output.len() ==> !(#[trigger] output[k]).is_from(id)
}

/// A well-formed store stays well formed under every event.
pub proof fn lemma_step_keeps_wf(store: StoreView, timeout: u128, event: Event)
    requires
        store_wf(store),
    ensures
        store_wf(step_store(store, timeout, event)),
{
    let after = step_store(store, timeout, event);
    assert forall|id: Seq<char>| #[trigger] after.contains_key(id) implies after[id].wf()
        && all_from(after[id].lines, id) by {
        match event {
            Event::Record { line, flushes, completes } => {
                if id != line.trace_id {
                    assert(store.contains_key(id));
                } else {
                    let met = transaction_for(store, id);
                    if store.contains_key(id) {
                        assert(met.wf() && all_from(met.lines, id));
                    }
                    assert(after[id] == advanced(met, line, flushes));
                }
            },
            Event::Unparsed { text } => {},
            Event::Sweep { now } => {
                assert(store.contains_key(id));
            },
        }
    }
}

/// A run of one event more is the run so far and then a step.
pub proof fn lemma_run_prefix(store: StoreView, timeout: u128, events: Seq<Event>, i: int)
    requires
        0 <= i < events.len(),
    ensures
        run_store(store, timeout, events.take(i + 1)) == step_store(
            run_store(store, timeout, events.take(i)),
            timeout,
            events[i],
        ),
        run_output(store, timeout, events.take(i + 1)) == run_output(
            store,
            timeout,
            events.take(i),
        ) + step_output(run_store(store, timeout, events.take(i)), events[i]),
{
    let longer = events.take(i + 1);
    assert(longer.drop_last() =~= events.take(i));
    assert(longer.last() == events[i]);
}

/// A sweep is strict: a transaction whose newest line is no older than the
/// timeout, the boundary included, stays as it is; so does one that holds no
/// line.
pub proof fn law_sweep_is_strict(store: StoreView, now: u128, timeout: u128, id: Seq<char>)
    requires
        store.contains_key(id),
        store[id].lines.len() > 0 ==> now <= store[id].lines.last().received_at + timeout,
    ensures
        swept(store, now, timeout).contains_key(id),
        swept(store, now, timeout)[id] == store[id],
{
}

/// Sweeping twice at the same time removes what sweeping once removes: the
/// second sweep finds nothing to discard.
pub proof fn law_sweep_idempotent(store: StoreView, now: u128, timeout: u128)
    ensures
        swept(swept(store, now, timeout), now, timeout) == swept(store, now, timeout),
{
    assert(swept(swept(store, now, timeout), now, timeout) =~= swept(store, now, timeout));
}

/// While no record of `id` matches a flush rule, its transaction is not
/// triggered and nothing of it is written.
proof fn lemma_quiet_run(store: StoreView, timeout: u128, events: Seq<Event>, id: Seq<char>)
    requires
        store_wf(store),
        !triggered_in(store, id),
        never_flushes(events, id),
    ensures
        store_wf(run_store(store, timeout, events)),
        !triggered_in(run_store(store, timeout, events), id),
        nothing_from(run_output(store, timeout, events), id),
    decreases events.len(),
{
    if events.len() > 0 {
        let earlier = events.drop_last();
        let event = events.last();
        assert forall|i: int| 0 <= i < earlier.len() implies !(#[trigger] earlier[i]).flushes_for(
            id,
        ) by {
            assert(earlier[i] == events[i]);
        }
        lemma_quiet_run(store, timeout, earlier, id);
        let before = run_store(store, timeout, earlier);
        lemma_step_keeps_wf(before, timeout, event);
        assert(!event.flushes_for(id));
        let written = step_output(before, event);
        assert forall|k: int| 0 <= k < written.len() implies !(#[trigger] written[k]).is_from(
            id,
        ) by {
            match event {
                Event::Record { line, flushes, completes } => {
                    let met = transaction_for(before, line.trace_id);
                    let lines = released(met, line, flushes);
                    assert(written[k] == Emission::Record(lines[k]));
                    if line.trace_id != id {
                        if before.contains_key(line.trace_id) {
                            assert(all_from(met.lines, line.trace_id));
                        }
                        assert(lines[k].trace_id == line.trace_id);
                    }
                },
                Event::Unparsed { text } => {},
                Event::Sweep { now } => {},
            }
        }
    }
}

/// No-trigger discard: starting where the transaction of `id` is not
/// triggered, a run in which no line of `id` matches a flush rule writes no
/// line of `id`; and a sweep that then finds the transaction idle for longer
/// than the timeout removes it, so that what it held is never written.
pub proof fn law_no_trigger_discard(
    store: StoreView,
    timeout: u128,
    events: Seq<Event>,
    id: Seq<char>,
    now: u128,
)
    requires
        store_wf(store),
        !triggered_in(store, id),
        never_flushes(events, id),
    ensures
        nothing_from(run_output(store, timeout, events), id),
        nothing_from(run_output(store, timeout, events.push(Event::Sweep { now })), id),
        transaction_for(run_store(store, timeout, events), id).expired(now, timeout)
            ==> !run_store(store, timeout, events.push(Event::Sweep { now })).contains_key(id),
{
    lemma_quiet_run(store, timeout, events, id);
    let longer = events.push(Event::Sweep { now });
    assert(longer.drop_last() =~= events);
    assert(longer.last() == Event::Sweep { now });
    assert(run_output(store, timeout, longer) =~= run_output(store, timeout, events));
}

/// While no record of `id` flushes or completes and no sweep finds its
/// transaction expired, a transaction that started out absent holds exactly
/// the records of `id`, in the order they came.
proof fn lemma_history_held(store: StoreView, timeout: u128, events: Seq<Event>, id: Seq<char>)
    requires
        !store.contains_key(id),
        never_flushes(events, id),
        never_completes(events, id),
        survives_sweeps(store, timeout, events, id),
    ensures
        transaction_for(run_store(store, timeout, events), id) == (TransactionView {
            triggered: false,
            lines: lines_of(events, id),
        }),
    decreases events.len(),
{
    if events.len() > 0 {
        let earlier = events.drop_last();
        let event = events.last();
        let n = earlier.len() as int;
        assert forall|i: int| 0 <= i < earlier.len() implies !(#[trigger] earlier[i]).flushes_for(
            id,
        ) && !earlier[i].completes_for(id) by {
            assert(earlier[i] == events[i]);
        }
        assert forall|i: int| 0 <= i < earlier.len() implies (#[trigger] earlier[i] matches Event::Sweep {
            now,
        } ==> !transaction_for(run_store(store, timeout, earlier.take(i)), id).expired(
            now,
            timeout,
        )) by {
            assert(earlier[i] == events[i]);
            assert(earlier.take(i) =~= events.take(i));
        }
        lemma_history_held(store, timeout, earlier, id);
        let before = run_store(store, timeout, earlier);
        assert(events.take(n) =~= earlier);
        assert(events[n] == event);
        assert(!event.flushes_for(id) && !event.completes_for(id));
        match event {
            Event::Record { line, flushes, completes } => {},
            Event::Unparsed { text } => {},
            Event::Sweep { now } => {
                assert(!transaction_for(before, id).expired(now, timeout));
            },
        }
    } else {
        assert(lines_of(events, id) =~= Seq::empty());
    }
}

/// Full-history flush: let the transaction of a record's id start out absent,
/// and let the events before the record hold lines of that id that neither
/// flush nor complete, and no sweep that finds the transaction expired. If
/// the record then matches a flush rule, it releases exactly those lines, in
/// the order they came, and then itself; none of them was written before.
pub proof fn law_full_history_flush(
    store: StoreView,
    timeout: u128,
    events: Seq<Event>,
    record: LogLineView,
    completes: bool,
)
    requires
        store_wf(store),
        !store.contains_key(record.trace_id),
        never_flushes(events, record.trace_id),
        never_completes(events, record.trace_id),
        survives_sweeps(store, timeout, events, record.trace_id),
    ensures
        nothing_from(run_output(store, timeout, events), record.trace_id),
        step_output(
            run_store(store, timeout, events),
            Event::Record { line: record, flushes: true, completes },
        ) == as_emissions(lines_of(events, record.trace_id).push(record)),
{
    lemma_quiet_run(store, timeout, events, record.trace_id);
    lemma_history_held(store, timeout, events, record.trace_id);
}

/// While no record of `id` completes, a triggered transaction of `id` stays
/// live and triggered.
proof fn lemma_triggered_stays(store: StoreView, timeout: u128, events: Seq<Event>, id: Seq<char>)
    requires
        store_wf(store),
        triggered_in(store, id),
        never_completes(events, id),
    ensures
        store_wf(run_store(store, timeout, events)),
        triggered_in(run_store(store, timeout, events), id),
    decreases events.len(),
{
    if events.len() > 0 {
        let earlier = events.drop_last();
        let event = events.last();
        assert forall|i: int| 0 <= i < earlier.len() implies !(#[trigger] earlier[i]).completes_for(
            id,
        ) by {
            assert(earlier[i] == events[i]);
        }
        lemma_triggered_stays(store, timeout, earlier, id);
        let before = run_store(store, timeout, earlier);
        lemma_step_keeps_wf(before, timeout, event);
        assert(!event.completes_for(id));
        assert(before[id].wf());
    }
}

/// Passthrough permanence: once the transaction of `id` is triggered, and for
/// as long as no line of `id` completes it, every line of `id` is written at
/// once and alone, is not held back, and leaves the transaction triggered.
pub proof fn law_passthrough_permanence(
    store: StoreView,
    timeout: u128,
    events: Seq<Event>,
    id: Seq<char>,
    i: int,
)
    requires
        store_wf(store),
        triggered_in(store, id),
        never_completes(events, id),
        0 <= i < events.len(),
        events[i].is_for(id),
    ensures
        step_output(run_store(store, timeout, events.take(i)), events[i]) == seq![
            Emission::Record(events[i]->line),
        ],
        triggered_in(run_store(store, timeout, events.take(i + 1)), id),
        run_store(store, timeout, events.take(i + 1))[id].lines.len() == 0,
        triggered_in(run_store(store, timeout, events), id),
{
    let earlier = events.take(i);
    assert forall|k: int| 0 <= k < earlier.len() implies !(#[trigger] earlier[k]).completes_for(
        id,
    ) by {
        assert(earlier[k] == events[k]);
    }
    lemma_triggered_stays(store, timeout, earlier, id);
    lemma_triggered_stays(store, timeout, events, id);
    lemma_run_prefix(store, timeout, events, i);
    let before = run_store(store, timeout, earlier);
    assert(!events[i].completes_for(id));
    assert(before[id].wf());
    let line = events[i]->line;
    assert(as_emissions(seq![line]) =~= seq![Emission::Record(line)]);
}

/// While no record of `id` arrives, an absent transaction of `id` stays
/// absent.
proof fn lemma_absent_stays(store: StoreView, timeout: u128, events: Seq<Event>, id: Seq<char>)
    requires
        !store.contains_key(id),
        silent(events, id),
    ensures
        !run_store(store, timeout, events).contains_key(id),
    decreases events.len(),
{
    if events.len() > 0 {
        let earlier = events.drop_last();
        assert forall|i: int| 0 <= i < earlier.len() implies !(#[trigger] earlier[i]).is_for(
            id,
        ) by {
            assert(earlier[i] == events[i]);
        }
        lemma_absent_stays(store, timeout, earlier, id);
        assert(!events.last().is_for(id));
    }
}

/// Completion resets: a record that matches a completion rule leaves no
/// transaction of its id behind. Whatever happens to other ids in between,
/// the next record of that id meets a fresh transaction: it releases only
/// itself, and only if it flushes, and what the store then holds for the id
/// is what a fresh transaction becomes.
pub proof fn law_completion_resets(
    store: StoreView,
    timeout: u128,
    last: LogLineView,
    last_flushes: bool,
    between: Seq<Event>,
    next: LogLineView,
    next_flushes: bool,
)
    requires
        last.trace_id == next.trace_id,
        silent(between, next.trace_id),
    ensures
        ({
            let ended = store_after(store, last, last_flushes, true);
            let met = run_store(ended, timeout, between);
            &&& !ended.contains_key(next.trace_id)
            &&& !met.contains_key(next.trace_id)
            &&& emitted_by(met, next, next_flushes) == released(
                TransactionView::empty(),
                next,
                next_flushes,
            )
            &&& store_after(met, next, next_flushes, false)[next.trace_id] == advanced(
                TransactionView::empty(),
                next,
                next_flushes,
            )
        }),
{
    let ended = store_after(store, last, last_flushes, true);
    lemma_absent_stays(ended, timeout, between, next.trace_id);
}

} // verus!
