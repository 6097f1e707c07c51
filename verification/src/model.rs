//! The correlator as mathematics: what a record, a transaction and the store
//! are, and what each event does to them.

use crate::json::JsonFields;
use vstd::prelude::*;

verus! {

/// One ingested line.
pub struct LogLineView {
    /// The correlation id taken from the line.
    pub trace_id: Seq<char>,
    /// Arrival, in milliseconds since the epoch.
    pub received_at: u128,
    /// The line as it was read.
    pub line: Seq<char>,
    /// The members of the document that the line denotes.
    pub fields: JsonFields,
}

/// The state kept for one correlation id.
pub struct TransactionView {
    /// Whether a flush rule has matched.
    pub triggered: bool,
    /// The lines held back, oldest first.
    pub lines: Seq<LogLineView>,
}

/// The live transactions, by correlation id.
pub type StoreView = Map<Seq<char>, TransactionView>;

/// The texts of `lines`, in order.
pub open spec fn raw_lines(lines: Seq<LogLineView>) -> Seq<Seq<char>> {
    lines.map_values(|l: LogLineView| l.line)
}

/// Every one of `lines` carries the id `id`.
pub open spec fn all_from(lines: Seq<LogLineView>, id: Seq<char>) -> bool {
    forall|i: int| 0 <= i < lines.len() ==> (#[trigger] lines[i]).trace_id == id
}

impl TransactionView {
    /// A transaction that has seen nothing yet.
    pub open spec fn empty() -> TransactionView {
        TransactionView { triggered: false, lines: Seq::empty() }
    }

    /// A triggered transaction holds no lines.
    pub open spec fn wf(self) -> bool {
        self.triggered ==> self.lines.len() == 0
    }

    /// Milliseconds from the newest held line to `now`; zero where no line is
    /// held or `now` is not after it.
    pub open spec fn age(self, now: u128) -> u128 {
        if self.lines.len() == 0 {
            0
        } else if now > self.lines.last().received_at {
            (now - self.lines.last().received_at) as u128
        } else {
            0
        }
    }

    /// Whether a sweep at `now` discards the transaction.
    pub open spec fn expired(self, now: u128, timeout: u128) -> bool {
        self.age(now) > timeout
    }
}

/// Every transaction is well formed and holds only lines of its own id.
pub open spec fn store_wf(store: StoreView) -> bool {
    forall|id: Seq<char>| #[trigger]
        store.contains_key(id) ==> store[id].wf() && all_from(store[id].lines, id)
}

/// The store after a sweep at `now`: the transactions that have not expired,
/// unchanged.
pub open spec fn swept(store: StoreView, now: u128, timeout: u128) -> StoreView {
    Map::new(
        |id: Seq<char>| store.contains_key(id) && !store[id].expired(now, timeout),
        |id: Seq<char>| store[id],
    )
}

/// The transaction that a line of `id` meets: the live one, or a fresh one.
pub open spec fn transaction_for(store: StoreView, id: Seq<char>) -> TransactionView {
    if store.contains_key(id) {
        store[id]
    } else {
        TransactionView::empty()
    }
}

/// The lines that a record releases: itself where its transaction is already
/// triggered, the held lines and then itself where it triggers the
/// transaction, nothing otherwise.
pub open spec fn released(trx: TransactionView, line: LogLineView, flushes: bool) -> Seq<
    LogLineView,
> {
    if trx.triggered {
        seq![line]
    } else if flushes {
        trx.lines.push(line)
    } else {
        Seq::empty()
    }
}

/// The transaction after a record: triggered ones stay as they are, a flush
/// empties and triggers, anything else is held back.
pub open spec fn advanced(trx: TransactionView, line: LogLineView, flushes: bool)
    -> TransactionView {
    if trx.triggered {
        trx
    } else if flushes {
        TransactionView { triggered: true, lines: Seq::empty() }
    } else {
        TransactionView { triggered: false, lines: trx.lines.push(line) }
    }
}

/// The store after a record: its transaction advanced, or gone where the
/// record completes it.
pub open spec fn store_after(store: StoreView, line: LogLineView, flushes: bool, completes: bool)
    -> StoreView {
    if completes {
        store.remove(line.trace_id)
    } else {
        store.insert(
            line.trace_id,
            advanced(transaction_for(store, line.trace_id), line, flushes),
        )
    }
}

/// The lines that a record sends to the output, oldest first.
pub open spec fn emitted_by(store: StoreView, line: LogLineView, flushes: bool) -> Seq<
    LogLineView,
> {
    released(transaction_for(store, line.trace_id), line, flushes)
}

/// What the correlator is handed, one at a time.
pub enum Event {
    /// A line that has a record, with what the rules say of it.
    Record { line: LogLineView, flushes: bool, completes: bool },
    /// A line that has no record.
    Unparsed { text: Seq<char> },
    /// A sweep at the given time.
    Sweep { now: u128 },
}

/// One line of output, with where it came from.
pub enum Emission {
    /// A record, released by its transaction.
    Record(LogLineView),
    /// A line without a record, passed on as it is.
    Passed(Seq<char>),
}

impl Event {
    /// A record of `id`.
    pub open spec fn is_for(self, id: Seq<char>) -> bool {
        self matches Event::Record { line, .. } && line.trace_id == id
    }

    /// A record of `id` that matches a flush rule.
    pub open spec fn flushes_for(self, id: Seq<char>) -> bool {
        self matches Event::Record { line, flushes, .. } && line.trace_id == id && flushes
    }

    /// A record of `id` that matches a completion rule.
    pub open spec fn completes_for(self, id: Seq<char>) -> bool {
        self matches Event::Record { line, completes, .. } && line.trace_id == id && completes
    }
}

impl Emission {
    /// The text that is written.
    pub open spec fn text(self) -> Seq<char> {
        match self {
            Emission::Record(line) => line.line,
            Emission::Passed(text) => text,
        }
    }

    /// A record of `id`.
    pub open spec fn is_from(self, id: Seq<char>) -> bool {
        self matches Emission::Record(line) && line.trace_id == id
    }
}

/// `lines` as output.
pub open spec fn as_emissions(lines: Seq<LogLineView>) -> Seq<Emission> {
    lines.map_values(|l: LogLineView| Emission::Record(l))
}

/// The store after `event`.
pub open spec fn step_store(store: StoreView, timeout: u128, event: Event) -> StoreView {
    match event {
        Event::Record { line, flushes, completes } => store_after(store, line, flushes, completes),
        Event::Unparsed { text } => store,
        Event::Sweep { now } => swept(store, now, timeout),
    }
}

/// What `event` sends to the output.
pub open spec fn step_output(store: StoreView, event: Event) -> Seq<Emission> {
    match event {
        Event::Record { line, flushes, completes } => as_emissions(emitted_by(store, line, flushes)),
        Event::Unparsed { text } => seq![Emission::Passed(text)],
        Event::Sweep { now } => Seq::empty(),
    }
}

/// The store after `events`, taken in order.
pub open spec fn run_store(store: StoreView, timeout: u128, events: Seq<Event>) -> StoreView
    decreases events.len(),
{
    if events.len() == 0 {
        store
    } else {
        step_store(run_store(store, timeout, events.drop_last()), timeout, events.last())
    }
}

/// Everything that `events`, taken in order, send to the output.
pub open spec fn run_output(store: StoreView, timeout: u128, events: Seq<Event>) -> Seq<Emission>
    decreases events.len(),
{
    if events.len() == 0 {
        Seq::empty()
    } else {
        run_output(store, timeout, events.drop_last()) + step_output(
            run_store(store, timeout, events.drop_last()),
            events.last(),
        )
    }
}

/// The records of `id` among `events`, in order.
pub open spec fn lines_of(events: Seq<Event>, id: Seq<char>) -> Seq<LogLineView>
    decreases events.len(),
{
    if events.len() == 0 {
        Seq::empty()
    } else if events.last().is_for(id) {
        lines_of(events.drop_last(), id).push(events.last()->line)
    } else {
        lines_of(events.drop_last(), id)
    }
}

/// The texts of `output`, in order.
pub open spec fn texts_of(output: Seq<Emission>) -> Seq<Seq<char>> {
    output.map_values(|e: Emission| e.text())
}

/// Whether `event` takes the store from `before` to `after` and writes the
/// texts `written`.
pub open spec fn stepped(
    before: StoreView,
    after: StoreView,
    written: Seq<Seq<char>>,
    timeout: u128,
    event: Event,
) -> bool {
    &&& after == step_store(before, timeout, event)
    &&& written == texts_of(step_output(before, event))
}

/// Records are written as their texts.
pub proof fn lemma_texts_of_records(lines: Seq<LogLineView>)
    ensures
        texts_of(as_emissions(lines)) == raw_lines(lines),
{
    assert(texts_of(as_emissions(lines)) =~= raw_lines(lines));
}

} // verus!
