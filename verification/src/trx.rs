//! Records, transactions, the store that holds them and the handler that
//! decides, line by line, what reaches the output.

use crate::clock::unix_millis;
use crate::config::texts;
use crate::config::TrxConfig;
use crate::json::as_text;
use crate::json::json_fields;
use crate::json::json_parse;
use crate::json::member;
use crate::json::parse_document;
use crate::json::JsonField;
use crate::json::JsonFields;
use crate::model::advanced;
use crate::model::all_from;
use crate::model::emitted_by;
use crate::model::lemma_texts_of_records;
use crate::model::raw_lines;
use crate::model::store_wf;
use crate::model::stepped;
use crate::model::texts_of;
use crate::model::transaction_for;
use crate::model::Emission;
use crate::model::Event;
use crate::model::LogLineView;
use crate::model::StoreView;
use crate::model::TransactionView;
pub use crate::store::TrxStore;
use serde_json::Value;
use vstd::prelude::*;

verus! {

/// One ingested line: its text, the document it denotes, the correlation id
/// found in it and the time it arrived.
#[derive(Debug)]
pub struct LogLine {
    trace_id: String,
    received_at: u128,
    line: String,
    json_line: Value,
}

impl View for LogLine {
    type V = LogLineView;

    closed spec fn view(&self) -> LogLineView {
        LogLineView {
            trace_id: self.trace_id@,
            received_at: self.received_at,
            line: self.line@,
            fields: json_fields(self.json_line),
        }
    }
}

/// The views of `lines`, in order.
pub open spec fn line_views(lines: Seq<LogLine>) -> Seq<LogLineView> {
    lines.map_values(|l: LogLine| l@)
}

impl Clone for LogLine {
    fn clone(&self) -> (r: Self)
        ensures
            r@ == self@,
    {
        Self {
            trace_id: self.trace_id.clone(),
            received_at: self.received_at,
            line: self.line.clone(),
            json_line: self.json_line.clone(),
        }
    }
}

impl LogLine {
    /// A record of the given parts.
    pub fn new(trace_id: String, received_at: u128, line: String, json_line: Value) -> (r: Self)
        ensures
            r@ == (LogLineView {
                trace_id: trace_id@,
                received_at,
                line: line@,
                fields: json_fields(json_line),
            }),
    {
        Self { trace_id, received_at, line, json_line }
    }

    /// The correlation id.
    pub fn trace_id(&self) -> (r: &String)
        ensures
            r@ == self@.trace_id,
    {
        &self.trace_id
    }

    /// Arrival, in milliseconds since the epoch.
    pub fn received_at(&self) -> (r: u128)
        ensures
            r == self@.received_at,
    {
        self.received_at
    }

    /// The line as it was read.
    pub fn line(&self) -> (r: &String)
        ensures
            r@ == self@.line,
    {
        &self.line
    }

    /// The document that the line denotes.
    pub fn json_line(&self) -> (r: &Value)
        ensures
            json_fields(*r) == self@.fields,
    {
        &self.json_line
    }
}

/// Why a line yields no record.
#[derive(Debug, Clone, Copy, PartialEq, Eq, Structural)]
pub enum ParseError {
    /// The line is not a JSON document.
    Malformed,
    /// The document has no string member under the correlation field.
    MissingTraceId,
}

/// The correlation id of `doc`: the text of its member `field`, where it has
/// one and that is a string.
pub open spec fn trace_id_of(doc: JsonFields, field: Seq<char>) -> Option<Seq<char>> {
    if doc.contains_key(field) {
        match doc[field] {
            JsonField::Text(id) => Some(id),
            _ => None,
        }
    } else {
        None
    }
}

/// What `line` parses to under the correlation field `field`: the members of
/// its document and its correlation id, or why it has none.
pub open spec fn parsed(line: Seq<char>, field: Seq<char>) -> Result<
    (JsonFields, Seq<char>),
    ParseError,
> {
    match json_parse(line) {
        None => Err(ParseError::Malformed),
        Some(doc) => match trace_id_of(doc, field) {
            None => Err(ParseError::MissingTraceId),
            Some(id) => Ok((doc, id)),
        },
    }
}

/// Turns lines into records.
#[derive(Debug)]
pub struct LogLineParser {
    pub trx_id_field: String,
}

impl LogLineParser {
    /// Finds the correlation id in the document of a line and makes the
    /// record; fails where the document has no string under the correlation
    /// field.
    pub fn extract(&self, line: &str, json_line: Value, received_at: u128) -> (r: Result<
        LogLine,
        ParseError,
    >)
        ensures
            match trace_id_of(json_fields(json_line), self.trx_id_field@) {
                Some(id) => r matches Ok(record) && record@ == (LogLineView {
                    trace_id: id,
                    received_at,
                    line: line@,
                    fields: json_fields(json_line),
                }),
                None => r == Err::<LogLine, ParseError>(ParseError::MissingTraceId),
            },
    {
        let trace_id = match member(&json_line, self.trx_id_field.as_str()) {
            Some(value) => match as_text(value) {
                Some(text) => text.to_owned(),
                None => { return Err(ParseError::MissingTraceId); },
            },
            None => { return Err(ParseError::MissingTraceId); },
        };
        Ok(LogLine::new(trace_id, received_at, line.to_owned(), json_line))
    }

    /// Parses a line that arrived at `received_at`.
    pub fn parse_at(&self, line: &str, received_at: u128) -> (r: Result<LogLine, ParseError>)
        ensures
            match parsed(line@, self.trx_id_field@) {
                Ok((doc, id)) => r matches Ok(record) && record@ == (LogLineView {
                    trace_id: id,
                    received_at,
                    line: line@,
                    fields: doc,
                }),
                Err(e) => r == Err::<LogLine, ParseError>(e),
            },
    {
        match parse_document(line) {
            Ok(json_line) => self.extract(line, json_line, received_at),
            Err(_) => Err(ParseError::Malformed),
        }
    }

    /// Parses a line that arrives now. Whether it parses, and to what, depends
    /// on the line alone; only the arrival time is read from the clock.
    pub fn parse(&self, line: &str) -> (r: Result<LogLine, ParseError>)
        ensures
            match parsed(line@, self.trx_id_field@) {
                Ok((doc, id)) => {
                    &&& r matches Ok(record)
                    &&& record@.trace_id == id
                    &&& record@.line == line@
                    &&& record@.fields == doc
                },
                Err(e) => r == Err::<LogLine, ParseError>(e),
            },
    {
        let received_at = unix_millis();
        self.parse_at(line, received_at)
    }
}

/// What reaches the handler.
#[derive(Debug)]
pub enum Message {
    /// A new log line to process
    Line(String),
    /// Time to clean up expired transactions
    Cleanup(u128),
    /// Stop the processing loop
    Shutdown,
}

/// The held-back lines of one correlation id, and whether a flush rule has
/// matched for it.
#[derive(Debug)]
pub struct Transaction {
    triggered: bool,
    log_lines: Vec<LogLine>,
}

impl View for Transaction {
    type V = TransactionView;

    closed spec fn view(&self) -> TransactionView {
        TransactionView { triggered: self.triggered, lines: line_views(self.log_lines@) }
    }
}

impl Transaction {
    /// A transaction that has seen nothing yet.
    pub fn new() -> (r: Self)
        ensures
            r@ == TransactionView::empty(),
    {
        let r = Self { triggered: false, log_lines: Vec::with_capacity(10) };
        assert(r@.lines =~= Seq::empty());
        r
    }

    /// Holds `log_line` back, behind the lines already held.
    pub fn add(&mut self, log_line: LogLine)
        requires
            !old(self)@.triggered,
        ensures
            final(self)@ == (TransactionView {
                triggered: false,
                lines: old(self)@.lines.push(log_line@),
            }),
    {
        self.log_lines.push(log_line);
        assert(line_views(self.log_lines@) =~= line_views(old(self).log_lines@).push(log_line@));
    }

    /// Milliseconds from the newest held line to `now`; zero where no line is
    /// held or `now` is not after it.
    pub fn age(&self, now: u128) -> (r: u128)
        ensures
            r == self@.age(now),
    {
        let n = self.log_lines.len();
        if n == 0 {
            return 0;
        }
        let last = &self.log_lines[n - 1];
        assert(self@.lines.last() == last@);
        if now > last.received_at {
            now - last.received_at
        } else {
            0
        }
    }

    /// Whether a flush rule has matched.
    pub fn is_triggered(&self) -> (r: bool)
        ensures
            r == self@.triggered,
    {
        self.triggered
    }

    /// The lines held back, oldest first.
    pub fn log_lines(&self) -> (r: &Vec<LogLine>)
        ensures
            line_views(r@) == self@.lines,
    {
        &self.log_lines
    }

    /// Marks the transaction triggered and hands out the texts of the lines
    /// it held, oldest first; it holds none afterwards.
    pub fn trigger(&mut self) -> (out: Vec<String>)
        ensures
            final(self)@ == (TransactionView { triggered: true, lines: Seq::empty() }),
            texts(out@) == raw_lines(old(self)@.lines),
    {
        let mut out: Vec<String> = Vec::new();
        let mut i: usize = 0;
        while i < self.log_lines.len()
            invariant
                i <= self.log_lines.len(),
                self.log_lines == old(self).log_lines,
                out@.len() == i,
                forall|k: int| 0 <= k < i ==> (#[trigger] out@[k])@ == self.log_lines@[k].line@,
            decreases self.log_lines.len() - i,
        {
            out.push(self.log_lines[i].line.clone());
            i += 1;
        }
        self.log_lines.clear();
        self.triggered = true;
        assert(texts(out@) =~= raw_lines(old(self)@.lines));
        assert(self@.lines =~= Seq::empty());
        out
    }
}

/// The event that `record` is under the rules of `conf`.
pub open spec fn record_event(conf: TrxConfig, record: LogLineView) -> Event {
    Event::Record {
        line: record,
        flushes: conf.flushes(record.fields),
        completes: conf.completes(record.fields),
    }
}

/// The event that the text `line` is under `conf`, had it arrived at
/// `received_at`: its record where it has one, else a line without a record.
pub open spec fn line_event(conf: TrxConfig, line: Seq<char>, received_at: u128) -> Event {
    match parsed(line, conf.id_field@) {
        Ok(found) => record_event(
            conf,
            LogLineView { trace_id: found.1, received_at, line, fields: found.0 },
        ),
        Err(_) => Event::Unparsed { text: line },
    }
}

/// The correlator: a store of transactions, the parser that turns lines into
/// records and the rules that decide what becomes of each record.
pub struct TrxHandler {
    store: TrxStore,
    line_parser: LogLineParser,
    conf: TrxConfig,
}

impl TrxHandler {
    /// The live transactions.
    pub closed spec fn transactions(&self) -> StoreView {
        self.store@
    }

    /// The settings that the handler was made with.
    pub closed spec fn config(&self) -> TrxConfig {
        self.conf
    }

    /// Store and parser follow the settings.
    pub closed spec fn consistent(&self) -> bool {
        &&& self.store.wf()
        &&& self.store.timeout() == self.conf.timeout
        &&& self.line_parser.trx_id_field@ == self.conf.id_field@
    }

    /// The parts agree with each other, every transaction is well formed and
    /// each holds only lines of its own id.
    pub open spec fn wf(&self) -> bool {
        &&& self.consistent()
        &&& store_wf(self.transactions())
    }

    /// A handler with no live transaction.
    pub fn new(conf: TrxConfig) -> (r: Self)
        ensures
            r.wf(),
            r.transactions() == Map::<Seq<char>, TransactionView>::empty(),
            r.config() == conf,
    {
        Self {
            store: TrxStore::new(conf.timeout as u128),
            line_parser: LogLineParser { trx_id_field: conf.id_field.clone() },
            conf,
        }
    }

    /// The store of live transactions.
    pub fn store(&self) -> (r: &TrxStore)
        requires
            self.wf(),
        ensures
            r.wf(),
            r@ == self.transactions(),
            r.timeout() == self.config().timeout,
    {
        &self.store
    }

    /// Takes one record whose rule matches are known. A record of a triggered
    /// transaction is released at once. A record that flushes releases the
    /// lines held for its id, oldest first, and then itself, and triggers the
    /// transaction. Any other record is held back. A record that completes
    /// ends its transaction, whatever else it did.
    pub fn apply(&mut self, log_line: LogLine, flushes: bool, completes: bool) -> (out: Vec<
        String,
    >)
        requires
            old(self).wf(),
        ensures
            final(self).wf(),
            final(self).config() == old(self).config(),
            stepped(
                old(self).transactions(),
                final(self).transactions(),
                texts(out@),
                old(self).config().timeout as u128,
                Event::Record { line: log_line@, flushes, completes },
            ),
    {
        let ghost before = self.store@;
        let ghost id = log_line@.trace_id;
        let ghost met = transaction_for(before, id);
        let trace_id = log_line.trace_id.clone();
        let mut out: Vec<String> = Vec::new();
        let trx = self.store.get(&log_line);
        assert(met.wf() && all_from(met.lines, id));
        if trx.is_triggered() {
            out.push(log_line.line);
            assert(texts(out@) =~= raw_lines(seq![log_line@]));
        } else if flushes {
            out = trx.trigger();
            let ghost held = out@;
            out.push(log_line.line);
            assert(texts(out@) =~= texts(held).push(log_line@.line));
            assert(raw_lines(met.lines.push(log_line@)) =~= raw_lines(met.lines).push(
                log_line@.line,
            ));
        } else {
            trx.add(log_line);
            assert(texts(out@) =~= raw_lines(Seq::<LogLineView>::empty()));
        }
        assert(self.store@ == before.insert(id, advanced(met, log_line@, flushes)));
        if completes {
            self.store.remove(&trace_id);
            assert(self.store@ =~= before.remove(id));
        }
        proof {
            lemma_texts_of_records(emitted_by(before, log_line@, flushes));
        }
        out
    }

    /// Holds a record to the flush and completion rules and takes it
    /// accordingly: see [`TrxHandler::apply`].
    pub fn handle_record(&mut self, log_line: LogLine) -> (out: Vec<String>)
        requires
            old(self).wf(),
        ensures
            final(self).wf(),
            final(self).config() == old(self).config(),
            stepped(
                old(self).transactions(),
                final(self).transactions(),
                texts(out@),
                old(self).config().timeout as u128,
                record_event(old(self).config(), log_line@),
            ),
    {
        let (triggers_flush, completes_trx) = self.conf.matches(&log_line.json_line);
        self.apply(log_line, triggers_flush, completes_trx)
    }

    /// Parses a line and takes its record. A line that has no record changes
    /// nothing and is reported with the reason; else the lines to release are
    /// returned, oldest first.
    pub fn handle_trx_line(&mut self, line: &str) -> (r: Result<Vec<String>, ParseError>)
        requires
            old(self).wf(),
        ensures
            final(self).wf(),
            final(self).config() == old(self).config(),
            r is Ok <==> parsed(line@, old(self).config().id_field@) is Ok,
            r matches Ok(out) ==> exists|received_at: u128|
                stepped(
                    old(self).transactions(),
                    final(self).transactions(),
                    texts(out@),
                    old(self).config().timeout as u128,
                    #[trigger] line_event(old(self).config(), line@, received_at),
                ),
            r matches Err(e) ==> parsed(line@, old(self).config().id_field@) == Err::<
                (JsonFields, Seq<char>),
                ParseError,
            >(e) && final(self).transactions() == old(self).transactions(),
    {
        match self.line_parser.parse(line) {
            Ok(log_line) => {
                let ghost record = log_line@;
                let out = self.handle_record(log_line);
                assert(line_event(old(self).config(), line@, record.received_at) == record_event(
                    old(self).config(),
                    record,
                ));
                Ok(out)
            },
            Err(e) => Err(e),
        }
    }

    /// Reacts to one message. `None` asks the caller to stop; otherwise the
    /// lines to write to the output are returned, in order. A line without a
    /// record is passed through as it is; a sweep writes nothing.
    pub fn observe(&mut self, message: Message) -> (r: Option<Vec<String>>)
        requires
            old(self).wf(),
        ensures
            final(self).wf(),
            final(self).config() == old(self).config(),
            match message {
                Message::Line(line) => r matches Some(out) && exists|received_at: u128|
                    stepped(
                        old(self).transactions(),
                        final(self).transactions(),
                        texts(out@),
                        old(self).config().timeout as u128,
                        #[trigger] line_event(old(self).config(), line@, received_at),
                    ),
                Message::Cleanup(now) => r matches Some(out) && stepped(
                    old(self).transactions(),
                    final(self).transactions(),
                    texts(out@),
                    old(self).config().timeout as u128,
                    Event::Sweep { now },
                ),
                Message::Shutdown => {
                    &&& r is None
                    &&& final(self).transactions() == old(self).transactions()
                },
            },
    {
        match message {
            Message::Line(line) => {
                match self.handle_trx_line(line.as_str()) {
                    Ok(out) => Some(out),
                    Err(_) => {
                        let mut out: Vec<String> = Vec::new();
                        out.push(line);
                        assert(texts(out@) =~= texts_of(seq![Emission::Passed(line@)]));
                        assert(line_event(old(self).config(), line@, 0) == (Event::Unparsed {
                            text: line@,
                        }));
                        Some(out)
                    },
                }
            },
            Message::Cleanup(now) => {
                self.store.cleanup(now);
                let out: Vec<String> = Vec::new();
                assert(texts(out@) =~= texts_of(Seq::<Emission>::empty()));
                Some(out)
            },
            Message::Shutdown => None,
        }
    }
}

} // verus!
