//! A telnet protocol engine: turns raw, possibly fragmented bytes from a
//! connection into structured protocol events, and application intents into
//! correctly framed outbound byte sequences.

pub mod codec;
pub mod compatibility;
pub mod events;
pub mod laws;
pub mod lines;
pub mod model;
pub mod scan;
pub mod telnet;

use vstd::prelude::*;
use vstd::slice::slice_to_vec;
use vstd::string::StringSliceAdditionalSpecFns;

use crate::codec::{escape_seq, unescape_from, unescape_seq};
use crate::compatibility::{remote_enabled_of, remote_support_of, Table};
use crate::events::{models, option_model, Event, EventModel, Iac, Negotiation, Subnegotiation};
use crate::lines::{CR, LF};
use crate::model::{
    do_spec, dont_spec, negotiation_events, process_one, process_spans, receive_spec,
    subnegotiation_spec, will_spec, wont_spec, ProcState,
};
use crate::scan::{
    append_bytes, append_slice, copy_range, scan_buffer, scan_spans, span_models, SpanBuf,
};
use crate::telnet::op_command::{DO, DONT, IAC, SE, WILL, WONT};
use crate::telnet::op_option::LINEMODE;

verus! {

/// The abstract state of a [`Parser`]: the raw flag byte of each of the 256
/// table entries, the line-deframing toggle, the unparsed-input buffer and
/// the line-accumulation buffer.
pub struct ParserModel {
    pub table: Seq<u8>,
    pub deframe: bool,
    pub buffer: Seq<u8>,
    pub line: Seq<u8>,
}

/// A telnet parser that handles the main parts of the protocol.
pub struct Parser {
    pub options: Table,
    pub deframe_lines: bool,
    buffer: Vec<u8>,
    line_buffer: Vec<u8>,
}

impl View for Parser {
    type V = ParserModel;

    closed spec fn view(&self) -> ParserModel {
        ParserModel {
            table: self.options@,
            deframe: self.deframe_lines,
            buffer: self.buffer@,
            line: self.line_buffer@,
        }
    }
}

/// The model of a freshly constructed parser over the given table.
pub open spec fn fresh_parser(table: Seq<u8>) -> ParserModel {
    ParserModel { table, deframe: false, buffer: Seq::empty(), line: Seq::empty() }
}

impl Default for Parser {
    /// An empty parser with the default initial buffer capacity.
    fn default() -> (r: Self)
        ensures
            r@ == fresh_parser(r@.table),
            r@.table.len() == 256,
            forall|i: int| 0 <= i < 256 ==> r@.table[i] == 0,
    {
        Parser::with_capacity(128)
    }
}

impl Parser {
    /// Create a default, empty parser with an internal buffer capacity of
    /// 128 bytes.
    #[must_use]
    pub fn new() -> (r: Self)
        ensures
            r@ == fresh_parser(r@.table),
            r@.table.len() == 256,
            forall|i: int| 0 <= i < 256 ==> r@.table[i] == 0,
    {
        Parser::default()
    }

    /// Create an empty parser, setting the initial internal buffer capacity.
    #[must_use]
    pub fn with_capacity(size: usize) -> (r: Self)
        ensures
            r@ == fresh_parser(r@.table),
            r@.table.len() == 256,
            forall|i: int| 0 <= i < 256 ==> r@.table[i] == 0,
    {
        Parser::with_support_and_capacity(Table::default(), size)
    }

    /// Create a parser, directly supplying a compatibility [`Table`].
    ///
    /// Uses the default initial buffer capacity of 128 bytes.
    #[must_use]
    pub fn with_support(table: Table) -> (r: Self)
        ensures
            r@ == fresh_parser(table@),
    {
        Parser::with_support_and_capacity(table, 128)
    }

    /// Create a parser, setting the initial internal buffer capacity and
    /// directly supplying a compatibility [`Table`].
    #[must_use]
    pub fn with_support_and_capacity(table: Table, size: usize) -> (r: Self)
        ensures
            r@ == fresh_parser(table@),
    {
        Parser {
            options: table,
            buffer: Vec::with_capacity(size),
            deframe_lines: false,
            line_buffer: Vec::with_capacity(size),
        }
    }

    /// Escape introducer bytes in data that is to be transmitted and treated
    /// as a non-command sequence: every 255 becomes 255 255.
    pub fn escape_iac(data: &[u8]) -> (res: Vec<u8>)
        ensures
            res@ == escape_seq(data@),
    {
        let mut res: Vec<u8> = Vec::new();
        let mut i: usize = 0;
        while i < data.len()
            invariant
                i <= data@.len(),
                res@ == escape_seq(data@.take(i as int)),
            decreases data@.len() - i,
        {
            let b = data[i];
            res.push(b);
            if b == IAC {
                res.push(IAC);
            }
            proof {
                assert(data@.take(i + 1) =~= data@.take(i as int) + seq![data@[i as int]]);
                codec::lemma_escape_seq_append(data@.take(i as int), seq![data@[i as int]]);
                codec::lemma_escape_seq_one(data@[i as int]);
            }
            i = i + 1;
        }
        proof {
            assert(data@.take(data@.len() as int) =~= data@);
        }
        res
    }

    /// Reverse escaped introducer bytes: every 255 255 collapses to 255.
    pub fn unescape_iac(data: &[u8]) -> (res: Vec<u8>)
        ensures
            res@ == unescape_seq(data@),
    {
        let mut res: Vec<u8> = Vec::new();
        let mut saw_iac = false;
        let mut i: usize = 0;
        proof {
            assert(data@.skip(0) =~= data@);
            assert(Seq::<u8>::empty() + unescape_from(data@, false) =~= unescape_from(data@, false));
        }
        while i < data.len()
            invariant
                i <= data@.len(),
                unescape_seq(data@) == res@ + unescape_from(data@.skip(i as int), saw_iac),
            decreases data@.len() - i,
        {
            let b = data[i];
            if saw_iac && b == IAC {
                saw_iac = false;
            } else if b == IAC {
                res.push(IAC);
                saw_iac = true;
            } else {
                res.push(b);
                saw_iac = false;
            }
            proof {
                assert(data@.skip(i as int)[0] == data@[i as int]);
                assert(data@.skip(i as int).skip(1) =~= data@.skip(i + 1));
            }
            i = i + 1;
        }
        proof {
            assert(data@.skip(data@.len() as int) =~= Seq::<u8>::empty());
            assert(res@ + Seq::<u8>::empty() =~= res@);
        }
        res
    }

    /// Feed inbound bytes to the engine and collect the events parsed from
    /// the internal buffer with the new bytes, in input order.
    pub fn receive(&mut self, data: &[u8]) -> (events: Vec<Event>)
        ensures
            final(self)@ == receive_spec(old(self)@, data@).0,
            models(events@) == receive_spec(old(self)@, data@).1,
    {
        append_slice(&mut self.buffer, data);
        self.process()
    }

    /// Whether the remote end supports and is currently using linemode.
    pub fn linemode_enabled(&mut self) -> (r: bool)
        ensures
            final(self)@ == old(self)@,
            r == (remote_support_of(old(self)@.table[LINEMODE as int]) && remote_enabled_of(
                old(self)@.table[LINEMODE as int],
            )),
    {
        let opt = *self.options.option(LINEMODE);
        opt.remote_support() && opt.remote_enabled()
    }

    /// Build the 3-byte wire form of a negotiation as a send event.
    pub fn negotiate(&mut self, command: u8, option: u8) -> (r: Event)
        ensures
            final(self)@ == old(self)@,
            r.model() == (EventModel::DataSend { data: seq![IAC, command, option] }),
    {
        Event::DataSend(Negotiation { command, option }.to_bytes())
    }

    /// Indicate to the other side that you are able and wanting to use an
    /// option: fires only when it is locally supported and not enabled yet.
    pub fn _will(&mut self, option: u8) -> (r: Option<Event>)
        ensures
            final(self)@.table == will_spec(old(self)@.table, option).0,
            option_model(r) == will_spec(old(self)@.table, option).1,
            final(self)@.deframe == old(self)@.deframe,
            final(self)@.buffer == old(self)@.buffer,
            final(self)@.line == old(self)@.line,
    {
        let e = *self.options.option(option);
        if !e.local_support() || e.local_enabled() {
            return None;
        }
        self.options.option_mut(option).set_local_enabled();
        Some(self.negotiate(WILL, option))
    }

    /// Indicate to the other side that you no longer want to use an option:
    /// fires only when it is currently enabled locally.
    pub fn _wont(&mut self, option: u8) -> (r: Option<Event>)
        ensures
            final(self)@.table == wont_spec(old(self)@.table, option).0,
            option_model(r) == wont_spec(old(self)@.table, option).1,
            final(self)@.deframe == old(self)@.deframe,
            final(self)@.buffer == old(self)@.buffer,
            final(self)@.line == old(self)@.line,
    {
        let e = *self.options.option(option);
        if !e.local_enabled() {
            return None;
        }
        self.options.option_mut(option).clear_local_enabled();
        Some(self.negotiate(WONT, option))
    }

    /// Ask the other side to use an option: fires only when it is remotely
    /// supported and not enabled yet.
    pub fn _do(&mut self, option: u8) -> (r: Option<Event>)
        ensures
            final(self)@.table == do_spec(old(self)@.table, option).0,
            option_model(r) == do_spec(old(self)@.table, option).1,
            final(self)@.deframe == old(self)@.deframe,
            final(self)@.buffer == old(self)@.buffer,
            final(self)@.line == old(self)@.line,
    {
        let e = *self.options.option(option);
        if !e.remote_support() || e.remote_enabled() {
            return None;
        }
        self.options.option_mut(option).set_remote_enabled();
        Some(self.negotiate(DO, option))
    }

    /// Ask the other side to stop using an option: fires only when it is
    /// currently enabled remotely.
    pub fn _dont(&mut self, option: u8) -> (r: Option<Event>)
        ensures
            final(self)@.table == dont_spec(old(self)@.table, option).0,
            option_model(r) == dont_spec(old(self)@.table, option).1,
            final(self)@.deframe == old(self)@.deframe,
            final(self)@.buffer == old(self)@.buffer,
            final(self)@.line == old(self)@.line,
    {
        let e = *self.options.option(option);
        if !e.remote_enabled() {
            return None;
        }
        self.options.option_mut(option).clear_remote_enabled();
        Some(self.negotiate(DONT, option))
    }

    /// Send a subnegotiation for an option: fires only when the option is
    /// locally supported and enabled. The payload is escaped and wrapped in
    /// the standard header and trailer.
    pub fn subnegotiation(&mut self, option: u8, data: &[u8]) -> (r: Option<Event>)
        ensures
            final(self)@ == old(self)@,
            option_model(r) == subnegotiation_spec(old(self)@.table, option, data@),
    {
        let e = *self.options.option(option);
        if !e.local_support() || !e.local_enabled() {
            return None;
        }
        Some(Event::DataSend(Subnegotiation { option, buffer: slice_to_vec(data) }.to_bytes()))
    }

    /// Send a subnegotiation for an option, using text instead of raw bytes.
    pub fn subnegotiation_text(&mut self, option: u8, text: &str) -> (r: Option<Event>)
        ensures
            final(self)@ == old(self)@,
            option_model(r) == subnegotiation_spec(old(self)@.table, option, text.spec_bytes()),
    {
        self.subnegotiation(option, text.as_bytes())
    }

    /// Directly send text to the remote end, with the telnet end-of-line
    /// appended and introducer bytes escaped.
    pub fn send_text(&mut self, text: &str) -> (r: Event)
        ensures
            final(self)@ == old(self)@,
            r.model() == (EventModel::DataSend {
                data: escape_seq(text.spec_bytes() + seq![CR, LF]),
            }),
    {
        let mut bytes = slice_to_vec(text.as_bytes());
        bytes.push(CR);
        bytes.push(LF);
        proof {
            assert(bytes@ =~= text.spec_bytes() + seq![CR, LF]);
        }
        Event::DataSend(Parser::escape_iac(bytes.as_slice()))
    }

    /// Force-drain any partial line-accumulation content not yet terminated.
    #[must_use]
    pub fn flush_line(&mut self) -> (r: Option<Vec<u8>>)
        ensures
            final(self)@.table == old(self)@.table,
            final(self)@.deframe == old(self)@.deframe,
            final(self)@.buffer == old(self)@.buffer,
            final(self)@.line == Seq::<u8>::empty(),
            old(self)@.line.len() == 0 ==> r is None,
            old(self)@.line.len() > 0 ==> (r matches Some(v) && v@ == old(self)@.line),
    {
        if self.line_buffer.is_empty() {
            None
        } else {
            let mut v: Vec<u8> = Vec::new();
            core::mem::swap(&mut v, &mut self.line_buffer);
            Some(v)
        }
    }

    /// The internal parser pass: classify the whole buffered input into
    /// spans and interpret them in order.
    fn process(&mut self) -> (events: Vec<Event>)
        ensures
            ({
                let st = process_spans(
                    ProcState {
                        table: old(self)@.table,
                        line: old(self)@.line,
                        push: Seq::empty(),
                        events: Seq::empty(),
                    },
                    old(self)@.deframe,
                    scan_spans(old(self)@.buffer),
                    0,
                );
                &&& final(self)@.table == st.table
                &&& final(self)@.line == st.line
                &&& final(self)@.buffer == st.push
                &&& final(self)@.deframe == old(self)@.deframe
                &&& models(events@) == st.events
            }),
    {
        let mut buf: Vec<u8> = Vec::new();
        core::mem::swap(&mut buf, &mut self.buffer);
        let spans = scan_buffer(&buf);
        let mut events: Vec<Event> = Vec::new();
        let ghost spans_m = span_models(spans@);
        let ghost d = self@.deframe;
        let ghost st0 = ProcState {
            table: self@.table,
            line: self@.line,
            push: Seq::empty(),
            events: Seq::empty(),
        };
        proof {
            assert(models(events@) =~= Seq::<EventModel>::empty());
            assert(self@.buffer =~= Seq::<u8>::empty());
        }
        let mut k: usize = 0;
        while k < spans.len()
            invariant
                k <= spans@.len(),
                spans_m == span_models(spans@),
                self@.deframe == d,
                process_spans(st0, d, spans_m, 0) == process_spans(
                    ProcState {
                        table: self@.table,
                        line: self@.line,
                        push: self@.buffer,
                        events: models(events@),
                    },
                    d,
                    spans_m,
                    k as int,
                ),
            decreases spans@.len() - k,
        {
            let ghost pre = ProcState {
                table: self@.table,
                line: self@.line,
                push: self@.buffer,
                events: models(events@),
            };
            proof {
                assert(spans_m[k as int] == spans@[k as int].model());
            }
            match &spans[k] {
                SpanBuf::Plain(b) => {
                    if b.len() == 2 && b[0] == IAC && b[1] != SE {
                        events.push(Event::Iac(Iac { command: b[1] }));
                        proof {
                            assert(models(events@) =~= pre.events.push(
                                EventModel::Iac { command: b@[1] },
                            ));
                        }
                    } else if b.len() >= 3 && b[0] == IAC {
                        let mut nev = self.process_negotiation(b[1], b[2]);
                        let ghost nm = models(nev@);
                        events.append(&mut nev);
                        proof {
                            assert(models(events@) =~= pre.events + nm);
                        }
                    } else if b.len() >= 1 && b[0] != IAC {
                        append_bytes(&mut self.line_buffer, b);
                        if self.deframe_lines {
                            let mut lev = self.deframe_lines();
                            let ghost lm = models(lev@);
                            events.append(&mut lev);
                            proof {
                                assert(models(events@) =~= pre.events + lm);
                            }
                        } else {
                            let data = copy_range(b, 0, b.len());
                            events.push(Event::DataReceive(data));
                            proof {
                                assert(b@.subrange(0, b@.len() as int) =~= b@);
                                assert(models(events@) =~= pre.events.push(
                                    EventModel::DataReceive { data: b@ },
                                ));
                            }
                        }
                    }
                },
                SpanBuf::Sub(b, rest) => {
                    let n = b.len();
                    if n >= 2 && b[n - 2] == IAC && b[n - 1] == SE {
                        if n >= 6 {
                            let opt_code = b[2];
                            let ent = *self.options.option(opt_code);
                            if ent.local_support() && ent.local_enabled() {
                                let wire = copy_range(b, 3, n - 2);
                                let payload = Parser::unescape_iac(wire.as_slice());
                                events.push(
                                    Event::Subnegotiation(
                                        Subnegotiation { option: opt_code, buffer: payload },
                                    ),
                                );
                                match rest {
                                    Some(r) => {
                                        let trailing = copy_range(r, 0, r.len());
                                        events.push(Event::DecompressImmediate(trailing));
                                        proof {
                                            assert(r@.subrange(0, r@.len() as int) =~= r@);
                                            assert(models(events@) =~= pre.events.push(
                                                EventModel::Subnegotiation {
                                                    option: b@[2],
                                                    buffer: unescape_seq(
                                                        b@.subrange(3, b@.len() - 2),
                                                    ),
                                                },
                                            ).push(EventModel::DecompressImmediate { data: r@ }));
                                        }
                                    },
                                    None => {
                                        proof {
                                            assert(models(events@) =~= pre.events.push(
                                                EventModel::Subnegotiation {
                                                    option: b@[2],
                                                    buffer: unescape_seq(
                                                        b@.subrange(3, b@.len() - 2),
                                                    ),
                                                },
                                            ));
                                        }
                                    },
                                }
                            }
                        }
                    } else {
                        append_bytes(&mut self.buffer, b);
                    }
                },
            }
            proof {
                let post = ProcState {
                    table: self@.table,
                    line: self@.line,
                    push: self@.buffer,
                    events: models(events@),
                };
                assert(post =~= process_one(pre, d, spans_m[k as int]));
                assert(process_spans(pre, d, spans_m, k as int) == process_spans(
                    post,
                    d,
                    spans_m,
                    k + 1,
                ));
            }
            k = k + 1;
        }
        proof {
            let cur = ProcState {
                table: self@.table,
                line: self@.line,
                push: self@.buffer,
                events: models(events@),
            };
            assert(process_spans(cur, d, spans_m, k as int) == cur);
        }
        events
    }

    /// The negotiation engine: consult and update the table entry for the
    /// received command, and build the reply and notification events.
    fn process_negotiation(&mut self, command: u8, option: u8) -> (events: Vec<Event>)
        ensures
            final(self)@.table == negotiation_events(old(self)@.table, command, option).0,
            models(events@) == negotiation_events(old(self)@.table, command, option).1,
            final(self)@.deframe == old(self)@.deframe,
            final(self)@.buffer == old(self)@.buffer,
            final(self)@.line == old(self)@.line,
    {
        let mut events: Vec<Event> = Vec::new();
        let ghost t0 = self@.table;
        let e = *self.options.option(option);
        if command == WILL && e.remote_support() && !e.remote_enabled() {
            self.options.option_mut(option).set_remote_enabled();
            events.push(Event::DataSend(Negotiation { command: DO, option }.to_bytes()));
            events.push(Event::Negotiation(Negotiation { command, option }));
            proof {
                assert(models(events@) =~= negotiation_events(t0, command, option).1);
            }
        } else if command == WILL && !e.remote_support() {
            events.push(Event::DataSend(Negotiation { command: DONT, option }.to_bytes()));
            proof {
                assert(models(events@) =~= negotiation_events(t0, command, option).1);
            }
        } else if command == WONT && e.remote_enabled() {
            self.options.option_mut(option).clear_remote_enabled();
            events.push(Event::DataSend(Negotiation { command: DONT, option }.to_bytes()));
            events.push(Event::Negotiation(Negotiation { command, option }));
            proof {
                assert(models(events@) =~= negotiation_events(t0, command, option).1);
            }
        } else if command == DO && e.local_support() && !e.local_enabled() {
            let ent = self.options.option_mut(option);
            ent.set_local_enabled();
            ent.set_remote_enabled();
            events.push(Event::DataSend(Negotiation { command: WILL, option }.to_bytes()));
            events.push(Event::Negotiation(Negotiation { command, option }));
            proof {
                assert(models(events@) =~= negotiation_events(t0, command, option).1);
            }
        } else if command == DO {
            events.push(Event::DataSend(Negotiation { command: WONT, option }.to_bytes()));
            proof {
                assert(models(events@) =~= negotiation_events(t0, command, option).1);
            }
        } else if command == DONT && e.local_enabled() {
            self.options.option_mut(option).clear_local_enabled();
            events.push(Event::DataSend(Negotiation { command: WONT, option }.to_bytes()));
            events.push(Event::Negotiation(Negotiation { command, option }));
            proof {
                assert(models(events@) =~= negotiation_events(t0, command, option).1);
            }
        } else if command == DONT || command == WONT {
            events.push(Event::Negotiation(Negotiation { command, option }));
            proof {
                assert(models(events@) =~= negotiation_events(t0, command, option).1);
            }
        } else {
            proof {
                assert(models(events@) =~= negotiation_events(t0, command, option).1);
            }
        }
        events
    }

    /// Drain every complete line out of the line-accumulation buffer.
    fn deframe_lines(&mut self) -> (events: Vec<Event>)
        ensures
            models(events@) == lines::deframe_seq(old(self)@.line).0,
            final(self)@.line == lines::deframe_seq(old(self)@.line).1,
            final(self)@.table == old(self)@.table,
            final(self)@.buffer == old(self)@.buffer,
            final(self)@.deframe == old(self)@.deframe,
    {
        lines::deframe_buffer(&mut self.line_buffer)
    }
}

} // verus!
