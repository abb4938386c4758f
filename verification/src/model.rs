//! The abstract behaviour of the engine: the negotiation decision rules,
//! the interpretation of classified spans, and the effect of one `receive`
//! call, all as functions over the parser's model.

use vstd::prelude::*;

use crate::codec::{escape_seq, unescape_seq};
use crate::compatibility::{
    local_enabled_of, local_support_of, remote_enabled_of, remote_support_of, with_local_enabled,
    with_remote_enabled, without_local_enabled, without_remote_enabled,
};
use crate::events::EventModel;
use crate::lines::deframe_seq;
use crate::scan::{scan_spans, Span};
use crate::telnet::op_command::{DO, DONT, IAC, SB, SE, WILL, WONT};
use crate::ParserModel;

verus! {

/// The state threaded through the interpretation of one scan's spans: the
/// table, the line-accumulation buffer, the bytes pushed back for the next
/// scan, and the events emitted so far.
#[verifier::ext_equal]
pub struct ProcState {
    pub table: Seq<u8>,
    pub line: Seq<u8>,
    pub push: Seq<u8>,
    pub events: Seq<EventModel>,
}

/// The negotiation engine: given a received negotiation command and the
/// current table, the new table and the 0-2 events to emit. The rules are a
/// priority-ordered guard list; the first match wins.
pub open spec fn negotiation_events(t: Seq<u8>, command: u8, option: u8) -> (Seq<u8>, Seq<
    EventModel,
>) {
    let e = t[option as int];
    let neg = EventModel::Negotiation { command, option };
    if command == WILL && remote_support_of(e) && !remote_enabled_of(e) {
        (
            t.update(option as int, with_remote_enabled(e)),
            seq![EventModel::DataSend { data: seq![IAC, DO, option] }, neg],
        )
    } else if command == WILL && !remote_support_of(e) {
        (t, seq![EventModel::DataSend { data: seq![IAC, DONT, option] }])
    } else if command == WONT && remote_enabled_of(e) {
        (
            t.update(option as int, without_remote_enabled(e)),
            seq![EventModel::DataSend { data: seq![IAC, DONT, option] }, neg],
        )
    } else if command == DO && local_support_of(e) && !local_enabled_of(e) {
        // Acceptance marks the option enabled in both directions.
        (
            t.update(option as int, with_remote_enabled(with_local_enabled(e))),
            seq![EventModel::DataSend { data: seq![IAC, WILL, option] }, neg],
        )
    } else if command == DO {
        (t, seq![EventModel::DataSend { data: seq![IAC, WONT, option] }])
    } else if command == DONT && local_enabled_of(e) {
        (
            t.update(option as int, without_local_enabled(e)),
            seq![EventModel::DataSend { data: seq![IAC, WONT, option] }, neg],
        )
    } else if command == DONT || command == WONT {
        (t, seq![neg])
    } else {
        (t, Seq::empty())
    }
}

/// Interpret one classified span: a plain span is a 2-byte command, a
/// negotiation, data, or dropped, by its first bytes; a subnegotiation span
/// with a valid ending is emitted — its payload unescaped — when it holds
/// at least one content byte and its option is locally supported and
/// enabled, and pushed back into the input buffer when its ending has not
/// arrived yet.
pub open spec fn process_one(st: ProcState, deframe: bool, span: Span) -> ProcState {
    match span {
        Span::Plain { bytes: b } => {
            if b.len() == 2 && b[0] == IAC && b[1] != SE {
                ProcState {
                    events: st.events.push(EventModel::Iac { command: b[1] }),
                    ..st
                }
            } else if b.len() >= 3 && b[0] == IAC {
                let r = negotiation_events(st.table, b[1], b[2]);
                ProcState { table: r.0, events: st.events + r.1, ..st }
            } else if b.len() >= 1 && b[0] != IAC {
                let line = st.line + b;
                if deframe {
                    let r = deframe_seq(line);
                    ProcState { line: r.1, events: st.events + r.0, ..st }
                } else {
                    ProcState {
                        line,
                        events: st.events.push(EventModel::DataReceive { data: b }),
                        ..st
                    }
                }
            } else {
                st
            }
        },
        Span::Sub { bytes: b, rest } => {
            let n = b.len() as int;
            if n >= 2 && b[n - 2] == IAC && b[n - 1] == SE {
                if n >= 6 && local_support_of(st.table[b[2] as int]) && local_enabled_of(
                    st.table[b[2] as int],
                ) {
                    let ev = st.events.push(
                        EventModel::Subnegotiation {
                            option: b[2],
                            buffer: unescape_seq(b.subrange(3, n - 2)),
                        },
                    );
                    ProcState {
                        events: match rest {
                            Some(r) => ev.push(EventModel::DecompressImmediate { data: r }),
                            None => ev,
                        },
                        ..st
                    }
                } else {
                    st
                }
            } else {
                ProcState { push: st.push + b, ..st }
            }
        },
    }
}

/// Interpret the spans of one scan in order, from index `i` on.
pub open spec fn process_spans(st: ProcState, deframe: bool, spans: Seq<Span>, i: int) -> ProcState
    decreases spans.len() - i,
{
    if i < 0 || i >= spans.len() {
        st
    } else {
        process_spans(process_one(st, deframe, spans[i]), deframe, spans, i + 1)
    }
}

/// The effect of feeding `data` to a parser in state `p`: the new state and
/// the emitted events, in order.
pub open spec fn receive_spec(p: ParserModel, data: Seq<u8>) -> (ParserModel, Seq<EventModel>) {
    let st = process_spans(
        ProcState { table: p.table, line: p.line, push: Seq::empty(), events: Seq::empty() },
        p.deframe,
        scan_spans(p.buffer + data),
        0,
    );
    (
        ParserModel { table: st.table, deframe: p.deframe, buffer: st.push, line: st.line },
        st.events,
    )
}

/// The effect of asking to enable an option on our side: fires only when
/// the option is locally supported and not already enabled.
pub open spec fn will_spec(t: Seq<u8>, option: u8) -> (Seq<u8>, Option<EventModel>) {
    let e = t[option as int];
    if !local_support_of(e) || local_enabled_of(e) {
        (t, None)
    } else {
        (
            t.update(option as int, with_local_enabled(e)),
            Some(EventModel::DataSend { data: seq![IAC, WILL, option] }),
        )
    }
}

/// The effect of asking to disable an option on our side: fires only when
/// the option is currently enabled.
pub open spec fn wont_spec(t: Seq<u8>, option: u8) -> (Seq<u8>, Option<EventModel>) {
    let e = t[option as int];
    if !local_enabled_of(e) {
        (t, None)
    } else {
        (
            t.update(option as int, without_local_enabled(e)),
            Some(EventModel::DataSend { data: seq![IAC, WONT, option] }),
        )
    }
}

/// The effect of asking the peer to enable an option: fires only when the
/// option is remotely supported and not already enabled.
pub open spec fn do_spec(t: Seq<u8>, option: u8) -> (Seq<u8>, Option<EventModel>) {
    let e = t[option as int];
    if !remote_support_of(e) || remote_enabled_of(e) {
        (t, None)
    } else {
        (
            t.update(option as int, with_remote_enabled(e)),
            Some(EventModel::DataSend { data: seq![IAC, DO, option] }),
        )
    }
}

/// The effect of asking the peer to disable an option: fires only when the
/// option is currently enabled on the peer's side.
pub open spec fn dont_spec(t: Seq<u8>, option: u8) -> (Seq<u8>, Option<EventModel>) {
    let e = t[option as int];
    if !remote_enabled_of(e) {
        (t, None)
    } else {
        (
            t.update(option as int, without_remote_enabled(e)),
            Some(EventModel::DataSend { data: seq![IAC, DONT, option] }),
        )
    }
}

/// The outbound subnegotiation helper's result: gated on local support and
/// local enablement, the framed block with its payload escaped.
pub open spec fn subnegotiation_spec(t: Seq<u8>, option: u8, data: Seq<u8>) -> Option<EventModel> {
    let e = t[option as int];
    if local_support_of(e) && local_enabled_of(e) {
        Some(
            EventModel::DataSend {
                data: seq![IAC, SB, option] + escape_seq(data) + seq![IAC, SE],
            },
        )
    } else {
        None
    }
}

} // verus!
