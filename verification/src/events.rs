//! The protocol events this engine produces, and their byte serialization.

use vstd::prelude::*;

use crate::codec::escape_seq;
use crate::telnet::op_command::{IAC, SB, SE};
use crate::Parser;

verus! {

/// A 2-byte command sequence: the introducer followed by a command code.
#[derive(Clone, Copy, Debug, Eq, PartialEq, Ord, PartialOrd, Hash)]
pub struct Iac {
    pub command: u8,
}

/// A 3-byte negotiation sequence: the introducer, one of WILL/WONT/DO/DONT,
/// and an option code.
#[derive(Clone, Copy, Debug, Eq, PartialEq, Ord, PartialOrd, Hash)]
pub struct Negotiation {
    pub command: u8,
    pub option: u8,
}

/// An arbitrary-length subnegotiation sequence: an option code and its
/// payload bytes.
#[derive(Clone, Debug, Eq, PartialEq, Ord, PartialOrd, Hash)]
pub struct Subnegotiation {
    pub option: u8,
    pub buffer: Vec<u8>,
}

/// The abstract value of an [`Event`], with byte payloads as sequences.
pub enum EventModel {
    Iac { command: u8 },
    Negotiation { command: u8, option: u8 },
    Subnegotiation { option: u8, buffer: Seq<u8> },
    DataReceive { data: Seq<u8> },
    LineReceive { data: Seq<u8> },
    DataSend { data: Seq<u8> },
    DecompressImmediate { data: Seq<u8> },
}

/// An enum representing the various telnet events.
#[derive(Clone, Debug, Eq, PartialEq)]
pub enum Event {
    /// A command sequence.
    Iac(Iac),
    /// A negotiation sequence.
    Negotiation(Negotiation),
    /// A subnegotiation sequence.
    Subnegotiation(Subnegotiation),
    /// Regular data received from the remote end.
    DataReceive(Vec<u8>),
    /// Deframed line data received from the remote end.
    LineReceive(Vec<u8>),
    /// Any data to be sent to the remote end.
    DataSend(Vec<u8>),
    /// Bytes that arrived after a compression announcement and must be
    /// decompressed by the caller before any further bytes are fed back in.
    DecompressImmediate(Vec<u8>),
}

impl Event {
    /// The abstract value of this event.
    pub open spec fn model(&self) -> EventModel {
        match self {
            Event::Iac(iac) => EventModel::Iac { command: iac.command },
            Event::Negotiation(neg) => EventModel::Negotiation {
                command: neg.command,
                option: neg.option,
            },
            Event::Subnegotiation(sub) => EventModel::Subnegotiation {
                option: sub.option,
                buffer: sub.buffer@,
            },
            Event::DataReceive(data) => EventModel::DataReceive { data: data@ },
            Event::LineReceive(data) => EventModel::LineReceive { data: data@ },
            Event::DataSend(data) => EventModel::DataSend { data: data@ },
            Event::DecompressImmediate(data) => EventModel::DecompressImmediate { data: data@ },
        }
    }
}

/// The abstract values of a sequence of events.
pub open spec fn models(s: Seq<Event>) -> Seq<EventModel> {
    s.map_values(|e: Event| e.model())
}

/// The abstract value of an optional event.
pub open spec fn option_model(r: Option<Event>) -> Option<EventModel> {
    match r {
        Some(e) => Some(e.model()),
        None => None,
    }
}

/// The byte serialization of an event value.
pub open spec fn event_bytes(m: EventModel) -> Seq<u8> {
    match m {
        EventModel::Iac { command } => seq![IAC, command],
        EventModel::Negotiation { command, option } => seq![IAC, command, option],
        EventModel::Subnegotiation { option, buffer } => seq![IAC, SB, option] + escape_seq(
            buffer,
        ) + seq![IAC, SE],
        EventModel::DataReceive { data } => data,
        EventModel::LineReceive { data } => data,
        EventModel::DataSend { data } => data,
        EventModel::DecompressImmediate { data } => data,
    }
}

impl Iac {
    /// The 2-byte wire form of this command sequence.
    pub fn to_bytes(&self) -> (r: Vec<u8>)
        ensures
            r@ == seq![IAC, self.command],
    {
        let mut buf: Vec<u8> = Vec::new();
        buf.push(IAC);
        buf.push(self.command);
        proof {
            assert(buf@ =~= seq![IAC, self.command]);
        }
        buf
    }
}

impl Negotiation {
    /// The 3-byte wire form of this negotiation sequence.
    pub fn to_bytes(&self) -> (r: Vec<u8>)
        ensures
            r@ == seq![IAC, self.command, self.option],
    {
        let mut buf: Vec<u8> = Vec::new();
        buf.push(IAC);
        buf.push(self.command);
        buf.push(self.option);
        proof {
            assert(buf@ =~= seq![IAC, self.command, self.option]);
        }
        buf
    }
}

impl Subnegotiation {
    /// The wire form of this subnegotiation: the 3-byte header, the payload
    /// with introducer bytes escaped, and the 2-byte trailer.
    pub fn to_bytes(&self) -> (r: Vec<u8>)
        ensures
            r@ == seq![IAC, SB, self.option] + escape_seq(self.buffer@) + seq![IAC, SE],
    {
        let mut buf: Vec<u8> = Vec::new();
        buf.push(IAC);
        buf.push(SB);
        buf.push(self.option);
        let mut payload = Parser::escape_iac(self.buffer.as_slice());
        buf.append(&mut payload);
        buf.push(IAC);
        buf.push(SE);
        proof {
            assert(buf@ =~= seq![IAC, SB, self.option] + escape_seq(self.buffer@) + seq![IAC, SE]);
        }
        buf
    }
}

impl Event {
    /// The byte serialization of this event.
    pub fn into_bytes(self) -> (r: Vec<u8>)
        ensures
            r@ == event_bytes(self.model()),
    {
        match self {
            Event::Iac(iac) => iac.to_bytes(),
            Event::Negotiation(neg) => neg.to_bytes(),
            Event::Subnegotiation(sub) => sub.to_bytes(),
            Event::DataReceive(data) => data,
            Event::LineReceive(data) => data,
            Event::DataSend(data) => data,
            Event::DecompressImmediate(data) => data,
        }
    }
}

} // verus!
