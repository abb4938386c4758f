use libmudtelnet::compatibility::{Entry, Table};
use libmudtelnet::events::{Event, Iac, Negotiation, Subnegotiation};
use libmudtelnet::telnet::op_option::GMCP;
use libmudtelnet::Parser;

#[test]
fn test_reset() {
    let mut table = Table::default();
    let entry = Entry::new(true, true, true, true);
    assert!(entry.remote_support());
    assert!(entry.local_support());
    assert!(entry.remote_enabled());
    assert!(entry.local_enabled());
    *table.option_mut(GMCP) = entry;
    table.reset_states();
    let entry = table.option(GMCP);
    assert!(entry.remote_support());
    assert!(entry.local_support());
    assert!(!entry.remote_enabled());
    assert!(!entry.local_enabled());
}

#[test]
fn escape_doubles_introducer() {
    assert_eq!(Parser::escape_iac(&[255, 1, 6, 2]), vec![255, 255, 1, 6, 2]);
}

#[test]
fn unescape_collapses_doubled_introducer() {
    assert_eq!(Parser::unescape_iac(&[255, 255, 1, 6, 2]), vec![255, 1, 6, 2]);
}

#[test]
fn escape_round_trips() {
    let cases: Vec<Vec<u8>> = vec![
        vec![],
        vec![1, 2, 3, 77],
        vec![255],
        vec![255, 255],
        vec![255, 255, 255],
        vec![255, 255, 255, 255],
        vec![10, 255, 13, 255, 255, 0],
    ];
    for case in cases {
        assert_eq!(Parser::unescape_iac(&Parser::escape_iac(&case)), case);
    }
}

#[test]
fn will_negotiation_enables_supported_option() {
    // IAC WILL 86 against a table that supports option 86 on both sides.
    let mut parser = Parser::with_support(Table::from_options(&[(86, 3)]));
    let events = parser.receive(&[255, 251, 86]);
    assert_eq!(
        events,
        vec![
            Event::DataSend(vec![255, 253, 86]),
            Event::Negotiation(Negotiation { command: 251, option: 86 }),
        ]
    );
    assert!(parser.options.option(86).remote_enabled());
}

#[test]
fn will_negotiation_rejects_unsupported_option() {
    let mut parser = Parser::new();
    let events = parser.receive(&[255, 251, 86]);
    assert_eq!(events, vec![Event::DataSend(vec![255, 254, 86])]);
    assert!(!parser.options.option(86).remote_enabled());
}

#[test]
fn do_negotiation_enables_supported_option() {
    let mut parser = Parser::with_support(Table::from_options(&[(86, 3)]));
    let events = parser.receive(&[255, 253, 86]);
    assert_eq!(
        events,
        vec![
            Event::DataSend(vec![255, 251, 86]),
            Event::Negotiation(Negotiation { command: 253, option: 86 }),
        ]
    );
    let entry = parser.options.option(86);
    assert!(entry.local_enabled());
    assert!(entry.remote_enabled());
}

#[test]
fn subnegotiation_for_disabled_option_is_dropped() {
    // IAC SB 201 0x01 IAC SE while option 201 is not locally enabled.
    let mut parser = Parser::new();
    let events = parser.receive(&[255, 250, 201, 0x01, 255, 240]);
    assert_eq!(events, Vec::<Event>::new());
}

#[test]
fn subnegotiation_for_enabled_option_is_emitted() {
    let mut parser = Parser::with_support(Table::from_options(&[(201, 5)]));
    let events = parser.receive(&[255, 250, 201, 0x01, 255, 240]);
    assert_eq!(
        events,
        vec![Event::Subnegotiation(Subnegotiation { option: 201, buffer: vec![0x01] })]
    );
}

#[test]
fn subnegotiation_with_empty_payload_is_dropped() {
    // A complete block with no content byte between header and trailer is
    // discarded even when the option is enabled.
    let mut parser = Parser::with_support(Table::from_options(&[(201, 5)]));
    let events = parser.receive(&[255, 250, 201, 255, 240]);
    assert_eq!(events, Vec::<Event>::new());
}

#[test]
fn subnegotiation_payload_arrives_unescaped() {
    // A literal 255 inside the payload is doubled on the wire and must
    // arrive as a single byte.
    let mut parser = Parser::with_support(Table::from_options(&[(201, 5)]));
    let events = parser.receive(&[255, 250, 201, 255, 255, 255, 240]);
    assert_eq!(
        events,
        vec![Event::Subnegotiation(Subnegotiation { option: 201, buffer: vec![255] })]
    );
}

#[test]
fn line_deframing_emits_lines() {
    let mut parser = Parser::new();
    parser.deframe_lines = true;
    let events = parser.receive(b"hello\r\nworld");
    assert_eq!(events, vec![Event::LineReceive(b"hello".to_vec())]);
    let events = parser.receive(b"\r\n");
    assert_eq!(events, vec![Event::LineReceive(b"world".to_vec())]);
}

#[test]
fn line_deframing_accepts_reversed_terminator() {
    let mut parser = Parser::new();
    parser.deframe_lines = true;
    let events = parser.receive(b"one\n\rtwo\r\n");
    assert_eq!(
        events,
        vec![Event::LineReceive(b"one".to_vec()), Event::LineReceive(b"two".to_vec())]
    );
}

#[test]
fn mccp2_terminator_splits_off_trailing_bytes() {
    // Option 86 locally supported and enabled; the subnegotiation ends and
    // the trailing bytes must be handed up undecoded.
    let mut parser = Parser::with_support(Table::from_options(&[(86, 5)]));
    let events = parser.receive(&[255, 250, 86, 1, 255, 240, 7, 8, 9]);
    assert_eq!(
        events,
        vec![
            Event::Subnegotiation(Subnegotiation { option: 86, buffer: vec![1] }),
            Event::DecompressImmediate(vec![7, 8, 9]),
        ]
    );
}

#[test]
fn incomplete_subnegotiation_is_deferred() {
    let mut parser = Parser::with_support(Table::from_options(&[(201, 5)]));
    let events = parser.receive(&[255, 250, 201, 1]);
    assert_eq!(events, Vec::<Event>::new());
    let events = parser.receive(&[255, 240, 65]);
    assert_eq!(
        events,
        vec![
            Event::Subnegotiation(Subnegotiation { option: 201, buffer: vec![1] }),
            Event::DataReceive(vec![65]),
        ]
    );
}

#[test]
fn plain_data_is_reported() {
    let mut parser = Parser::new();
    let events = parser.receive(b"abc");
    assert_eq!(events, vec![Event::DataReceive(b"abc".to_vec())]);
}

#[test]
fn two_byte_command_is_reported() {
    let mut parser = Parser::new();
    // IAC GA
    let events = parser.receive(&[255, 249]);
    assert_eq!(events, vec![Event::Iac(Iac { command: 249 })]);
}

#[test]
fn enable_local_fires_once() {
    let mut parser = Parser::with_support(Table::from_options(&[(86, 3)]));
    assert_eq!(parser._will(86), Some(Event::DataSend(vec![255, 251, 86])));
    assert_eq!(parser._will(86), None);
    assert_eq!(parser.options.option(86).into_byte(), 3 | 4);
}

#[test]
fn disable_local_fires_once() {
    let mut parser = Parser::with_support(Table::from_options(&[(86, 3)]));
    assert_eq!(parser._wont(86), None);
    parser._will(86);
    assert_eq!(parser._wont(86), Some(Event::DataSend(vec![255, 252, 86])));
    assert_eq!(parser._wont(86), None);
}

#[test]
fn request_remote_fires_once() {
    let mut parser = Parser::with_support(Table::from_options(&[(86, 3)]));
    assert_eq!(parser._do(86), Some(Event::DataSend(vec![255, 253, 86])));
    assert_eq!(parser._do(86), None);
    assert!(parser.options.option(86).remote_enabled());
}

#[test]
fn cancel_remote_fires_once() {
    let mut parser = Parser::with_support(Table::from_options(&[(86, 3)]));
    assert_eq!(parser._dont(86), None);
    parser._do(86);
    assert_eq!(parser._dont(86), Some(Event::DataSend(vec![255, 254, 86])));
    assert_eq!(parser._dont(86), None);
}

#[test]
fn from_options_masks_undefined_bits() {
    let table = Table::from_options(&[(5, 0xFF), (6, 0x13)]);
    assert_eq!(table.option(5).into_byte(), 0x0F);
    assert_eq!(table.option(6).into_byte(), 0x03);
    assert_eq!(table.option(7).into_byte(), 0);
}

#[test]
fn entry_flags_round_trip() {
    let entry = Entry::new(true, false, true, false);
    assert!(entry.local_support());
    assert!(!entry.remote_support());
    assert!(entry.local_enabled());
    assert!(!entry.remote_enabled());
    assert_eq!(entry.into_byte(), 1 | 4);
    assert_eq!(Entry::from_byte(0x0A).into_byte(), 0x0A);
}

#[test]
fn from_byte_discards_undefined_bits() {
    assert_eq!(Entry::from_byte(0xFF).into_byte(), 0x0F);
    assert_eq!(Entry::from_byte(0x10).into_byte(), 0);
    assert!(!Entry::from_byte(0xF0).local_support());
}

#[test]
fn table_support_helpers_set_bits() {
    let mut table = Table::new();
    table.support_local(1);
    table.support_remote(2);
    table.support(3);
    assert_eq!(table.option(1).into_byte(), 1);
    assert_eq!(table.option(2).into_byte(), 2);
    assert_eq!(table.option(3).into_byte(), 3);
}

#[test]
fn subnegotiation_send_is_gated_and_escaped() {
    let mut parser = Parser::new();
    assert_eq!(parser.subnegotiation(86, &[1, 255, 2]), None);
    parser.options.support_local(86);
    parser._will(86);
    assert_eq!(
        parser.subnegotiation(86, &[1, 255, 2]),
        Some(Event::DataSend(vec![255, 250, 86, 1, 255, 255, 2, 255, 240]))
    );
}

#[test]
fn subnegotiation_text_uses_text_bytes() {
    let mut parser = Parser::with_support(Table::from_options(&[(201, 5)]));
    assert_eq!(
        parser.subnegotiation_text(201, "hi"),
        Some(Event::DataSend(vec![255, 250, 201, b'h', b'i', 255, 240]))
    );
}

#[test]
fn send_text_appends_line_ending() {
    let mut parser = Parser::new();
    let event = parser.send_text("hi");
    assert_eq!(event, Event::DataSend(b"hi\r\n".to_vec()));
}

#[test]
fn send_text_encodes_non_ascii() {
    let mut parser = Parser::new();
    let event = parser.send_text("é");
    assert_eq!(event, Event::DataSend(vec![0xC3, 0xA9, 13, 10]));
}

#[test]
fn negotiate_builds_send_event() {
    let mut parser = Parser::new();
    let event = parser.negotiate(251, 201);
    assert_eq!(event, Event::DataSend(vec![255, 251, 201]));
}

#[test]
fn flush_line_drains_pending_bytes() {
    let mut parser = Parser::new();
    assert_eq!(parser.flush_line(), None);
    parser.receive(b"abc");
    assert_eq!(parser.flush_line(), Some(b"abc".to_vec()));
    assert_eq!(parser.flush_line(), None);
}

#[test]
fn linemode_enabled_reads_the_table() {
    let mut parser = Parser::new();
    assert!(!parser.linemode_enabled());
    *parser.options.option_mut(34) = Entry::new(false, true, false, true);
    assert!(parser.linemode_enabled());
}

#[test]
fn event_serialization_matches_wire_form() {
    assert_eq!(Event::Iac(Iac { command: 249 }).into_bytes(), vec![255, 249]);
    assert_eq!(
        Event::Negotiation(Negotiation { command: 251, option: 86 }).into_bytes(),
        vec![255, 251, 86]
    );
    assert_eq!(
        Event::Subnegotiation(Subnegotiation { option: 86, buffer: vec![255] }).into_bytes(),
        vec![255, 250, 86, 255, 255, 255, 240]
    );
    assert_eq!(Event::DataSend(vec![1, 2]).into_bytes(), vec![1, 2]);
}

#[test]
fn wont_when_not_enabled_only_notifies() {
    let mut parser = Parser::new();
    let events = parser.receive(&[255, 252, 86]);
    assert_eq!(
        events,
        vec![Event::Negotiation(Negotiation { command: 252, option: 86 })]
    );
}

#[test]
fn dont_when_not_enabled_only_notifies() {
    let mut parser = Parser::new();
    let events = parser.receive(&[255, 254, 86]);
    assert_eq!(
        events,
        vec![Event::Negotiation(Negotiation { command: 254, option: 86 })]
    );
}

#[test]
fn do_for_unsupported_option_is_refused() {
    let mut parser = Parser::new();
    let events = parser.receive(&[255, 253, 86]);
    assert_eq!(events, vec![Event::DataSend(vec![255, 252, 86])]);
}

#[test]
fn do_for_already_enabled_option_is_refused() {
    // A repeated DO for an option that is already enabled locally gets a
    // WONT reply and changes no state.
    let mut parser = Parser::with_support(Table::from_options(&[(70, 5)]));
    let events = parser.receive(&[255, 253, 70]);
    assert_eq!(events, vec![Event::DataSend(vec![255, 252, 70])]);
    assert_eq!(parser.options.option(70).into_byte(), 5);
}

#[test]
fn trailing_introducer_is_dropped() {
    // A lone introducer at the end of a read closes the data span before
    // it and is discarded, not deferred.
    let mut parser = Parser::new();
    let events = parser.receive(&[65, 255]);
    assert_eq!(events, vec![Event::DataReceive(vec![65])]);
    let events = parser.receive(&[249]);
    assert_eq!(events, vec![Event::DataReceive(vec![249])]);
}

#[test]
fn doubled_introducer_outside_subnegotiation() {
    // A trailing IAC IAC pair in plain data closes the data span before it
    // and is reported as a command span carrying the introducer value.
    let mut parser = Parser::new();
    let events = parser.receive(&[65, 255, 255]);
    assert_eq!(
        events,
        vec![Event::DataReceive(vec![65]), Event::Iac(Iac { command: 255 })]
    );
}
