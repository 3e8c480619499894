use std::cell::RefCell;

use demo::catalog::{MessageKind, NetKind, SvcKind, UserMessageKind};
use demo::events::{route_user_message, UserMessageRoute};
use demo::format::{PacketInfo, ServerClass};
use demo::parser::{parse_datatables, parse_packet, parse_packet_messages};
use demo::varint::encode_varuint;
use demo::{
    parse_dem_file, parse_events, Dispatcher, DemoError, Event, EventHandler, Termination, UserMessageDecoder,
    UserMessageEventHandler,
};

fn file_header() -> Vec<u8> {
    let mut h = vec![0u8; 1072];
    h[..8].copy_from_slice(b"HL2DEMO\0");
    h[8..12].copy_from_slice(&4i32.to_le_bytes());
    h
}

fn command(code: u8, tick: i32) -> Vec<u8> {
    let mut c = vec![code];
    c.extend_from_slice(&tick.to_le_bytes());
    c.push(0);
    c
}

fn message(code: u32, body: &[u8]) -> Vec<u8> {
    let mut m = encode_varuint(code);
    m.extend(encode_varuint(body.len() as u32));
    m.extend_from_slice(body);
    m
}

fn packet_with_size(size: i32, content: &[u8]) -> Vec<u8> {
    let mut p = command(2, 1);
    let mut info = vec![0u8; 160];
    info[152..156].copy_from_slice(&11i32.to_le_bytes());
    info[156..160].copy_from_slice(&12i32.to_le_bytes());
    p.extend(info);
    p.extend_from_slice(&size.to_le_bytes());
    p.extend_from_slice(content);
    p
}

fn packet(content: &[u8]) -> Vec<u8> {
    packet_with_size(content.len() as i32, content)
}

fn send_table(is_end: bool, name: &[u8]) -> Vec<u8> {
    let mut body = vec![0x08, is_end as u8, 0x12, name.len() as u8];
    body.extend_from_slice(name);
    body
}

fn class_entry(id: u16, name: &str, table: &str) -> Vec<u8> {
    let mut e = id.to_le_bytes().to_vec();
    e.extend_from_slice(name.as_bytes());
    e.push(0);
    e.extend_from_slice(table.as_bytes());
    e.push(0);
    e
}

fn data_tables(content: &[u8]) -> Vec<u8> {
    let mut d = command(6, 0);
    d.extend_from_slice(&(content.len() as i32).to_le_bytes());
    d.extend_from_slice(content);
    d
}

fn user_message(sub_kind: u32, payload: &[u8]) -> Vec<u8> {
    let mut body = vec![0x08];
    body.extend(encode_varuint(sub_kind));
    body.push(0x12);
    body.push(payload.len() as u8);
    body.extend_from_slice(payload);
    body
}

fn container(parts: &[Vec<u8>]) -> Vec<u8> {
    let mut d = file_header();
    for p in parts {
        d.extend_from_slice(p);
    }
    d
}

fn run<H: EventHandler>(data: &[u8], handler: &H) -> Result<Termination, DemoError> {
    parse_dem_file(data, handler).map(|(_, end)| end)
}

fn stop() -> Vec<u8> {
    command(7, 99)
}

#[derive(Debug, Clone, PartialEq)]
enum Seen {
    Packet(i32),
    Class(u16, String, String),
    Message(MessageKind, Vec<u8>),
    User(UserMessageKind, Vec<u8>),
}

#[derive(Default)]
struct Recorder {
    seen: RefCell<Vec<Seen>>,
    fail_on_packet: bool,
}

impl EventHandler for Recorder {
    fn on_packet_info(&self, info: &PacketInfo) -> Result<(), DemoError> {
        self.seen.borrow_mut().push(Seen::Packet(info.sequence_info.sequence_in));
        if self.fail_on_packet {
            return Err(DemoError::ObserverFailure("stop here".to_string()));
        }
        Ok(())
    }

    fn on_server_class(&self, class: &ServerClass) -> Result<(), DemoError> {
        self.seen.borrow_mut().push(Seen::Class(class.id, class.name.clone(), class.datatable.clone()));
        Ok(())
    }

    fn on_message(&self, kind: MessageKind, body: &[u8]) -> Result<(), DemoError> {
        self.seen.borrow_mut().push(Seen::Message(kind, body.to_vec()));
        Ok(())
    }
}

impl UserMessageEventHandler for Recorder {
    fn on_user_message(&self, kind: UserMessageKind, payload: &[u8]) -> Result<(), DemoError> {
        self.seen.borrow_mut().push(Seen::User(kind, payload.to_vec()));
        Ok(())
    }
}

/// Overrides one capability only: counts send-table messages.
#[derive(Default)]
struct SendTableCounter {
    count: RefCell<usize>,
}

impl EventHandler for SendTableCounter {
    fn on_message(&self, kind: MessageKind, _body: &[u8]) -> Result<(), DemoError> {
        if kind == MessageKind::Svc(SvcKind::SendTable) {
            *self.count.borrow_mut() += 1;
        }
        Ok(())
    }
}

#[test]
fn scenario_packet_with_nop() {
    let data = container(&[packet(&message(0, &[])), stop()]);
    let recorder = Recorder::default();
    assert_eq!(run(&data, &recorder), Ok(Termination::Stopped));
    let seen = recorder.seen.borrow();
    assert_eq!(&seen[..], &[Seen::Packet(11), Seen::Message(MessageKind::Net(NetKind::Nop), vec![])]);
}

#[test]
fn scenario_data_tables_and_classes() {
    let mut content = message(9, &send_table(false, b"DT_A"));
    content.extend(message(9, &send_table(true, b"DT_B")));
    content.extend_from_slice(&3u16.to_le_bytes());
    content.extend(class_entry(0, "CAI_BaseNPC", "DT_AI_BaseNPC"));
    content.extend(class_entry(1, "CAK47", "DT_WeaponAK47"));
    content.extend(class_entry(2, "CBaseEntity", "DT_BaseEntity"));
    let data = container(&[data_tables(&content), stop()]);
    let counter = SendTableCounter::default();
    assert_eq!(run(&data, &counter), Ok(Termination::Stopped));
    assert_eq!(*counter.count.borrow(), 2);

    let recorder = Recorder::default();
    assert_eq!(run(&data, &recorder), Ok(Termination::Stopped));
    let seen = recorder.seen.borrow();
    assert_eq!(seen.len(), 5);
    assert_eq!(seen[0], Seen::Message(MessageKind::Svc(SvcKind::SendTable), send_table(false, b"DT_A")));
    assert_eq!(seen[1], Seen::Message(MessageKind::Svc(SvcKind::SendTable), send_table(true, b"DT_B")));
    assert_eq!(seen[2], Seen::Class(0, "CAI_BaseNPC".to_string(), "DT_AI_BaseNPC".to_string()));
    assert_eq!(seen[3], Seen::Class(1, "CAK47".to_string(), "DT_WeaponAK47".to_string()));
    assert_eq!(seen[4], Seen::Class(2, "CBaseEntity".to_string(), "DT_BaseEntity".to_string()));
}

#[test]
fn data_tables_without_end_flag_leave_no_room_for_classes() {
    let content = message(9, &send_table(false, b"DT_A"));
    let data = container(&[data_tables(&content), stop()]);
    assert_eq!(parse_events(&data).2, Err(DemoError::FrameMismatch));
}

#[test]
fn class_registry_must_fill_region() {
    let mut content = message(9, &send_table(true, b"DT_A"));
    content.extend_from_slice(&1u16.to_le_bytes());
    content.extend(class_entry(4, "C", "DT_C"));
    content.push(0xEE);
    let data = container(&[data_tables(&content), stop()]);
    let (_, events, result) = parse_events(&data);
    assert_eq!(result, Err(DemoError::FrameMismatch));
    assert_eq!(events.len(), 2);
}

#[test]
fn class_name_must_be_text() {
    let mut content = message(9, &send_table(true, b"DT_A"));
    content.extend_from_slice(&1u16.to_le_bytes());
    content.extend_from_slice(&[4, 0, 0xFF, 0xFE, 0, b'D', 0]);
    let data = container(&[data_tables(&content), stop()]);
    assert_eq!(parse_events(&data).2, Err(DemoError::InvalidEncoding));
}

#[test]
fn truncation_inside_any_region_is_reported() {
    let mut tables = message(9, &send_table(true, b"DT_A"));
    tables.extend_from_slice(&1u16.to_le_bytes());
    tables.extend(class_entry(4, "C", "DT_C"));
    let packet_bytes = packet(&message(4, &[0x08, 0x01]));
    let full = container(&[packet_bytes.clone(), data_tables(&tables)]);
    let packet_end = 1072 + packet_bytes.len();
    for cut in [1071, 1072 + 3, 1072 + 6 + 100, 1072 + 6 + 162, packet_end - 1, full.len() - 1] {
        let (_, _, result) = parse_events(&full[..cut]);
        assert_eq!(result, Err(DemoError::Truncated), "cut at {}", cut);
    }
}

#[test]
fn region_size_matching_contents_succeeds() {
    let mut content = message(0, &[]);
    content.extend(message(4, &[0x08, 0x2A]));
    let data = container(&[packet(&content), stop()]);
    let (_, events, result) = parse_events(&data);
    assert_eq!(result, Ok(Termination::Stopped));
    assert_eq!(events.len(), 3);
}

#[test]
fn region_size_cutting_an_element_is_a_frame_mismatch() {
    let mut content = message(0, &[]);
    content.extend(message(4, &[0x08, 0x2A]));
    for size in [1, 3, 5] {
        let data = container(&[packet_with_size(size, &content), stop()]);
        assert_eq!(parse_events(&data).2, Err(DemoError::FrameMismatch), "size {}", size);
    }
}

#[test]
fn negative_region_size_is_a_frame_mismatch() {
    let data = container(&[packet_with_size(-1, &[]), stop()]);
    assert_eq!(parse_events(&data).2, Err(DemoError::FrameMismatch));
}

#[test]
fn unknown_message_kind() {
    let data = container(&[packet(&message(32, &[])), stop()]);
    assert_eq!(parse_events(&data).2, Err(DemoError::UnknownMessageKind(32)));
}

#[test]
fn overlong_varint_in_region() {
    let data = container(&[packet(&[0x80, 0x80, 0x80, 0x80, 0x80, 0x00]), stop()]);
    assert_eq!(parse_events(&data).2, Err(DemoError::InvalidVarint));
}

#[test]
fn unsupported_commands() {
    for code in [4u8, 5, 8, 9] {
        let data = container(&[command(code, 0)]);
        assert_eq!(parse_events(&data).2, Err(DemoError::UnsupportedCommand(code)));
    }
}

#[test]
fn unrecognized_command_ends_the_stream() {
    let data = container(&[command(3, 0), command(42, 0), vec![1, 2, 3]]);
    assert_eq!(parse_events(&data).2, Ok(Termination::Unrecognized(42)));
}

#[test]
fn bytes_after_stop_are_a_frame_mismatch() {
    let mut data = container(&[stop()]);
    data.push(0);
    assert_eq!(parse_events(&data).2, Err(DemoError::FrameMismatch));
}

#[test]
fn missing_stop_is_truncated() {
    let data = container(&[packet(&message(0, &[]))]);
    assert_eq!(parse_events(&data).2, Err(DemoError::Truncated));
}

#[test]
fn malformed_send_table() {
    let data = container(&[data_tables(&message(9, &[0x08])), stop()]);
    assert_eq!(parse_events(&data).2, Err(DemoError::MalformedMessage));
}

#[test]
fn observer_failure_aborts() {
    let data = container(&[packet(&message(0, &[])), packet(&message(0, &[])), stop()]);
    let recorder = Recorder { fail_on_packet: true, ..Recorder::default() };
    assert_eq!(run(&data, &recorder), Err(DemoError::ObserverFailure("stop here".to_string())));
    assert_eq!(recorder.seen.borrow().len(), 1);
}

#[test]
fn events_before_a_fault_are_delivered() {
    let data = container(&[packet(&message(0, &[])), command(5, 0)]);
    let recorder = Recorder::default();
    assert_eq!(run(&data, &recorder), Err(DemoError::UnsupportedCommand(5)));
    assert_eq!(recorder.seen.borrow().len(), 2);
}

#[test]
fn dispatch_reaches_one_capability_per_event() {
    let mut tables = message(9, &send_table(true, b"DT_A"));
    tables.extend_from_slice(&1u16.to_le_bytes());
    tables.extend(class_entry(4, "C", "DT_C"));
    let mut content = message(0, &[]);
    content.extend(message(25, &[0x08, 0x03]));
    content.extend(message(0, &[]));
    let data = container(&[packet(&content), data_tables(&tables), stop()]);
    let counter = SendTableCounter::default();
    assert_eq!(run(&data, &counter), Ok(Termination::Stopped));
    assert_eq!(*counter.count.borrow(), 1);
    let recorder = Recorder::default();
    let (_, events, _) = parse_events(&data);
    for e in &events {
        recorder.dispatch(e).unwrap();
    }
    let seen = recorder.seen.borrow();
    let nops = seen.iter().filter(|s| **s == Seen::Message(MessageKind::Net(NetKind::Nop), vec![])).count();
    assert_eq!(nops, 2);
    assert_eq!(seen.len(), events.len());
    assert!(matches!(events[0], Event::PacketInfo(_)));
}

#[test]
fn decorator_decodes_known_user_messages() {
    let body = user_message(6, &[0x01, 0x02]);
    let data = container(&[packet(&message(23, &body)), stop()]);
    let decoder = UserMessageDecoder(Recorder::default());
    assert_eq!(run(&data, &decoder), Ok(Termination::Stopped));
    let seen = decoder.0.seen.borrow();
    assert_eq!(seen.len(), 2);
    assert_eq!(seen[1], Seen::User(UserMessageKind::SayText2, vec![0x01, 0x02]));
    assert!(!seen.iter().any(|s| matches!(s, Seen::Message(MessageKind::Svc(SvcKind::UserMessage), _))));
}

#[test]
fn decorator_forwards_unknown_user_messages() {
    let body = user_message(11, &[0x09]);
    let data = container(&[packet(&message(23, &body)), stop()]);
    let decoder = UserMessageDecoder(Recorder::default());
    assert_eq!(run(&data, &decoder), Ok(Termination::Stopped));
    let seen = decoder.0.seen.borrow();
    assert_eq!(seen[1], Seen::Message(MessageKind::Svc(SvcKind::UserMessage), body.clone()));
    assert!(!seen.iter().any(|s| matches!(s, Seen::User(..))));
}

#[test]
fn decorator_passes_other_events_through() {
    let data = container(&[packet(&message(25, &[0x08, 0x01])), stop()]);
    let decoder = UserMessageDecoder(Recorder::default());
    assert_eq!(run(&data, &decoder), Ok(Termination::Stopped));
    let seen = decoder.0.seen.borrow();
    assert_eq!(seen[1], Seen::Message(MessageKind::Svc(SvcKind::GameEvent), vec![0x08, 0x01]));
}

#[test]
fn decorator_reports_malformed_user_messages() {
    let data = container(&[packet(&message(23, &[0x12, 0x05])), stop()]);
    let decoder = UserMessageDecoder(Recorder::default());
    assert_eq!(run(&data, &decoder), Err(DemoError::MalformedMessage));
}

#[test]
fn user_message_routes() {
    match route_user_message(&user_message(78, &[7])) {
        Ok(UserMessageRoute::Decoded(kind, payload)) => {
            assert_eq!(kind, UserMessageKind::DeepStats);
            assert_eq!(payload, vec![7]);
        }
        other => panic!("unexpected {:?}", other),
    }
    assert!(matches!(route_user_message(&user_message(200, &[7])), Ok(UserMessageRoute::Undecoded)));
}

#[test]
fn packet_region_is_drained_exactly() {
    let mut content = message(0, &[]);
    content.extend(message(4, &[0x08, 0x2A]));
    let mut bytes = packet(&content);
    bytes.extend_from_slice(&[0xAB, 0xCD]);
    let (events, result) = parse_packet(&bytes, 6);
    assert_eq!(result, Ok(bytes.len() - 2));
    assert_eq!(events.len(), 3);
    assert!(matches!(&events[2], Event::Message(MessageKind::Net(NetKind::Tick), body) if body == &vec![0x08, 0x2A]));
}

#[test]
fn packet_region_overrun_is_a_frame_mismatch() {
    let content = message(4, &[0x08, 0x2A]);
    let bytes = packet_with_size(content.len() as i32 - 1, &content);
    assert_eq!(parse_packet(&bytes, 6).1, Err(DemoError::FrameMismatch));
    assert_eq!(parse_packet_messages(&content, 0, 3).1, Err(DemoError::FrameMismatch));
    assert_eq!(parse_packet_messages(&content, 0, content.len()).1, Ok(()));
}

#[test]
fn packet_region_cut_by_stream_end_is_truncated() {
    let bytes = packet(&message(4, &[0x08, 0x2A]));
    assert_eq!(parse_packet(&bytes[..bytes.len() - 1], 6).1, Err(DemoError::Truncated));
}

#[test]
fn datatables_region_parts() {
    let mut content = message(9, &send_table(true, b"DT_A"));
    content.extend_from_slice(&2u16.to_le_bytes());
    content.extend(class_entry(7, "CFoo", "DT_Foo"));
    content.extend(class_entry(8, "CBar", "DT_Bar"));
    let mut bytes = data_tables(&content);
    let (events, result) = parse_datatables(&bytes, 6);
    assert_eq!(result, Ok(bytes.len()));
    assert_eq!(events.len(), 3);
    assert!(matches!(&events[2], Event::ServerClass(c) if c.id == 8 && c.name == "CBar" && c.datatable == "DT_Bar"));
    assert_eq!(parse_datatables(&bytes[..bytes.len() - 1], 6).1, Err(DemoError::Truncated));
    let end = bytes.len();
    bytes[6..10].copy_from_slice(&((content.len() - 1) as i32).to_le_bytes());
    assert_eq!(parse_datatables(&bytes[..end - 1], 6).1, Err(DemoError::FrameMismatch));
}

#[test]
fn file_header_is_returned_not_dispatched() {
    let data = container(&[stop()]);
    let recorder = Recorder::default();
    let (header, end) = parse_dem_file(&data, &recorder).unwrap();
    assert_eq!(end, Termination::Stopped);
    assert_eq!(&header.magic[..], b"HL2DEMO\0");
    assert_eq!(header.demo_protocol, 4);
    assert!(recorder.seen.borrow().is_empty());
    let (header, events, result) = parse_events(&data[..1071]);
    assert!(header.is_none() && events.is_empty());
    assert_eq!(result, Err(DemoError::Truncated));
}

#[test]
fn sub_kinds_without_a_decoder_go_on_undecoded() {
    for code in [28u32, 74] {
        let body = user_message(code, &[0x05]);
        assert!(matches!(route_user_message(&body), Ok(UserMessageRoute::Undecoded)));
        let data = container(&[packet(&message(23, &body)), stop()]);
        let decoder = UserMessageDecoder(Recorder::default());
        assert_eq!(run(&data, &decoder), Ok(Termination::Stopped));
        let seen = decoder.0.seen.borrow();
        assert_eq!(seen[1], Seen::Message(MessageKind::Svc(SvcKind::UserMessage), body.clone()));
        assert!(!seen.iter().any(|s| matches!(s, Seen::User(..))));
    }
}

#[test]
fn datatables_size_at_descriptor_boundary_is_a_frame_mismatch() {
    let first = message(9, &send_table(false, b"DT_A"));
    let mut content = first.clone();
    content.extend(message(9, &send_table(true, b"DT_B")));
    content.extend_from_slice(&0u16.to_le_bytes());
    let mut bytes = data_tables(&content);
    assert_eq!(parse_datatables(&bytes, 6).1, Ok(bytes.len()));
    bytes[6..10].copy_from_slice(&(first.len() as i32).to_le_bytes());
    assert_eq!(parse_datatables(&bytes, 6).1, Err(DemoError::FrameMismatch));
}
