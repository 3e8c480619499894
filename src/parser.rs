//! The container parser: the command loop and its region algorithms, stated
//! as spec functions over the container's bytes and carried out by
//! executable functions proved to follow them.

use vstd::prelude::*;

use crate::catalog::{message_kind_of, MessageKind, SvcKind};
use crate::format::{le_i32, le_u16, DemHeader, PacketInfo, Parse, ServerClass};
use crate::text::nul_index;
use vstd::utf8::{decode_utf8, valid_utf8};
use crate::varint::{lemma_varint_scan_bounds, varuint_spec};
use crate::wire::send_table_end_spec;
use crate::DemoError;

verus! {

/// One event that the parser hands to an observer.
#[derive(Clone, Debug)]
pub enum Event {
    PacketInfo(PacketInfo),
    /// A message of a packet region, or a send-table descriptor of the
    /// data-table region, with its undecoded body.
    Message(MessageKind, Vec<u8>),
    ServerClass(ServerClass),
}

/// How a parse that did not fail ended.
#[derive(Clone, Copy, Debug, PartialEq, Eq, Structural)]
pub enum Termination {
    /// A `stop` command, with no byte after it.
    Stopped,
    /// A command code outside the known set, taken as the end of the stream.
    Unrecognized(u8),
}

/// What an event is, in terms of the container's bytes.
pub enum EventSpec {
    /// The packet metadata whose record starts at `at`.
    PacketInfo { at: int },
    Message { kind: MessageKind, body: Seq<u8> },
    ServerClass { id: u16, name: Seq<char>, datatable: Seq<char> },
}

pub const SIGNON: u8 = 1;
pub const PACKET: u8 = 2;
pub const SYNC_TICK: u8 = 3;
pub const CONSOLE_COMMAND: u8 = 4;
pub const USER_COMMAND: u8 = 5;
pub const DATA_TABLES: u8 = 6;
pub const STOP: u8 = 7;
pub const CUSTOM_DATA: u8 = 8;
pub const STRING_TABLES: u8 = 9;

/// Whether the executable event `e` is the one that `s` describes in `d`.
pub open spec fn event_matches(d: Seq<u8>, e: Event, s: EventSpec) -> bool {
    match (e, s) {
        (Event::PacketInfo(p), EventSpec::PacketInfo { at }) => 0 <= at && at + 160 <= d.len()
            && p.encoded_by(d.subrange(at, at + 160)),
        (Event::Message(k, b), EventSpec::Message { kind, body }) => k == kind && b@ == body,
        (Event::ServerClass(c), EventSpec::ServerClass { id, name, datatable }) => c.id == id
            && c.name@ == name && c.datatable@ == datatable,
        _ => false,
    }
}

pub open spec fn events_match(d: Seq<u8>, es: Seq<Event>, ss: Seq<EventSpec>) -> bool {
    &&& es.len() == ss.len()
    &&& forall|i: int| 0 <= i < es.len() ==> event_matches(d, #[trigger] es[i], ss[i])
}

/// Running out of a region's bytes is a framing fault, not a short stream:
/// a region is only entered once all of its bytes are known to be there.
pub open spec fn in_region(e: DemoError) -> DemoError {
    match e {
        DemoError::Truncated => DemoError::FrameMismatch,
        _ => e,
    }
}

/// The messages of a packet region `d[pos..end]`: each is a varint kind
/// code, a varint length and that many bytes of body.
pub open spec fn packet_messages(d: Seq<u8>, pos: int, end: int) -> (
    Seq<EventSpec>,
    Result<(), DemoError>,
)
    decreases end - pos via packet_messages_decreases
{
    if pos >= end {
        (seq![], Ok(()))
    } else {
        match varuint_spec(d.subrange(pos, end)) {
            Err(e) => (seq![], Err(in_region(e))),
            Ok((code, n1)) => match varuint_spec(d.subrange(pos + n1, end)) {
                Err(e) => (seq![], Err(in_region(e))),
                Ok((len, n2)) => {
                    let start = pos + n1 + n2;
                    if start + len > end {
                        (seq![], Err(DemoError::FrameMismatch))
                    } else {
                        match message_kind_of(code) {
                            None => (seq![], Err(DemoError::UnknownMessageKind(code))),
                            Some(kind) => {
                                let rest = packet_messages(d, start + len, end);
                                (
                                    seq![EventSpec::Message { kind, body: d.subrange(start, start + len) }]
                                        + rest.0,
                                    rest.1,
                                )
                            },
                        }
                    }
                },
            },
        }
    }
}

/// Each framed element takes at least one byte of its region.
pub proof fn lemma_two_varints(d: Seq<u8>, pos: int, end: int)
    requires
        0 <= pos < end <= d.len(),
    ensures
        varuint_spec(d.subrange(pos, end)) matches Ok((c, n1)) ==> 1 <= n1 <= end - pos && (
        varuint_spec(d.subrange(pos + n1, end)) matches Ok((l, n2)) ==> 1 <= n2 <= end - pos
            - n1),
{
    lemma_varint_scan_bounds(d.subrange(pos, end), 5);
    if let Ok((c, n1)) = varuint_spec(d.subrange(pos, end)) {
        lemma_varint_scan_bounds(d.subrange(pos + n1, end), 5);
    }
}

#[via_fn]
proof fn packet_messages_decreases(d: Seq<u8>, pos: int, end: int) {
    if pos < end && 0 <= pos && end <= d.len() {
        lemma_two_varints(d, pos, end);
    }
}

/// The send-table descriptors at the front of a data-table region
/// `d[pos..end]`, up to the one flagged as the last or the region's end:
/// their events, and where the class registry starts.
pub open spec fn descriptors(d: Seq<u8>, pos: int, end: int) -> (Seq<EventSpec>, Result<int, DemoError>)
    decreases end - pos via descriptors_decreases
{
    if pos >= end {
        (seq![], Ok(pos))
    } else {
        match varuint_spec(d.subrange(pos, end)) {
            Err(e) => (seq![], Err(in_region(e))),
            Ok((_table_type, n1)) => match varuint_spec(d.subrange(pos + n1, end)) {
                Err(e) => (seq![], Err(in_region(e))),
                Ok((len, n2)) => {
                    let start = pos + n1 + n2;
                    if start + len > end {
                        (seq![], Err(DemoError::FrameMismatch))
                    } else {
                        let body = d.subrange(start, start + len);
                        let event = EventSpec::Message { kind: MessageKind::Svc(SvcKind::SendTable), body };
                        match send_table_end_spec(body) {
                            Err(e) => (seq![], Err(e)),
                            Ok(true) => (seq![event], Ok(start + len)),
                            Ok(false) => {
                                let rest = descriptors(d, start + len, end);
                                (seq![event] + rest.0, rest.1)
                            },
                        }
                    }
                },
            },
        }
    }
}

#[via_fn]
proof fn descriptors_decreases(d: Seq<u8>, pos: int, end: int) {
    if pos < end && 0 <= pos && end <= d.len() {
        lemma_two_varints(d, pos, end);
    }
}

/// `count` class-registry entries in `d[pos..end]`, which they must fill:
/// a 16-bit id, then the class name and the data-table name, each UTF-8
/// text ended by a NUL byte.
pub open spec fn class_entries(d: Seq<u8>, pos: int, end: int, count: nat) -> (
    Seq<EventSpec>,
    Result<(), DemoError>,
)
    decreases count,
{
    if count == 0 {
        if pos == end {
            (seq![], Ok(()))
        } else {
            (seq![], Err(DemoError::FrameMismatch))
        }
    } else if pos + 2 > end {
        (seq![], Err(DemoError::FrameMismatch))
    } else {
        match nul_index(d, pos + 2, end) {
            None => (seq![], Err(DemoError::FrameMismatch)),
            Some(i) => if !valid_utf8(d.subrange(pos + 2, i)) {
                (seq![], Err(DemoError::InvalidEncoding))
            } else {
                match nul_index(d, i + 1, end) {
                    None => (seq![], Err(DemoError::FrameMismatch)),
                    Some(j) => if !valid_utf8(d.subrange(i + 1, j)) {
                        (seq![], Err(DemoError::InvalidEncoding))
                    } else {
                        let rest = class_entries(d, j + 1, end, (count - 1) as nat);
                        (
                            seq![
                                EventSpec::ServerClass {
                                    id: le_u16(d, pos),
                                    name: decode_utf8(d.subrange(pos + 2, i)),
                                    datatable: decode_utf8(d.subrange(i + 1, j)),
                                },
                            ] + rest.0,
                            rest.1,
                        )
                    },
                }
            },
        }
    }
}

/// The class registry that ends a data-table region `d[pos..end]`: a 16-bit
/// entry count, then the entries.
pub open spec fn class_registry(d: Seq<u8>, pos: int, end: int) -> (Seq<EventSpec>, Result<(), DemoError>) {
    if pos + 2 > end {
        (seq![], Err(DemoError::FrameMismatch))
    } else {
        class_entries(d, pos + 2, end, le_u16(d, pos) as nat)
    }
}

/// The region that a data header at `pos` announces: where it ends, or why
/// it cannot be entered.
pub open spec fn region_at(d: Seq<u8>, pos: int) -> Result<int, DemoError> {
    if pos + 4 > d.len() {
        Err(DemoError::Truncated)
    } else if le_i32(d, pos) < 0 {
        Err(DemoError::FrameMismatch)
    } else if pos + 4 + le_i32(d, pos) > d.len() {
        Err(DemoError::Truncated)
    } else {
        Ok(pos + 4 + le_i32(d, pos))
    }
}

/// A data-table command whose data header is at `pos`: its events, and
/// where the next command starts.
pub open spec fn data_tables(d: Seq<u8>, pos: int) -> (Seq<EventSpec>, Result<int, DemoError>) {
    match region_at(d, pos) {
        Err(e) => (seq![], Err(e)),
        Ok(end) => {
            let tables = descriptors(d, pos + 4, end);
            match tables.1 {
                Err(e) => (tables.0, Err(e)),
                Ok(q) => {
                    let classes = class_registry(d, q, end);
                    (
                        tables.0 + classes.0,
                        match classes.1 {
                            Ok(()) => Ok(end),
                            Err(e) => Err(e),
                        },
                    )
                },
            }
        },
    }
}

/// A packet (or sign-on) command whose metadata is at `pos`: the metadata
/// event, then the messages of its region; and where the next command
/// starts.
pub open spec fn packet(d: Seq<u8>, pos: int) -> (Seq<EventSpec>, Result<int, DemoError>) {
    if pos + 160 > d.len() {
        (seq![], Err(DemoError::Truncated))
    } else {
        let info = EventSpec::PacketInfo { at: pos };
        match region_at(d, pos + 160) {
            Err(e) => (seq![info], Err(e)),
            Ok(end) => {
                let messages = packet_messages(d, pos + 164, end);
                (
                    seq![info] + messages.0,
                    match messages.1 {
                        Ok(()) => Ok(end),
                        Err(e) => Err(e),
                    },
                )
            },
        }
    }
}

/// The command loop from the command header at `pos` on.
pub open spec fn commands(d: Seq<u8>, pos: int) -> (Seq<EventSpec>, Result<Termination, DemoError>)
    decreases d.len() - pos,
{
    if pos < 0 || pos + 6 > d.len() {
        (seq![], Err(DemoError::Truncated))
    } else {
        let command = d[pos];
        let next = pos + 6;
        if command == SIGNON || command == PACKET || command == DATA_TABLES {
            let region = if command == DATA_TABLES {
                data_tables(d, next)
            } else {
                packet(d, next)
            };
            match region.1 {
                Err(e) => (region.0, Err(e)),
                Ok(after) => {
                    let rest = commands(d, after);
                    (region.0 + rest.0, rest.1)
                },
            }
        } else if command == SYNC_TICK {
            commands(d, next)
        } else if command == STOP {
            if next == d.len() {
                (seq![], Ok(Termination::Stopped))
            } else {
                (seq![], Err(DemoError::FrameMismatch))
            }
        } else if command == CONSOLE_COMMAND || command == USER_COMMAND || command == CUSTOM_DATA
            || command == STRING_TABLES {
            (seq![], Err(DemoError::UnsupportedCommand(command)))
        } else {
            (seq![], Ok(Termination::Unrecognized(command)))
        }
    }
}

/// A whole container: the file header, read once and not an event, then
/// the command loop.
pub open spec fn demo(d: Seq<u8>) -> (Seq<EventSpec>, Result<Termination, DemoError>) {
    if d.len() < 1072 {
        (seq![], Err(DemoError::Truncated))
    } else {
        commands(d, 1072)
    }
}

/// Adding no event leaves a sequence as it was.
proof fn lemma_append_nothing(done: Seq<EventSpec>)
    ensures
        done + seq![] == done,
{
    assert(done + seq![] =~= done);
}

pub proof fn lemma_events_match_append(d: Seq<u8>, a: Seq<Event>, sa: Seq<EventSpec>, b: Seq<Event>, sb: Seq<EventSpec>)
    requires
        events_match(d, a, sa),
        events_match(d, b, sb),
    ensures
        events_match(d, a + b, sa + sb),
{
    assert forall|i: int| 0 <= i < (a + b).len() implies event_matches(d, #[trigger] (a + b)[i], (sa + sb)[i]) by {
        if i < a.len() {
            assert(event_matches(d, a[i], sa[i]));
        } else {
            assert(event_matches(d, b[i - a.len()], sb[i - a.len()]));
        }
    }
}

fn region_error(e: DemoError) -> (r: DemoError)
    ensures
        r == in_region(e),
{
    match e {
        DemoError::Truncated => DemoError::FrameMismatch,
        other => other,
    }
}

/// Parses the messages of the packet region `data[pos..end]`.
pub fn parse_packet_messages(data: &[u8], pos: usize, end: usize) -> (r: (Vec<Event>, Result<(), DemoError>))
    requires
        pos <= end <= data@.len(),
    ensures
        events_match(data@, r.0@, packet_messages(data@, pos as int, end as int).0),
        r.1 == packet_messages(data@, pos as int, end as int).1,
{
    let ghost d = data@;
    let mut events: Vec<Event> = Vec::new();
    let ghost mut done: Seq<EventSpec> = seq![];
    let mut p = pos;
    while p < end
        invariant
            pos <= p <= end <= d.len(),
            d == data@,
            events_match(d, events@, done),
            packet_messages(d, pos as int, end as int).0 == done + packet_messages(d, p as int, end as int).0,
            packet_messages(d, pos as int, end as int).1 == packet_messages(d, p as int, end as int).1,
        decreases end - p,
    {
        proof {
            lemma_append_nothing(done);
            lemma_two_varints(d, p as int, end as int);
        }
        let (code, n1) = match crate::varint::read_varuint_at(data, p, end) {
            Ok(v) => v,
            Err(e) => {
                return (events, Err(region_error(e)));
            },
        };
        let (len, n2) = match crate::varint::read_varuint_at(data, p + n1, end) {
            Ok(v) => v,
            Err(e) => {
                return (events, Err(region_error(e)));
            },
        };
        let start = p + n1 + n2;
        let len = len as usize;
        if len > end - start {
            return (events, Err(DemoError::FrameMismatch));
        }
        let kind = match MessageKind::from_code(code) {
            Some(k) => k,
            None => {
                return (events, Err(DemoError::UnknownMessageKind(code)));
            },
        };
        let body = vstd::slice::slice_to_vec(vstd::slice::slice_subrange(data, start, start + len));
        let ghost item = EventSpec::Message { kind, body: d.subrange(start as int, (start + len) as int) };
        proof {
            let rest = packet_messages(d, (start + len) as int, end as int);
            assert(packet_messages(d, p as int, end as int).0 == seq![item] + rest.0);
            assert(done + (seq![item] + rest.0) =~= done.push(item) + rest.0);
            done = done.push(item);
        }
        events.push(Event::Message(kind, body));
        assert(event_matches(d, events@[events@.len() - 1], done[done.len() - 1]));
        p = start + len;
    }
    proof {
        lemma_append_nothing(done);
    }
    (events, Ok(()))
}

/// Parses the send-table descriptors of the data-table region
/// `data[pos..end]`; on success also returns where the class registry starts.
pub fn parse_descriptors(data: &[u8], pos: usize, end: usize) -> (r: (Vec<Event>, Result<usize, DemoError>))
    requires
        pos <= end <= data@.len(),
    ensures
        events_match(data@, r.0@, descriptors(data@, pos as int, end as int).0),
        match descriptors(data@, pos as int, end as int).1 {
            Ok(q) => r.1 == Ok::<usize, DemoError>(q as usize) && pos <= q <= end,
            Err(e) => r.1 == Err::<usize, DemoError>(e),
        },
{
    let ghost d = data@;
    let mut events: Vec<Event> = Vec::new();
    let ghost mut done: Seq<EventSpec> = seq![];
    let mut p = pos;
    while p < end
        invariant
            pos <= p <= end <= d.len(),
            d == data@,
            events_match(d, events@, done),
            descriptors(d, pos as int, end as int).0 == done + descriptors(d, p as int, end as int).0,
            descriptors(d, pos as int, end as int).1 == descriptors(d, p as int, end as int).1,
        decreases end - p,
    {
        proof {
            lemma_append_nothing(done);
            lemma_two_varints(d, p as int, end as int);
        }
        let n1 = match crate::varint::read_varuint_at(data, p, end) {
            Ok((_table_type, n)) => n,
            Err(e) => {
                return (events, Err(region_error(e)));
            },
        };
        let (len, n2) = match crate::varint::read_varuint_at(data, p + n1, end) {
            Ok(v) => v,
            Err(e) => {
                return (events, Err(region_error(e)));
            },
        };
        let start = p + n1 + n2;
        let len = len as usize;
        if len > end - start {
            return (events, Err(DemoError::FrameMismatch));
        }
        let body_slice = vstd::slice::slice_subrange(data, start, start + len);
        let is_end = match crate::wire::send_table_is_end(body_slice) {
            Ok(b) => b,
            Err(e) => {
                return (events, Err(e));
            },
        };
        let body = vstd::slice::slice_to_vec(body_slice);
        let kind = MessageKind::Svc(SvcKind::SendTable);
        let ghost item = EventSpec::Message { kind, body: d.subrange(start as int, (start + len) as int) };
        proof {
            let rest = descriptors(d, (start + len) as int, end as int);
            if !is_end {
                assert(descriptors(d, p as int, end as int).0 == seq![item] + rest.0);
                assert(done + (seq![item] + rest.0) =~= done.push(item) + rest.0);
            } else {
                assert(descriptors(d, p as int, end as int).0 == seq![item]);
                assert(done + seq![item] =~= done.push(item));
            }
            done = done.push(item);
        }
        events.push(Event::Message(kind, body));
        assert(event_matches(d, events@[events@.len() - 1], done[done.len() - 1]));
        p = start + len;
        if is_end {
            return (events, Ok(p));
        }
    }
    proof {
        lemma_append_nothing(done);
    }
    (events, Ok(p))
}

/// Parses the class registry that fills `data[pos..end]`.
pub fn parse_class_registry(data: &[u8], pos: usize, end: usize) -> (r: (Vec<Event>, Result<(), DemoError>))
    requires
        pos <= end <= data@.len(),
    ensures
        events_match(data@, r.0@, class_registry(data@, pos as int, end as int).0),
        r.1 == class_registry(data@, pos as int, end as int).1,
{
    let ghost d = data@;
    let mut events: Vec<Event> = Vec::new();
    if end - pos < 2 {
        return (events, Err(DemoError::FrameMismatch));
    }
    let count = crate::format::read_u16_le_at(data, pos);
    let ghost mut done: Seq<EventSpec> = seq![];
    let mut p = pos + 2;
    let mut left = count;
    while left > 0
        invariant
            pos + 2 <= p <= end <= d.len(),
            d == data@,
            events_match(d, events@, done),
            class_registry(d, pos as int, end as int).0 == done + class_entries(d, p as int, end as int, left as nat).0,
            class_registry(d, pos as int, end as int).1 == class_entries(d, p as int, end as int, left as nat).1,
        decreases left,
    {
        proof {
            lemma_append_nothing(done);
        }
        if end - p < 2 {
            return (events, Err(DemoError::FrameMismatch));
        }
        let id = crate::format::read_u16_le_at(data, p);
        proof {
            crate::text::lemma_nul_index_bounds(d, p + 2, end as int);
        }
        let i = match crate::text::find_nul(data, p + 2, end) {
            Some(i) => i,
            None => {
                return (events, Err(DemoError::FrameMismatch));
            },
        };
        let name = match crate::text::text_from_utf8(vstd::slice::slice_to_vec(vstd::slice::slice_subrange(data, p + 2, i))) {
            Some(t) => t,
            None => {
                return (events, Err(DemoError::InvalidEncoding));
            },
        };
        proof {
            crate::text::lemma_nul_index_bounds(d, i + 1, end as int);
        }
        let j = match crate::text::find_nul(data, i + 1, end) {
            Some(j) => j,
            None => {
                return (events, Err(DemoError::FrameMismatch));
            },
        };
        let datatable = match crate::text::text_from_utf8(vstd::slice::slice_to_vec(vstd::slice::slice_subrange(data, i + 1, j))) {
            Some(t) => t,
            None => {
                return (events, Err(DemoError::InvalidEncoding));
            },
        };
        let ghost item = EventSpec::ServerClass { id, name: name@, datatable: datatable@ };
        proof {
            let rest = class_entries(d, j + 1, end as int, (left - 1) as nat);
            assert(class_entries(d, p as int, end as int, left as nat).0 == seq![item] + rest.0);
            assert(done + (seq![item] + rest.0) =~= done.push(item) + rest.0);
            done = done.push(item);
        }
        events.push(Event::ServerClass(ServerClass { id, name, datatable }));
        assert(event_matches(d, events@[events@.len() - 1], done[done.len() - 1]));
        p = j + 1;
        left = left - 1;
    }
    proof {
        lemma_append_nothing(done);
    }
    if p != end {
        return (events, Err(DemoError::FrameMismatch));
    }
    (events, Ok(()))
}

/// Reads the data header at `pos` and checks that its region is all there.
fn enter_region(data: &[u8], pos: usize) -> (r: Result<usize, DemoError>)
    requires
        pos <= data@.len(),
    ensures
        match region_at(data@, pos as int) {
            Ok(end) => r == Ok::<usize, DemoError>(end as usize) && pos + 4 <= end <= data@.len(),
            Err(e) => r == Err::<usize, DemoError>(e),
        },
{
    let header = crate::format::DataHeader::parse(data, pos)?;
    proof {
        crate::format::lemma_le_sub(data@, pos as int, 4, 0, 4);
    }
    if header.size < 0 {
        return Err(DemoError::FrameMismatch);
    }
    let size = header.size as usize;
    if size > data.len() - pos - 4 {
        return Err(DemoError::Truncated);
    }
    Ok(pos + 4 + size)
}

/// Parses a packet command whose metadata starts at `pos`.
pub fn parse_packet(data: &[u8], pos: usize) -> (r: (Vec<Event>, Result<usize, DemoError>))
    requires
        pos <= data@.len(),
    ensures
        events_match(data@, r.0@, packet(data@, pos as int).0),
        match packet(data@, pos as int).1 {
            Ok(q) => r.1 == Ok::<usize, DemoError>(q as usize) && pos < q <= data@.len(),
            Err(e) => r.1 == Err::<usize, DemoError>(e),
        },
{
    let ghost d = data@;
    proof {
        crate::format::lemma_len_fits(data);
    }
    let mut events: Vec<Event> = Vec::new();
    let info = match PacketInfo::parse(data, pos) {
        Ok(info) => info,
        Err(e) => return (events, Err(e)),
    };
    events.push(Event::PacketInfo(info));
    let ghost head = seq![EventSpec::PacketInfo { at: pos as int }];
    assert(events_match(d, events@, head)) by {
        assert(event_matches(d, events@[0], head[0]));
    }
    let end = match enter_region(data, pos + 160) {
        Ok(end) => end,
        Err(e) => return (events, Err(e)),
    };
    let (mut messages, result) = parse_packet_messages(data, pos + 164, end);
    proof {
        lemma_events_match_append(d, events@, head, messages@, packet_messages(d, pos + 164, end as int).0);
    }
    events.append(&mut messages);
    match result {
        Ok(()) => (events, Ok(end)),
        Err(e) => (events, Err(e)),
    }
}

/// Parses a data-table command whose data header starts at `pos`.
pub fn parse_datatables(data: &[u8], pos: usize) -> (r: (Vec<Event>, Result<usize, DemoError>))
    requires
        pos <= data@.len(),
    ensures
        events_match(data@, r.0@, data_tables(data@, pos as int).0),
        match data_tables(data@, pos as int).1 {
            Ok(q) => r.1 == Ok::<usize, DemoError>(q as usize) && pos < q <= data@.len(),
            Err(e) => r.1 == Err::<usize, DemoError>(e),
        },
{
    let ghost d = data@;
    proof {
        crate::format::lemma_len_fits(data);
    }
    let end = match enter_region(data, pos) {
        Ok(end) => end,
        Err(e) => return (Vec::new(), Err(e)),
    };
    let (mut events, tables) = parse_descriptors(data, pos + 4, end);
    let q = match tables {
        Ok(q) => q,
        Err(e) => return (events, Err(e)),
    };
    let (mut classes, result) = parse_class_registry(data, q, end);
    proof {
        lemma_events_match_append(
            d,
            events@,
            descriptors(d, pos + 4, end as int).0,
            classes@,
            class_registry(d, q as int, end as int).0,
        );
    }
    events.append(&mut classes);
    match result {
        Ok(()) => (events, Ok(end)),
        Err(e) => (events, Err(e)),
    }
}

/// Parses a whole container: every event it holds, in order, up to the
/// first fault, and how it ended or why it failed.
pub fn parse_events(data: &[u8]) -> (r: (Option<DemHeader>, Vec<Event>, Result<Termination, DemoError>))
    ensures
        r.0 is Some <==> data@.len() >= 1072,
        r.0 matches Some(h) ==> h.encoded_by(data@.subrange(0, 1072)),
        events_match(data@, r.1@, demo(data@).0),
        r.2 == demo(data@).1,
{
    let ghost d = data@;
    proof {
        crate::format::lemma_len_fits(data);
    }
    let mut events: Vec<Event> = Vec::new();
    let header = match DemHeader::parse(data, 0) {
        Ok(h) => h,
        Err(e) => return (None, events, Err(e)),
    };
    let ghost mut done: Seq<EventSpec> = seq![];
    assert(done + commands(d, 1072).0 =~= commands(d, 1072).0);
    let mut pos: usize = 1072;
    loop
        invariant
            1072 <= pos <= d.len() <= usize::MAX,
            d == data@,
            header.encoded_by(d.subrange(0, 1072)),
            events_match(d, events@, done),
            demo(d).0 == done + commands(d, pos as int).0,
            demo(d).1 == commands(d, pos as int).1,
        decreases d.len() - pos,
    {
        proof {
            lemma_append_nothing(done);
        }
        let command = match crate::format::CommandHeader::parse(data, pos) {
            Ok(c) => c,
            Err(e) => {
                return (Some(header), events, Err(e));
            },
        };
        let next = pos + 6;
        let code = command.command;
        if code == SIGNON || code == PACKET || code == DATA_TABLES {
            let (mut found, result) = if code == DATA_TABLES {
                parse_datatables(data, next)
            } else {
                parse_packet(data, next)
            };
            let ghost region = if code == DATA_TABLES {
                data_tables(d, next as int)
            } else {
                packet(d, next as int)
            };
            proof {
                lemma_events_match_append(d, events@, done, found@, region.0);
            }
            events.append(&mut found);
            match result {
                Ok(after) => {
                    proof {
                        let rest = commands(d, after as int);
                        assert(done + (region.0 + rest.0) =~= (done + region.0) + rest.0);
                        done = done + region.0;
                    }
                    pos = after;
                },
                Err(e) => {
                    return (Some(header), events, Err(e));
                },
            }
        } else if code == SYNC_TICK {
            pos = next;
        } else if code == STOP {
            if next == data.len() {
                return (Some(header), events, Ok(Termination::Stopped));
            }
            return (Some(header), events, Err(DemoError::FrameMismatch));
        } else if code == CONSOLE_COMMAND || code == USER_COMMAND || code == CUSTOM_DATA
            || code == STRING_TABLES {
            return (Some(header), events, Err(DemoError::UnsupportedCommand(code)));
        } else {
            return (Some(header), events, Ok(Termination::Unrecognized(code)));
        }
    }
}

} // verus!
