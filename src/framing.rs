//! Framing properties of regions: a packet region whose declared size covers
//! its messages exactly is read whole, one whose size ends inside a message
//! is refused, a well-formed data-table region is read whole and refused
//! under any other declared size, a class registry must fill its region,
//! and a container or region that the stream cuts short is reported as
//! truncated.

use vstd::prelude::*;

use crate::catalog::{MessageKind, SvcKind};
use crate::wire::send_table_end_spec;
use vstd::utf8::{decode_utf8, valid_utf8};
use crate::format::{le_i32, le_uint};
use crate::parser::{
    class_entries, class_registry, commands, data_tables, demo, descriptors, lemma_two_varints, packet,
    packet_messages, region_at, EventSpec, Termination,
};
use crate::text::nul_index;
use crate::varint::{pow128, varint_scan, varuint_encoding, varuint_spec, lemma_varuint_round_trip};
use crate::DemoError;

verus! {

/// The bytes of one framed message: kind code, body length, body.
pub open spec fn encode_message(m: (MessageKind, Seq<u8>)) -> Seq<u8> {
    varuint_encoding(m.0.spec_code() as nat) + varuint_encoding(m.1.len()) + m.1
}

/// The bytes of a sequence of framed messages.
pub open spec fn encode_messages(ms: Seq<(MessageKind, Seq<u8>)>) -> Seq<u8>
    decreases ms.len(),
{
    if ms.len() == 0 {
        seq![]
    } else {
        encode_message(ms[0]) + encode_messages(ms.drop_first())
    }
}

/// The events that the messages `ms` give.
pub open spec fn message_events(ms: Seq<(MessageKind, Seq<u8>)>) -> Seq<EventSpec> {
    ms.map_values(|m: (MessageKind, Seq<u8>)| EventSpec::Message { kind: m.0, body: m.1 })
}

/// Every body is short enough for its length to be a 32-bit varint.
pub open spec fn bodies_fit(ms: Seq<(MessageKind, Seq<u8>)>) -> bool {
    forall|i: int| 0 <= i < ms.len() ==> (#[trigger] ms[i]).1.len() < 0x1_0000_0000
}

proof fn lemma_scan_prefix(v: nat, j: int, groups: nat)
    requires
        v < pow128(groups),
        groups >= 1,
        0 <= j < varuint_encoding(v).len(),
    ensures
        varint_scan(varuint_encoding(v).take(j), groups) == Err::<(nat, nat), DemoError>(DemoError::Truncated),
    decreases v,
{
    let e = varuint_encoding(v);
    if j > 0 {
        let tail = varuint_encoding(v / 128);
        assert(v >= 128);
        assert(e.take(j)[0] == e[0]);
        assert(e.take(j).drop_first() =~= tail.take(j - 1));
        assert(groups > 1) by {
            if groups <= 1 {
                reveal_with_fuel(pow128, 2);
            }
        }
        assert(pow128(groups) == 128 * pow128((groups - 1) as nat));
        lemma_scan_prefix(v / 128, j - 1, (groups - 1) as nat);
    }
}

/// A proper prefix of a varint's encoding runs out before the varint ends.
proof fn lemma_varuint_prefix(v: u32, j: int)
    requires
        0 <= j < varuint_encoding(v as nat).len(),
    ensures
        varuint_spec(varuint_encoding(v as nat).take(j)) == Err::<(u32, nat), DemoError>(DemoError::Truncated),
{
    reveal_with_fuel(pow128, 6);
    lemma_scan_prefix(v as nat, j, 5);
}

/// The region `d[pos..end]` begins with the bytes `b`.
pub open spec fn begins_with(d: Seq<u8>, pos: int, end: int, b: Seq<u8>) -> bool {
    &&& 0 <= pos
    &&& pos + b.len() <= end <= d.len()
    &&& d.subrange(pos, pos + b.len()) == b
}

proof fn lemma_region_split(d: Seq<u8>, pos: int, end: int, a: Seq<u8>, b: Seq<u8>)
    requires
        begins_with(d, pos, end, a + b),
    ensures
        begins_with(d, pos, end, a),
        begins_with(d, pos + a.len(), end, b),
        d.subrange(pos, end) =~= a + d.subrange(pos + a.len(), end),
{
    let s = d.subrange(pos, pos + (a + b).len());
    assert(d.subrange(pos, pos + a.len()) =~= a) by {
        assert forall|i: int| 0 <= i < a.len() implies d.subrange(pos, pos + a.len())[i] == a[i] by {
            assert(s[i] == (a + b)[i]);
        }
    }
    assert(d.subrange(pos + a.len(), pos + a.len() + b.len()) =~= b) by {
        assert forall|i: int| 0 <= i < b.len() implies d.subrange(pos + a.len(), pos + a.len() + b.len())[i]
            == b[i] by {
            assert(s[a.len() + i] == (a + b)[a.len() + i]);
        }
    }
}

/// A whole message at the front of a region is read as itself.
proof fn lemma_first_message(d: Seq<u8>, pos: int, end: int, m: (MessageKind, Seq<u8>))
    requires
        begins_with(d, pos, end, encode_message(m)),
        m.1.len() < 0x1_0000_0000,
    ensures
        ({
            let rest = packet_messages(d, pos + encode_message(m).len(), end);
            packet_messages(d, pos, end) == (
                seq![EventSpec::Message { kind: m.0, body: m.1 }] + rest.0,
                rest.1,
            )
        }),
{
    let code = m.0.spec_code();
    let c = varuint_encoding(code as nat);
    let l = varuint_encoding(m.1.len());
    assert(encode_message(m) == c + (l + m.1)) by {
        assert(c + l + m.1 =~= c + (l + m.1));
    }
    lemma_region_split(d, pos, end, c, l + m.1);
    lemma_region_split(d, pos + c.len(), end, l, m.1);
    lemma_varuint_round_trip(code, d.subrange(pos + c.len(), end));
    lemma_varuint_round_trip(m.1.len() as u32, d.subrange(pos + c.len() + l.len(), end));
    m.0.lemma_code_round_trip();
    assert(c.len() >= 1);
}

/// Messages that fill a packet region exactly are all read, in order, and
/// the region is read to its last byte without fault.
pub proof fn lemma_exact_region_is_read_whole(d: Seq<u8>, pos: int, ms: Seq<(MessageKind, Seq<u8>)>)
    requires
        begins_with(d, pos, pos + encode_messages(ms).len(), encode_messages(ms)),
        bodies_fit(ms),
    ensures
        packet_messages(d, pos, pos + encode_messages(ms).len()) == (
            message_events(ms),
            Ok::<(), DemoError>(()),
        ),
    decreases ms.len(),
{
    let end = pos + encode_messages(ms).len();
    if ms.len() == 0 {
        assert(message_events(ms) =~= seq![]);
    } else {
        let first = encode_message(ms[0]);
        let rest = ms.drop_first();
        assert(bodies_fit(rest)) by {
            assert forall|i: int| 0 <= i < rest.len() implies (#[trigger] rest[i]).1.len() < 0x1_0000_0000 by {
                assert(rest[i] == ms[i + 1]);
            }
        }
        assert(ms[0].1.len() < 0x1_0000_0000);
        lemma_region_split(d, pos, end, first, encode_messages(rest));
        lemma_first_message(d, pos, end, ms[0]);
        lemma_exact_region_is_read_whole(d, pos + first.len(), rest);
        assert(message_events(ms) =~= seq![EventSpec::Message { kind: ms[0].0, body: ms[0].1 }]
            + message_events(rest));
    }
}

/// A packet region whose declared end falls strictly inside the encoding of
/// one of its messages is refused with `FrameMismatch`, whatever follows.
pub proof fn lemma_region_ending_inside_a_message(
    d: Seq<u8>,
    pos: int,
    ms: Seq<(MessageKind, Seq<u8>)>,
    k: int,
    size: int,
)
    requires
        begins_with(d, pos, pos + encode_messages(ms).len(), encode_messages(ms)),
        bodies_fit(ms),
        0 <= k < ms.len(),
        encode_messages(ms.take(k)).len() < size < encode_messages(ms.take(k + 1)).len(),
    ensures
        packet_messages(d, pos, pos + size).1 == Err::<(), DemoError>(DemoError::FrameMismatch),
    decreases k,
{
    let first = encode_message(ms[0]);
    let rest = ms.drop_first();
    let all = pos + encode_messages(ms).len();
    assert(ms[0].1.len() < 0x1_0000_0000);
    assert(bodies_fit(rest)) by {
        assert forall|i: int| 0 <= i < rest.len() implies (#[trigger] rest[i]).1.len() < 0x1_0000_0000 by {
            assert(rest[i] == ms[i + 1]);
        }
    }
    lemma_region_split(d, pos, all, first, encode_messages(rest));
    assert(ms.take(1).drop_first() =~= seq![]);
    assert(encode_messages(ms.take(1)) =~= first + encode_messages(ms.take(1).drop_first()));
    assert(ms.take(k + 1).drop_first() =~= rest.take(k));
    assert(encode_messages(ms.take(k + 1)) == first + encode_messages(rest.take(k)));
    lemma_prefix_encoding_len(ms, k);
    lemma_prefix_encoding_len(ms, k + 1);
    if k == 0 {
        assert(ms.take(0) =~= seq![]);
        lemma_cut_first_message(d, pos, pos + size, all, ms[0]);
    } else {
        assert(ms.take(k).drop_first() =~= rest.take(k - 1));
        assert(encode_messages(ms.take(k)) == first + encode_messages(rest.take(k - 1)));
        lemma_prefix_encoding_len(rest, k - 1);
        lemma_first_message(d, pos, pos + size, ms[0]);
        assert(d.subrange(pos + first.len(), pos + first.len() + encode_messages(rest).len()) == encode_messages(rest));
        lemma_region_ending_inside_a_message(d, pos + first.len(), rest, k - 1, size - first.len());
    }
}

/// The encoding of the first `k` messages is a prefix of the whole encoding.
proof fn lemma_prefix_encoding_len(ms: Seq<(MessageKind, Seq<u8>)>, k: int)
    requires
        0 <= k <= ms.len(),
    ensures
        encode_messages(ms.take(k)).len() <= encode_messages(ms).len(),
    decreases k,
{
    if k > 0 {
        let rest = ms.drop_first();
        assert(ms.take(k).drop_first() =~= rest.take(k - 1));
        lemma_prefix_encoding_len(rest, k - 1);
    }
}

/// A region that ends inside its first message is refused.
proof fn lemma_cut_first_message(d: Seq<u8>, pos: int, end: int, all: int, m: (MessageKind, Seq<u8>))
    requires
        begins_with(d, pos, all, encode_message(m)),
        m.1.len() < 0x1_0000_0000,
        pos < end < pos + encode_message(m).len(),
    ensures
        packet_messages(d, pos, end).1 == Err::<(), DemoError>(DemoError::FrameMismatch),
{
    let code = m.0.spec_code();
    let c = varuint_encoding(code as nat);
    let l = varuint_encoding(m.1.len());
    let e = encode_message(m);
    let cut = end - pos;
    assert(e == c + (l + m.1)) by {
        assert(c + l + m.1 =~= c + (l + m.1));
    }
    assert(d.subrange(pos, end) =~= e.take(cut));
    if cut < c.len() {
        assert(e.take(cut) =~= c.take(cut));
        lemma_varuint_prefix(code, cut);
    } else {
        assert(e.take(cut) =~= c + (l + m.1).take(cut - c.len()));
        lemma_varuint_round_trip(code, (l + m.1).take(cut - c.len()));
        assert(d.subrange(pos + c.len(), end) =~= (l + m.1).take(cut - c.len())) by {
            let t = d.subrange(pos, end);
            assert forall|i: int| 0 <= i < cut - c.len() implies #[trigger] d.subrange(pos + c.len(), end)[i]
                == (l + m.1).take(cut - c.len())[i] by {
                assert(t[c.len() + i] == e.take(cut)[c.len() + i]);
            }
        }
        if cut - c.len() < l.len() {
            assert((l + m.1).take(cut - c.len()) =~= l.take(cut - c.len()));
            lemma_varuint_prefix(m.1.len() as u32, cut - c.len());
        } else {
            let after = (l + m.1).take(cut - c.len());
            assert(after =~= l + m.1.take(cut - c.len() - l.len()));
            lemma_varuint_round_trip(m.1.len() as u32, m.1.take(cut - c.len() - l.len()));
        }
    }
}

/// A packet region that holds one message of kind `kind` gives exactly one
/// event, that message with its kind and body, and no other.
pub proof fn lemma_one_message_one_event(d: Seq<u8>, pos: int, kind: MessageKind, body: Seq<u8>)
    requires
        begins_with(d, pos, pos + encode_message((kind, body)).len(), encode_message((kind, body))),
        body.len() < 0x1_0000_0000,
    ensures
        packet_messages(d, pos, pos + encode_message((kind, body)).len()) == (
            seq![EventSpec::Message { kind, body }],
            Ok::<(), DemoError>(()),
        ),
{
    let ms = seq![(kind, body)];
    assert(ms.drop_first() =~= seq![]);
    assert(encode_messages(ms.drop_first()) == Seq::<u8>::empty());
    assert(encode_messages(ms) == encode_message(ms[0]) + encode_messages(ms.drop_first()));
    assert(encode_messages(ms) =~= encode_message((kind, body)));
    lemma_exact_region_is_read_whole(d, pos, ms);
    assert(message_events(ms) =~= seq![EventSpec::Message { kind, body }]);
}

/// A region whose declared end lies past the end of the stream is reported
/// as `Truncated`, both for a packet and for the data tables, never read
/// short.
pub proof fn lemma_region_cut_by_stream_end(d: Seq<u8>, pos: int)
    requires
        0 <= pos,
        pos + 4 <= d.len(),
        le_i32(d, pos) >= 0,
        pos + 4 + le_i32(d, pos) > d.len(),
    ensures
        data_tables(d, pos).1 == Err::<int, DemoError>(DemoError::Truncated),
        pos >= 160 ==> packet(d, pos - 160).1 == Err::<int, DemoError>(DemoError::Truncated),
{
}

proof fn lemma_nul_index_longer(d: Seq<u8>, from: int, end: int, end2: int)
    requires
        end <= end2,
        nul_index(d, from, end) is Some,
    ensures
        nul_index(d, from, end2) == nul_index(d, from, end),
    decreases end - from,
{
    if from < end && d[from] != 0 {
        lemma_nul_index_longer(d, from + 1, end, end2);
    }
}

/// The class registry must fill its region: entries that are read without
/// fault from a region are refused with `FrameMismatch` from any longer one.
pub proof fn lemma_class_registry_fills_region(d: Seq<u8>, pos: int, end: int, end2: int, count: nat)
    requires
        class_entries(d, pos, end, count).1 is Ok,
        end < end2,
    ensures
        class_entries(d, pos, end2, count).1 == Err::<(), DemoError>(DemoError::FrameMismatch),
    decreases count,
{
    if count > 0 {
        let i = nul_index(d, pos + 2, end).unwrap();
        lemma_nul_index_longer(d, pos + 2, end, end2);
        let j = nul_index(d, i + 1, end).unwrap();
        lemma_nul_index_longer(d, i + 1, end, end2);
        lemma_class_registry_fills_region(d, j + 1, end, end2, (count - 1) as nat);
    }
}

/// The first `c` bytes hold the same sub-ranges below `c`.
proof fn lemma_take_subrange(d: Seq<u8>, c: int, a: int, b: int)
    requires
        0 <= a <= b <= c <= d.len(),
    ensures
        d.take(c).subrange(a, b) == d.subrange(a, b),
{
    assert(d.take(c).subrange(a, b) =~= d.subrange(a, b));
}

proof fn lemma_take_le_uint(d: Seq<u8>, c: int, at: int, n: nat)
    requires
        0 <= at,
        at + n <= c <= d.len(),
    ensures
        le_uint(d.take(c), at, n) == le_uint(d, at, n),
    decreases n,
{
    if n > 0 {
        lemma_take_le_uint(d, c, at + 1, (n - 1) as nat);
    }
}

proof fn lemma_take_nul_index(d: Seq<u8>, c: int, from: int, end: int)
    requires
        0 <= from,
        end <= c <= d.len(),
    ensures
        nul_index(d.take(c), from, end) == nul_index(d, from, end),
    decreases end - from,
{
    if from < end {
        lemma_take_nul_index(d, c, from + 1, end);
    }
}

proof fn lemma_take_packet_messages(d: Seq<u8>, c: int, pos: int, end: int)
    requires
        0 <= pos <= end <= c <= d.len(),
    ensures
        packet_messages(d.take(c), pos, end) == packet_messages(d, pos, end),
    decreases end - pos,
{
    let t = d.take(c);
    if pos < end {
        lemma_two_varints(d, pos, end);
        lemma_take_subrange(d, c, pos, end);
        if let Ok((code, n1)) = crate::varint::varuint_spec(d.subrange(pos, end)) {
            lemma_take_subrange(d, c, pos + n1, end);
            if let Ok((len, n2)) = crate::varint::varuint_spec(d.subrange(pos + n1, end)) {
                let start = pos + n1 + n2;
                if start + len <= end {
                    lemma_take_subrange(d, c, start, start + len);
                    lemma_take_packet_messages(d, c, start + len, end);
                }
            }
        }
    }
}

proof fn lemma_take_descriptors(d: Seq<u8>, c: int, pos: int, end: int)
    requires
        0 <= pos <= end <= c <= d.len(),
    ensures
        descriptors(d.take(c), pos, end) == descriptors(d, pos, end),
    decreases end - pos,
{
    if pos < end {
        lemma_two_varints(d, pos, end);
        lemma_take_subrange(d, c, pos, end);
        if let Ok((code, n1)) = crate::varint::varuint_spec(d.subrange(pos, end)) {
            lemma_take_subrange(d, c, pos + n1, end);
            if let Ok((len, n2)) = crate::varint::varuint_spec(d.subrange(pos + n1, end)) {
                let start = pos + n1 + n2;
                if start + len <= end {
                    lemma_take_subrange(d, c, start, start + len);
                    lemma_take_descriptors(d, c, start + len, end);
                }
            }
        }
    }
}

proof fn lemma_descriptors_bounds(d: Seq<u8>, pos: int, end: int)
    requires
        0 <= pos <= end <= d.len(),
    ensures
        descriptors(d, pos, end).1 matches Ok(q) ==> pos <= q <= end,
    decreases end - pos,
{
    if pos < end {
        lemma_two_varints(d, pos, end);
        if let Ok((code, n1)) = crate::varint::varuint_spec(d.subrange(pos, end)) {
            if let Ok((len, n2)) = crate::varint::varuint_spec(d.subrange(pos + n1, end)) {
                let start = pos + n1 + n2;
                if start + len <= end {
                    lemma_descriptors_bounds(d, start + len, end);
                }
            }
        }
    }
}

proof fn lemma_take_class_entries(d: Seq<u8>, c: int, pos: int, end: int, count: nat)
    requires
        0 <= pos,
        end <= c <= d.len(),
    ensures
        class_entries(d.take(c), pos, end, count) == class_entries(d, pos, end, count),
    decreases count,
{
    if count > 0 && pos + 2 <= end {
        lemma_take_le_uint(d, c, pos, 2);
        lemma_take_nul_index(d, c, pos + 2, end);
        crate::text::lemma_nul_index_bounds(d, pos + 2, end);
        if let Some(i) = nul_index(d, pos + 2, end) {
            lemma_take_subrange(d, c, pos + 2, i);
            lemma_take_nul_index(d, c, i + 1, end);
            crate::text::lemma_nul_index_bounds(d, i + 1, end);
            if let Some(j) = nul_index(d, i + 1, end) {
                lemma_take_subrange(d, c, i + 1, j);
                lemma_take_class_entries(d, c, j + 1, end, (count - 1) as nat);
            }
        }
    }
}

/// A region command (packet or data tables) whose data header is at `h`
/// and whose region ends at `end`, read from the first `c` bytes.
proof fn lemma_take_region_at(d: Seq<u8>, c: int, h: int)
    requires
        0 <= h,
        0 <= c,
        c <= d.len(),
        region_at(d, h) is Ok,
    ensures
        region_at(d, h) matches Ok(end) ==> (if c < end {
            region_at(d.take(c), h) == Err::<int, DemoError>(DemoError::Truncated)
        } else {
            region_at(d.take(c), h) == region_at(d, h)
        }),
{
    if h + 4 <= c {
        lemma_take_le_uint(d, c, h, 4);
    }
}

proof fn lemma_take_packet(d: Seq<u8>, c: int, pos: int)
    requires
        0 <= pos,
        0 <= c,
        c <= d.len(),
        packet(d, pos).1 is Ok,
    ensures
        packet(d, pos).1 matches Ok(after) ==> (if c < after {
            packet(d.take(c), pos).1 == Err::<int, DemoError>(DemoError::Truncated)
        } else {
            packet(d.take(c), pos).1 == packet(d, pos).1
        }),
{
    lemma_take_region_at(d, c, pos + 160);
    if let Ok(end) = region_at(d, pos + 160) {
        if c >= end {
            lemma_take_packet_messages(d, c, pos + 164, end);
        }
    }
}

proof fn lemma_take_data_tables(d: Seq<u8>, c: int, pos: int)
    requires
        0 <= pos,
        0 <= c,
        c <= d.len(),
        data_tables(d, pos).1 is Ok,
    ensures
        data_tables(d, pos).1 matches Ok(after) ==> (if c < after {
            data_tables(d.take(c), pos).1 == Err::<int, DemoError>(DemoError::Truncated)
        } else {
            data_tables(d.take(c), pos).1 == data_tables(d, pos).1
        }),
{
    lemma_take_region_at(d, c, pos);
    if let Ok(end) = region_at(d, pos) {
        if c >= end {
            lemma_take_descriptors(d, c, pos + 4, end);
            lemma_descriptors_bounds(d, pos + 4, end);
            if let Ok(q) = descriptors(d, pos + 4, end).1 {
                if q + 2 <= end {
                    lemma_take_le_uint(d, c, q, 2);
                }
                lemma_take_class_entries(d, c, q + 2, end, crate::format::le_u16(d, q) as nat);
            }
        }
    }
}

proof fn lemma_take_commands(d: Seq<u8>, c: int, pos: int)
    requires
        0 <= pos <= c < d.len(),
        commands(d, pos).1 == Ok::<Termination, DemoError>(Termination::Stopped),
    ensures
        commands(d.take(c), pos).1 == Err::<Termination, DemoError>(DemoError::Truncated),
    decreases d.len() - pos,
{
    if pos + 6 <= c {
        let command = d[pos];
        assert(d.take(c)[pos] == command);
        if command == 1 || command == 2 {
            lemma_take_packet(d, c, pos + 6);
            if let Ok(after) = packet(d, pos + 6).1 {
                if c >= after {
                    lemma_take_commands(d, c, after);
                }
            }
        } else if command == 6 {
            lemma_take_data_tables(d, c, pos + 6);
            if let Ok(after) = data_tables(d, pos + 6).1 {
                if c >= after {
                    lemma_take_commands(d, c, after);
                }
            }
        } else if command == 3 {
            lemma_take_commands(d, c, pos + 6);
        }
    }
}

/// A container that ends with `stop` has no proper prefix that parses: cut
/// anywhere before its last byte, inside any record or region, the parse
/// fails with `Truncated`.
pub proof fn lemma_cut_container_is_truncated(d: Seq<u8>, c: int)
    requires
        demo(d).1 == Ok::<Termination, DemoError>(Termination::Stopped),
        0 <= c < d.len(),
    ensures
        demo(d.take(c)).1 == Err::<Termination, DemoError>(DemoError::Truncated),
{
    if c >= 1072 {
        lemma_take_commands(d, c, 1072);
    }
}

/// The bytes of one send-table descriptor: table type, body length, body.
pub open spec fn encode_descriptor(t: (u32, Seq<u8>)) -> Seq<u8> {
    varuint_encoding(t.0 as nat) + varuint_encoding(t.1.len()) + t.1
}

pub open spec fn encode_descriptors(ts: Seq<(u32, Seq<u8>)>) -> Seq<u8>
    decreases ts.len(),
{
    if ts.len() == 0 {
        seq![]
    } else {
        encode_descriptor(ts[0]) + encode_descriptors(ts.drop_first())
    }
}

pub open spec fn descriptor_events(ts: Seq<(u32, Seq<u8>)>) -> Seq<EventSpec> {
    ts.map_values(|t: (u32, Seq<u8>)| EventSpec::Message { kind: MessageKind::Svc(SvcKind::SendTable), body: t.1 })
}

/// Every descriptor body decodes, and only the last is flagged as the end.
pub open spec fn descriptors_well_formed(ts: Seq<(u32, Seq<u8>)>) -> bool {
    &&& ts.len() >= 1
    &&& forall|i: int| 0 <= i < ts.len() ==> (#[trigger] ts[i]).1.len() < 0x1_0000_0000
    &&& forall|i: int| 0 <= i < ts.len() - 1 ==> send_table_end_spec((#[trigger] ts[i]).1) == Ok::<bool, DemoError>(false)
    &&& send_table_end_spec(ts.last().1) == Ok::<bool, DemoError>(true)
}

proof fn lemma_descriptors_read(d: Seq<u8>, pos: int, end: int, ts: Seq<(u32, Seq<u8>)>)
    requires
        begins_with(d, pos, end, encode_descriptors(ts)),
        descriptors_well_formed(ts),
    ensures
        descriptors(d, pos, end) == (
            descriptor_events(ts),
            Ok::<int, DemoError>(pos + encode_descriptors(ts).len()),
        ),
    decreases ts.len(),
{
    let t = ts[0];
    let first = encode_descriptor(t);
    let rest = ts.drop_first();
    let c = varuint_encoding(t.0 as nat);
    let l = varuint_encoding(t.1.len());
    assert(t.1.len() < 0x1_0000_0000);
    lemma_region_split(d, pos, end, first, encode_descriptors(rest));
    assert(first == c + (l + t.1)) by {
        assert(c + l + t.1 =~= c + (l + t.1));
    }
    lemma_region_split(d, pos, end, c, l + t.1);
    lemma_region_split(d, pos + c.len(), end, l, t.1);
    lemma_varuint_round_trip(t.0, d.subrange(pos + c.len(), end));
    lemma_varuint_round_trip(t.1.len() as u32, d.subrange(pos + c.len() + l.len(), end));
    let ev = EventSpec::Message { kind: MessageKind::Svc(SvcKind::SendTable), body: t.1 };
    if ts.len() == 1 {
        assert(rest =~= seq![]);
        assert(encode_descriptors(ts) =~= first);
        assert(descriptor_events(ts) =~= seq![ev]);
    } else {
        assert(send_table_end_spec(ts[0].1) == Ok::<bool, DemoError>(false));
        assert(descriptors_well_formed(rest)) by {
            assert forall|i: int| 0 <= i < rest.len() implies (#[trigger] rest[i]).1.len() < 0x1_0000_0000 by {
                assert(rest[i] == ts[i + 1]);
            }
            assert forall|i: int| 0 <= i < rest.len() - 1 implies send_table_end_spec((#[trigger] rest[i]).1)
                == Ok::<bool, DemoError>(false) by {
                assert(rest[i] == ts[i + 1]);
            }
            assert(rest.last() == ts.last());
        }
        lemma_descriptors_read(d, pos + first.len(), end, rest);
        assert(descriptor_events(ts) =~= seq![ev] + descriptor_events(rest));
    }
}

/// The two bytes of `v`, low byte first.
pub open spec fn le16_bytes(v: u16) -> Seq<u8> {
    seq![(v % 256) as u8, (v / 256) as u8]
}

pub open spec fn no_nul(b: Seq<u8>) -> bool {
    forall|i: int| 0 <= i < b.len() ==> b[i] != 0
}

/// The bytes of one class-registry entry: id, name, NUL, data-table name, NUL.
pub open spec fn encode_class(e: (u16, Seq<u8>, Seq<u8>)) -> Seq<u8> {
    le16_bytes(e.0) + e.1 + seq![0u8] + e.2 + seq![0u8]
}

pub open spec fn encode_classes(es: Seq<(u16, Seq<u8>, Seq<u8>)>) -> Seq<u8>
    decreases es.len(),
{
    if es.len() == 0 {
        seq![]
    } else {
        encode_class(es[0]) + encode_classes(es.drop_first())
    }
}

pub open spec fn class_events(es: Seq<(u16, Seq<u8>, Seq<u8>)>) -> Seq<EventSpec> {
    es.map_values(
        |e: (u16, Seq<u8>, Seq<u8>)| EventSpec::ServerClass { id: e.0, name: decode_utf8(e.1), datatable: decode_utf8(e.2) },
    )
}

/// Every name is UTF-8 text without a NUL byte.
pub open spec fn classes_well_formed(es: Seq<(u16, Seq<u8>, Seq<u8>)>) -> bool {
    forall|i: int| 0 <= i < es.len() ==> {
        let e = #[trigger] es[i];
        no_nul(e.1) && no_nul(e.2) && valid_utf8(e.1) && valid_utf8(e.2)
    }
}

proof fn lemma_nul_after(d: Seq<u8>, from: int, end: int, text: Seq<u8>)
    requires
        0 <= from,
        from + text.len() < end <= d.len(),
        d.subrange(from, from + text.len()) == text,
        no_nul(text),
        d[from + text.len()] == 0,
    ensures
        nul_index(d, from, end) == Some(from + text.len()),
    decreases text.len(),
{
    if text.len() > 0 {
        assert(d[from] == text[0]);
        assert(d.subrange(from + 1, from + text.len()) =~= text.drop_first());
        lemma_nul_after(d, from + 1, end, text.drop_first());
    }
}

proof fn lemma_classes_read(d: Seq<u8>, pos: int, es: Seq<(u16, Seq<u8>, Seq<u8>)>)
    requires
        begins_with(d, pos, pos + encode_classes(es).len(), encode_classes(es)),
        classes_well_formed(es),
    ensures
        class_entries(d, pos, pos + encode_classes(es).len(), es.len()) == (
            class_events(es),
            Ok::<(), DemoError>(()),
        ),
    decreases es.len(),
{
    let end = pos + encode_classes(es).len();
    if es.len() == 0 {
        assert(class_events(es) =~= seq![]);
    } else {
        let e = es[0];
        let rest = es.drop_first();
        let first = encode_class(e);
        assert(no_nul(e.1) && no_nul(e.2) && valid_utf8(e.1) && valid_utf8(e.2));
        lemma_region_split(d, pos, end, first, encode_classes(rest));
        let i = pos + 2 + e.1.len();
        let j = i + 1 + e.2.len();
        assert(d.subrange(pos, pos + first.len()) == first);
        assert(d[pos] == first[0] && d[pos + 1] == first[1]);
        assert(crate::format::le_u16(d, pos) == e.0) by {
            reveal_with_fuel(le_uint, 3);
        }
        assert(d.subrange(pos + 2, i) =~= e.1) by {
            assert forall|k: int| 0 <= k < e.1.len() implies d.subrange(pos + 2, i)[k] == e.1[k] by {
                assert(d[pos + 2 + k] == first[2 + k]);
            }
        }
        assert(d[i] == first[(2 + e.1.len()) as int]);
        lemma_nul_after(d, pos + 2, end, e.1);
        assert(d.subrange(i + 1, j) =~= e.2) by {
            assert forall|k: int| 0 <= k < e.2.len() implies d.subrange(i + 1, j)[k] == e.2[k] by {
                assert(d[i + 1 + k] == first[3 + e.1.len() + k]);
            }
        }
        assert(d[j] == first[(3 + e.1.len() + e.2.len()) as int]);
        lemma_nul_after(d, i + 1, end, e.2);
        assert(classes_well_formed(rest)) by {
            assert forall|k: int| 0 <= k < rest.len() implies ({
                let x = #[trigger] rest[k];
                no_nul(x.1) && no_nul(x.2) && valid_utf8(x.1) && valid_utf8(x.2)
            }) by {
                assert(rest[k] == es[k + 1]);
            }
        }
        assert(j + 1 == pos + first.len());
        lemma_classes_read(d, j + 1, rest);
        assert(class_events(es) =~= seq![
            EventSpec::ServerClass { id: e.0, name: decode_utf8(e.1), datatable: decode_utf8(e.2) },
        ] + class_events(rest));
    }
}

/// A data-table region that holds well-formed descriptors, only the last
/// flagged as the end, then a class registry that exactly fills the rest:
/// one event per descriptor, then one per class with its id and names, and
/// the command ends at the region's end.
pub proof fn lemma_data_tables_read(
    d: Seq<u8>,
    pos: int,
    ts: Seq<(u32, Seq<u8>)>,
    es: Seq<(u16, Seq<u8>, Seq<u8>)>,
)
    requires
        ({
            let content = encode_descriptors(ts) + le16_bytes(es.len() as u16) + encode_classes(es);
            &&& 0 <= pos
            &&& pos + 4 + content.len() <= d.len()
            &&& le_i32(d, pos) == content.len()
            &&& d.subrange(pos + 4, pos + 4 + content.len()) == content
        }),
        es.len() < 0x1_0000,
        descriptors_well_formed(ts),
        classes_well_formed(es),
    ensures
        data_tables(d, pos) == (
            descriptor_events(ts) + class_events(es),
            Ok::<int, DemoError>(pos + 4 + le_i32(d, pos)),
        ),
{
    let dt = encode_descriptors(ts);
    let n = le16_bytes(es.len() as u16);
    let cl = encode_classes(es);
    let end = pos + 4 + le_i32(d, pos);
    assert(dt + n + cl =~= dt + (n + cl));
    lemma_region_split(d, pos + 4, end, dt, n + cl);
    lemma_region_split(d, pos + 4 + dt.len(), end, n, cl);
    lemma_descriptors_read(d, pos + 4, end, ts);
    let q = pos + 4 + dt.len();
    assert(d[q] == n[0] && d[q + 1] == n[1]) by {
        assert(d.subrange(q, q + 2)[0] == d[q]);
        assert(d.subrange(q, q + 2)[1] == d[q + 1]);
    }
    assert(crate::format::le_u16(d, q) == es.len()) by {
        reveal_with_fuel(le_uint, 3);
    }
    lemma_classes_read(d, q + 2, es);
}

proof fn lemma_no_nul_none(d: Seq<u8>, from: int, end: int)
    requires
        0 <= from,
        end <= d.len(),
        forall|k: int| from <= k < end ==> d[k] != 0,
    ensures
        nul_index(d, from, end) is None,
    decreases end - from,
{
    if from < end {
        lemma_no_nul_none(d, from + 1, end);
    }
}

/// Entries read from a region that ends before their last byte are refused.
proof fn lemma_classes_cut(d: Seq<u8>, pos: int, es: Seq<(u16, Seq<u8>, Seq<u8>)>, cut: int)
    requires
        begins_with(d, pos, pos + encode_classes(es).len(), encode_classes(es)),
        classes_well_formed(es),
        0 <= cut < encode_classes(es).len(),
    ensures
        class_entries(d, pos, pos + cut, es.len()).1 == Err::<(), DemoError>(DemoError::FrameMismatch),
    decreases es.len(),
{
    let all = pos + encode_classes(es).len();
    let end = pos + cut;
    let e = es[0];
    let rest = es.drop_first();
    let first = encode_class(e);
    assert(no_nul(e.1) && no_nul(e.2) && valid_utf8(e.1) && valid_utf8(e.2));
    lemma_region_split(d, pos, all, first, encode_classes(rest));
    let i = pos + 2 + e.1.len();
    let j = i + 1 + e.2.len();
    assert(d.subrange(pos, pos + first.len()) == first);
    if cut >= 2 {
        assert forall|k: int| pos + 2 <= k < i implies d[k] != 0 by {
            assert(d[k] == first[k - pos]);
            assert(first[k - pos] == e.1[k - pos - 2]);
        }
        if end <= i {
            lemma_no_nul_none(d, pos + 2, end);
        } else {
            assert(d.subrange(pos + 2, i) =~= e.1) by {
                assert forall|k: int| 0 <= k < e.1.len() implies d.subrange(pos + 2, i)[k] == e.1[k] by {
                    assert(d[pos + 2 + k] == first[2 + k]);
                }
            }
            assert(d[i] == first[(2 + e.1.len()) as int]);
            lemma_nul_after(d, pos + 2, end, e.1);
            assert forall|k: int| i + 1 <= k < j implies d[k] != 0 by {
                assert(d[k] == first[k - pos]);
                assert(first[k - pos] == e.2[k - i - 1]);
            }
            if end <= j {
                lemma_no_nul_none(d, i + 1, end);
            } else {
                assert(d.subrange(i + 1, j) =~= e.2) by {
                    assert forall|k: int| 0 <= k < e.2.len() implies d.subrange(i + 1, j)[k] == e.2[k] by {
                        assert(d[i + 1 + k] == first[3 + e.1.len() + k]);
                    }
                }
                assert(d[j] == first[(3 + e.1.len() + e.2.len()) as int]);
                lemma_nul_after(d, i + 1, end, e.2);
                assert(j + 1 == pos + first.len());
                assert(classes_well_formed(rest)) by {
                    assert forall|k: int| 0 <= k < rest.len() implies ({
                        let x = #[trigger] rest[k];
                        no_nul(x.1) && no_nul(x.2) && valid_utf8(x.1) && valid_utf8(x.2)
                    }) by {
                        assert(rest[k] == es[k + 1]);
                    }
                }
                if rest.len() == 0 {
                    assert(rest =~= seq![]);
                    assert(encode_classes(es) =~= first);
                }
                lemma_classes_cut(d, j + 1, rest, cut - first.len());
            }
        }
    }
}

/// A data-table region whose declared size differs from what its
/// descriptors and class registry take is refused with `FrameMismatch`:
/// with bytes left over after the registry, or with a registry that needs
/// more bytes than the region has left.
pub proof fn lemma_data_tables_size_mismatch(
    d: Seq<u8>,
    pos: int,
    ts: Seq<(u32, Seq<u8>)>,
    es: Seq<(u16, Seq<u8>, Seq<u8>)>,
)
    requires
        ({
            let content = encode_descriptors(ts) + le16_bytes(es.len() as u16) + encode_classes(es);
            &&& 0 <= pos
            &&& pos + 4 + content.len() <= d.len()
            &&& d.subrange(pos + 4, pos + 4 + content.len()) == content
            &&& encode_descriptors(ts).len() <= le_i32(d, pos)
            &&& le_i32(d, pos) != content.len()
            &&& pos + 4 + le_i32(d, pos) <= d.len()
        }),
        es.len() < 0x1_0000,
        descriptors_well_formed(ts),
        classes_well_formed(es),
    ensures
        data_tables(d, pos).1 == Err::<int, DemoError>(DemoError::FrameMismatch),
{
    let dt = encode_descriptors(ts);
    let n = le16_bytes(es.len() as u16);
    let cl = encode_classes(es);
    let content = dt + n + cl;
    let full = pos + 4 + content.len();
    let end = pos + 4 + le_i32(d, pos);
    assert(dt + n + cl =~= dt + (n + cl));
    lemma_region_split(d, pos + 4, full, dt, n + cl);
    lemma_region_split(d, pos + 4 + dt.len(), full, n, cl);
    lemma_descriptors_read(d, pos + 4, end, ts);
    let q = pos + 4 + dt.len();
    if q + 2 <= end {
        assert(d[q] == n[0] && d[q + 1] == n[1]) by {
            assert(d.subrange(q, q + 2)[0] == d[q]);
            assert(d.subrange(q, q + 2)[1] == d[q + 1]);
        }
        assert(crate::format::le_u16(d, q) == es.len()) by {
            reveal_with_fuel(le_uint, 3);
        }
        if end < full {
            lemma_classes_cut(d, q + 2, es, end - (q + 2));
        } else {
            lemma_classes_read(d, q + 2, es);
            lemma_class_registry_fills_region(d, q + 2, full, end, es.len());
        }
    }
}

/// A region that ends inside its first descriptor is refused.
proof fn lemma_cut_first_descriptor(d: Seq<u8>, pos: int, end: int, all: int, t: (u32, Seq<u8>))
    requires
        begins_with(d, pos, all, encode_descriptor(t)),
        t.1.len() < 0x1_0000_0000,
        pos < end < pos + encode_descriptor(t).len(),
    ensures
        descriptors(d, pos, end).1 == Err::<int, DemoError>(DemoError::FrameMismatch),
{
    let c = varuint_encoding(t.0 as nat);
    let l = varuint_encoding(t.1.len());
    let e = encode_descriptor(t);
    let cut = end - pos;
    assert(e == c + (l + t.1)) by {
        assert(c + l + t.1 =~= c + (l + t.1));
    }
    assert(d.subrange(pos, end) =~= e.take(cut));
    if cut < c.len() {
        assert(e.take(cut) =~= c.take(cut));
        lemma_varuint_prefix(t.0, cut);
    } else {
        assert(e.take(cut) =~= c + (l + t.1).take(cut - c.len()));
        lemma_varuint_round_trip(t.0, (l + t.1).take(cut - c.len()));
        assert(d.subrange(pos + c.len(), end) =~= (l + t.1).take(cut - c.len())) by {
            let s = d.subrange(pos, end);
            assert forall|i: int| 0 <= i < cut - c.len() implies #[trigger] d.subrange(pos + c.len(), end)[i]
                == (l + t.1).take(cut - c.len())[i] by {
                assert(s[c.len() + i] == e.take(cut)[c.len() + i]);
            }
        }
        if cut - c.len() < l.len() {
            assert((l + t.1).take(cut - c.len()) =~= l.take(cut - c.len()));
            lemma_varuint_prefix(t.1.len() as u32, cut - c.len());
        } else {
            let after = (l + t.1).take(cut - c.len());
            assert(after =~= l + t.1.take(cut - c.len() - l.len()));
            lemma_varuint_round_trip(t.1.len() as u32, t.1.take(cut - c.len() - l.len()));
        }
    }
}

/// Descriptors read from a region that ends before their last byte either
/// are refused, or stop at a descriptor boundary at the region's end.
proof fn lemma_descriptors_cut(d: Seq<u8>, pos: int, ts: Seq<(u32, Seq<u8>)>, cut: int)
    requires
        begins_with(d, pos, pos + encode_descriptors(ts).len(), encode_descriptors(ts)),
        descriptors_well_formed(ts),
        0 <= cut < encode_descriptors(ts).len(),
    ensures
        descriptors(d, pos, pos + cut).1 == Err::<int, DemoError>(DemoError::FrameMismatch)
            || descriptors(d, pos, pos + cut).1 == Ok::<int, DemoError>(pos + cut),
    decreases ts.len(),
{
    let all = pos + encode_descriptors(ts).len();
    let t = ts[0];
    let first = encode_descriptor(t);
    let rest = ts.drop_first();
    assert(t.1.len() < 0x1_0000_0000);
    lemma_region_split(d, pos, all, first, encode_descriptors(rest));
    if ts.len() == 1 {
        assert(rest =~= seq![]);
        assert(encode_descriptors(ts) =~= first);
    }
    if 0 < cut < first.len() {
        lemma_cut_first_descriptor(d, pos, pos + cut, all, t);
    } else if cut >= first.len() {
        let c = varuint_encoding(t.0 as nat);
        let l = varuint_encoding(t.1.len());
        let end = pos + cut;
        assert(first == c + (l + t.1)) by {
            assert(c + l + t.1 =~= c + (l + t.1));
        }
        lemma_region_split(d, pos, end, c, l + t.1);
        lemma_region_split(d, pos + c.len(), end, l, t.1);
        lemma_varuint_round_trip(t.0, d.subrange(pos + c.len(), end));
        lemma_varuint_round_trip(t.1.len() as u32, d.subrange(pos + c.len() + l.len(), end));
        assert(send_table_end_spec(ts[0].1) == Ok::<bool, DemoError>(false));
        assert(descriptors_well_formed(rest)) by {
            assert forall|i: int| 0 <= i < rest.len() implies (#[trigger] rest[i]).1.len() < 0x1_0000_0000 by {
                assert(rest[i] == ts[i + 1]);
            }
            assert forall|i: int| 0 <= i < rest.len() - 1 implies send_table_end_spec((#[trigger] rest[i]).1)
                == Ok::<bool, DemoError>(false) by {
                assert(rest[i] == ts[i + 1]);
            }
            assert(rest.last() == ts.last());
        }
        lemma_descriptors_cut(d, pos + first.len(), rest, cut - first.len());
    }
}

/// A data-table region declared shorter than its descriptors is refused
/// with `FrameMismatch`.
pub proof fn lemma_data_tables_cut_in_descriptors(d: Seq<u8>, pos: int, ts: Seq<(u32, Seq<u8>)>)
    requires
        0 <= pos,
        pos + 4 + encode_descriptors(ts).len() <= d.len(),
        d.subrange(pos + 4, pos + 4 + encode_descriptors(ts).len()) == encode_descriptors(ts),
        0 <= le_i32(d, pos) < encode_descriptors(ts).len(),
        descriptors_well_formed(ts),
    ensures
        data_tables(d, pos).1 == Err::<int, DemoError>(DemoError::FrameMismatch),
{
    lemma_descriptors_cut(d, pos + 4, ts, le_i32(d, pos) as int);
}

} // verus!
