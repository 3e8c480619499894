//! The few fields of wire-encoded messages that the container parser itself
//! reads: the end-of-tables flag of a send-table descriptor, and the sub-kind
//! and payload of a user message. A body is read as a message that declares
//! no field, so only its wire framing is checked: a field of an unexpected
//! wire type, text that is not UTF-8 or a malformed nested message goes
//! unnoticed. Other bodies are neither decoded nor checked.

use protobuf::Message;
use vstd::prelude::*;

use crate::format::signed32;
use crate::DemoError;

verus! {

/// The values that one field number of a wire message carries, in the order
/// they were read: varint values and length-delimited chunks.
pub struct WireField {
    pub varints: Vec<u64>,
    pub chunks: Vec<Vec<u8>>,
}

/// For a well-formed wire message `body`, the varints and the
/// length-delimited chunks of field `field`; `None` for a malformed one.
pub uninterp spec fn wire_field_of(body: Seq<u8>, field: u32) -> Option<(Seq<u64>, Seq<Seq<u8>>)>;

pub open spec fn chunks_view(c: Seq<Vec<u8>>) -> Seq<Seq<u8>> {
    c.map_values(|v: Vec<u8>| v@)
}

/// Relies on protobuf's `Message::parse_from_bytes` for
/// `well_known_types::Empty`, a message that declares no field: it fails on
/// a body that is not a well-formed wire message, and otherwise keeps every
/// field in its unknown-field set, whose entry for a field number lists the
/// varints and the length-delimited values in the order they were read.
#[verifier::external_body]
fn read_wire_field(body: &[u8], field: u32) -> (r: Option<WireField>)
    ensures
        match wire_field_of(body@, field) {
            None => r is None,
            Some((varints, chunks)) => r matches Some(w) && w.varints@ == varints
                && chunks_view(w.chunks@) == chunks,
        },
{
    let message = protobuf::well_known_types::Empty::parse_from_bytes(body).ok()?;
    let values = message.get_unknown_fields().get(field).cloned().unwrap_or_default();
    Some(WireField { varints: values.varint, chunks: values.length_delimited })
}

/// A `bool` field as the message codec reads it: the low 32 bits of its
/// last varint are not zero; `false` when the field is absent.
pub open spec fn last_flag(varints: Seq<u64>) -> bool {
    varints.len() > 0 && varints.last() % 0x1_0000_0000 != 0
}

/// An `int32` field: the low 32 bits of its last varint; 0 when absent.
pub open spec fn last_int32(varints: Seq<u64>) -> i32 {
    if varints.len() == 0 {
        0
    } else {
        signed32((varints.last() % 0x1_0000_0000) as nat) as i32
    }
}

/// A `bytes` field: its last chunk; empty when absent.
pub open spec fn last_chunk(chunks: Seq<Seq<u8>>) -> Seq<u8> {
    if chunks.len() == 0 {
        Seq::empty()
    } else {
        chunks.last()
    }
}

/// Whether a send-table descriptor is flagged as the last of the tables
/// (its field 1).
pub open spec fn send_table_end_spec(body: Seq<u8>) -> Result<bool, DemoError> {
    match wire_field_of(body, 1) {
        None => Err(DemoError::MalformedMessage),
        Some((varints, _)) => Ok(last_flag(varints)),
    }
}

/// The sub-kind (field 1) and the payload (field 2) of a user message.
pub open spec fn user_message_spec(body: Seq<u8>) -> Result<(i32, Seq<u8>), DemoError> {
    match (wire_field_of(body, 1), wire_field_of(body, 2)) {
        (Some((kinds, _)), Some((_, payloads))) => Ok((last_int32(kinds), last_chunk(payloads))),
        _ => Err(DemoError::MalformedMessage),
    }
}

fn low32_signed(v: u64) -> (r: i32)
    ensures
        r == signed32((v % 0x1_0000_0000) as nat),
{
    let low = v % 0x1_0000_0000;
    if low < 0x8000_0000 {
        low as i32
    } else {
        (low as i64 - 0x1_0000_0000i64) as i32
    }
}

/// The value of a `bool` field whose varints are `varints`.
pub fn last_flag_of(varints: &Vec<u64>) -> (r: bool)
    ensures
        r == last_flag(varints@),
{
    let n = varints.len();
    n > 0 && varints[n - 1] % 0x1_0000_0000 != 0
}

/// The value of an `int32` field whose varints are `varints`.
pub fn last_int32_of(varints: &Vec<u64>) -> (r: i32)
    ensures
        r == last_int32(varints@),
{
    let n = varints.len();
    if n == 0 {
        0
    } else {
        low32_signed(varints[n - 1])
    }
}

/// The value of a `bytes` field whose chunks are `chunks`.
pub fn last_chunk_of(chunks: &Vec<Vec<u8>>) -> (r: Vec<u8>)
    ensures
        r@ == last_chunk(chunks_view(chunks@)),
{
    let m = chunks.len();
    if m == 0 {
        Vec::new()
    } else {
        let r = chunks[m - 1].clone();
        assert(chunks_view(chunks@)[m - 1] == chunks@[m - 1]@);
        r
    }
}

/// Reads the end-of-tables flag of a send-table descriptor.
pub fn send_table_is_end(body: &[u8]) -> (r: Result<bool, DemoError>)
    ensures
        r == send_table_end_spec(body@),
{
    match read_wire_field(body, 1) {
        None => Err(DemoError::MalformedMessage),
        Some(w) => Ok(last_flag_of(&w.varints)),
    }
}

/// Reads the sub-kind and the payload of a user message.
pub fn user_message_parts(body: &[u8]) -> (r: Result<(i32, Vec<u8>), DemoError>)
    ensures
        match user_message_spec(body@) {
            Ok((kind, payload)) => r matches Ok((k, p)) && k == kind && p@ == payload,
            Err(e) => r == Err::<(i32, Vec<u8>), DemoError>(e),
        },
{
    let kinds = match read_wire_field(body, 1) {
        None => return Err(DemoError::MalformedMessage),
        Some(w) => w,
    };
    let payloads = match read_wire_field(body, 2) {
        None => return Err(DemoError::MalformedMessage),
        Some(w) => w,
    };
    Ok((last_int32_of(&kinds.varints), last_chunk_of(&payloads.chunks)))
}

} // verus!
