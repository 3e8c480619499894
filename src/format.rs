//! Fixed-layout little-endian records of the container, and the variable
//! length class-registry entry.

use vstd::prelude::*;
use vstd::slice::{slice_subrange, slice_to_vec};

use crate::DemoError;

verus! {

/// The unsigned little-endian integer in the `n` bytes of `b` from `at` on.
pub open spec fn le_uint(b: Seq<u8>, at: int, n: nat) -> nat
    decreases n,
{
    if n == 0 {
        0
    } else {
        b[at] as nat + 256 * le_uint(b, at + 1, (n - 1) as nat)
    }
}

/// A 32-bit pattern read as two's complement.
pub open spec fn signed32(u: nat) -> int {
    if u < 0x8000_0000 {
        u as int
    } else {
        u - 0x1_0000_0000
    }
}

pub open spec fn le_u16(b: Seq<u8>, at: int) -> u16 {
    le_uint(b, at, 2) as u16
}

pub open spec fn le_u32(b: Seq<u8>, at: int) -> u32 {
    le_uint(b, at, 4) as u32
}

pub open spec fn le_i32(b: Seq<u8>, at: int) -> i32 {
    signed32(le_uint(b, at, 4)) as i32
}

pub open spec fn le_u64(b: Seq<u8>, at: int) -> u64 {
    le_uint(b, at, 8) as u64
}

/// A record field that is a flag: one byte, 0 or 1.
pub open spec fn flag_byte_ok(b: Seq<u8>, at: int) -> bool {
    b[at] == 0 || b[at] == 1
}

pub fn read_u16_le_at(data: &[u8], pos: usize) -> (r: u16)
    requires
        pos + 2 <= data@.len(),
    ensures
        r == le_u16(data@, pos as int),
{
    reveal_with_fuel(le_uint, 3);
    data[pos] as u16 + 256 * (data[pos + 1] as u16)
}

pub fn read_u32_le_at(data: &[u8], pos: usize) -> (r: u32)
    requires
        pos + 4 <= data@.len(),
    ensures
        r == le_u32(data@, pos as int),
{
    reveal_with_fuel(le_uint, 5);
    data[pos] as u32 + 256 * (data[pos + 1] as u32) + 65536 * (data[pos + 2] as u32)
        + 16777216 * (data[pos + 3] as u32)
}

pub fn read_i32_le_at(data: &[u8], pos: usize) -> (r: i32)
    requires
        pos + 4 <= data@.len(),
    ensures
        r == le_i32(data@, pos as int),
{
    let u = read_u32_le_at(data, pos);
    reveal_with_fuel(le_uint, 5);
    if u < 0x8000_0000 {
        u as i32
    } else {
        (u as i64 - 0x1_0000_0000i64) as i32
    }
}

pub fn read_u64_le_at(data: &[u8], pos: usize) -> (r: u64)
    requires
        pos + 8 <= data@.len(),
    ensures
        r == le_u64(data@, pos as int),
{
    proof {
        lemma_len_fits(data);
    }
    let lo = read_u32_le_at(data, pos) as u64;
    let hi = read_u32_le_at(data, pos + 4) as u64;
    proof {
        reveal_with_fuel(le_uint, 9);
    }
    lo + 4294967296 * hi
}

fn read_flag_at(data: &[u8], pos: usize) -> (r: bool)
    requires
        pos < data@.len(),
        flag_byte_ok(data@, pos as int),
    ensures
        r == (data@[pos as int] == 1),
{
    data[pos] == 1
}

fn copy_bytes(data: &[u8], from: usize, to: usize) -> (r: Vec<u8>)
    requires
        from <= to <= data@.len(),
    ensures
        r@ == data@.subrange(from as int, to as int),
{
    slice_to_vec(slice_subrange(data, from, to))
}

/// A record with a fixed byte layout.
pub trait Parse: Sized {
    /// The number of bytes the record takes.
    spec fn layout_len() -> nat;

    /// Whether `b` (`layout_len` bytes) holds a record at all.
    spec fn accepts(b: Seq<u8>) -> bool;

    /// Whether `self` is the record that `b` (`layout_len` bytes) holds.
    spec fn encoded_by(&self, b: Seq<u8>) -> bool;

    fn layout_size() -> (r: usize)
        ensures
            r == Self::layout_len(),
    ;

    /// Reads the record that starts at `pos`: `Truncated` when fewer than
    /// `layout_len` bytes are left, `InvalidEncoding` when they hold none.
    fn parse(data: &[u8], pos: usize) -> (r: Result<Self, DemoError>)
        requires
            pos <= data@.len(),
        ensures
            pos + Self::layout_len() > data@.len() ==> r == Err::<Self, DemoError>(
                DemoError::Truncated,
            ),
            pos + Self::layout_len() <= data@.len() ==> {
                let b = data@.subrange(pos as int, pos + Self::layout_len());
                &&& (r is Ok <==> Self::accepts(b))
                &&& (r matches Ok(v) ==> v.encoded_by(b))
                &&& (!Self::accepts(b) ==> r == Err::<Self, DemoError>(
                    DemoError::InvalidEncoding,
                ))
            },
    ;
}

/// The first record of every container. Text fields are NUL-padded buffers;
/// the playback time is kept as the bits of its 32-bit float.
#[derive(Clone, Debug)]
pub struct DemHeader {
    pub magic: Vec<u8>,
    pub demo_protocol: i32,
    pub network_protocol: i32,
    pub server_name: Vec<u8>,
    pub client_name: Vec<u8>,
    pub map_name: Vec<u8>,
    pub game_directory: Vec<u8>,
    pub playback_time_bits: u32,
    pub playback_ticks: i32,
    pub playback_frames: i32,
    pub signon_length: i32,
}

impl Parse for DemHeader {
    open spec fn layout_len() -> nat {
        1072
    }

    open spec fn accepts(b: Seq<u8>) -> bool {
        true
    }

    open spec fn encoded_by(&self, b: Seq<u8>) -> bool {
        &&& self.magic@ == b.subrange(0, 8)
        &&& self.demo_protocol == le_i32(b, 8)
        &&& self.network_protocol == le_i32(b, 12)
        &&& self.server_name@ == b.subrange(16, 276)
        &&& self.client_name@ == b.subrange(276, 536)
        &&& self.map_name@ == b.subrange(536, 796)
        &&& self.game_directory@ == b.subrange(796, 1056)
        &&& self.playback_time_bits == le_u32(b, 1056)
        &&& self.playback_ticks == le_i32(b, 1060)
        &&& self.playback_frames == le_i32(b, 1064)
        &&& self.signon_length == le_i32(b, 1068)
    }

    fn layout_size() -> (r: usize) {
        1072
    }

    fn parse(data: &[u8], pos: usize) -> (r: Result<Self, DemoError>) {
        if data.len() - pos < 1072 {
            return Err(DemoError::Truncated);
        }
        let ghost b = data@.subrange(pos as int, pos + 1072);
        let h = DemHeader {
            magic: copy_bytes(data, pos, pos + 8),
            demo_protocol: read_i32_le_at(data, pos + 8),
            network_protocol: read_i32_le_at(data, pos + 12),
            server_name: copy_bytes(data, pos + 16, pos + 276),
            client_name: copy_bytes(data, pos + 276, pos + 536),
            map_name: copy_bytes(data, pos + 536, pos + 796),
            game_directory: copy_bytes(data, pos + 796, pos + 1056),
            playback_time_bits: read_u32_le_at(data, pos + 1056),
            playback_ticks: read_i32_le_at(data, pos + 1060),
            playback_frames: read_i32_le_at(data, pos + 1064),
            signon_length: read_i32_le_at(data, pos + 1068),
        };
        proof {
            lemma_le_sub(data@, pos as int, 1072, 8, 4);
            lemma_le_sub(data@, pos as int, 1072, 12, 4);
            lemma_le_sub(data@, pos as int, 1072, 1056, 4);
            lemma_le_sub(data@, pos as int, 1072, 1060, 4);
            lemma_le_sub(data@, pos as int, 1072, 1064, 4);
            lemma_le_sub(data@, pos as int, 1072, 1068, 4);
            assert(h.magic@ =~= b.subrange(0, 8));
            assert(h.server_name@ =~= b.subrange(16, 276));
            assert(h.client_name@ =~= b.subrange(276, 536));
            assert(h.map_name@ =~= b.subrange(536, 796));
            assert(h.game_directory@ =~= b.subrange(796, 1056));
        }
        Ok(h)
    }
}

/// Incoming and outgoing sequence numbers of a packet.
#[derive(Clone, Copy, Debug)]
pub struct SequenceInfo {
    pub sequence_in: i32,
    pub sequence_out: i32,
}

impl Parse for SequenceInfo {
    open spec fn layout_len() -> nat {
        8
    }

    open spec fn accepts(b: Seq<u8>) -> bool {
        true
    }

    open spec fn encoded_by(&self, b: Seq<u8>) -> bool {
        self.sequence_in == le_i32(b, 0) && self.sequence_out == le_i32(b, 4)
    }

    fn layout_size() -> (r: usize) {
        8
    }

    fn parse(data: &[u8], pos: usize) -> (r: Result<Self, DemoError>) {
        if data.len() - pos < 8 {
            return Err(DemoError::Truncated);
        }
        let rec = slice_subrange(data, pos, pos + 8);
        Ok(SequenceInfo { sequence_in: read_i32_le_at(rec, 0), sequence_out: read_i32_le_at(rec, 4) })
    }
}

/// The header of each container command: its code, tick and player slot.
#[derive(Clone, Copy, Debug)]
pub struct CommandHeader {
    pub command: u8,
    pub tick: i32,
    pub player_slot: u8,
}

impl Parse for CommandHeader {
    open spec fn layout_len() -> nat {
        6
    }

    open spec fn accepts(b: Seq<u8>) -> bool {
        true
    }

    open spec fn encoded_by(&self, b: Seq<u8>) -> bool {
        self.command == b[0] && self.tick == le_i32(b, 1) && self.player_slot == b[5]
    }

    fn layout_size() -> (r: usize) {
        6
    }

    fn parse(data: &[u8], pos: usize) -> (r: Result<Self, DemoError>) {
        if data.len() - pos < 6 {
            return Err(DemoError::Truncated);
        }
        let rec = slice_subrange(data, pos, pos + 6);
        Ok(CommandHeader { command: rec[0], tick: read_i32_le_at(rec, 1), player_slot: rec[5] })
    }
}

/// A camera: origin, angles and local angles, each three 32-bit floats kept
/// as their bits.
#[derive(Clone, Copy, Debug)]
pub struct ViewInfo {
    pub origin: [u32; 3],
    pub angles: [u32; 3],
    pub local_angles: [u32; 3],
}

pub open spec fn le_u32_triple(b: Seq<u8>, at: int) -> Seq<u32> {
    seq![le_u32(b, at), le_u32(b, at + 4), le_u32(b, at + 8)]
}

fn read_u32_triple(data: &[u8], pos: usize) -> (r: [u32; 3])
    requires
        pos + 12 <= data@.len(),
    ensures
        r@ == le_u32_triple(data@, pos as int),
{
    proof {
        lemma_len_fits(data);
    }
    let r = [read_u32_le_at(data, pos), read_u32_le_at(data, pos + 4), read_u32_le_at(data, pos + 8)];
    assert(r@ =~= le_u32_triple(data@, pos as int));
    r
}

impl Parse for ViewInfo {
    open spec fn layout_len() -> nat {
        36
    }

    open spec fn accepts(b: Seq<u8>) -> bool {
        true
    }

    open spec fn encoded_by(&self, b: Seq<u8>) -> bool {
        &&& self.origin@ == le_u32_triple(b, 0)
        &&& self.angles@ == le_u32_triple(b, 12)
        &&& self.local_angles@ == le_u32_triple(b, 24)
    }

    fn layout_size() -> (r: usize) {
        36
    }

    fn parse(data: &[u8], pos: usize) -> (r: Result<Self, DemoError>) {
        if data.len() - pos < 36 {
            return Err(DemoError::Truncated);
        }
        let rec = slice_subrange(data, pos, pos + 36);
        Ok(
            ViewInfo {
                origin: read_u32_triple(rec, 0),
                angles: read_u32_triple(rec, 12),
                local_angles: read_u32_triple(rec, 24),
            },
        )
    }
}

/// One player's view: flags, then the original and the resampled camera.
#[derive(Clone, Copy, Debug)]
pub struct PlayerViewInfo {
    pub flags: i32,
    pub original: ViewInfo,
    pub resampled: ViewInfo,
}

impl Parse for PlayerViewInfo {
    open spec fn layout_len() -> nat {
        76
    }

    open spec fn accepts(b: Seq<u8>) -> bool {
        true
    }

    open spec fn encoded_by(&self, b: Seq<u8>) -> bool {
        &&& self.flags == le_i32(b, 0)
        &&& self.original.encoded_by(b.subrange(4, 40))
        &&& self.resampled.encoded_by(b.subrange(40, 76))
    }

    fn layout_size() -> (r: usize) {
        76
    }

    fn parse(data: &[u8], pos: usize) -> (r: Result<Self, DemoError>) {
        if data.len() - pos < 76 {
            return Err(DemoError::Truncated);
        }
        let rec = slice_subrange(data, pos, pos + 76);
        let flags = read_i32_le_at(rec, 0);
        let original = ViewInfo::parse(rec, 4)?;
        let resampled = ViewInfo::parse(rec, 40)?;
        Ok(PlayerViewInfo { flags, original, resampled })
    }
}

/// The views of the two player slots.
#[derive(Clone, Copy, Debug)]
pub struct CommandInfo {
    pub players_view_info: [PlayerViewInfo; 2],
}

impl Parse for CommandInfo {
    open spec fn layout_len() -> nat {
        152
    }

    open spec fn accepts(b: Seq<u8>) -> bool {
        true
    }

    open spec fn encoded_by(&self, b: Seq<u8>) -> bool {
        &&& self.players_view_info@.len() == 2
        &&& self.players_view_info@[0].encoded_by(b.subrange(0, 76))
        &&& self.players_view_info@[1].encoded_by(b.subrange(76, 152))
    }

    fn layout_size() -> (r: usize) {
        152
    }

    fn parse(data: &[u8], pos: usize) -> (r: Result<Self, DemoError>) {
        if data.len() - pos < 152 {
            return Err(DemoError::Truncated);
        }
        let rec = slice_subrange(data, pos, pos + 152);
        let first = PlayerViewInfo::parse(rec, 0)?;
        let second = PlayerViewInfo::parse(rec, 76)?;
        let players_view_info = [first, second];
        assert(players_view_info@[0] == first && players_view_info@[1] == second);
        Ok(CommandInfo { players_view_info })
    }
}

/// The metadata that precedes each packet region.
#[derive(Clone, Copy, Debug)]
pub struct PacketInfo {
    pub command_info: CommandInfo,
    pub sequence_info: SequenceInfo,
}

impl Parse for PacketInfo {
    open spec fn layout_len() -> nat {
        160
    }

    open spec fn accepts(b: Seq<u8>) -> bool {
        true
    }

    open spec fn encoded_by(&self, b: Seq<u8>) -> bool {
        &&& self.command_info.encoded_by(b.subrange(0, 152))
        &&& self.sequence_info.encoded_by(b.subrange(152, 160))
    }

    fn layout_size() -> (r: usize) {
        160
    }

    fn parse(data: &[u8], pos: usize) -> (r: Result<Self, DemoError>) {
        if data.len() - pos < 160 {
            return Err(DemoError::Truncated);
        }
        let rec = slice_subrange(data, pos, pos + 160);
        let command_info = CommandInfo::parse(rec, 0)?;
        let sequence_info = SequenceInfo::parse(rec, 152)?;
        Ok(PacketInfo { command_info, sequence_info })
    }
}

/// The declared byte size of the region that follows.
#[derive(Clone, Copy, Debug)]
pub struct DataHeader {
    pub size: i32,
}

impl Parse for DataHeader {
    open spec fn layout_len() -> nat {
        4
    }

    open spec fn accepts(b: Seq<u8>) -> bool {
        true
    }

    open spec fn encoded_by(&self, b: Seq<u8>) -> bool {
        self.size == le_i32(b, 0)
    }

    fn layout_size() -> (r: usize) {
        4
    }

    fn parse(data: &[u8], pos: usize) -> (r: Result<Self, DemoError>) {
        if data.len() - pos < 4 {
            return Err(DemoError::Truncated);
        }
        let rec = slice_subrange(data, pos, pos + 4);
        Ok(DataHeader { size: read_i32_le_at(rec, 0) })
    }
}

/// A player-info record. Text fields are NUL-padded buffers; the two flags
/// are single bytes that must be 0 or 1.
#[derive(Clone, Debug)]
pub struct PlayerInfo {
    pub version: u64,
    pub xuid: u64,
    pub name: Vec<u8>,
    pub user_id: i32,
    pub guid: Vec<u8>,
    pub friends_id: u32,
    pub friends_name: Vec<u8>,
    pub fake_player: bool,
    pub is_hltv: bool,
    pub custom_files: [u64; 4],
    pub files_downloaded: u8,
    pub entity_id: i32,
}

impl Parse for PlayerInfo {
    open spec fn layout_len() -> nat {
        352
    }

    open spec fn accepts(b: Seq<u8>) -> bool {
        flag_byte_ok(b, 313) && flag_byte_ok(b, 314)
    }

    open spec fn encoded_by(&self, b: Seq<u8>) -> bool {
        &&& self.version == le_u64(b, 0)
        &&& self.xuid == le_u64(b, 8)
        &&& self.name@ == b.subrange(16, 144)
        &&& self.user_id == le_i32(b, 144)
        &&& self.guid@ == b.subrange(148, 181)
        &&& self.friends_id == le_u32(b, 181)
        &&& self.friends_name@ == b.subrange(185, 313)
        &&& self.fake_player == (b[313] == 1)
        &&& self.is_hltv == (b[314] == 1)
        &&& self.custom_files@ == seq![le_u64(b, 315), le_u64(b, 323), le_u64(b, 331), le_u64(b, 339)]
        &&& self.files_downloaded == b[347]
        &&& self.entity_id == le_i32(b, 348)
    }

    fn layout_size() -> (r: usize) {
        352
    }

    fn parse(data: &[u8], pos: usize) -> (r: Result<Self, DemoError>) {
        if data.len() - pos < 352 {
            return Err(DemoError::Truncated);
        }
        let rec = slice_subrange(data, pos, pos + 352);
        if !((rec[313] == 0 || rec[313] == 1) && (rec[314] == 0 || rec[314] == 1)) {
            return Err(DemoError::InvalidEncoding);
        }
        let custom_files = [
            read_u64_le_at(rec, 315),
            read_u64_le_at(rec, 323),
            read_u64_le_at(rec, 331),
            read_u64_le_at(rec, 339),
        ];
        let p = PlayerInfo {
            version: read_u64_le_at(rec, 0),
            xuid: read_u64_le_at(rec, 8),
            name: copy_bytes(rec, 16, 144),
            user_id: read_i32_le_at(rec, 144),
            guid: copy_bytes(rec, 148, 181),
            friends_id: read_u32_le_at(rec, 181),
            friends_name: copy_bytes(rec, 185, 313),
            fake_player: read_flag_at(rec, 313),
            is_hltv: read_flag_at(rec, 314),
            custom_files,
            files_downloaded: rec[347],
            entity_id: read_i32_le_at(rec, 348),
        };
        assert(p.custom_files@ =~= seq![le_u64(rec@, 315), le_u64(rec@, 323), le_u64(rec@, 331), le_u64(rec@, 339)]);
        Ok(p)
    }
}

/// One entry of the class registry: its id, class name and data-table name.
#[derive(Clone, Debug)]
pub struct ServerClass {
    pub id: u16,
    pub name: String,
    pub datatable: String,
}

/// A slice's length is a `usize`.
pub proof fn lemma_len_fits(data: &[u8])
    ensures
        data@.len() <= usize::MAX,
{
    assert(data.len() == data@.len());
}

/// Reading inside a sub-range reads the same bytes.
pub proof fn lemma_le_sub(d: Seq<u8>, pos: int, len: int, off: int, n: nat)
    requires
        0 <= pos,
        0 <= off,
        off + n <= len,
        pos + len <= d.len(),
    ensures
        le_uint(d.subrange(pos, pos + len), off, n) == le_uint(d, pos + off, n),
    decreases n,
{
    if n > 0 {
        lemma_le_sub(d, pos, len, off + 1, (n - 1) as nat);
    }
}

} // verus!
