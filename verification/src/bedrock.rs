//! Minecraft Bedrock Edition server ping via RakNet Unconnected Ping/Pong.
//!
//! Protocol reference: <https://wiki.bedrock.dev/servers/raknet>
//!
//! Unconnected Ping (0x01):
//!   [u8 packet_id=0x01] [i64 client_time] [16 bytes magic] [i64 client_guid]
//!
//! Unconnected Pong (0x1c):
//!   [u8 packet_id=0x1c] [i64 client_time] [i64 server_guid] [16 bytes magic]
//!   [u16 string_length] [string motd_payload]
//!
//! The MOTD payload is semicolon-delimited:
//!   Edition;MOTD1;Protocol;Version;Online;MaxPlayers;ServerUID;MOTD2;Gamemode;GamemodeNum;PortV4;PortV6

use vstd::prelude::*;
use vstd::slice::slice_subrange;
use vstd::utf8::{decode_utf8, valid_utf8};

use crate::bytes::{be32, be32_value, be64, law_be32_round_trip, push_be64, twos_complement};
use crate::chance::random_i64;
use crate::text::{
    from_utf8_lossy, integer_text, joined, law_signed_numeral_round_trip, law_split_undoes_join,
    lossy_utf8, parse_i64, signed_value, split, split_text, texts,
};

verus! {

broadcast use vstd::string::group_string_axioms;

pub const UNCONNECTED_PING_ID: u8 = 0x01;

pub const UNCONNECTED_PONG_ID: u8 = 0x1c;

/// RakNet offline message magic bytes.
pub open spec fn magic() -> Seq<u8> {
    seq![
        0x00u8, 0xffu8, 0xffu8, 0x00u8, 0xfeu8, 0xfeu8, 0xfeu8, 0xfeu8, 0xfdu8, 0xfdu8, 0xfdu8,
        0xfdu8, 0x12u8, 0x34u8, 0x56u8, 0x78u8,
    ]
}

/// RakNet offline message magic bytes.
pub fn raknet_magic() -> (r: Vec<u8>)
    ensures
        r@ == magic(),
{
    let r: Vec<u8> = vec![
        0x00u8, 0xffu8, 0xffu8, 0x00u8, 0xfeu8, 0xfeu8, 0xfeu8, 0xfeu8, 0xfdu8, 0xfdu8, 0xfdu8,
        0xfdu8, 0x12u8, 0x34u8, 0x56u8, 0x78u8,
    ];
    assert(r@ =~= magic());
    r
}

// ---------------------------------------------------------------------------
// Ping
// ---------------------------------------------------------------------------

/// The ping of a client at a time.
pub open spec fn ping_bytes(time: i64, guid: i64) -> Seq<u8> {
    seq![0x01u8] + be64(twos_complement(time)) + magic() + be64(twos_complement(guid))
}

/// The ping of a client at a time.
pub fn ping_packet(time: i64, guid: i64) -> (r: Vec<u8>)
    ensures
        r@ == ping_bytes(time, guid),
        r@.len() == 33,
{
    let mut packet: Vec<u8> = Vec::with_capacity(33);
    packet.push(UNCONNECTED_PING_ID);
    // Client alive time (current millis).
    push_be64(&mut packet, time);
    // Magic.
    let mut bytes = raknet_magic();
    packet.append(&mut bytes);
    // Client GUID.
    push_be64(&mut packet, guid);
    assert(packet@ =~= ping_bytes(time, guid));
    packet
}

/// A time of the system's clock.
#[verifier::external_type_specification]
#[verifier::external_body]
pub struct ExSystemTime(std::time::SystemTime);

/// The whole milliseconds of a span of time.
pub uninterp spec fn span_millis(span: core::time::Duration) -> u128;

/// The milliseconds from 1970 to a time; nothing where it lies before.
pub uninterp spec fn epoch_millis(time: std::time::SystemTime) -> Option<u128>;

/// `SystemTime::now`: nothing is claimed of the clock.
#[verifier::external_body]
fn system_now() -> (r: std::time::SystemTime) {
    std::time::SystemTime::now()
}

/// `SystemTime::duration_since` from `UNIX_EPOCH`: the span up to the time, and
/// nothing where the time lies before.
#[verifier::external_body]
fn since_epoch(time: &std::time::SystemTime) -> (r: Option<core::time::Duration>)
    ensures
        match r {
            Some(span) => epoch_millis(*time) == Some(span_millis(span)),
            None => epoch_millis(*time) is None,
        },
{
    time.duration_since(std::time::UNIX_EPOCH).ok()
}

/// `Duration::as_millis`: the whole milliseconds of the span.
#[verifier::external_body]
fn whole_millis(span: &core::time::Duration) -> (r: u128)
    ensures
        r == span_millis(*span),
{
    span.as_millis()
}

/// The low 64 bits of a number, as a signed number.
pub open spec fn signed_bits(n: int) -> int {
    let low = n % 0x1_0000_0000_0000_0000;
    if low >= 0x8000_0000_0000_0000 {
        low - 0x1_0000_0000_0000_0000
    } else {
        low
    }
}

/// The low 64 bits of a number of milliseconds, none counting as zero.
pub fn client_time(millis: Option<u128>) -> (r: i64)
    ensures
        r == match millis {
            Some(n) => signed_bits(n as int),
            None => 0,
        },
{
    let low: u128 = match millis {
        Some(n) => n % 0x1_0000_0000_0000_0000,
        None => 0,
    };
    if low >= 0x8000_0000_0000_0000 {
        (low as i128 - 0x1_0000_0000_0000_0000) as i64
    } else {
        low as i64
    }
}

/// The milliseconds from 1970 to now.
fn clock_millis() -> (r: i64)
    ensures
        exists|time: std::time::SystemTime|
            r == match #[trigger] epoch_millis(time) {
                Some(n) => signed_bits(n as int),
                None => 0,
            },
{
    let time = system_now();
    let millis = match since_epoch(&time) {
        Some(span) => Some(whole_millis(&span)),
        None => None,
    };
    assert(millis == epoch_millis(time));
    client_time(millis)
}

/// Build the Unconnected Ping packet, with the current time and a random client
/// GUID.
pub fn build_ping_packet() -> (r: Vec<u8>)
    ensures
        exists|time: i64, guid: i64| r@ == #[trigger] ping_bytes(time, guid),
        r@.len() == 33,
{
    ping_packet(clock_millis(), random_i64())
}

// ---------------------------------------------------------------------------
// Pong
// ---------------------------------------------------------------------------

/// Parsed Bedrock server status from Unconnected Pong.
#[derive(Debug, Clone)]
pub struct BedrockStatus {
    pub edition: String,
    pub motd: String,
    pub version: String,
    pub online_players: Option<i64>,
    pub max_players: Option<i64>,
    pub motd_line2: String,
    pub gamemode: String,
}

#[verifier::ext_equal]
pub struct BedrockStatusView {
    pub edition: Seq<char>,
    pub motd: Seq<char>,
    pub version: Seq<char>,
    pub online_players: Option<i64>,
    pub max_players: Option<i64>,
    pub motd_line2: Seq<char>,
    pub gamemode: Seq<char>,
}

impl BedrockStatus {
    pub open spec fn view(self) -> BedrockStatusView {
        BedrockStatusView {
            edition: self.edition@,
            motd: self.motd@,
            version: self.version@,
            online_players: self.online_players,
            max_players: self.max_players,
            motd_line2: self.motd_line2@,
            gamemode: self.gamemode@,
        }
    }
}

/// The part at a place, or the empty text.
pub open spec fn part_or_empty(parts: Seq<Seq<char>>, i: int) -> Seq<char> {
    if i < parts.len() {
        parts[i]
    } else {
        Seq::empty()
    }
}

pub open spec fn count_value(text: Seq<char>) -> Option<i64> {
    match signed_value(text) {
        Some(n) => Some(n as i64),
        None => None,
    }
}

/// The status that a MOTD payload describes; one with fewer than six fields
/// describes none.
pub open spec fn motd_status(payload: Seq<char>) -> Option<BedrockStatusView> {
    let parts = split(payload, ';');
    if parts.len() < 6 {
        None
    } else {
        Some(
            BedrockStatusView {
                edition: parts[0],
                motd: parts[1],
                version: parts[3],
                online_players: count_value(parts[4]),
                max_players: count_value(parts[5]),
                motd_line2: part_or_empty(parts, 7),
                gamemode: part_or_empty(parts, 8),
            },
        )
    }
}

/// The MOTD payload of a pong: the bytes that its length field announces.
pub open spec fn pong_payload(data: Seq<u8>) -> Option<Seq<u8>> {
    let n = data[33] * 0x100 + data[34];
    if data.len() < 35 || data[0] != 0x1c || data.len() < 35 + n {
        None
    } else {
        Some(data.subrange(35, 35 + n))
    }
}

/// The status that a pong describes.
pub open spec fn pong_status(data: Seq<u8>) -> Option<BedrockStatusView> {
    match pong_payload(data) {
        Some(payload) => motd_status(lossy_utf8(payload)),
        None => None,
    }
}

pub open spec fn status_view(status: Option<BedrockStatus>) -> Option<BedrockStatusView> {
    match status {
        Some(s) => Some(s@),
        None => None,
    }
}

fn part_at(parts: &Vec<String>, i: usize) -> (r: String)
    ensures
        r@ == part_or_empty(texts(parts@), i as int),
{
    if i < parts.len() {
        parts[i].clone()
    } else {
        String::new()
    }
}

/// The status that a MOTD payload describes.
pub fn parse_motd(payload: &str) -> (r: Option<BedrockStatus>)
    ensures
        status_view(r) == motd_status(payload@),
{
    let parts = split_text(payload, ';');
    // Need at least 6 fields for basic info.
    if parts.len() < 6 {
        return None;
    }
    let online = parse_i64(parts[4].as_str());
    let max = parse_i64(parts[5].as_str());
    Some(
        BedrockStatus {
            edition: part_at(&parts, 0),
            motd: part_at(&parts, 1),
            version: part_at(&parts, 3),
            online_players: online,
            max_players: max,
            motd_line2: part_at(&parts, 7),
            gamemode: part_at(&parts, 8),
        },
    )
}

/// Parse the Unconnected Pong packet into BedrockStatus.
pub fn parse_pong(data: &[u8]) -> (r: Option<BedrockStatus>)
    ensures
        status_view(r) == pong_status(data@),
        pong_payload(data@) matches Some(payload) ==> valid_utf8(payload) ==> status_view(r)
            == motd_status(decode_utf8(payload)),
{
    // Minimum: 1 (id) + 8 (time) + 8 (guid) + 16 (magic) + 2 (string_len) = 35 bytes
    if data.len() < 35 {
        return None;
    }
    if data[0] != UNCONNECTED_PONG_ID {
        return None;
    }
    // Skip: id(1) + time(8) + guid(8) + magic(16) = 33 bytes.
    let string_len: usize = data[33] as usize * 0x100 + data[34] as usize;
    if data.len() < 35 + string_len {
        return None;
    }
    let payload = from_utf8_lossy(slice_subrange(data, 35, 35 + string_len));
    parse_motd(payload.as_str())
}

// ---------------------------------------------------------------------------
// Laws
// ---------------------------------------------------------------------------

/// The payload of a pong is read back: `head` stands for the times, the guid and
/// the magic, and what comes after the announced length is not looked at.
pub proof fn law_pong_payload_is_read(head: Seq<u8>, payload: Seq<u8>, after: Seq<u8>)
    requires
        head.len() == 32,
        payload.len() <= 0xffff,
    ensures
        pong_payload(
            seq![0x1cu8] + head + seq![
                (payload.len() / 0x100) as u8,
                (payload.len() % 0x100) as u8,
            ] + payload + after,
        ) == Some(payload),
{
    let data = seq![0x1cu8] + head + seq![
        (payload.len() / 0x100) as u8,
        (payload.len() % 0x100) as u8,
    ] + payload + after;
    assert(data[0] == 0x1c);
    assert(data[33] == payload.len() / 0x100);
    assert(data[34] == payload.len() % 0x100);
    assert(data.subrange(35, 35 + payload.len() as int) =~= payload);
}

/// The fields of a MOTD payload are read in their places, as long as none of
/// them holds the delimiter.
pub proof fn law_motd_fields_are_read(fields: Seq<Seq<char>>)
    requires
        fields.len() >= 6,
        forall|i: int| 0 <= i < fields.len() ==> !(#[trigger] fields[i]).contains(';'),
    ensures
        motd_status(joined(fields, seq![';'])) == Some(
            BedrockStatusView {
                edition: fields[0],
                motd: fields[1],
                version: fields[3],
                online_players: count_value(fields[4]),
                max_players: count_value(fields[5]),
                motd_line2: part_or_empty(fields, 7),
                gamemode: part_or_empty(fields, 8),
            },
        ),
{
    law_split_undoes_join(fields, ';');
}

/// A ping is its packet id, the time in eight bytes, the magic, and the guid in
/// eight bytes, the most significant first.
pub proof fn law_ping_layout(time: i64, guid: i64)
    requires
        time >= 0,
        guid >= 0,
    ensures
        ({
            let bytes = ping_bytes(time, guid);
            &&& bytes.len() == 33
            &&& bytes[0] == 0x01
            &&& be32_value(bytes.subrange(1, 5)) * 0x1_0000_0000 + be32_value(
                bytes.subrange(5, 9),
            ) == time
            &&& bytes.subrange(9, 25) == seq![
                0x00u8, 0xffu8, 0xffu8, 0x00u8, 0xfeu8, 0xfeu8, 0xfeu8, 0xfeu8, 0xfdu8, 0xfdu8,
                0xfdu8, 0xfdu8, 0x12u8, 0x34u8, 0x56u8, 0x78u8,
            ]
            &&& be32_value(bytes.subrange(25, 29)) * 0x1_0000_0000 + be32_value(
                bytes.subrange(29, 33),
            ) == guid
        }),
{
    let bytes = ping_bytes(time, guid);
    let high = (time as u64 / 0x1_0000_0000) as u32;
    let low = (time as u64 % 0x1_0000_0000) as u32;
    let guid_high = (guid as u64 / 0x1_0000_0000) as u32;
    let guid_low = (guid as u64 % 0x1_0000_0000) as u32;
    law_be32_round_trip(high);
    law_be32_round_trip(low);
    law_be32_round_trip(guid_high);
    law_be32_round_trip(guid_low);
    assert(bytes.subrange(1, 5) =~= be32(high));
    assert(bytes.subrange(5, 9) =~= be32(low));
    assert(bytes.subrange(9, 25) =~= magic());
    assert(bytes.subrange(25, 29) =~= be32(guid_high));
    assert(bytes.subrange(29, 33) =~= be32(guid_low));
}

/// A number of players is read from its numeral.
pub proof fn law_player_counts_are_numerals(n: i64)
    ensures
        count_value(integer_text(n as int)) == Some(n),
{
    law_signed_numeral_round_trip(n as int);
}

/// What is cut to 64 bits differs from the number by a multiple of their range.
pub proof fn law_signed_bits_are_congruent(n: int)
    ensures
        i64::MIN <= signed_bits(n) <= i64::MAX,
        (n - signed_bits(n)) % 0x1_0000_0000_0000_0000 == 0,
        0 <= n <= i64::MAX ==> signed_bits(n) == n,
{
}

} // verus!
