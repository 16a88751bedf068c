//! Decoding the payload of a Mode S frame into an observation.
//!
//! The fields of a frame are stated here as arithmetic on its bytes: a byte
//! divided by a power of two gives its upper bits, its remainder the lower
//! ones.

use vstd::prelude::*;
use crate::cpr::{
    decoded_state, global_position, holds_after, state_of, stored, CprContext, CprModel, CprState,
};
use crate::crc::{
    check_crc, df_is_checkable, df_of, frame_is_valid, get_df, get_icao, icao_of,
    LONG_FRAME_BYTES, SHORT_FRAME_BYTES,
};
use crate::types::{AircraftData, DownlinkFormat, Observation};

verus! {

/// The characters of a callsign, by their 6-bit code. `#` stands at every
/// code that has no character.
pub const CALLSIGN_CHARS: &'static str =
    "#ABCDEFGHIJKLMNOPQRSTUVWXYZ##### ###############0123456789######";

/// Why a frame was not decoded.
#[derive(Debug, Clone, Copy, PartialEq, Eq, Structural)]
pub enum ParseError {
    /// The frame has neither 7 nor 14 bytes.
    InvalidLength,
    /// The frame does not pass the strict checksum policy.
    CrcError,
    /// The format is not supported. No frame is refused for this today.
    UnsupportedFormat,
}

/// The type code of an extended squitter: the upper five bits of byte 4.
pub open spec fn tc_of(msg: Seq<u8>) -> u8 {
    msg[4] / 8
}

/// The 13-bit altitude or identity field of a surveillance reply: the lower
/// five bits of byte 2 and byte 3.
pub open spec fn field13_of(msg: Seq<u8>) -> u16 {
    ((msg[2] % 32) * 256 + msg[3]) as u16
}

/// The 12-bit altitude field of an airborne position: byte 5 and the upper
/// four bits of byte 6.
pub open spec fn field12_of(msg: Seq<u8>) -> u16 {
    (msg[5] * 16 + msg[6] / 16) as u16
}

/// Whether an altitude code has the Q bit, bit 4: its other bits are then
/// a number of 25-foot steps.
pub open spec fn has_q_bit(code: u16) -> bool {
    (code as int / 16) % 2 == 1
}

/// Altitude in feet that an altitude code of `width` bits, 12 or 13,
/// encodes. With the Q bit set, the other bits are a number of 25-foot
/// steps above -1000 feet; codes without the Q bit give 0.
pub open spec fn altitude_of(code: u16, width: int) -> int {
    let upper = if width == 13 {
        (code as int / 32) % 256
    } else {
        (code as int / 32) % 128
    };
    if has_q_bit(code) {
        (upper * 16 + code as int % 16) * 25 - 1000
    } else {
        0
    }
}

/// The squawk that an identity code encodes: four digits from 0 to 7, each
/// spread over three bits of the code.
pub open spec fn squawk_of_code(id: u16) -> int {
    let a = 4 * ((id / 4096) % 2) + 2 * ((id / 512) % 2) + (id / 64) % 2;
    let b = 4 * ((id / 2048) % 2) + 2 * ((id / 256) % 2) + (id / 32) % 2;
    let c = 4 * ((id / 1024) % 2) + 2 * ((id / 128) % 2) + (id / 16) % 2;
    let d = 4 * ((id / 8) % 2) + 2 * ((id / 4) % 2) + (id / 2) % 2;
    a * 1000 + b * 100 + c * 10 + d
}

/// The 6-bit code of character `k`, from 0 to 7, of an identification
/// message: the 48 bits of bytes 5 to 10 in groups of six.
pub open spec fn callsign_code(msg: Seq<u8>, k: int) -> int {
    let base = if k < 4 {
        5int
    } else {
        8int
    };
    let place = k % 4;
    if place == 0 {
        msg[base] as int / 4
    } else if place == 1 {
        (msg[base] as int % 4) * 16 + msg[base + 1] as int / 16
    } else if place == 2 {
        (msg[base + 1] as int % 16) * 4 + msg[base + 2] as int / 64
    } else {
        msg[base + 2] as int % 64
    }
}

/// The eight codes of an identification message.
pub open spec fn callsign_codes(msg: Seq<u8>) -> Seq<int> {
    Seq::new(8, |k: int| callsign_code(msg, k))
}

/// The character of a 6-bit code.
pub open spec fn callsign_char(code: int) -> char {
    CALLSIGN_CHARS@[code]
}

/// The code of a character: its place in the alphabet for letters, digits
/// and the space, and 0, the first code of `#`, for anything else.
pub open spec fn alphabet_code(c: char) -> int {
    if 'A' <= c <= 'Z' {
        c as int - 'A' as int + 1
    } else if '0' <= c <= '9' {
        c as int - '0' as int + 48
    } else if c == ' ' {
        32
    } else {
        0
    }
}

/// Whether a code stands for a character of its own, or is the first code
/// of `#`.
pub open spec fn is_plain_code(code: int) -> bool {
    code == 0 || 1 <= code <= 26 || code == 32 || 48 <= code <= 57
}

/// A text without the spaces at its end.
pub open spec fn trim_end(text: Seq<char>) -> Seq<char>
    decreases text.len(),
{
    if text.len() > 0 && text.last() == ' ' {
        trim_end(text.drop_last())
    } else {
        text
    }
}

/// A text filled up with spaces to eight characters.
pub open spec fn pad_end(text: Seq<char>) -> Seq<char> {
    text + Seq::new((8 - text.len()) as nat, |k: int| ' ')
}

/// The eight characters of an identification message.
pub open spec fn callsign_text(msg: Seq<u8>) -> Seq<char> {
    Seq::new(8, |k: int| callsign_char(callsign_code(msg, k)))
}

/// The callsign of an identification message: its eight characters without
/// the spaces at the end.
pub open spec fn callsign_of(msg: Seq<u8>) -> Seq<char> {
    trim_end(callsign_text(msg))
}

/// The codes of a callsign that was filled up to eight characters.
pub open spec fn encoded(callsign: Seq<char>) -> Seq<int> {
    Seq::new(8, |k: int| alphabet_code(pad_end(callsign)[k]))
}

/// Whether an airborne position message is of odd parity: bit 2 of byte 6.
pub open spec fn odd_flag_of(msg: Seq<u8>) -> bool {
    (msg[6] / 4) % 2 == 1
}

/// The 17-bit latitude of an airborne position: the lower two bits of byte
/// 6, byte 7 and the upper seven bits of byte 8.
pub open spec fn lat17_of(msg: Seq<u8>) -> i32 {
    ((msg[6] % 4) * 32768 + msg[7] * 128 + msg[8] / 2) as i32
}

/// The 17-bit longitude of an airborne position: the lowest bit of byte 8
/// and bytes 9 and 10.
pub open spec fn lon17_of(msg: Seq<u8>) -> i32 {
    ((msg[8] % 2) * 65536 + msg[9] * 256 + msg[10]) as i32
}

/// The subtype of a velocity message: the upper three bits of byte 4.
pub open spec fn subtype_of(msg: Seq<u8>) -> u8 {
    msg[4] / 32
}

/// A 10-bit field of a velocity message: the lower two bits of byte 5 and
/// byte 6. It holds the east-west speed or the heading.
pub open spec fn first_field_of(msg: Seq<u8>) -> int {
    (msg[5] % 4) * 256 + msg[6]
}

/// The flag before the first field, bit 2 of byte 5: westwards, or heading
/// present.
pub open spec fn first_flag_of(msg: Seq<u8>) -> bool {
    (msg[5] / 4) % 2 == 1
}

/// A 10-bit field of a velocity message: the lower seven bits of byte 7 and
/// the upper three bits of byte 8. It holds the north-south speed or the
/// airspeed.
pub open spec fn second_field_of(msg: Seq<u8>) -> int {
    (msg[7] % 128) * 8 + msg[8] / 32
}

/// The flag before the second field, bit 7 of byte 7: southwards.
pub open spec fn second_flag_of(msg: Seq<u8>) -> bool {
    msg[7] / 128 == 1
}

/// The 9-bit vertical rate field: the lower three bits of byte 8 and the
/// upper six bits of byte 9.
pub open spec fn rate_field_of(msg: Seq<u8>) -> int {
    (msg[8] % 8) * 64 + msg[9] / 4
}

/// The sign of the vertical rate, bit 3 of byte 8: downwards.
pub open spec fn rate_flag_of(msg: Seq<u8>) -> bool {
    (msg[8] / 8) % 2 == 1
}

/// A speed or rate from its field: the field less one, in units of `unit`,
/// negative where the flag is set.
pub open spec fn signed_value(field: int, flag: bool, unit: int) -> int {
    if flag {
        -((field - 1) * unit)
    } else {
        (field - 1) * unit
    }
}

/// The vertical rate in feet per minute, if the message gives one.
pub open spec fn vertical_rate_of(msg: Seq<u8>) -> Option<i32> {
    if rate_field_of(msg) > 0 {
        Some(signed_value(rate_field_of(msg), rate_flag_of(msg), 64) as i32)
    } else {
        None
    }
}

/// The east and north components of the velocity in knots, if the message
/// is of a ground speed subtype and gives both.
pub open spec fn velocity_of(msg: Seq<u8>) -> Option<(i32, i32)> {
    let unit = if subtype_of(msg) == 2 {
        4int
    } else {
        1int
    };
    if (subtype_of(msg) == 1 || subtype_of(msg) == 2) && first_field_of(msg) > 0
        && second_field_of(msg) > 0 {
        Some(
            (
                signed_value(first_field_of(msg), first_flag_of(msg), unit) as i32,
                signed_value(second_field_of(msg), second_flag_of(msg), unit) as i32,
            ),
        )
    } else {
        None
    }
}

/// Whether `r` is the square root of `n`, rounded down.
pub open spec fn is_floor_sqrt(n: int, r: int) -> bool {
    r >= 0 && r * r <= n < (r + 1) * (r + 1)
}

/// The square root of `n`, rounded down.
pub open spec fn floor_sqrt(n: int) -> int {
    choose|r: int| is_floor_sqrt(n, r)
}

/// The speed in thousandths of a knot, if the message gives one: the length
/// of the velocity for the ground speed subtypes, rounded down, and the
/// airspeed for the airspeed subtypes.
pub open spec fn speed_of(msg: Seq<u8>) -> Option<u32> {
    let subtype = subtype_of(msg);
    if subtype == 1 || subtype == 2 {
        match velocity_of(msg) {
            Some((east, north)) => Some(
                floor_sqrt(1_000_000 * (east * east + north * north)) as u32,
            ),
            None => None,
        }
    } else if (subtype == 3 || subtype == 4) && second_field_of(msg) > 0 {
        Some(
            ((second_field_of(msg) - 1) * (if subtype == 4 {
                4000int
            } else {
                1000int
            })) as u32,
        )
    } else {
        None
    }
}

/// The heading in units of 10^-8 degree, if the message is of an airspeed
/// subtype and gives one: the field in 1024ths of a full turn.
pub open spec fn heading_of(msg: Seq<u8>) -> Option<i64> {
    if (subtype_of(msg) == 3 || subtype_of(msg) == 4) && first_flag_of(msg) {
        Some((first_field_of(msg) * 35_156_250) as i64)
    } else {
        None
    }
}

/// Whether a frame is an extended squitter with an airborne position.
pub open spec fn carries_position(msg: Seq<u8>) -> bool {
    &&& msg.len() == 14
    &&& df_of(msg) == 17 || df_of(msg) == 18
    &&& 9 <= tc_of(msg) <= 18 || 20 <= tc_of(msg) <= 22
}

/// The observation that a frame without payload gives: its address and its
/// downlink format.
pub open spec fn bare_observation(msg: Seq<u8>) -> Observation {
    Observation {
        icao_address: icao_of(msg),
        callsign: None,
        latitude: None,
        longitude: None,
        altitude_ft: None,
        ground_speed_kts: None,
        heading_deg: None,
        vertical_rate_fpm: None,
        squawk: None,
        df: df_of(msg),
        tc: 0,
        altitude_gnss: false,
        velocity_kts: None,
    }
}

/// The observation that a frame of 7 or 14 bytes gives, where `position` is
/// what the pair of position messages of the aircraft yields.
pub open spec fn observation_of(msg: Seq<u8>, position: Option<(i64, i64)>) -> Observation {
    let bare = bare_observation(msg);
    let df = df_of(msg);
    let tc = tc_of(msg);
    if df == 0 || df == 4 || df == 16 || df == 20 {
        Observation { altitude_ft: Some(altitude_of(field13_of(msg), 13) as i32), ..bare }
    } else if df == 5 || df == 21 {
        Observation { squawk: Some(squawk_of_code(field13_of(msg)) as u16), ..bare }
    } else if (df == 17 || df == 18) && msg.len() == 14 {
        if 1 <= tc <= 4 {
            Observation { callsign: Some(callsign_of(msg)), tc, ..bare }
        } else if carries_position(msg) {
            Observation {
                altitude_ft: if has_q_bit(field12_of(msg)) {
                    Some(altitude_of(field12_of(msg), 12) as i32)
                } else {
                    None
                },
                latitude: match position {
                    Some(p) => Some(p.0),
                    None => None,
                },
                longitude: match position {
                    Some(p) => Some(p.1),
                    None => None,
                },
                altitude_gnss: tc >= 20,
                tc,
                ..bare
            }
        } else if tc == 19 {
            Observation {
                ground_speed_kts: speed_of(msg),
                heading_deg: heading_of(msg),
                vertical_rate_fpm: vertical_rate_of(msg),
                velocity_kts: velocity_of(msg),
                tc,
                ..bare
            }
        } else {
            Observation { tc, ..bare }
        }
    } else {
        bare
    }
}

/// The state of the pair of an aircraft after the position message `msg`
/// was stored at time `now`.
pub open spec fn pair_after(before: CprModel, msg: Seq<u8>, now: u64) -> CprState {
    stored(
        state_of(before, icao_of(msg)),
        lat17_of(msg),
        lon17_of(msg),
        odd_flag_of(msg),
        now,
    )
}

/// The position that a frame yields when it comes at time `now`: that of
/// the pair of its aircraft, for a position message, and none otherwise.
pub open spec fn position_of(before: CprModel, msg: Seq<u8>, now: u64) -> Option<(i64, i64)> {
    if carries_position(msg) {
        global_position(pair_after(before, msg, now), odd_flag_of(msg), now)
    } else {
        None
    }
}

/// How a frame that comes at time `now` changes a context: a position
/// message is stored in the pair of its aircraft, with the position that
/// the pair then yields; any other frame changes nothing.
pub open spec fn context_after(before: CprModel, after: CprModel, msg: Seq<u8>, now: u64) -> bool {
    if carries_position(msg) {
        holds_after(
            before,
            after,
            icao_of(msg),
            decoded_state(pair_after(before, msg, now), odd_flag_of(msg), now),
        )
    } else {
        after == before
    }
}

/// Altitude in feet of a 13-bit altitude code.
pub fn decode_ac13_altitude(ac13: u16) -> (altitude: i32)
    ensures
        altitude == altitude_of(ac13, 13),
        -1000 <= altitude <= 101_375,
{
    if (ac13 / 16) % 2 == 1 {
        let n: u16 = ((ac13 / 32) % 256) * 16 + ac13 % 16;
        n as i32 * 25 - 1000
    } else {
        0
    }
}

/// Altitude in feet of a 12-bit altitude code.
pub fn decode_ac12_altitude(ac12: u16) -> (altitude: i32)
    ensures
        altitude == altitude_of(ac12, 12),
        -1000 <= altitude <= 50_175,
{
    if (ac12 / 16) % 2 == 1 {
        let n: u16 = ((ac12 / 32) % 128) * 16 + ac12 % 16;
        n as i32 * 25 - 1000
    } else {
        0
    }
}

/// The squawk of an identity reply.
pub fn decode_squawk(msg: &[u8]) -> (squawk: u16)
    requires
        msg@.len() >= 4,
    ensures
        squawk == squawk_of_code(field13_of(msg@)),
        squawk <= 7777,
{
    let id: u16 = (msg[2] % 32) as u16 * 256 + msg[3] as u16;
    let a: u16 = 4 * ((id / 4096) % 2) + 2 * ((id / 512) % 2) + (id / 64) % 2;
    let b: u16 = 4 * ((id / 2048) % 2) + 2 * ((id / 256) % 2) + (id / 32) % 2;
    let c: u16 = 4 * ((id / 1024) % 2) + 2 * ((id / 128) % 2) + (id / 16) % 2;
    let d: u16 = 4 * ((id / 8) % 2) + 2 * ((id / 4) % 2) + (id / 2) % 2;
    a * 1000 + b * 100 + c * 10 + d
}

/// The 6-bit code of character `k` of an identification message.
fn callsign_code_at(msg: &[u8], k: usize) -> (code: u8)
    requires
        msg@.len() >= 11,
        k < 8,
    ensures
        code == callsign_code(msg@, k as int),
        code < 64,
{
    let base: usize = if k < 4 {
        5
    } else {
        8
    };
    let place = k % 4;
    if place == 0 {
        msg[base] / 4
    } else if place == 1 {
        (msg[base] % 4) * 16 + msg[base + 1] / 16
    } else if place == 2 {
        (msg[base + 1] % 16) * 4 + msg[base + 2] / 64
    } else {
        msg[base + 2] % 64
    }
}

/// The space is the character of code 32 and of no other code.
proof fn lemma_space_code(code: int)
    requires
        0 <= code < 64,
    ensures
        (callsign_char(code) == ' ') == (code == 32),
{
    reveal_strlit("#ABCDEFGHIJKLMNOPQRSTUVWXYZ##### ###############0123456789######");
}

/// A text without the spaces at its end is a prefix of the text, and what
/// was cut off are spaces.
proof fn lemma_trim_end(text: Seq<char>, end: int)
    requires
        0 <= end <= text.len(),
        forall|k: int| end <= k < text.len() ==> text[k] == ' ',
        end > 0 ==> text[end - 1] != ' ',
    ensures
        trim_end(text) == text.take(end),
    decreases text.len(),
{
    if end < text.len() {
        assert(text.drop_last().take(end) =~= text.take(end));
        lemma_trim_end(text.drop_last(), end);
    } else {
        assert(text.take(end) =~= text);
    }
}

/// The callsign of an identification message, without the spaces at its
/// end.
pub fn decode_callsign(msg: &[u8]) -> (callsign: String)
    requires
        msg@.len() >= 11,
    ensures
        callsign@ == callsign_of(msg@),
        callsign@.len() <= 8,
{
    let mut end: usize = 8;
    while end > 0 && callsign_code_at(msg, end - 1) == 32
        invariant
            end <= 8,
            msg@.len() >= 11,
            forall|k: int| end <= k < 8 ==> callsign_text(msg@)[k] == ' ',
        decreases end,
    {
        proof {
            lemma_space_code(callsign_code(msg@, end - 1));
        }
        end = end - 1;
    }
    proof {
        if end > 0 {
            lemma_space_code(callsign_code(msg@, end - 1));
        }
        lemma_trim_end(callsign_text(msg@), end as int);
    }
    let mut callsign = String::new();
    let mut k: usize = 0;
    while k < end
        invariant
            k <= end <= 8,
            msg@.len() >= 11,
            callsign@ == callsign_text(msg@).take(k as int),
        decreases end - k,
    {
        let code = callsign_code_at(msg, k);
        proof {
            reveal_strlit("#ABCDEFGHIJKLMNOPQRSTUVWXYZ##### ###############0123456789######");
        }
        callsign.push(CALLSIGN_CHARS.get_char(code as usize));
        proof {
            assert(callsign@ =~= callsign_text(msg@).take(k + 1));
        }
        k = k + 1;
    }
    callsign
}

/// The code of a character of a callsign: its place in the alphabet, and 0
/// for a character that the alphabet does not have.
pub fn callsign_code_of(c: char) -> (code: u8)
    ensures
        code == alphabet_code(c),
        is_plain_code(code as int),
{
    if 'A' <= c && c <= 'Z' {
        (c as u32 - 'A' as u32 + 1) as u8
    } else if '0' <= c && c <= '9' {
        (c as u32 - '0' as u32 + 48) as u8
    } else if c == ' ' {
        32
    } else {
        0
    }
}

/// Decoding and encoding again gives the codes of the message back, where
/// each of them stands for a character of its own or is the first code of
/// `#`: the spaces that decoding cuts off are those that encoding fills in.
pub proof fn lemma_callsign_round_trip(msg: Seq<u8>)
    requires
        msg.len() >= 11,
        forall|k: int| 0 <= k < 8 ==> is_plain_code(#[trigger] callsign_code(msg, k)),
    ensures
        encoded(callsign_of(msg)) == callsign_codes(msg),
{
    let text = callsign_text(msg);
    lemma_padded_trim(text);
    assert forall|k: int| 0 <= k < 8 implies alphabet_code(text[k]) == callsign_code(msg, k) by {
        reveal_strlit("#ABCDEFGHIJKLMNOPQRSTUVWXYZ##### ###############0123456789######");
        assert(is_plain_code(callsign_code(msg, k)));
    }
    assert(encoded(callsign_of(msg)) =~= callsign_codes(msg));
}

/// Filling up a trimmed text of eight characters gives the text back.
proof fn lemma_padded_trim(text: Seq<char>)
    requires
        text.len() == 8,
    ensures
        pad_end(trim_end(text)) == text,
{
    lemma_trim_is_prefix(text);
    let cut = trim_end(text);
    assert(pad_end(cut) =~= text);
}

/// A trimmed text is a prefix of the text, and what was cut off are spaces.
proof fn lemma_trim_is_prefix(text: Seq<char>)
    ensures
        trim_end(text).len() <= text.len(),
        trim_end(text) == text.take(trim_end(text).len() as int),
        forall|k: int| trim_end(text).len() <= k < text.len() ==> text[k] == ' ',
    decreases text.len(),
{
    if text.len() > 0 && text.last() == ' ' {
        let shorter = text.drop_last();
        lemma_trim_is_prefix(shorter);
        let n = trim_end(shorter).len() as int;
        assert(shorter.take(n) =~= text.take(n));
        assert forall|k: int| n <= k < text.len() implies text[k] == ' ' by {
            if k < shorter.len() {
                assert(shorter[k] == ' ');
            }
        }
    } else {
        assert(text.take(text.len() as int) =~= text);
    }
}

/// There is at most one square root, rounded down.
pub proof fn lemma_floor_sqrt_unique(n: int, r: int)
    requires
        is_floor_sqrt(n, r),
    ensures
        floor_sqrt(n) == r,
{
    let s = floor_sqrt(n);
    assert(is_floor_sqrt(n, s));
    assert(s == r) by (nonlinear_arith)
        requires
            s >= 0,
            r >= 0,
            s * s <= n < (s + 1) * (s + 1),
            r * r <= n < (r + 1) * (r + 1),
    ;
}

/// The square root of `n`, rounded down.
pub fn isqrt(n: u64) -> (root: u32)
    ensures
        root == floor_sqrt(n as int),
        is_floor_sqrt(n as int, root as int),
{
    let mut low: u64 = 0;
    let mut high: u64 = 0x1_0000_0000;
    assert(high * high > n) by (nonlinear_arith)
        requires
            high == 0x1_0000_0000,
            n <= u64::MAX,
    ;
    while high - low > 1
        invariant
            low < high <= 0x1_0000_0000,
            low * low <= n < high * high,
        decreases high - low,
    {
        let mid: u64 = low + (high - low) / 2;
        assert(mid * mid <= 0xFFFF_FFFE_0000_0001) by (nonlinear_arith)
            requires
                mid <= 0xFFFF_FFFF,
        ;
        if mid * mid <= n {
            low = mid;
        } else {
            high = mid;
        }
    }
    proof {
        lemma_floor_sqrt_unique(n as int, low as int);
    }
    low as u32
}

/// Fills in what an airborne position message says: the altitude, where
/// its code has the Q bit, and the position that the pair of the aircraft
/// yields once this message is stored in `cpr_ctx`.
pub fn decode_airborne_position(
    msg: &[u8],
    aircraft: &mut AircraftData,
    cpr_ctx: &mut CprContext,
    now: u64,
)
    requires
        msg@.len() >= 11,
    ensures
        final(aircraft)@ == (Observation {
            altitude_ft: if has_q_bit(field12_of(msg@)) {
                Some(altitude_of(field12_of(msg@), 12) as i32)
            } else {
                old(aircraft)@.altitude_ft
            },
            latitude: match position_at(old(cpr_ctx)@, old(aircraft)@.icao_address, msg@, now) {
                Some(p) => Some(p.0),
                None => old(aircraft)@.latitude,
            },
            longitude: match position_at(old(cpr_ctx)@, old(aircraft)@.icao_address, msg@, now) {
                Some(p) => Some(p.1),
                None => old(aircraft)@.longitude,
            },
            ..old(aircraft)@
        }),
        holds_after(
            old(cpr_ctx)@,
            final(cpr_ctx)@,
            old(aircraft)@.icao_address,
            decoded_state(
                stored(
                    state_of(old(cpr_ctx)@, old(aircraft)@.icao_address),
                    lat17_of(msg@),
                    lon17_of(msg@),
                    odd_flag_of(msg@),
                    now,
                ),
                odd_flag_of(msg@),
                now,
            ),
        ),
{
    let ac12: u16 = msg[5] as u16 * 16 + (msg[6] / 16) as u16;
    if (ac12 / 16) % 2 == 1 {
        aircraft.altitude_ft = Some(decode_ac12_altitude(ac12));
    }
    let odd_flag: bool = (msg[6] / 4) % 2 == 1;
    let lat_cpr: i32 = (msg[6] % 4) as i32 * 32768 + msg[7] as i32 * 128 + (msg[8] / 2) as i32;
    let lon_cpr: i32 = (msg[8] % 2) as i32 * 65536 + msg[9] as i32 * 256 + msg[10] as i32;
    match cpr_ctx.update(aircraft.icao_address, lat_cpr, lon_cpr, odd_flag, now) {
        Some((latitude, longitude)) => {
            aircraft.latitude = Some(latitude);
            aircraft.longitude = Some(longitude);
        },
        None => {},
    }
}

/// The position that the pair of aircraft `icao` yields once the position
/// message `msg` is stored at time `now`.
pub open spec fn position_at(before: CprModel, icao: u32, msg: Seq<u8>, now: u64) -> Option<
    (i64, i64),
> {
    global_position(
        stored(state_of(before, icao), lat17_of(msg), lon17_of(msg), odd_flag_of(msg), now),
        odd_flag_of(msg),
        now,
    )
}

fn signed(field: u16, flag: bool, unit: i32) -> (value: i32)
    requires
        0 < field < 1024,
        1 <= unit <= 64,
    ensures
        value == signed_value(field as int, flag, unit as int),
        -65472 <= value <= 65472,
{
    let steps: i32 = field as i32 - 1;
    assert(0 <= steps * unit <= 65472) by (nonlinear_arith)
        requires
            0 <= steps < 1023,
            1 <= unit <= 64,
    ;
    let magnitude: i32 = steps * unit;
    if flag {
        -magnitude
    } else {
        magnitude
    }
}

/// Fills in what an airborne velocity message says. For the ground speed
/// subtypes 1 and 2 that is the velocity, where both components are given,
/// with its length as the speed; for the airspeed subtypes 3 and 4 the
/// heading, where it is present, and the airspeed. The vertical rate is
/// filled in for all four where it is given. The components of subtype 2
/// and the airspeed of subtype 4 count four knots a step.
pub fn decode_airborne_velocity(msg: &[u8], aircraft: &mut AircraftData)
    requires
        msg@.len() >= 10,
    ensures
        final(aircraft)@ == (Observation {
            ground_speed_kts: match speed_of(msg@) {
                Some(speed) => Some(speed),
                None => old(aircraft)@.ground_speed_kts,
            },
            heading_deg: match heading_of(msg@) {
                Some(heading) => Some(heading),
                None => old(aircraft)@.heading_deg,
            },
            vertical_rate_fpm: if 1 <= subtype_of(msg@) <= 4 && vertical_rate_of(msg@) is Some {
                vertical_rate_of(msg@)
            } else {
                old(aircraft)@.vertical_rate_fpm
            },
            velocity_kts: match velocity_of(msg@) {
                Some(velocity) => Some(velocity),
                None => old(aircraft)@.velocity_kts,
            },
            ..old(aircraft)@
        }),
{
    let subtype: u8 = msg[4] / 32;
    if subtype < 1 || subtype > 4 {
        return ;
    }
    let first_flag: bool = (msg[5] / 4) % 2 == 1;
    let first: u16 = (msg[5] % 4) as u16 * 256 + msg[6] as u16;
    let second_flag: bool = msg[7] / 128 == 1;
    let second: u16 = (msg[7] % 128) as u16 * 8 + (msg[8] / 32) as u16;
    if subtype == 1 || subtype == 2 {
        if first > 0 && second > 0 {
            let unit: i32 = if subtype == 2 {
                4
            } else {
                1
            };
            let east = signed(first, first_flag, unit);
            let north = signed(second, second_flag, unit);
            assert(0 <= east * east <= 16_744_464 && 0 <= north * north <= 16_744_464)
                by (nonlinear_arith)
                requires
                    -4092 <= east <= 4092,
                    -4092 <= north <= 4092,
            ;
            let squares: u64 = (east * east + north * north) as u64;
            let speed = isqrt(1_000_000 * squares);
            aircraft.ground_speed_kts = Some(speed);
            aircraft.velocity_kts = Some((east, north));
        }
    } else {
        if first_flag {
            aircraft.heading_deg = Some(first as i64 * 35_156_250);
        }
        if second > 0 {
            let unit: u32 = if subtype == 4 {
                4000
            } else {
                1000
            };
            aircraft.ground_speed_kts = Some((second as u32 - 1) * unit);
        }
    }
    let rate_flag: bool = (msg[8] / 8) % 2 == 1;
    let rate: u16 = (msg[8] % 8) as u16 * 64 + (msg[9] / 4) as u16;
    if rate > 0 {
        aircraft.vertical_rate_fpm = Some(signed(rate, rate_flag, 64));
    }
}

/// Decodes the payload of a frame of 7 or 14 bytes that came at time `now`,
/// in milliseconds. The checksum is not looked at. A position message is
/// stored in `cpr_ctx`.
pub fn decode_payload(msg: &[u8], cpr_ctx: &mut CprContext, now: u64) -> (aircraft: AircraftData)
    requires
        msg@.len() == 7 || msg@.len() == 14,
    ensures
        aircraft@ == observation_of(msg@, position_of(old(cpr_ctx)@, msg@, now)),
        context_after(old(cpr_ctx)@, final(cpr_ctx)@, msg@, now),
{
    let len = msg.len();
    let mut aircraft = AircraftData::default();
    aircraft.df = get_df(msg);
    aircraft.icao_address = get_icao(msg);
    let format = DownlinkFormat::from(aircraft.df);
    match format {
        DownlinkFormat::ShortAirSurveillance
        | DownlinkFormat::LongAirSurveillance
        | DownlinkFormat::AltitudeReply
        | DownlinkFormat::CommBAltitude => {
            let ac13: u16 = (msg[2] % 32) as u16 * 256 + msg[3] as u16;
            aircraft.altitude_ft = Some(decode_ac13_altitude(ac13));
        },
        DownlinkFormat::IdentityReply | DownlinkFormat::CommBIdentity => {
            aircraft.squawk = Some(decode_squawk(msg));
        },
        DownlinkFormat::AllCallReply => {},
        DownlinkFormat::ExtendedSquitter | DownlinkFormat::ExtendedSquitterNonTransponder => {
            if len != LONG_FRAME_BYTES {
                return aircraft;
            }
            aircraft.tc = msg[4] / 8;
            let tc = aircraft.tc;
            if 1 <= tc && tc <= 4 {
                aircraft.callsign = Some(decode_callsign(msg));
            } else if 9 <= tc && tc <= 18 {
                decode_airborne_position(msg, &mut aircraft, cpr_ctx, now);
                aircraft.altitude_gnss = false;
            } else if tc == 19 {
                decode_airborne_velocity(msg, &mut aircraft);
            } else if 20 <= tc && tc <= 22 {
                decode_airborne_position(msg, &mut aircraft, cpr_ctx, now);
                aircraft.altitude_gnss = true;
            }
        },
        _ => {},
    }
    aircraft
}

/// Decodes a frame that came at time `now`, in milliseconds: a frame of 7
/// or 14 bytes that passes the strict checksum policy gives an observation,
/// any other frame the error that says why not.
pub fn parse_message(msg: &[u8], cpr_ctx: &mut CprContext, now: u64) -> (res: Result<
    AircraftData,
    ParseError,
>)
    ensures
        match res {
            Ok(aircraft) => {
                &&& frame_is_valid(msg@)
                &&& aircraft@ == observation_of(msg@, position_of(old(cpr_ctx)@, msg@, now))
                &&& context_after(old(cpr_ctx)@, final(cpr_ctx)@, msg@, now)
                &&& df_is_checkable(aircraft.df)
                &&& aircraft.icao_address < 0x1000000
            },
            Err(ParseError::InvalidLength) => {
                &&& msg@.len() != 7
                &&& msg@.len() != 14
                &&& final(cpr_ctx)@ == old(cpr_ctx)@
            },
            Err(ParseError::CrcError) => {
                &&& msg@.len() == 7 || msg@.len() == 14
                &&& !frame_is_valid(msg@)
                &&& final(cpr_ctx)@ == old(cpr_ctx)@
            },
            Err(ParseError::UnsupportedFormat) => false,
        },
{
    let len = msg.len();
    if len != SHORT_FRAME_BYTES && len != LONG_FRAME_BYTES {
        return Err(ParseError::InvalidLength);
    }
    if check_crc(msg).is_err() {
        return Err(ParseError::CrcError);
    }
    Ok(decode_payload(msg, cpr_ctx, now))
}

} // verus!
