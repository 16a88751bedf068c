//! Compact Position Reporting: the global decoding of a pair of an even and
//! an odd airborne position.
//!
//! A position message carries latitude and longitude as 17-bit fractions of
//! a zone. There are 60 latitude zones for even and 59 for odd messages, and
//! a number of longitude zones that falls with the latitude. Two messages of
//! different parity, close in time, give the position without any reference.
//! All angles are integers in units of 10^-8 degree, the resolution of the
//! table of longitude zones.

use vstd::prelude::*;
use std::collections::HashMap;
use crate::units::{abs, div_trunc, elapsed, rem_trunc};

verus! {

/// Number of values of a 17-bit coordinate.
pub const CPR_SCALE: i64 = 131072;

/// One full turn in units of 10^-8 degree.
pub const FULL_TURN: i64 = 36_000_000_000;

/// A quarter turn, the largest latitude, in units of 10^-8 degree.
pub const QUARTER_TURN: i64 = 9_000_000_000;

/// Half a turn, the largest longitude, in units of 10^-8 degree.
pub const HALF_TURN: i64 = 18_000_000_000;

/// No coordinate in steps exceeds this in absolute value.
pub const STEP_LIMIT: i64 = 4_294_967_296;

/// Longest time, in milliseconds, between the two messages of a pair.
pub const PAIR_WINDOW_MS: u64 = 10_000;

/// For each number of longitude zones from 59 down to 2, the absolute
/// latitude, in units of 10^-8 degree, below which that number applies. At
/// 87 degrees exactly there are still two zones.
pub const NL_LIMITS: [i64; 58] = [
    1_047_047_130, 1_482_817_437, 1_818_626_357, 2_102_939_493,
    2_354_504_487, 2_582_924_707, 2_793_898_710, 2_991_135_686,
    3_177_209_708, 3_353_993_436, 3_522_899_598, 3_685_025_108,
    3_841_241_892, 3_992_256_684, 4_138_651_832, 4_280_914_012,
    4_419_454_951, 4_554_626_723, 4_686_733_252, 4_816_039_128,
    4_942_776_439, 5_067_150_166, 5_189_342_469, 5_309_516_153,
    5_427_817_472, 5_544_378_444, 5_659_318_756, 5_772_747_354,
    5_884_763_776, 5_995_459_277, 6_104_917_774, 6_213_216_659,
    6_320_427_479, 6_426_616_523, 6_531_845_310, 6_636_171_008,
    6_739_646_774, 6_842_322_022, 6_944_242_631, 7_045_451_075,
    7_145_986_473, 7_245_884_545, 7_345_177_442, 7_443_893_416,
    7_542_056_257, 7_639_684_391, 7_736_789_461, 7_833_374_083,
    7_929_428_225, 8_024_923_213, 8_119_801_349, 8_213_956_981,
    8_307_199_445, 8_399_173_563, 8_489_166_191, 8_575_541_621,
    8_653_536_998, 8_700_000_001,
];

/// The number of longitude zones that the table gives for an absolute
/// latitude, looking from entry `k` on: the first entry that exceeds the
/// latitude decides, and beyond the last entry there is one zone.
pub open spec fn zones_from(abs_lat: int, k: int) -> int
    decreases 58 - k,
{
    if k < 0 || k >= 58 {
        1
    } else if abs_lat < NL_LIMITS@[k] {
        59 - k
    } else {
        zones_from(abs_lat, k + 1)
    }
}

/// Number of longitude zones at latitude `lat`, in units of 10^-8 degree.
pub open spec fn nl_of(lat: int) -> int {
    zones_from(abs(lat), 0)
}

/// The angle of `steps` out of `zones * CPR_SCALE` equal steps of a full
/// turn, in units of 10^-8 degree, rounded towards zero.
pub open spec fn steps_to_angle(steps: int, zones: int) -> int {
    div_trunc(steps * FULL_TURN, zones * CPR_SCALE)
}

/// The zone index of a pair of coordinates where there are `nl` zones for
/// the even and one fewer for the odd one: `(nl - 1) * even - nl * odd`, as
/// a fraction of the scale, rounded to the nearest integer.
pub open spec fn zone_index(even: int, odd: int, nl: int) -> int {
    ((nl - 1) * even - nl * odd + CPR_SCALE / 2) / (CPR_SCALE as int)
}

/// A coordinate in steps: the zone, taken modulo the number of zones with
/// the sign of the index, and the fraction within the zone.
pub open spec fn zone_steps(index: int, zones: int, fraction: int) -> int {
    rem_trunc(index, zones) * CPR_SCALE + fraction
}

/// Latitude in steps, brought below three quarters of a turn.
pub open spec fn latitude_steps(index: int, zones: int, fraction: int) -> int {
    let steps = zone_steps(index, zones, fraction);
    if 4 * steps >= 3 * zones * CPR_SCALE {
        steps - zones * CPR_SCALE
    } else {
        steps
    }
}

/// Longitude in steps, brought to at most half a turn.
pub open spec fn longitude_steps(index: int, zones: int, fraction: int) -> int {
    let steps = zone_steps(index, zones, fraction);
    if 2 * steps > zones * CPR_SCALE {
        steps - zones * CPR_SCALE
    } else {
        steps
    }
}

/// What is known of one aircraft: the latest even and odd message, each as
/// latitude, longitude and the time in milliseconds at which it came, and
/// the last position decoded, as latitude and longitude in units of 10^-8
/// degree.
#[derive(Debug, Clone, Copy)]
pub struct CprState {
    pub even_cpr: Option<(i32, i32, u64)>,
    pub odd_cpr: Option<(i32, i32, u64)>,
    pub last_position: Option<(i64, i64)>,
}

/// The state of an aircraft of which nothing is known.
pub open spec fn empty_state() -> CprState {
    CprState { even_cpr: None, odd_cpr: None, last_position: None }
}

impl Default for CprState {
    fn default() -> (state: CprState)
        ensures
            state == empty_state(),
    {
        CprState { even_cpr: None, odd_cpr: None, last_position: None }
    }
}

/// The state after a message of the given parity was stored at time `now`.
pub open spec fn stored(state: CprState, lat_cpr: i32, lon_cpr: i32, odd_flag: bool, now: u64) -> CprState {
    if odd_flag {
        CprState { odd_cpr: Some((lat_cpr, lon_cpr, now)), ..state }
    } else {
        CprState { even_cpr: Some((lat_cpr, lon_cpr, now)), ..state }
    }
}

/// The position that a state yields when a message of the given parity has
/// just been stored: none unless both messages are there and the other one
/// is at most `PAIR_WINDOW_MS` old, none where the two latitudes lie in
/// different longitude zones, none where the result is no latitude or
/// longitude. The latitude and longitude are those of the message just
/// stored.
pub open spec fn global_position(state: CprState, odd_flag: bool, now: u64) -> Option<(i64, i64)> {
    match (state.even_cpr, state.odd_cpr) {
        (Some(even), Some(odd)) => {
            let other_time = if odd_flag {
                even.2
            } else {
                odd.2
            };
            let j = zone_index(even.0 as int, odd.0 as int, 60);
            let lat_even = latitude_steps(j, 60, even.0 as int);
            let lat_odd = latitude_steps(j, 59, odd.0 as int);
            let nl = nl_of(steps_to_angle(lat_even, 60));
            let ni = if odd_flag && nl > 1 {
                nl - 1
            } else {
                nl
            };
            let m = zone_index(even.1 as int, odd.1 as int, nl);
            let lat = if odd_flag {
                lat_odd
            } else {
                lat_even
            };
            let lat_zones = if odd_flag {
                59int
            } else {
                60int
            };
            let lon = longitude_steps(
                m,
                ni,
                if odd_flag {
                    odd.1 as int
                } else {
                    even.1 as int
                },
            );
            if elapsed(now, other_time) > PAIR_WINDOW_MS {
                None
            } else if nl != nl_of(steps_to_angle(lat_odd, 59)) {
                None
            } else if 4 * abs(lat) > lat_zones * CPR_SCALE || 2 * abs(lon) > ni * CPR_SCALE {
                None
            } else {
                Some((steps_to_angle(lat, lat_zones) as i64, steps_to_angle(lon, ni) as i64))
            }
        },
        _ => None,
    }
}

/// The state after an attempt to decode: a position that was found is
/// remembered.
pub open spec fn decoded_state(state: CprState, odd_flag: bool, now: u64) -> CprState {
    match global_position(state, odd_flag, now) {
        Some(position) => CprState { last_position: Some(position), ..state },
        None => state,
    }
}

/// The number of zones does not grow with the absolute latitude, and lies
/// between 1 and 59.
pub proof fn lemma_zones_from(a: int, b: int, k: int)
    requires
        0 <= a <= b,
        0 <= k <= 58,
    ensures
        1 <= zones_from(b, k) <= zones_from(a, k) <= 59 - k,
    decreases 58 - k,
{
    if k < 58 {
        lemma_zones_from(a, b, k + 1);
    }
}

/// The number of longitude zones lies between 1 and 59, and does not grow
/// as the latitude moves away from the equator.
pub proof fn lemma_nl_monotone(lat1: int, lat2: int)
    requires
        abs(lat1) <= abs(lat2),
    ensures
        1 <= nl_of(lat2) <= nl_of(lat1) <= 59,
{
    lemma_zones_from(abs(lat1), abs(lat2), 0);
}

/// Number of longitude zones at latitude `lat`, in units of 10^-8 degree.
pub fn cpr_nl(lat: i64) -> (nl: i32)
    ensures
        nl == nl_of(lat as int),
        1 <= nl <= 59,
{
    let mut k: usize = 0;
    while k < 58
        invariant
            k <= 58,
            nl_of(lat as int) == zones_from(abs(lat as int), k as int),
        decreases 58 - k,
    {
        let limit = NL_LIMITS[k];
        if lat < limit && lat > -limit {
            return 59 - k as i32;
        }
        k = k + 1;
    }
    1
}

fn floor_div_scale(a: i64) -> (q: i64)
    ensures
        q == a as int / (CPR_SCALE as int),
{
    let q = a / CPR_SCALE;
    if a % CPR_SCALE < 0 {
        q - 1
    } else {
        q
    }
}

fn zone_index_of(even: i32, odd: i32, nl: i32) -> (index: i64)
    requires
        1 <= nl <= 60,
    ensures
        index == zone_index(even as int, odd as int, nl as int),
{
    let zones: i64 = nl as i64;
    let e: i64 = even as i64;
    let o: i64 = odd as i64;
    assert(-0x2000000000 <= (zones - 1) * e <= 0x2000000000 && -0x2000000000 <= zones * o
        <= 0x2000000000) by (nonlinear_arith)
        requires
            1 <= zones <= 60,
            -0x80000000 <= e <= 0x80000000,
            -0x80000000 <= o <= 0x80000000,
    ;
    floor_div_scale((zones - 1) * e - zones * o + CPR_SCALE / 2)
}

fn zone_steps_of(index: i64, zones: i32, fraction: i32) -> (steps: i64)
    requires
        1 <= zones <= 60,
    ensures
        steps == zone_steps(index as int, zones as int, fraction as int),
        abs(steps as int) <= STEP_LIMIT - 60 * CPR_SCALE,
{
    (index % zones as i64) * CPR_SCALE + fraction as i64
}

fn latitude_steps_of(index: i64, zones: i32, fraction: i32) -> (steps: i64)
    requires
        1 <= zones <= 60,
    ensures
        steps == latitude_steps(index as int, zones as int, fraction as int),
        abs(steps as int) <= STEP_LIMIT,
{
    let steps = zone_steps_of(index, zones, fraction);
    let span: i64 = zones as i64 * CPR_SCALE;
    if 4 * steps >= 3 * span {
        steps - span
    } else {
        steps
    }
}

fn longitude_steps_of(index: i64, zones: i32, fraction: i32) -> (steps: i64)
    requires
        1 <= zones <= 60,
    ensures
        steps == longitude_steps(index as int, zones as int, fraction as int),
        abs(steps as int) <= STEP_LIMIT,
{
    let steps = zone_steps_of(index, zones, fraction);
    let span: i64 = zones as i64 * CPR_SCALE;
    if 2 * steps > span {
        steps - span
    } else {
        steps
    }
}

fn angle_of(steps: i64, zones: i32) -> (angle: i64)
    requires
        1 <= zones <= 60,
        abs(steps as int) <= STEP_LIMIT,
    ensures
        angle == steps_to_angle(steps as int, zones as int),
        4 * abs(steps as int) <= zones * CPR_SCALE ==> abs(angle as int) <= QUARTER_TURN,
        2 * abs(steps as int) <= zones * CPR_SCALE ==> abs(angle as int) <= HALF_TURN,
{
    let span: i128 = zones as i128 * CPR_SCALE as i128;
    let scaled: i128 = steps as i128 * FULL_TURN as i128;
    proof {
        lemma_angle_fits(steps as int, span as int);
        if 4 * abs(steps as int) <= span {
            lemma_angle_bound(steps as int, span as int, 4);
        }
        if 2 * abs(steps as int) <= span {
            lemma_angle_bound(steps as int, span as int, 2);
        }
    }
    (scaled / span) as i64
}

/// The angle of any coordinate that can arise fits in 64 bits.
proof fn lemma_angle_fits(steps: int, span: int)
    requires
        span >= CPR_SCALE,
        abs(steps) <= STEP_LIMIT,
    ensures
        abs(div_trunc(steps * FULL_TURN, span)) <= STEP_LIMIT * FULL_TURN / (CPR_SCALE as int),
{
    let a = abs(steps);
    lemma_abs_scaled(steps);
    assert(0 <= a * FULL_TURN <= STEP_LIMIT * FULL_TURN) by (nonlinear_arith)
        requires
            0 <= a <= STEP_LIMIT,
    ;
    vstd::arithmetic::div_mod::lemma_div_is_ordered_by_denominator(
        a * FULL_TURN,
        CPR_SCALE as int,
        span,
    );
    vstd::arithmetic::div_mod::lemma_div_is_ordered(
        a * FULL_TURN,
        STEP_LIMIT * FULL_TURN,
        CPR_SCALE as int,
    );
}

/// Rounding towards zero commutes with the absolute value.
proof fn lemma_abs_scaled(steps: int)
    ensures
        forall|span: int|
            span > 0 ==> abs(#[trigger] div_trunc(steps * FULL_TURN, span)) == (abs(steps)
                * FULL_TURN) / span,
{
    let a = abs(steps);
    if steps < 0 {
        assert(-(steps * FULL_TURN) == a * FULL_TURN && steps * FULL_TURN < 0) by (nonlinear_arith)
            requires
                a == -steps,
                steps < 0,
        ;
    } else {
        assert(steps * FULL_TURN >= 0) by (nonlinear_arith)
            requires
                steps >= 0,
        ;
    }
    assert forall|span: int| span > 0 implies abs(#[trigger] div_trunc(steps * FULL_TURN, span))
        == (a * FULL_TURN) / span by {
        vstd::arithmetic::div_mod::lemma_div_pos_is_pos(a * FULL_TURN, span);
    }
}

/// A fraction `steps / span` of at most `1 / part` in absolute value gives
/// an angle of at most that part of a full turn.
proof fn lemma_angle_bound(steps: int, span: int, part: int)
    requires
        span > 0,
        part == 2 || part == 4,
        part * abs(steps) <= span,
    ensures
        abs(div_trunc(steps * FULL_TURN, span)) <= FULL_TURN as int / part,
{
    let a = abs(steps);
    let bound = FULL_TURN as int / part;
    lemma_abs_scaled(steps);
    assert(0 <= a * FULL_TURN <= bound * span) by (nonlinear_arith)
        requires
            part * a <= span,
            bound * part == FULL_TURN,
            a >= 0,
            part > 0,
    ;
    assert(abs(div_trunc(steps * FULL_TURN, span)) == (a * FULL_TURN) / span);
    vstd::arithmetic::div_mod::lemma_div_is_ordered(a * FULL_TURN, bound * span, span);
    assert((a * FULL_TURN) / span <= (bound * span) / span);
    vstd::arithmetic::div_mod::lemma_div_multiples_vanish(bound, span);
    assert(bound * span == span * bound) by (nonlinear_arith);
    assert((bound * span) / span == bound);
}

/// The latitudes of a pair, in units of 10^-8 degree: that of the even
/// message, and that of the odd one.
pub open spec fn pair_latitudes(even_lat: i32, odd_lat: i32) -> (int, int) {
    let j = zone_index(even_lat as int, odd_lat as int, 60);
    (
        steps_to_angle(latitude_steps(j, 60, even_lat as int), 60),
        steps_to_angle(latitude_steps(j, 59, odd_lat as int), 59),
    )
}

/// A pair yields a position only if both messages are there, the other one
/// is recent and the two latitudes have the same number of longitude
/// zones; and a position that it yields lies on the globe.
pub proof fn lemma_global_position(state: CprState, odd_flag: bool, now: u64)
    ensures
        global_position(state, odd_flag, now) matches Some(p) ==> {
            &&& state.even_cpr matches Some(even)
            &&& state.odd_cpr matches Some(odd)
            &&& elapsed(
                now,
                if odd_flag {
                    even.2
                } else {
                    odd.2
                },
            ) <= PAIR_WINDOW_MS
            &&& nl_of(pair_latitudes(even.0, odd.0).0) == nl_of(pair_latitudes(even.0, odd.0).1)
            &&& -QUARTER_TURN <= p.0 <= QUARTER_TURN
            &&& -HALF_TURN <= p.1 <= HALF_TURN
        },
{
    if let Some(p) = global_position(state, odd_flag, now) {
        let even = state.even_cpr->0;
        let odd = state.odd_cpr->0;
        let j = zone_index(even.0 as int, odd.0 as int, 60);
        let lat_even = latitude_steps(j, 60, even.0 as int);
        let lat_odd = latitude_steps(j, 59, odd.0 as int);
        let nl = nl_of(steps_to_angle(lat_even, 60));
        lemma_nl_monotone(steps_to_angle(lat_even, 60), steps_to_angle(lat_even, 60));
        let ni = if odd_flag && nl > 1 {
            nl - 1
        } else {
            nl
        };
        let m = zone_index(even.1 as int, odd.1 as int, nl);
        let lat = if odd_flag {
            lat_odd
        } else {
            lat_even
        };
        let lat_zones = if odd_flag {
            59int
        } else {
            60int
        };
        let lon = longitude_steps(
            m,
            ni,
            if odd_flag {
                odd.1 as int
            } else {
                even.1 as int
            },
        );
        lemma_angle_bound(lat, lat_zones * CPR_SCALE, 4);
        lemma_angle_bound(lon, ni * CPR_SCALE, 2);
    }
}

/// Decodes the position from the two messages of `state`, of which the one
/// of parity `odd_flag` was stored last, and remembers it in the state.
pub fn decode_global(state: &mut CprState, odd_flag: bool, now: u64) -> (position: Option<
    (i64, i64),
>)
    ensures
        position == global_position(*old(state), odd_flag, now),
        *final(state) == decoded_state(*old(state), odd_flag, now),
        position matches Some(p) ==> -QUARTER_TURN <= p.0 <= QUARTER_TURN && -HALF_TURN <= p.1
            <= HALF_TURN,
{
    let (even_lat, even_lon, even_time) = match state.even_cpr {
        Some(even) => even,
        None => {
            return None;
        },
    };
    let (odd_lat, odd_lon, odd_time) = match state.odd_cpr {
        Some(odd) => odd,
        None => {
            return None;
        },
    };
    let other_time = if odd_flag {
        even_time
    } else {
        odd_time
    };
    if now >= other_time && now - other_time > PAIR_WINDOW_MS {
        return None;
    }
    let j = zone_index_of(even_lat, odd_lat, 60);
    let lat_even = latitude_steps_of(j, 60, even_lat);
    let lat_odd = latitude_steps_of(j, 59, odd_lat);
    let nl = cpr_nl(angle_of(lat_even, 60));
    if nl != cpr_nl(angle_of(lat_odd, 59)) {
        return None;
    }
    let ni: i32 = if odd_flag && nl > 1 {
        nl - 1
    } else {
        nl
    };
    let m = zone_index_of(even_lon, odd_lon, nl);
    let lon = longitude_steps_of(
        m,
        ni,
        if odd_flag {
            odd_lon
        } else {
            even_lon
        },
    );
    let (lat, lat_zones) = if odd_flag {
        (lat_odd, 59i32)
    } else {
        (lat_even, 60i32)
    };
    let lat_span: i64 = lat_zones as i64 * CPR_SCALE;
    let lon_span: i64 = ni as i64 * CPR_SCALE;
    if 4 * lat > lat_span || 4 * lat < -lat_span {
        return None;
    }
    if 2 * lon > lon_span || 2 * lon < -lon_span {
        return None;
    }
    let position = (angle_of(lat, lat_zones), angle_of(lon, ni));
    state.last_position = Some(position);
    Some(position)
}

/// The pairs of many aircraft, by ICAO address, with a bound on their number.
pub struct CprContext {
    states: HashMap<u32, CprState>,
    max_aircraft: usize,
}

/// A context as a mathematical value.
pub struct CprModel {
    pub states: Map<u32, CprState>,
    pub max_aircraft: usize,
}

impl View for CprContext {
    type V = CprModel;

    closed spec fn view(&self) -> CprModel {
        CprModel { states: self.states@, max_aircraft: self.max_aircraft }
    }
}

/// What a context knows of an aircraft: nothing, if it does not hold it.
pub open spec fn state_of(model: CprModel, icao: u32) -> CprState {
    if model.states.contains_key(icao) {
        model.states[icao]
    } else {
        empty_state()
    }
}

/// Whether a context has to drop an aircraft before it can hold `icao`: it
/// is full, and `icao` is not in it.
pub open spec fn is_crowded(model: CprModel, icao: u32) -> bool {
    &&& model.states.len() >= model.max_aircraft
    &&& model.states.len() > 0
    &&& !model.states.contains_key(icao)
}

/// The aircraft of `after` are those of `before` with `icao` in state
/// `state`, less one other aircraft if `before` was crowded. Which one is
/// dropped is not determined.
pub open spec fn holds_after(before: CprModel, after: CprModel, icao: u32, state: CprState) -> bool {
    &&& after.max_aircraft == before.max_aircraft
    &&& if is_crowded(before, icao) {
        exists|evicted: u32| #[trigger]
            before.states.contains_key(evicted) && after.states == before.states.remove(
                evicted,
            ).insert(icao, state)
    } else {
        after.states == before.states.insert(icao, state)
    }
}

/// The most aircraft that a context with a given bound holds: the bound,
/// and one where the bound is zero.
pub open spec fn capacity(model: CprModel) -> int {
    if model.max_aircraft == 0 {
        1
    } else {
        model.max_aircraft as int
    }
}

/// A context within its capacity stays within it when it takes an aircraft
/// in.
pub proof fn lemma_context_stays_bounded(
    before: CprModel,
    after: CprModel,
    icao: u32,
    state: CprState,
)
    requires
        before.states.dom().finite(),
        before.states.len() <= capacity(before),
        holds_after(before, after, icao, state),
    ensures
        after.states.dom().finite(),
        after.states.len() <= capacity(after),
{
    if is_crowded(before, icao) {
        let evicted = choose|evicted: u32| #[trigger]
            before.states.contains_key(evicted) && after.states == before.states.remove(
                evicted,
            ).insert(icao, state);
        assert(before.states.remove(evicted).dom() =~= before.states.dom().remove(evicted));
        assert(after.states.dom() =~= before.states.dom().remove(evicted).insert(icao));
    } else {
        assert(after.states.dom() =~= before.states.dom().insert(icao));
        if before.states.contains_key(icao) {
            assert(before.states.dom().insert(icao) =~= before.states.dom());
        }
    }
}

/// The key that a walk over the map meets first, if the map has any.
fn first_key(states: &HashMap<u32, CprState>) -> (key: Option<u32>)
    ensures
        match key {
            Some(k) => states@.contains_key(k),
            None => states@.len() == 0,
        },
{
    for key in it: states.keys()
        invariant
            it.index() == 0,
    {
        return Some(*key);
    }
    None
}

impl CprContext {
    /// A context without aircraft that holds at most `max_aircraft`, and at
    /// least one.
    pub fn new(max_aircraft: usize) -> (ctx: CprContext)
        ensures
            ctx@ == (CprModel { states: Map::empty(), max_aircraft }),
    {
        CprContext { states: HashMap::with_capacity(max_aircraft), max_aircraft }
    }

    /// Number of aircraft in the context.
    pub fn len(&self) -> (n: usize)
        ensures
            n == self@.states.len(),
    {
        self.states.len()
    }

    /// What the context knows of an aircraft.
    pub fn get(&self, icao: u32) -> (state: Option<CprState>)
        ensures
            state == if self@.states.contains_key(icao) {
                Some(self@.states[icao])
            } else {
                None
            },
    {
        match self.states.get(&icao) {
            Some(state) => Some(*state),
            None => None,
        }
    }

    fn make_room(&mut self, icao: u32)
        ensures
            final(self).max_aircraft == old(self).max_aircraft,
            if is_crowded(old(self)@, icao) {
                exists|evicted: u32| #[trigger]
                    old(self).states@.contains_key(evicted) && final(self).states@ == old(
                        self,
                    ).states@.remove(evicted)
            } else {
                final(self).states@ == old(self).states@
            },
    {
        if self.states.len() >= self.max_aircraft && !self.states.contains_key(&icao) {
            match first_key(&self.states) {
                Some(evicted) => {
                    self.states.remove(&evicted);
                },
                None => {},
            }
        }
    }

    /// The state of an aircraft, for the caller to change. An aircraft that
    /// the context does not hold yet is taken in with nothing known of it; a
    /// full context drops one other aircraft for it.
    pub fn get_or_create(&mut self, icao: u32) -> (state: &mut CprState)
        ensures
            *state == state_of(old(self)@, icao),
            holds_after(old(self)@, final(self)@, icao, *final(state)),
    {
        self.make_room(icao);
        self.states.entry(icao).or_insert(CprState::default())
    }

    /// Stores a position message of the parity `odd_flag` that came at time
    /// `now`, in milliseconds, and decodes the position if the other message
    /// of the pair is there and recent.
    pub fn update(&mut self, icao: u32, lat_cpr: i32, lon_cpr: i32, odd_flag: bool, now: u64) -> (position:
        Option<(i64, i64)>)
        ensures
            position == global_position(
                stored(state_of(old(self)@, icao), lat_cpr, lon_cpr, odd_flag, now),
                odd_flag,
                now,
            ),
            holds_after(
                old(self)@,
                final(self)@,
                icao,
                decoded_state(
                    stored(state_of(old(self)@, icao), lat_cpr, lon_cpr, odd_flag, now),
                    odd_flag,
                    now,
                ),
            ),
            position matches Some(p) ==> -QUARTER_TURN <= p.0 <= QUARTER_TURN && -HALF_TURN <= p.1
                <= HALF_TURN,
    {
        let state = self.get_or_create(icao);
        if odd_flag {
            state.odd_cpr = Some((lat_cpr, lon_cpr, now));
        } else {
            state.even_cpr = Some((lat_cpr, lon_cpr, now));
        }
        decode_global(state, odd_flag, now)
    }
}

} // verus!
