//! The state of each aircraft, gathered from its observations.
//!
//! One frame says little: a callsign, or a position, or a velocity. The
//! tracker keeps for each aircraft what its frames have said so far, drops
//! repeated frames and positions that no aircraft could have reached, and
//! forgets an aircraft that has been silent for a minute.
//!
//! Times are in milliseconds on a clock that does not run backwards;
//! distances are in thousandths of a nautical mile.

use vstd::prelude::*;
use vstd::std_specs::iter::IteratorSpec;
use std::collections::HashMap;
use std::collections::VecDeque;
use crate::cpr::{FULL_TURN, HALF_TURN, QUARTER_TURN};
use crate::units::{abs, div_trunc, elapsed, elapsed_ms};
use crate::text::{chars_of, decimal, is_white_space, push_number, white_space};
use crate::types::{text_of, AircraftData, Observation};

verus! {

/// Number of aircraft that a receiver tracks unless it is told otherwise.
pub const DEFAULT_MAX_AIRCRAFT: usize = 256;

/// Time of silence, in milliseconds, after which an aircraft is stale.
pub const AIRCRAFT_TIMEOUT_MS: u64 = 60_000;

/// Shortest time, in milliseconds, between two reports of the position of
/// one aircraft.
pub const POSITION_LOG_INTERVAL_MS: u64 = 5_000;

/// Number of fingerprints that are kept for each aircraft.
pub const MAX_RECENT_MESSAGES: usize = 10;

/// Time, in milliseconds, within which an equal observation is a repetition.
pub const DUPLICATE_WINDOW_MS: u64 = 1_000;

/// Time, in milliseconds, after which the tracker sweeps out stale aircraft
/// again.
pub const CLEANUP_INTERVAL_MS: u64 = 30_000;

/// The fastest that an aircraft is taken to move: 900 knots, which is 15
/// thousandths of a nautical mile in a millisecond.
pub const MAX_SPEED: u64 = 15;

/// Limits of a plausible altitude in feet, both excluded.
pub const MIN_ALTITUDE_FT: i32 = -2000;

pub const MAX_ALTITUDE_FT: i32 = 60_000;

/// A plausible speed, in thousandths of a knot, lies below this.
pub const SPEED_LIMIT: u32 = 1_000_000;

/// A plausible vertical rate, in feet per minute, lies below this in
/// absolute value.
pub const RATE_LIMIT: i32 = 10_000;

/// What makes two observations of an aircraft equal: the address, the
/// position in units of 10^-4 degree, the altitude, the callsign, the speed
/// in tenths of a knot and the heading in tenths of a degree, each rounded
/// towards zero.
#[derive(Debug, Clone)]
pub struct Fingerprint {
    pub icao: u32,
    pub latitude: Option<i64>,
    pub longitude: Option<i64>,
    pub altitude: Option<i32>,
    pub callsign: Option<String>,
    pub speed: Option<u32>,
    pub heading: Option<i64>,
}

/// A fingerprint as a mathematical value.
pub struct FingerprintView {
    pub icao: u32,
    pub latitude: Option<i64>,
    pub longitude: Option<i64>,
    pub altitude: Option<i32>,
    pub callsign: Option<Seq<char>>,
    pub speed: Option<u32>,
    pub heading: Option<i64>,
}

impl View for Fingerprint {
    type V = FingerprintView;

    open spec fn view(&self) -> FingerprintView {
        FingerprintView {
            icao: self.icao,
            latitude: self.latitude,
            longitude: self.longitude,
            altitude: self.altitude,
            callsign: text_of(self.callsign),
            speed: self.speed,
            heading: self.heading,
        }
    }
}

/// An optional angle in coarser units, rounded towards zero.
pub open spec fn coarse_angle(angle: Option<i64>, unit: int) -> Option<i64> {
    match angle {
        Some(a) => Some(div_trunc(a as int, unit) as i64),
        None => None,
    }
}

/// The fingerprint of an observation.
pub open spec fn fingerprint_of(o: Observation) -> FingerprintView {
    FingerprintView {
        icao: o.icao_address,
        latitude: coarse_angle(o.latitude, 10_000),
        longitude: coarse_angle(o.longitude, 10_000),
        altitude: o.altitude_ft,
        callsign: o.callsign,
        speed: match o.ground_speed_kts {
            Some(speed) => Some(speed / 100),
            None => None,
        },
        heading: coarse_angle(o.heading_deg, 10_000_000),
    }
}

/// The fingerprint of an observation that was taken in, with the time at
/// which it came.
#[derive(Debug, Clone)]
pub struct RecentMessage {
    pub fingerprint: Fingerprint,
    pub time: u64,
}

/// A remembered fingerprint as a mathematical value.
pub struct RecentView {
    pub fingerprint: FingerprintView,
    pub time: u64,
}

impl View for RecentMessage {
    type V = RecentView;

    open spec fn view(&self) -> RecentView {
        RecentView { fingerprint: self.fingerprint@, time: self.time }
    }
}

/// What is known of one aircraft.
#[derive(Debug, Clone)]
pub struct AircraftState {
    /// The 24-bit ICAO address.
    pub icao: u32,
    pub callsign: Option<String>,
    /// Latitude in units of 10^-8 degree.
    pub latitude: Option<i64>,
    /// Longitude in units of 10^-8 degree.
    pub longitude: Option<i64>,
    pub altitude_ft: Option<i32>,
    /// Speed in thousandths of a knot.
    pub ground_speed_kts: Option<u32>,
    /// Heading in units of 10^-8 degree.
    pub heading_deg: Option<i64>,
    pub vertical_rate_fpm: Option<i32>,
    pub squawk: Option<u16>,
    /// When the last observation was taken in.
    pub last_seen: u64,
    /// When the position was last reported, if it ever was.
    pub last_position_log: Option<u64>,
    /// When the position was last taken in.
    pub position_time: u64,
    /// Observations taken in.
    pub messages: u64,
    /// Positions taken in.
    pub position_messages: u64,
    pub has_position: bool,
    /// Repetitions seen: each confirms what is known.
    pub confidence: u32,
    /// The fingerprints of the last observations taken in, the oldest first.
    pub recent_messages: VecDeque<RecentMessage>,
}

/// The state of an aircraft as a mathematical value.
pub struct AircraftView {
    pub icao: u32,
    pub callsign: Option<Seq<char>>,
    pub latitude: Option<i64>,
    pub longitude: Option<i64>,
    pub altitude_ft: Option<i32>,
    pub ground_speed_kts: Option<u32>,
    pub heading_deg: Option<i64>,
    pub vertical_rate_fpm: Option<i32>,
    pub squawk: Option<u16>,
    pub last_seen: u64,
    pub last_position_log: Option<u64>,
    pub position_time: u64,
    pub messages: u64,
    pub position_messages: u64,
    pub has_position: bool,
    pub confidence: u32,
    /// The fingerprints remembered, the oldest first.
    pub recent: Seq<RecentView>,
}

impl View for AircraftState {
    type V = AircraftView;

    open spec fn view(&self) -> AircraftView {
        AircraftView {
            icao: self.icao,
            callsign: text_of(self.callsign),
            latitude: self.latitude,
            longitude: self.longitude,
            altitude_ft: self.altitude_ft,
            ground_speed_kts: self.ground_speed_kts,
            heading_deg: self.heading_deg,
            vertical_rate_fpm: self.vertical_rate_fpm,
            squawk: self.squawk,
            last_seen: self.last_seen,
            last_position_log: self.last_position_log,
            position_time: self.position_time,
            messages: self.messages,
            position_messages: self.position_messages,
            has_position: self.has_position,
            confidence: self.confidence,
            recent: recent_views(self.recent_messages@),
        }
    }
}

/// Remembered fingerprints as mathematical values.
pub open spec fn recent_views(recent: Seq<RecentMessage>) -> Seq<RecentView> {
    recent.map_values(|m: RecentMessage| m@)
}

/// The state of an aircraft that is first heard of at time `now`.
pub open spec fn new_aircraft(icao: u32, now: u64) -> AircraftView {
    AircraftView {
        icao,
        callsign: None,
        latitude: None,
        longitude: None,
        altitude_ft: None,
        ground_speed_kts: None,
        heading_deg: None,
        vertical_rate_fpm: None,
        squawk: None,
        last_seen: now,
        last_position_log: None,
        position_time: now,
        messages: 0,
        position_messages: 0,
        has_position: false,
        confidence: 0,
        recent: Seq::empty(),
    }
}

/// Whether a text holds nothing but white space.
pub open spec fn is_blank(text: Seq<char>) -> bool {
    forall|k: int| 0 <= k < text.len() ==> is_white_space(#[trigger] text[k])
}

/// Seven hash marks: a callsign that a receiver shows where it has none.
pub open spec fn seven_hashes() -> Seq<char> {
    Seq::new(7, |k: int| '#')
}

/// Whether a callsign is taken in: it is not blank and not seven hash marks.
pub open spec fn is_callsign(text: Seq<char>) -> bool {
    !is_blank(text) && text != seven_hashes()
}

/// Whether a latitude and a longitude lie on the globe.
pub open spec fn on_globe(latitude: i64, longitude: i64) -> bool {
    abs(latitude as int) <= QUARTER_TURN && abs(longitude as int) <= HALF_TURN
}

/// Whether an observation that equals `fingerprint` was taken in less than
/// `DUPLICATE_WINDOW_MS` before `now`.
pub open spec fn is_duplicate(recent: Seq<RecentView>, fingerprint: FingerprintView, now: u64) -> bool {
    exists|k: int|
        0 <= k < recent.len() && (#[trigger] recent[k]).fingerprint == fingerprint && elapsed(
            now,
            recent[k].time,
        ) < DUPLICATE_WINDOW_MS
}

/// The last `MAX_RECENT_MESSAGES` of the fingerprints.
pub open spec fn newest(recent: Seq<RecentView>) -> Seq<RecentView> {
    if recent.len() > MAX_RECENT_MESSAGES {
        recent.skip(recent.len() - MAX_RECENT_MESSAGES)
    } else {
        recent
    }
}

/// Whether the aircraft would have had to fly faster than `MAX_SPEED` to
/// cover `distance` in the time since its position was last taken in.
pub open spec fn is_out_of_reach(s: AircraftView, now: u64, distance: u64) -> bool {
    distance > MAX_SPEED * elapsed(now, s.position_time)
}

/// Whether an observation carries a position that lies on the globe.
pub open spec fn brings_position(o: Observation) -> bool {
    o.latitude is Some && o.longitude is Some && on_globe(o.latitude->0, o.longitude->0)
}

/// Whether the position of an observation is refused: the aircraft has a
/// position, and the new one is out of its reach.
pub open spec fn is_position_refused(s: AircraftView, o: Observation, now: u64, distance: u64) -> bool {
    &&& brings_position(o)
    &&& s.latitude is Some
    &&& s.longitude is Some
    &&& is_out_of_reach(s, now, distance)
}

/// A counter after one more event.
pub open spec fn next_count(counter: u64) -> u64 {
    if counter < u64::MAX {
        (counter + 1) as u64
    } else {
        counter
    }
}

/// The state after an observation was taken in as new: it is remembered
/// and counted, and its callsign is adopted if it is one.
pub open spec fn noted(s: AircraftView, o: Observation, now: u64) -> AircraftView {
    AircraftView {
        recent: newest(s.recent.push(RecentView { fingerprint: fingerprint_of(o), time: now })),
        last_seen: now,
        messages: next_count(s.messages),
        callsign: if o.callsign is Some && is_callsign(o.callsign->0) {
            o.callsign
        } else {
            s.callsign
        },
        ..s
    }
}

/// Whether the position of an observation is taken in: it lies on the
/// globe and is not refused.
pub open spec fn takes_position(s: AircraftView, o: Observation, now: u64, distance: u64) -> bool {
    brings_position(o) && !is_position_refused(s, o, now, distance)
}

/// The state with the fields of an observation taken in, each if it is
/// plausible: the position if `with_position` says so, the altitude between
/// `MIN_ALTITUDE_FT` and `MAX_ALTITUDE_FT`, the speed below `SPEED_LIMIT`,
/// the heading from 0 to below a full turn, the vertical rate below
/// `RATE_LIMIT` in absolute value, and any squawk.
pub open spec fn filled(s: AircraftView, o: Observation, now: u64, with_position: bool) -> AircraftView {
    AircraftView {
        latitude: if with_position {
            o.latitude
        } else {
            s.latitude
        },
        longitude: if with_position {
            o.longitude
        } else {
            s.longitude
        },
        position_time: if with_position {
            now
        } else {
            s.position_time
        },
        position_messages: if with_position {
            next_count(s.position_messages)
        } else {
            s.position_messages
        },
        has_position: s.has_position || with_position,
        altitude_ft: if o.altitude_ft is Some && MIN_ALTITUDE_FT < o.altitude_ft->0
            < MAX_ALTITUDE_FT {
            o.altitude_ft
        } else {
            s.altitude_ft
        },
        ground_speed_kts: if o.ground_speed_kts is Some && o.ground_speed_kts->0 < SPEED_LIMIT {
            o.ground_speed_kts
        } else {
            s.ground_speed_kts
        },
        heading_deg: if o.heading_deg is Some && 0 <= o.heading_deg->0 < FULL_TURN {
            o.heading_deg
        } else {
            s.heading_deg
        },
        vertical_rate_fpm: if o.vertical_rate_fpm is Some && -RATE_LIMIT < o.vertical_rate_fpm->0
            < RATE_LIMIT {
            o.vertical_rate_fpm
        } else {
            s.vertical_rate_fpm
        },
        squawk: if o.squawk is Some {
            o.squawk
        } else {
            s.squawk
        },
        ..s
    }
}

/// The state of an aircraft after an observation that came at time `now`,
/// where `distance` is the great-circle distance from the position of the
/// aircraft to that of the observation. A repetition only raises the
/// confidence. Any other observation is noted, and its plausible fields are
/// taken in; a position that is refused is dropped, and nothing else with
/// it.
pub open spec fn state_after(s: AircraftView, o: Observation, now: u64, distance: u64) -> AircraftView {
    if is_duplicate(s.recent, fingerprint_of(o), now) {
        AircraftView {
            confidence: if s.confidence < u32::MAX {
                (s.confidence + 1) as u32
            } else {
                s.confidence
            },
            ..s
        }
    } else {
        filled(noted(s, o, now), o, now, takes_position(s, o, now, distance))
    }
}

/// Whether an aircraft has been silent for longer than
/// `AIRCRAFT_TIMEOUT_MS` at time `now`.
pub open spec fn is_stale_at(s: AircraftView, now: u64) -> bool {
    elapsed(now, s.last_seen) > AIRCRAFT_TIMEOUT_MS
}

/// Whether the position of an aircraft is due for a report at time `now`:
/// it was never reported, or `POSITION_LOG_INTERVAL_MS` ago or longer.
pub open spec fn is_log_due(s: AircraftView, now: u64) -> bool {
    match s.last_position_log {
        Some(then) => elapsed(now, then) >= POSITION_LOG_INTERVAL_MS,
        None => true,
    }
}

/// Whether a text is a callsign that the tracker takes in.
pub fn accepts_callsign(text: &str) -> (yes: bool)
    ensures
        yes == is_callsign(text@),
{
    let chars = chars_of(text);
    let len = chars.len();
    let mut blank = true;
    let mut hashes = len == 7;
    let mut k: usize = 0;
    while k < len
        invariant
            k <= len == text@.len(),
            chars@ == text@,
            blank == forall|j: int| 0 <= j < k ==> is_white_space(#[trigger] text@[j]),
            hashes == (len == 7 && forall|j: int| 0 <= j < k ==> #[trigger] text@[j] == '#'),
        decreases len - k,
    {
        let c = chars[k];
        if !white_space(c) {
            blank = false;
        }
        if c != '#' {
            hashes = false;
        }
        k = k + 1;
    }
    proof {
        if hashes {
            assert(text@ =~= seven_hashes());
        } else if text@ == seven_hashes() {
            assert(forall|j: int| 0 <= j < 7 ==> seven_hashes()[j] == '#');
        }
    }
    !blank && !hashes
}

fn coarse(angle: Option<i64>, unit: i64) -> (res: Option<i64>)
    requires
        unit > 0,
    ensures
        res == coarse_angle(angle, unit as int),
{
    match angle {
        Some(a) => Some(a / unit),
        None => None,
    }
}

fn same_angle(a: Option<i64>, b: Option<i64>) -> (same: bool)
    ensures
        same == (a == b),
{
    match (a, b) {
        (Some(x), Some(y)) => x == y,
        (None, None) => true,
        _ => false,
    }
}

fn same_text(a: &Option<String>, b: &Option<String>) -> (same: bool)
    ensures
        same == (text_of(*a) == text_of(*b)),
{
    match (a, b) {
        (Some(x), Some(y)) => *x == *y,
        (None, None) => true,
        _ => false,
    }
}

fn copy_text(a: &Option<String>) -> (copy: Option<String>)
    ensures
        copy == *a,
{
    match a {
        Some(text) => Some(text.clone()),
        None => None,
    }
}

impl Fingerprint {
    /// The fingerprint of an observation.
    pub fn of(data: &AircraftData) -> (fingerprint: Fingerprint)
        ensures
            fingerprint@ == fingerprint_of(data@),
    {
        Fingerprint {
            icao: data.icao_address,
            latitude: coarse(data.latitude, 10_000),
            longitude: coarse(data.longitude, 10_000),
            altitude: data.altitude_ft,
            callsign: copy_text(&data.callsign),
            speed: match data.ground_speed_kts {
                Some(speed) => Some(speed / 100),
                None => None,
            },
            heading: coarse(data.heading_deg, 10_000_000),
        }
    }

    /// Whether two fingerprints are equal.
    pub fn same_as(&self, other: &Fingerprint) -> (same: bool)
        ensures
            same == (self@ == other@),
    {
        self.icao == other.icao && same_angle(self.latitude, other.latitude) && same_angle(
            self.longitude,
            other.longitude,
        ) && (match (self.altitude, other.altitude) {
            (Some(x), Some(y)) => x == y,
            (None, None) => true,
            _ => false,
        }) && same_text(&self.callsign, &other.callsign) && (match (self.speed, other.speed) {
            (Some(x), Some(y)) => x == y,
            (None, None) => true,
            _ => false,
        }) && same_angle(self.heading, other.heading)
    }
}

impl AircraftState {
    /// The state of an aircraft that is first heard of at time `now`.
    pub fn new(icao: u32, now: u64) -> (state: AircraftState)
        ensures
            state@ == new_aircraft(icao, now),
    {
        let state = AircraftState {
            icao,
            callsign: None,
            latitude: None,
            longitude: None,
            altitude_ft: None,
            ground_speed_kts: None,
            heading_deg: None,
            vertical_rate_fpm: None,
            squawk: None,
            last_seen: now,
            last_position_log: None,
            position_time: now,
            messages: 0,
            position_messages: 0,
            has_position: false,
            confidence: 0,
            recent_messages: VecDeque::with_capacity(MAX_RECENT_MESSAGES),
        };
        assert(state@.recent =~= Seq::empty());
        state
    }

    /// Whether an observation that equals `fingerprint` was taken in less
    /// than `DUPLICATE_WINDOW_MS` before `now`.
    fn has_recent(&self, fingerprint: &Fingerprint, now: u64) -> (found: bool)
        ensures
            found == is_duplicate(self@.recent, fingerprint@, now),
    {
        let mut k: usize = 0;
        while k < self.recent_messages.len()
            invariant
                k <= self.recent_messages@.len(),
                forall|j: int|
                    0 <= j < k ==> !((#[trigger] self@.recent[j]).fingerprint == fingerprint@
                        && elapsed(now, self@.recent[j].time) < DUPLICATE_WINDOW_MS),
            decreases self.recent_messages@.len() - k,
        {
            let message = &self.recent_messages[k];
            if message.fingerprint.same_as(fingerprint) && elapsed_ms(now, message.time)
                < DUPLICATE_WINDOW_MS {
                assert(self@.recent[k as int] == message@);
                return true;
            }
            k = k + 1;
        }
        false
    }

    /// Remembers a fingerprint, and of all fingerprints keeps the newest.
    fn remember(&mut self, fingerprint: Fingerprint, now: u64)
        ensures
            final(self)@ == (AircraftView {
                recent: newest(
                    old(self)@.recent.push(RecentView { fingerprint: fingerprint@, time: now }),
                ),
                ..old(self)@
            }),
    {
        let message = RecentMessage { fingerprint, time: now };
        let ghost all = self@.recent.push(message@);
        self.recent_messages.push_back(message);
        assert(self@.recent =~= all);
        while self.recent_messages.len() > MAX_RECENT_MESSAGES
            invariant
                self@.recent.len() <= all.len(),
                self@.recent.len() >= MAX_RECENT_MESSAGES || self@.recent.len() == all.len(),
                self@.recent.len() == self.recent_messages@.len(),
                self@.recent == all.skip(all.len() - self@.recent.len()),
                self@ == (AircraftView { recent: self@.recent, ..old(self)@ }),
            decreases self.recent_messages@.len(),
        {
            let ghost before = self@.recent;
            self.recent_messages.pop_front();
            assert(self@.recent =~= before.skip(1));
            assert(before.skip(1) =~= all.skip(all.len() - (before.len() - 1)));
        }
        assert(all.skip(0) =~= all);
    }

    /// Takes in an observation of this aircraft that came at time `now`.
    /// `distance` is the great-circle distance, in thousandths of a nautical
    /// mile, from the position of the aircraft to that of the observation;
    /// it is not looked at unless both have one.
    pub fn update(&mut self, data: &AircraftData, now: u64, distance: u64)
        ensures
            final(self)@ == state_after(old(self)@, data@, now, distance),
    {
        let fingerprint = Fingerprint::of(data);
        if self.has_recent(&fingerprint, now) {
            self.confidence = self.confidence.saturating_add(1);
            return ;
        }
        self.remember(fingerprint, now);
        self.last_seen = now;
        self.messages = self.messages.saturating_add(1);
        match &data.callsign {
            Some(callsign) => {
                if accepts_callsign(callsign.as_str()) {
                    self.callsign = Some(callsign.clone());
                }
            },
            None => {},
        }
        match (data.latitude, data.longitude) {
            (Some(latitude), Some(longitude)) => {
                if -QUARTER_TURN <= latitude && latitude <= QUARTER_TURN && -HALF_TURN
                    <= longitude && longitude <= HALF_TURN {
                    let reach: u128 = MAX_SPEED as u128 * elapsed_ms(
                        now,
                        self.position_time,
                    ) as u128;
                    let refused = self.latitude.is_some() && self.longitude.is_some()
                        && distance as u128 > reach;
                    if !refused {
                        self.latitude = Some(latitude);
                        self.longitude = Some(longitude);
                        self.position_time = now;
                        self.position_messages = self.position_messages.saturating_add(1);
                        self.has_position = true;
                    }
                }
            },
            _ => {},
        }
        match data.altitude_ft {
            Some(altitude) => {
                if altitude > MIN_ALTITUDE_FT && altitude < MAX_ALTITUDE_FT {
                    self.altitude_ft = Some(altitude);
                }
            },
            None => {},
        }
        match data.ground_speed_kts {
            Some(speed) => {
                if speed < SPEED_LIMIT {
                    self.ground_speed_kts = Some(speed);
                }
            },
            None => {},
        }
        match data.heading_deg {
            Some(heading) => {
                if 0 <= heading && heading < FULL_TURN {
                    self.heading_deg = Some(heading);
                }
            },
            None => {},
        }
        match data.vertical_rate_fpm {
            Some(rate) => {
                if -RATE_LIMIT < rate && rate < RATE_LIMIT {
                    self.vertical_rate_fpm = Some(rate);
                }
            },
            None => {},
        }
        match data.squawk {
            Some(squawk) => {
                self.squawk = Some(squawk);
            },
            None => {},
        }
    }

    /// Whether the position is due for a report at time `now`.
    pub fn should_log_position(&self, now: u64) -> (due: bool)
        ensures
            due == is_log_due(self@, now),
    {
        match self.last_position_log {
            Some(then) => elapsed_ms(now, then) >= POSITION_LOG_INTERVAL_MS,
            None => true,
        }
    }

    /// Notes that the position was reported at time `now`.
    pub fn mark_position_logged(&mut self, now: u64)
        ensures
            final(self)@ == (AircraftView { last_position_log: Some(now), ..old(self)@ }),
    {
        self.last_position_log = Some(now);
    }

    /// Whether the aircraft has been silent for longer than
    /// `AIRCRAFT_TIMEOUT_MS` at time `now`.
    pub fn is_stale(&self, now: u64) -> (stale: bool)
        ensures
            stale == is_stale_at(self@, now),
    {
        elapsed_ms(now, self.last_seen) > AIRCRAFT_TIMEOUT_MS
    }

    /// Whole seconds since the last observation was taken in.
    pub fn age_secs(&self, now: u64) -> (age: u64)
        ensures
            age == elapsed(now, self@.last_seen) / 1000,
    {
        elapsed_ms(now, self.last_seen) / 1000
    }
}

/// A position that is out of reach of an aircraft that has a position
/// leaves the position of the aircraft as it is.
pub proof fn lemma_far_position_is_dropped(s: AircraftView, o: Observation, now: u64, distance: u64)
    requires
        s.latitude is Some,
        s.longitude is Some,
        is_out_of_reach(s, now, distance),
    ensures
        state_after(s, o, now, distance).latitude == s.latitude,
        state_after(s, o, now, distance).longitude == s.longitude,
        state_after(s, o, now, distance).position_time == s.position_time,
{
}

/// An observation that was taken in as new is met again in what the state
/// remembers, for as long as it is within the window.
pub proof fn lemma_noted_is_remembered(
    s: AircraftView,
    o: Observation,
    t1: u64,
    d1: u64,
    fingerprint: FingerprintView,
    t2: u64,
)
    requires
        !is_duplicate(s.recent, fingerprint_of(o), t1),
        fingerprint == fingerprint_of(o),
        elapsed(t2, t1) < DUPLICATE_WINDOW_MS,
    ensures
        is_duplicate(state_after(s, o, t1, d1).recent, fingerprint, t2),
{
    let entry = RecentView { fingerprint: fingerprint_of(o), time: t1 };
    let all = s.recent.push(entry);
    let kept = newest(all);
    assert(kept == state_after(s, o, t1, d1).recent);
    let last = kept.len() - 1;
    assert(kept[last] == entry);
}

/// Of two observations with equal fingerprints that come within the window,
/// the first one taken in as new, the second raises the confidence and
/// changes nothing else: it is not counted.
pub proof fn lemma_repetition_is_not_counted(
    s: AircraftView,
    o1: Observation,
    t1: u64,
    d1: u64,
    o2: Observation,
    t2: u64,
    d2: u64,
)
    requires
        !is_duplicate(s.recent, fingerprint_of(o1), t1),
        fingerprint_of(o2) == fingerprint_of(o1),
        elapsed(t2, t1) < DUPLICATE_WINDOW_MS,
    ensures
        ({
            let first = state_after(s, o1, t1, d1);
            let second = state_after(first, o2, t2, d2);
            &&& second.messages == first.messages
            &&& second.confidence == if first.confidence < u32::MAX {
                (first.confidence + 1) as u32
            } else {
                first.confidence
            }
            &&& second == (AircraftView { confidence: second.confidence, ..first })
        }),
{
    lemma_noted_is_remembered(s, o1, t1, d1, fingerprint_of(o2), t2);
}

/// An observation that is applied again within the window, after it was
/// taken in as new, leaves position and altitude as they are.
pub proof fn lemma_reapplying_keeps_position(
    s: AircraftView,
    o: Observation,
    t1: u64,
    d1: u64,
    t2: u64,
    d2: u64,
)
    requires
        !is_duplicate(s.recent, fingerprint_of(o), t1),
        elapsed(t2, t1) < DUPLICATE_WINDOW_MS,
    ensures
        ({
            let first = state_after(s, o, t1, d1);
            let second = state_after(first, o, t2, d2);
            &&& second.latitude == first.latitude
            &&& second.longitude == first.longitude
            &&& second.altitude_ft == first.altitude_ft
        }),
{
    lemma_repetition_is_not_counted(s, o, t1, d1, o, t2, d2);
}

/// The aircraft of a tracker, by their addresses.
pub struct AircraftTracker {
    aircraft: HashMap<u32, AircraftState>,
    max_aircraft: usize,
    last_cleanup: u64,
}

/// A tracker as a mathematical value.
pub struct TrackerView {
    pub aircraft: Map<u32, AircraftView>,
    /// The number of aircraft that the tracker aims to stay below.
    pub max_aircraft: usize,
    /// When stale aircraft were last swept out.
    pub last_cleanup: u64,
}

/// The states of a map as mathematical values.
pub open spec fn state_views(aircraft: Map<u32, AircraftState>) -> Map<u32, AircraftView> {
    Map::new(|icao: u32| aircraft.contains_key(icao), |icao: u32| aircraft[icao]@)
}

impl View for AircraftTracker {
    type V = TrackerView;

    closed spec fn view(&self) -> TrackerView {
        TrackerView {
            aircraft: state_views(self.aircraft@),
            max_aircraft: self.max_aircraft,
            last_cleanup: self.last_cleanup,
        }
    }
}

/// The aircraft that are not stale at time `now`.
pub open spec fn fresh(aircraft: Map<u32, AircraftView>, now: u64) -> Map<u32, AircraftView> {
    Map::new(
        |icao: u32| aircraft.contains_key(icao) && !is_stale_at(aircraft[icao], now),
        |icao: u32| aircraft[icao],
    )
}

/// The aircraft after room was made for `icao`: an aircraft that is new to
/// a tracker that has grown to `max_aircraft` has the stale ones swept out
/// first, and is then taken in whether or not that made room.
pub open spec fn admitted(t: TrackerView, icao: u32, now: u64) -> Map<u32, AircraftView> {
    if t.aircraft.contains_key(icao) {
        t.aircraft
    } else if t.aircraft.len() >= t.max_aircraft {
        fresh(t.aircraft, now).insert(icao, new_aircraft(icao, now))
    } else {
        t.aircraft.insert(icao, new_aircraft(icao, now))
    }
}

/// The state of an aircraft after an observation, with the report of its
/// position noted where one is made: when the aircraft has a position for
/// the first time, and whenever it has one and a report is due.
pub open spec fn reported(before: AircraftView, o: Observation, now: u64, distance: u64) -> AircraftView {
    let after = state_after(before, o, now, distance);
    if after.has_position && (!before.has_position || is_log_due(after, now)) {
        AircraftView { last_position_log: Some(now), ..after }
    } else {
        after
    }
}

/// The tracker after an observation that came at time `now`, where
/// `distance` is the great-circle distance from the position of the
/// aircraft to that of the observation. The aircraft is admitted if it is
/// new, the observation is applied to it, and if the last sweep was more
/// than `CLEANUP_INTERVAL_MS` ago, the stale aircraft are swept out.
pub open spec fn tracker_after(t: TrackerView, o: Observation, now: u64, distance: u64) -> TrackerView {
    let icao = o.icao_address;
    let admitted = admitted(t, icao, now);
    let updated = admitted.insert(icao, reported(admitted[icao], o, now, distance));
    if elapsed(now, t.last_cleanup) > CLEANUP_INTERVAL_MS {
        TrackerView { aircraft: fresh(updated, now), last_cleanup: now, ..t }
    } else {
        TrackerView { aircraft: updated, ..t }
    }
}

/// Whether an observation can make a tracker grow beyond its bound: the
/// aircraft is new, and the tracker is full of aircraft that are not stale.
pub open spec fn overflows(t: TrackerView, icao: u32, now: u64) -> bool {
    &&& !t.aircraft.contains_key(icao)
    &&& t.aircraft.len() >= t.max_aircraft
    &&& fresh(t.aircraft, now).len() >= t.max_aircraft
}

/// The aircraft that are not stale are among the aircraft.
pub proof fn lemma_fresh_is_smaller(aircraft: Map<u32, AircraftView>, now: u64)
    requires
        aircraft.dom().finite(),
    ensures
        fresh(aircraft, now).dom().finite(),
        fresh(aircraft, now).len() <= aircraft.len(),
{
    vstd::set_lib::lemma_len_subset(fresh(aircraft, now).dom(), aircraft.dom());
}

/// A tracker within its bound stays within it, but for an observation of a
/// new aircraft that comes when the tracker is full of aircraft that are
/// not stale.
pub proof fn lemma_tracker_stays_bounded(t: TrackerView, o: Observation, now: u64, distance: u64)
    requires
        t.aircraft.dom().finite(),
        t.aircraft.len() <= t.max_aircraft,
        !overflows(t, o.icao_address, now),
    ensures
        tracker_after(t, o, now, distance).aircraft.dom().finite(),
        tracker_after(t, o, now, distance).aircraft.len() <= t.max_aircraft,
{
    let icao = o.icao_address;
    let admitted = admitted(t, icao, now);
    lemma_fresh_is_smaller(t.aircraft, now);
    assert(admitted.dom().finite() && admitted.len() <= t.max_aircraft);
    assert(admitted.contains_key(icao));
    let updated = admitted.insert(icao, reported(admitted[icao], o, now, distance));
    assert(updated.dom() =~= admitted.dom());
    lemma_fresh_is_smaller(updated, now);
}

/// Whether an aircraft is not stale at time `now`.
pub open spec fn is_active(s: AircraftView, now: u64) -> bool {
    !is_stale_at(s, now)
}

/// Whether an aircraft has a position and is not stale at time `now`.
pub open spec fn is_positioned(s: AircraftView, now: u64) -> bool {
    s.has_position && !is_stale_at(s, now)
}

/// Whether an aircraft has a callsign and is not stale at time `now`.
pub open spec fn is_named(s: AircraftView, now: u64) -> bool {
    s.callsign is Some && !is_stale_at(s, now)
}

/// The addresses of the aircraft that `wanted` holds of.
pub open spec fn addresses_where(
    aircraft: Map<u32, AircraftView>,
    wanted: spec_fn(AircraftView) -> bool,
) -> Set<u32> {
    Set::new(|icao: u32| aircraft.contains_key(icao) && wanted(aircraft[icao]))
}

/// The messages of the aircraft with an address below `upto` that is in
/// `among`, added up.
pub open spec fn messages_below(aircraft: Map<u32, AircraftView>, among: Set<u32>, upto: nat) -> nat
    decreases upto,
{
    if upto == 0 {
        0
    } else {
        let icao = (upto - 1) as u32;
        messages_below(aircraft, among, (upto - 1) as nat) + if among.contains(icao)
            && aircraft.contains_key(icao) {
            aircraft[icao].messages as nat
        } else {
            0
        }
    }
}

/// The messages of all aircraft, added up.
pub open spec fn total_messages(aircraft: Map<u32, AircraftView>) -> nat {
    messages_below(aircraft, aircraft.dom(), 0x1_0000_0000)
}

/// One more address among those that count adds the messages of its
/// aircraft.
proof fn lemma_messages_insert(
    aircraft: Map<u32, AircraftView>,
    among: Set<u32>,
    icao: u32,
    upto: nat,
)
    requires
        !among.contains(icao),
        aircraft.contains_key(icao),
        upto <= 0x1_0000_0000,
    ensures
        messages_below(aircraft, among.insert(icao), upto) == messages_below(
            aircraft,
            among,
            upto,
        ) + if icao < upto {
            aircraft[icao].messages as nat
        } else {
            0
        },
    decreases upto,
{
    if upto > 0 {
        lemma_messages_insert(aircraft, among, icao, (upto - 1) as nat);
    }
}

/// No address, no messages.
proof fn lemma_messages_none(aircraft: Map<u32, AircraftView>, upto: nat)
    ensures
        messages_below(aircraft, Set::empty(), upto) == 0,
    decreases upto,
{
    if upto > 0 {
        lemma_messages_none(aircraft, (upto - 1) as nat);
    }
}

/// How many aircraft a tracker holds, and what it knows of them.
#[derive(Debug, Clone, Copy, PartialEq, Eq, Structural)]
pub struct TrackerStats {
    /// All aircraft, stale ones too.
    pub total_aircraft: usize,
    /// Aircraft with a position that are not stale.
    pub with_position: usize,
    /// Aircraft with a callsign that are not stale.
    pub with_callsign: usize,
    /// Observations taken in of all aircraft together; it stays at the
    /// largest number once it has reached it.
    pub total_messages: u64,
}

/// The summary as a line of text.
pub open spec fn summary_text(stats: TrackerStats) -> Seq<char> {
    "Aircraft: "@ + decimal(stats.total_aircraft as nat) + " total, "@ + decimal(
        stats.with_position as nat,
    ) + " with position, "@ + decimal(stats.with_callsign as nat) + " with callsign, "@ + decimal(
        stats.total_messages as nat,
    ) + " msgs"@
}

impl TrackerStats {
    /// The summary as a line of text.
    pub fn to_text(&self) -> (text: String)
        ensures
            text@ == summary_text(*self),
    {
        let mut text = String::new();
        text.append("Aircraft: ");
        push_number(&mut text, self.total_aircraft as u64, 10, 0);
        text.append(" total, ");
        push_number(&mut text, self.with_position as u64, 10, 0);
        text.append(" with position, ");
        push_number(&mut text, self.with_callsign as u64, 10, 0);
        text.append(" with callsign, ");
        push_number(&mut text, self.total_messages, 10, 0);
        text.append(" msgs");
        assert(text@ =~= summary_text(*self));
        text
    }
}

/// By what aircraft are picked.
#[derive(Clone, Copy)]
enum Pick {
    Active,
    Positioned,
    Named,
}

/// What a pick holds of at time `now`.
spec fn picks(pick: Pick, now: u64) -> spec_fn(AircraftView) -> bool {
    match pick {
        Pick::Active => |s: AircraftView| is_active(s, now),
        Pick::Positioned => |s: AircraftView| is_positioned(s, now),
        Pick::Named => |s: AircraftView| is_named(s, now),
    }
}

/// `states` are the aircraft of `aircraft` that `wanted` holds of, each
/// once.
pub open spec fn are_those_where(
    states: Seq<&AircraftState>,
    aircraft: Map<u32, AircraftView>,
    wanted: spec_fn(AircraftView) -> bool,
) -> bool {
    &&& states.len() == addresses_where(aircraft, wanted).len()
    &&& forall|i: int|
        0 <= i < states.len() ==> {
            &&& aircraft.contains_key((#[trigger] states[i]).icao)
            &&& states[i]@ == aircraft[states[i].icao]
            &&& wanted(states[i]@)
        }
    &&& forall|i: int, j: int|
        0 <= i < j < states.len() ==> (#[trigger] states[i]).icao != (#[trigger] states[j]).icao
    &&& forall|icao: u32|
        aircraft.contains_key(icao) && wanted(#[trigger] aircraft[icao]) ==> exists|i: int|
            0 <= i < states.len() && (#[trigger] states[i]).icao == icao
}

impl AircraftTracker {
    /// Each aircraft is held under its own address.
    pub closed spec fn wf(&self) -> bool {
        forall|icao: u32| #[trigger]
            self.aircraft@.contains_key(icao) ==> self.aircraft@[icao].icao == icao
    }

    /// A tracker without aircraft, made at time `now`, that aims to stay
    /// below `max_aircraft`.
    pub fn new(max_aircraft: usize, now: u64) -> (tracker: AircraftTracker)
        ensures
            tracker.wf(),
            tracker@ == (TrackerView { aircraft: Map::empty(), max_aircraft, last_cleanup: now }),
    {
        let tracker = AircraftTracker {
            aircraft: HashMap::with_capacity(max_aircraft),
            max_aircraft,
            last_cleanup: now,
        };
        assert(tracker@.aircraft =~= Map::empty());
        tracker
    }

    /// Sweeps out the aircraft that are stale at time `now`.
    fn cleanup_stale(&mut self, now: u64)
        requires
            old(self).wf(),
        ensures
            final(self).wf(),
            final(self)@ == (TrackerView { aircraft: fresh(old(self)@.aircraft, now), ..old(self)@ }),
    {
        let keys = keys_of(&self.aircraft);
        let ghost before = self.aircraft@;
        let mut k: usize = 0;
        while k < keys.len()
            invariant
                k <= keys@.len(),
                keys@.to_set() == before.dom(),
                self.max_aircraft == old(self).max_aircraft,
                self.last_cleanup == old(self).last_cleanup,
                forall|icao: u32| #[trigger]
                    before.contains_key(icao) ==> before[icao].icao == icao,
                forall|icao: u32| #[trigger]
                    self.aircraft@.contains_key(icao) ==> before.contains_key(icao)
                        && self.aircraft@[icao] == before[icao],
                forall|icao: u32|
                    before.contains_key(icao) ==> (#[trigger] self.aircraft@.contains_key(icao)
                        <==> !(keys@.take(k as int).contains(icao) && is_stale_at(
                        before[icao]@,
                        now,
                    ))),
            decreases keys@.len() - k,
        {
            let icao = keys[k];
            assert(keys@.to_set().contains(icao));
            let stale = match self.aircraft.get(&icao) {
                Some(state) => state.is_stale(now),
                None => false,
            };
            if stale {
                self.aircraft.remove(&icao);
            }
            proof {
                let seen = keys@.take(k as int);
                let next = keys@.take(k + 1);
                assert(next =~= seen.push(icao));
                assert forall|other: u32| next.contains(other) <==> (seen.contains(other) || other
                    == icao) by {
                    if seen.contains(other) {
                        let j = choose|j: int| 0 <= j < seen.len() && seen[j] == other;
                        assert(next[j] == other);
                    }
                    if other == icao {
                        assert(next[k as int] == icao);
                    }
                }
            }
            k = k + 1;
        }
        proof {
            assert(keys@.take(keys@.len() as int) =~= keys@);
            assert forall|icao: u32| before.contains_key(icao) implies keys@.contains(icao) by {
                assert(keys@.to_set().contains(icao));
            }
            assert(self@.aircraft =~= fresh(old(self)@.aircraft, now));
        }
    }

    /// Takes in an observation that came at time `now`, and returns the
    /// state of its aircraft, unless that was swept out as stale. `distance`
    /// is the great-circle distance, in thousandths of a nautical mile,
    /// from the position that the tracker has of the aircraft to that of
    /// the observation; it is not looked at unless both have one.
    pub fn update(&mut self, data: &AircraftData, now: u64, distance: u64) -> (state: Option<
        &AircraftState,
    >)
        requires
            old(self).wf(),
        ensures
            final(self).wf(),
            final(self)@ == tracker_after(old(self)@, data@, now, distance),
            match state {
                Some(s) => final(self)@.aircraft.contains_key(data.icao_address)
                    && s@ == final(self)@.aircraft[data.icao_address],
                None => !final(self)@.aircraft.contains_key(data.icao_address),
            },
    {
        let icao = data.icao_address;
        let ghost before = self@;
        let ghost before_map = self.aircraft@;
        let ghost admitted = admitted(before, icao, now);
        assert(before.aircraft.dom() =~= before_map.dom());
        let mut state = match self.aircraft.remove(&icao) {
            Some(known) => {
                assert(state_views(self.aircraft@) =~= admitted.remove(icao));
                known
            },
            None => {
                assert(self.aircraft@ =~= before_map);
                assert(self@.aircraft =~= before.aircraft);
                if self.aircraft.len() >= self.max_aircraft {
                    self.cleanup_stale(now);
                }
                assert(state_views(self.aircraft@) =~= admitted.remove(icao));
                AircraftState::new(icao, now)
            },
        };
        assert(state@ == admitted[icao]);
        let had_position = state.has_position;
        state.update(data, now, distance);
        if state.has_position && (!had_position || state.should_log_position(now)) {
            state.mark_position_logged(now);
        }
        let ghost after = state@;
        assert(after == reported(admitted[icao], data@, now, distance));
        self.aircraft.insert(icao, state);
        proof {
            assert(state_views(self.aircraft@) =~= admitted.remove(icao).insert(icao, after));
            assert(admitted.remove(icao).insert(icao, after) =~= admitted.insert(icao, after));
        }
        if elapsed_ms(now, self.last_cleanup) > CLEANUP_INTERVAL_MS {
            self.cleanup_stale(now);
            self.last_cleanup = now;
        }
        self.aircraft.get(&icao)
    }

    /// The state of an aircraft, if the tracker has it.
    pub fn get(&self, icao: u32) -> (state: Option<&AircraftState>)
        ensures
            match state {
                Some(s) => self@.aircraft.contains_key(icao) && s@ == self@.aircraft[icao],
                None => !self@.aircraft.contains_key(icao),
            },
    {
        self.aircraft.get(&icao)
    }

    /// The aircraft that a pick holds of at time `now`.
    fn pick(&self, pick: Pick, now: u64) -> (states: Vec<&AircraftState>)
        requires
            self.wf(),
        ensures
            are_those_where(states@, self@.aircraft, picks(pick, now)),
    {
        let keys = keys_of(&self.aircraft);
        let ghost model = self@.aircraft;
        let ghost wanted = picks(pick, now);
        let mut states: Vec<&AircraftState> = Vec::new();
        let ghost mut picked: Seq<u32> = Seq::empty();
        let mut k: usize = 0;
        while k < keys.len()
            invariant
                k <= keys@.len(),
                self.wf(),
                model == self@.aircraft,
                wanted == picks(pick, now),
                keys@.to_set() == self.aircraft@.dom(),
                keys@.no_duplicates(),
                picked.no_duplicates(),
                picked.len() == states@.len(),
                forall|icao: u32|
                    picked.contains(icao) <==> keys@.take(k as int).contains(icao) && wanted(
                        model[icao],
                    ),
                forall|i: int|
                    0 <= i < states@.len() ==> {
                        &&& model.contains_key(picked[i])
                        &&& (#[trigger] states@[i]).icao == picked[i]
                        &&& states@[i]@ == model[picked[i]]
                    },
            decreases keys@.len() - k,
        {
            let icao = keys[k];
            assert(keys@.to_set().contains(icao));
            let ghost seen = keys@.take(k as int);
            let ghost next = keys@.take(k + 1);
            proof {
                assert(next =~= seen.push(icao));
                assert(!seen.contains(icao)) by {
                    if seen.contains(icao) {
                        let j = choose|j: int| 0 <= j < seen.len() && seen[j] == icao;
                        assert(keys@[j] == keys@[k as int]);
                    }
                }
                assert forall|other: u32| next.contains(other) <==> (seen.contains(other) || other
                    == icao) by {
                    if seen.contains(other) {
                        let j = choose|j: int| 0 <= j < seen.len() && seen[j] == other;
                        assert(next[j] == other);
                    }
                    if other == icao {
                        assert(next[k as int] == icao);
                    }
                }
            }
            match self.aircraft.get(&icao) {
                Some(state) => {
                    let chosen = match pick {
                        Pick::Active => !state.is_stale(now),
                        Pick::Positioned => state.has_position && !state.is_stale(now),
                        Pick::Named => state.callsign.is_some() && !state.is_stale(now),
                    };
                    assert(chosen == wanted(model[icao]));
                    if chosen {
                        let ghost before = picked;
                        states.push(state);
                        proof {
                            assert(!before.contains(icao));
                            picked = picked.push(icao);
                            assert forall|i: int, j: int|
                                0 <= i < picked.len() && 0 <= j < picked.len() && i
                                    != j implies picked[i] != picked[j] by {
                                if i < before.len() {
                                    assert(before.contains(before[i]));
                                }
                                if j < before.len() {
                                    assert(before.contains(before[j]));
                                }
                            }
                            assert forall|other: u32| picked.contains(other) <==> (before.contains(
                                other,
                            ) || other == icao) by {
                                if before.contains(other) {
                                    let j = choose|j: int|
                                        0 <= j < before.len() && before[j] == other;
                                    assert(picked[j] == other);
                                }
                                if other == icao {
                                    assert(picked[before.len() as int] == icao);
                                }
                            }
                        }
                    }
                },
                None => {},
            }
            k = k + 1;
        }
        proof {
            assert(keys@.take(keys@.len() as int) =~= keys@);
            let those = addresses_where(model, wanted);
            assert(picked.to_set() =~= those) by {
                assert forall|icao: u32| picked.to_set().contains(icao) <==> those.contains(
                    icao,
                ) by {
                    if those.contains(icao) {
                        assert(self.aircraft@.dom().contains(icao));
                        assert(keys@.to_set().contains(icao));
                    }
                    if picked.contains(icao) {
                        assert(keys@.to_set().contains(icao));
                    }
                }
            }
            picked.unique_seq_to_set();
            assert(states@.len() == those.len());
            assert forall|i: int| 0 <= i < states@.len() implies {
                &&& model.contains_key((#[trigger] states@[i]).icao)
                &&& states@[i]@ == model[states@[i].icao]
                &&& wanted(states@[i]@)
            } by {
                assert(picked.contains(picked[i]));
            }
            assert forall|i: int, j: int| 0 <= i < j < states@.len() implies (
            #[trigger] states@[i]).icao != (#[trigger] states@[j]).icao by {
                assert(picked[i] != picked[j]);
            }
            assert forall|icao: u32|
                model.contains_key(icao) && wanted(#[trigger] model[icao]) implies exists|i: int|
                0 <= i < states@.len() && (#[trigger] states@[i]).icao == icao by {
                assert(those.contains(icao));
                assert(picked.to_set().contains(icao));
                let i = choose|i: int| 0 <= i < picked.len() && picked[i] == icao;
                assert(states@[i].icao == icao);
            }
        }
        states
    }

    /// The aircraft that are not stale at time `now`, in no particular
    /// order.
    pub fn get_all(&self, now: u64) -> (states: Vec<&AircraftState>)
        requires
            self.wf(),
        ensures
            are_those_where(states@, self@.aircraft, |s: AircraftView| is_active(s, now)),
    {
        self.pick(Pick::Active, now)
    }

    /// The aircraft that have a position and are not stale at time `now`,
    /// in no particular order.
    pub fn get_with_positions(&self, now: u64) -> (states: Vec<&AircraftState>)
        requires
            self.wf(),
        ensures
            are_those_where(states@, self@.aircraft, |s: AircraftView| is_positioned(s, now)),
    {
        self.pick(Pick::Positioned, now)
    }

    /// Number of the aircraft that have a position and are not stale at
    /// time `now`.
    pub fn count_with_positions(&self, now: u64) -> (n: usize)
        requires
            self.wf(),
        ensures
            n == addresses_where(self@.aircraft, |s: AircraftView| is_positioned(s, now)).len(),
    {
        self.pick(Pick::Positioned, now).len()
    }

    /// What the tracker holds at time `now`, in numbers.
    pub fn stats_summary(&self, now: u64) -> (stats: TrackerStats)
        requires
            self.wf(),
        ensures
            stats.total_aircraft == self@.aircraft.len(),
            stats.with_position == addresses_where(
                self@.aircraft,
                |s: AircraftView| is_positioned(s, now),
            ).len(),
            stats.with_callsign == addresses_where(
                self@.aircraft,
                |s: AircraftView| is_named(s, now),
            ).len(),
            stats.total_messages == if total_messages(self@.aircraft) > u64::MAX {
                u64::MAX
            } else {
                total_messages(self@.aircraft) as u64
            },
    {
        let total = self.count();
        let with_position = self.count_with_positions(now);
        let with_callsign = self.pick(Pick::Named, now).len();
        let keys = keys_of(&self.aircraft);
        let ghost model = self@.aircraft;
        let mut sum: u64 = 0;
        let mut k: usize = 0;
        proof {
            lemma_messages_none(model, 0x1_0000_0000);
            assert(keys@.take(0).to_set() =~= Set::empty());
        }
        while k < keys.len()
            invariant
                k <= keys@.len(),
                model == self@.aircraft,
                keys@.to_set() == self.aircraft@.dom(),
                keys@.no_duplicates(),
                sum == ({
                    let seen = messages_below(
                        model,
                        keys@.take(k as int).to_set(),
                        0x1_0000_0000,
                    );
                    if seen > u64::MAX {
                        u64::MAX
                    } else {
                        seen as u64
                    }
                }),
            decreases keys@.len() - k,
        {
            let icao = keys[k];
            assert(keys@.to_set().contains(icao));
            proof {
                let seen = keys@.take(k as int);
                let next = keys@.take(k + 1);
                assert(next =~= seen.push(icao));
                assert(!seen.contains(icao)) by {
                    if seen.contains(icao) {
                        let j = choose|j: int| 0 <= j < seen.len() && seen[j] == icao;
                        assert(keys@[j] == keys@[k as int]);
                    }
                }
                assert(next.to_set() =~= seen.to_set().insert(icao)) by {
                    assert forall|other: u32| next.contains(other) <==> (seen.contains(other)
                        || other == icao) by {
                        if seen.contains(other) {
                            let j = choose|j: int| 0 <= j < seen.len() && seen[j] == other;
                            assert(next[j] == other);
                        }
                        if other == icao {
                            assert(next[k as int] == icao);
                        }
                    }
                }
                lemma_messages_insert(model, seen.to_set(), icao, 0x1_0000_0000);
            }
            match self.aircraft.get(&icao) {
                Some(state) => {
                    sum = sum.saturating_add(state.messages);
                },
                None => {},
            }
            k = k + 1;
        }
        proof {
            assert(keys@.take(keys@.len() as int) =~= keys@);
            assert(model.dom() =~= self.aircraft@.dom());
        }
        TrackerStats { total_aircraft: total, with_position, with_callsign, total_messages: sum }
    }

    /// Number of aircraft in the tracker.
    pub fn count(&self) -> (n: usize)
        ensures
            n == self@.aircraft.len(),
    {
        assert(self@.aircraft.dom() =~= self.aircraft@.dom());
        self.aircraft.len()
    }
}

/// The keys of a map, each once, in the order in which a walk over the map
/// meets them.
fn keys_of(aircraft: &HashMap<u32, AircraftState>) -> (keys: Vec<u32>)
    ensures
        keys@.to_set() == aircraft@.dom(),
        keys@.no_duplicates(),
        keys@.len() == aircraft@.dom().len(),
{
    let mut keys: Vec<u32> = Vec::new();
    for key in it: aircraft.keys()
        invariant
            keys@ == it.seq().take(it.index() as int).unref(),
    {
        keys.push(*key);
    }
    proof {
        let all = vstd::std_specs::hash::spec_keys_iter(aircraft).remaining();
        assert(keys@ =~= all.unref());
    }
    keys
}

} // verus!
