//! The record that is sent out when an aircraft has changed.

use vstd::prelude::*;
use crate::text::{decimal, push_number, upper_hex, zero_padded};
use crate::tracker::{AircraftState, AircraftView};
use crate::types::{AircraftData, Observation};

verus! {

/// What is known of an aircraft, as it leaves the program. A number that
/// is 0 and a text that is empty mean that the value is not known.
#[derive(Debug, Clone)]
pub struct AircraftEvent {
    /// The receiver that heard the aircraft.
    pub device_id: String,
    /// Wall-clock time of the record in milliseconds.
    pub timestamp_ms: u64,
    /// The ICAO address in six upper-case hexadecimal digits.
    pub icao: String,
    pub callsign: String,
    pub altitude_ft: i32,
    /// Latitude in units of 10^-8 degree.
    pub latitude: i64,
    /// Longitude in units of 10^-8 degree.
    pub longitude: i64,
    /// Speed in thousandths of a knot.
    pub speed_kts: u32,
    /// Heading in units of 10^-8 degree.
    pub heading_deg: i64,
    pub vertical_rate_fpm: i32,
    /// The squawk in four decimal digits.
    pub squawk: String,
    /// Downlink format of the frame that brought the change.
    pub downlink_format: u32,
    /// Type code of the frame that brought the change.
    pub type_code: u32,
}

/// A record as a mathematical value.
pub struct EventView {
    pub device_id: Seq<char>,
    pub timestamp_ms: u64,
    pub icao: Seq<char>,
    pub callsign: Seq<char>,
    pub altitude_ft: i32,
    pub latitude: i64,
    pub longitude: i64,
    pub speed_kts: u32,
    pub heading_deg: i64,
    pub vertical_rate_fpm: i32,
    pub squawk: Seq<char>,
    pub downlink_format: u32,
    pub type_code: u32,
}

impl View for AircraftEvent {
    type V = EventView;

    open spec fn view(&self) -> EventView {
        EventView {
            device_id: self.device_id@,
            timestamp_ms: self.timestamp_ms,
            icao: self.icao@,
            callsign: self.callsign@,
            altitude_ft: self.altitude_ft,
            latitude: self.latitude,
            longitude: self.longitude,
            speed_kts: self.speed_kts,
            heading_deg: self.heading_deg,
            vertical_rate_fpm: self.vertical_rate_fpm,
            squawk: self.squawk@,
            downlink_format: self.downlink_format,
            type_code: self.type_code,
        }
    }
}

/// Whether there is anything to report of an aircraft: a position, a
/// callsign or an altitude.
pub open spec fn is_worth_reporting(state: AircraftView) -> bool {
    state.has_position || state.callsign is Some || state.altitude_ft is Some
}

/// A value, or the zero of its type where there is none.
pub open spec fn or_zero<T>(value: Option<T>, zero: T) -> T {
    match value {
        Some(v) => v,
        None => zero,
    }
}

/// The record of an aircraft, for a frame of downlink format `df` and type
/// code `tc`.
pub open spec fn event_of(
    state: AircraftView,
    df: u8,
    tc: u8,
    device_id: Seq<char>,
    timestamp_ms: u64,
) -> EventView {
    EventView {
        device_id,
        timestamp_ms,
        icao: upper_hex(state.icao as nat, 6),
        callsign: or_zero(state.callsign, Seq::empty()),
        altitude_ft: or_zero(state.altitude_ft, 0),
        latitude: or_zero(state.latitude, 0),
        longitude: or_zero(state.longitude, 0),
        speed_kts: or_zero(state.ground_speed_kts, 0),
        heading_deg: or_zero(state.heading_deg, 0),
        vertical_rate_fpm: or_zero(state.vertical_rate_fpm, 0),
        squawk: match state.squawk {
            Some(squawk) => zero_padded(decimal(squawk as nat), 4),
            None => Seq::empty(),
        },
        downlink_format: df as u32,
        type_code: tc as u32,
    }
}

/// The record of an aircraft after the observation `data` has changed it,
/// if there is anything to report of the aircraft.
pub fn project(state: &AircraftState, data: &AircraftData, device_id: &str, timestamp_ms: u64) -> (event:
    Option<AircraftEvent>)
    ensures
        match event {
            Some(e) => is_worth_reporting(state@) && e@ == event_of(
                state@,
                data.df,
                data.tc,
                device_id@,
                timestamp_ms,
            ),
            None => !is_worth_reporting(state@),
        },
{
    if !(state.has_position || state.callsign.is_some() || state.altitude_ft.is_some()) {
        return None;
    }
    let mut icao = String::new();
    push_number(&mut icao, state.icao as u64, 16, 6);
    let mut squawk = String::new();
    match state.squawk {
        Some(code) => {
            push_number(&mut squawk, code as u64, 10, 4);
        },
        None => {},
    }
    let event = AircraftEvent {
        device_id: device_id.to_owned(),
        timestamp_ms,
        icao,
        callsign: match &state.callsign {
            Some(callsign) => callsign.clone(),
            None => String::new(),
        },
        altitude_ft: match state.altitude_ft {
            Some(v) => v,
            None => 0,
        },
        latitude: match state.latitude {
            Some(v) => v,
            None => 0,
        },
        longitude: match state.longitude {
            Some(v) => v,
            None => 0,
        },
        speed_kts: match state.ground_speed_kts {
            Some(v) => v,
            None => 0,
        },
        heading_deg: match state.heading_deg {
            Some(v) => v,
            None => 0,
        },
        vertical_rate_fpm: match state.vertical_rate_fpm {
            Some(v) => v,
            None => 0,
        },
        squawk,
        downlink_format: data.df as u32,
        type_code: data.tc as u32,
    };
    proof {
        assert(event.icao@ =~= upper_hex(state.icao as nat, 6));
        assert(event@.squawk =~= event_of(
            state@,
            data.df,
            data.tc,
            device_id@,
            timestamp_ms,
        ).squawk);
    }
    Some(event)
}

/// The record of a single observation.
pub open spec fn event_of_observation(o: Observation, device_id: Seq<char>, timestamp_ms: u64) -> EventView {
    EventView {
        device_id,
        timestamp_ms,
        icao: upper_hex(o.icao_address as nat, 6),
        callsign: or_zero(o.callsign, Seq::empty()),
        altitude_ft: or_zero(o.altitude_ft, 0),
        latitude: or_zero(o.latitude, 0),
        longitude: or_zero(o.longitude, 0),
        speed_kts: or_zero(o.ground_speed_kts, 0),
        heading_deg: or_zero(o.heading_deg, 0),
        vertical_rate_fpm: or_zero(o.vertical_rate_fpm, 0),
        squawk: match o.squawk {
            Some(squawk) => zero_padded(decimal(squawk as nat), 4),
            None => Seq::empty(),
        },
        downlink_format: o.df as u32,
        type_code: o.tc as u32,
    }
}

/// The record of a single observation, for a receiver that keeps no state
/// of the aircraft.
pub fn project_observation(data: &AircraftData, device_id: &str, timestamp_ms: u64) -> (event:
    AircraftEvent)
    ensures
        event@ == event_of_observation(data@, device_id@, timestamp_ms),
{
    let mut icao = String::new();
    push_number(&mut icao, data.icao_address as u64, 16, 6);
    let mut squawk = String::new();
    match data.squawk {
        Some(code) => {
            push_number(&mut squawk, code as u64, 10, 4);
        },
        None => {},
    }
    let event = AircraftEvent {
        device_id: device_id.to_owned(),
        timestamp_ms,
        icao,
        callsign: match &data.callsign {
            Some(callsign) => callsign.clone(),
            None => String::new(),
        },
        altitude_ft: match data.altitude_ft {
            Some(v) => v,
            None => 0,
        },
        latitude: match data.latitude {
            Some(v) => v,
            None => 0,
        },
        longitude: match data.longitude {
            Some(v) => v,
            None => 0,
        },
        speed_kts: match data.ground_speed_kts {
            Some(v) => v,
            None => 0,
        },
        heading_deg: match data.heading_deg {
            Some(v) => v,
            None => 0,
        },
        vertical_rate_fpm: match data.vertical_rate_fpm {
            Some(v) => v,
            None => 0,
        },
        squawk,
        downlink_format: data.df as u32,
        type_code: data.tc as u32,
    };
    proof {
        assert(event.icao@ =~= upper_hex(data.icao_address as nat, 6));
        assert(event@.squawk =~= event_of_observation(data@, device_id@, timestamp_ms).squawk);
    }
    event
}

} // verus!
