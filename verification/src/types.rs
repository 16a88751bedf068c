//! The values that the payload decoder hands to the tracker.

use vstd::prelude::*;
use vstd::std_specs::convert::FromSpecImpl;

verus! {

/// The downlink formats that the decoder knows by name.
#[derive(Debug, Clone, Copy, PartialEq, Eq, Structural)]
pub enum DownlinkFormat {
    /// Format 0.
    ShortAirSurveillance,
    /// Format 4.
    AltitudeReply,
    /// Format 5.
    IdentityReply,
    /// Format 11.
    AllCallReply,
    /// Format 16.
    LongAirSurveillance,
    /// Format 17.
    ExtendedSquitter,
    /// Format 18.
    ExtendedSquitterNonTransponder,
    /// Format 19.
    MilitaryExtendedSquitter,
    /// Format 20.
    CommBAltitude,
    /// Format 21.
    CommBIdentity,
    /// Any other format.
    Unknown,
}

/// The name of the downlink format with number `df`.
pub open spec fn format_of(df: u8) -> DownlinkFormat {
    if df == 0 {
        DownlinkFormat::ShortAirSurveillance
    } else if df == 4 {
        DownlinkFormat::AltitudeReply
    } else if df == 5 {
        DownlinkFormat::IdentityReply
    } else if df == 11 {
        DownlinkFormat::AllCallReply
    } else if df == 16 {
        DownlinkFormat::LongAirSurveillance
    } else if df == 17 {
        DownlinkFormat::ExtendedSquitter
    } else if df == 18 {
        DownlinkFormat::ExtendedSquitterNonTransponder
    } else if df == 19 {
        DownlinkFormat::MilitaryExtendedSquitter
    } else if df == 20 {
        DownlinkFormat::CommBAltitude
    } else if df == 21 {
        DownlinkFormat::CommBIdentity
    } else {
        DownlinkFormat::Unknown
    }
}

impl From<u8> for DownlinkFormat {
    fn from(df: u8) -> (format: DownlinkFormat) {
        match df {
            0 => DownlinkFormat::ShortAirSurveillance,
            4 => DownlinkFormat::AltitudeReply,
            5 => DownlinkFormat::IdentityReply,
            11 => DownlinkFormat::AllCallReply,
            16 => DownlinkFormat::LongAirSurveillance,
            17 => DownlinkFormat::ExtendedSquitter,
            18 => DownlinkFormat::ExtendedSquitterNonTransponder,
            19 => DownlinkFormat::MilitaryExtendedSquitter,
            20 => DownlinkFormat::CommBAltitude,
            21 => DownlinkFormat::CommBIdentity,
            _ => DownlinkFormat::Unknown,
        }
    }
}

impl FromSpecImpl<u8> for DownlinkFormat {
    open spec fn obeys_from_spec() -> bool {
        true
    }

    open spec fn from_spec(df: u8) -> DownlinkFormat {
        format_of(df)
    }
}

/// What one frame says of an aircraft. A field that the frame does not
/// carry is `None`.
#[derive(Debug, Clone)]
pub struct AircraftData {
    /// The 24-bit ICAO address.
    pub icao_address: u32,
    /// The callsign, at most eight characters, without trailing spaces.
    pub callsign: Option<String>,
    /// Latitude in units of 10^-8 degree, from -90 to 90 degrees.
    pub latitude: Option<i64>,
    /// Longitude in units of 10^-8 degree, from -180 to 180 degrees.
    pub longitude: Option<i64>,
    /// Altitude in feet.
    pub altitude_ft: Option<i32>,
    /// Speed over ground, or airspeed, in thousandths of a knot.
    pub ground_speed_kts: Option<u32>,
    /// Heading in units of 10^-8 degree, from 0 to below 360 degrees.
    pub heading_deg: Option<i64>,
    /// Vertical rate in feet per minute, positive upwards.
    pub vertical_rate_fpm: Option<i32>,
    /// The squawk as a number of four decimal digits.
    pub squawk: Option<u16>,
    /// The downlink format.
    pub df: u8,
    /// The type code of an extended squitter, 0 for other frames.
    pub tc: u8,
    /// Whether the altitude is a GNSS height rather than a barometric one.
    pub altitude_gnss: bool,
    /// The east and north components of the velocity over ground in knots,
    /// where the frame gives them. Their direction is the track; no
    /// heading is derived from them here.
    pub velocity_kts: Option<(i32, i32)>,
}

/// An observation as a mathematical value.
pub struct Observation {
    pub icao_address: u32,
    pub callsign: Option<Seq<char>>,
    pub latitude: Option<i64>,
    pub longitude: Option<i64>,
    pub altitude_ft: Option<i32>,
    pub ground_speed_kts: Option<u32>,
    pub heading_deg: Option<i64>,
    pub vertical_rate_fpm: Option<i32>,
    pub squawk: Option<u16>,
    pub df: u8,
    pub tc: u8,
    pub altitude_gnss: bool,
    pub velocity_kts: Option<(i32, i32)>,
}

/// The text of an optional string.
pub open spec fn text_of(s: Option<String>) -> Option<Seq<char>> {
    match s {
        Some(text) => Some(text@),
        None => None,
    }
}

impl View for AircraftData {
    type V = Observation;

    open spec fn view(&self) -> Observation {
        Observation {
            icao_address: self.icao_address,
            callsign: text_of(self.callsign),
            latitude: self.latitude,
            longitude: self.longitude,
            altitude_ft: self.altitude_ft,
            ground_speed_kts: self.ground_speed_kts,
            heading_deg: self.heading_deg,
            vertical_rate_fpm: self.vertical_rate_fpm,
            squawk: self.squawk,
            df: self.df,
            tc: self.tc,
            altitude_gnss: self.altitude_gnss,
            velocity_kts: self.velocity_kts,
        }
    }
}

/// The observation that says nothing, of the aircraft with address 0.
pub open spec fn empty_observation() -> Observation {
    Observation {
        icao_address: 0,
        callsign: None,
        latitude: None,
        longitude: None,
        altitude_ft: None,
        ground_speed_kts: None,
        heading_deg: None,
        vertical_rate_fpm: None,
        squawk: None,
        df: 0,
        tc: 0,
        altitude_gnss: false,
        velocity_kts: None,
    }
}

impl Default for AircraftData {
    fn default() -> (data: AircraftData)
        ensures
            data@ == empty_observation(),
    {
        AircraftData {
            icao_address: 0,
            callsign: None,
            latitude: None,
            longitude: None,
            altitude_ft: None,
            ground_speed_kts: None,
            heading_deg: None,
            vertical_rate_fpm: None,
            squawk: None,
            df: 0,
            tc: 0,
            altitude_gnss: false,
            velocity_kts: None,
        }
    }
}

} // verus!
