use vstd::prelude::*;

verus! {

/// One recorded position: latitude and longitude in units of 1e-7 degree,
/// elevation in millimetres, and the time of the fix in milliseconds since
/// the Unix epoch when the recording has one.
#[derive(Clone, Copy, Debug, PartialEq, Eq, Structural)]
pub struct TrackPoint {
    pub lat_e7: i64,
    pub lon_e7: i64,
    pub ele_mm: i64,
    pub time_ms: Option<i64>,
}

/// Largest magnitude of a latitude, in units of 1e-7 degree.
pub const MAX_LAT_E7: i64 = 900_000_000;

/// Largest magnitude of a longitude, in units of 1e-7 degree.
pub const MAX_LON_E7: i64 = 1_800_000_000;

/// A latitude/longitude pair within the ranges of the globe.
pub open spec fn valid_position(lat_e7: int, lon_e7: int) -> bool {
    -MAX_LAT_E7 <= lat_e7 <= MAX_LAT_E7 && -MAX_LON_E7 <= lon_e7 <= MAX_LON_E7
}

} // verus!
