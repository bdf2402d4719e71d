use vstd::prelude::*;

verus! {

/// Hundredths of an arc-second in one degree.
pub const UNITS_PER_DEGREE: i64 = 360000;

/// Largest latitude magnitude: 90 degrees.
pub const LATITUDE_LIMIT: i64 = 32400000;

/// Largest longitude magnitude: 180 degrees.
pub const LONGITUDE_LIMIT: i64 = 64800000;

/// One full turn of longitude: 360 degrees.
pub const LONGITUDE_TURN: i64 = 129600000;

/// One full turn of bearing, in hundredths of a degree.
pub const BEARING_TURN: i64 = 36000;

/// The record attached to one photograph.
#[derive(Debug)]
pub struct PhotoMetadata {
    /// Hundredths of an arc-second north of the equator (negative: south).
    pub latitude: i64,
    /// Hundredths of an arc-second east of Greenwich (negative: west).
    pub longitude: i64,
    /// Millimetres above sea level.
    pub altitude: Option<i64>,
    /// Compass bearing in hundredths of a degree, clockwise from true north.
    pub bearing: Option<i64>,
    /// Capture time, seconds since the Unix epoch (UTC).
    pub captured_at: i64,
    /// Horizontal accuracy in millimetres.
    pub accuracy: i64,
    pub location_source: String,
    pub bearing_source: String,
    /// EXIF orientation code.
    pub orientation_code: Option<u16>,
}

impl Clone for PhotoMetadata {
    fn clone(&self) -> (r: Self)
        ensures
            r == *self,
    {
        PhotoMetadata {
            latitude: self.latitude,
            longitude: self.longitude,
            altitude: self.altitude,
            bearing: self.bearing,
            captured_at: self.captured_at,
            accuracy: self.accuracy,
            location_source: self.location_source.clone(),
            bearing_source: self.bearing_source.clone(),
            orientation_code: self.orientation_code,
        }
    }
}

/// The orientation codes that describe an upright, rotated or flipped
/// camera without mirroring.
pub open spec fn is_valid_orientation(code: u16) -> bool {
    code == 1 || code == 3 || code == 6 || code == 8
}

pub open spec fn normalized_orientation(code: Option<u16>) -> u16 {
    match code {
        Some(c) => if is_valid_orientation(c) { c } else { 1 },
        None => 1,
    }
}

pub open spec fn clamped_latitude(lat: int) -> int {
    if lat < -LATITUDE_LIMIT {
        -LATITUDE_LIMIT as int
    } else if lat > LATITUDE_LIMIT {
        LATITUDE_LIMIT as int
    } else {
        lat
    }
}

/// A longitude outside [-180, 180] degrees is wrapped by whole turns:
/// `((lon + 180) mod 360) - 180`.
pub open spec fn wrapped_longitude(lon: int) -> int {
    if -LONGITUDE_LIMIT <= lon <= LONGITUDE_LIMIT {
        lon
    } else {
        (lon + LONGITUDE_LIMIT) % (LONGITUDE_TURN as int) - LONGITUDE_LIMIT
    }
}

/// A bearing outside [0, 360) degrees is wrapped by whole turns.
pub open spec fn wrapped_bearing(b: int) -> int {
    b % (BEARING_TURN as int)
}

pub open spec fn normalized_bearing(b: Option<i64>) -> Option<i64> {
    match b {
        Some(v) => Some(wrapped_bearing(v as int) as i64),
        None => None,
    }
}

/// The ranges that a normalized record satisfies.
pub open spec fn metadata_in_range(m: PhotoMetadata) -> bool {
    &&& -LATITUDE_LIMIT <= m.latitude <= LATITUDE_LIMIT
    &&& -LONGITUDE_LIMIT <= m.longitude <= LONGITUDE_LIMIT
    &&& (m.bearing matches Some(b) ==> 0 <= b < BEARING_TURN)
    &&& m.accuracy >= 0
    &&& (m.orientation_code matches Some(c) && is_valid_orientation(c))
}

/// What normalization makes of a record: every field brought into range,
/// the rest untouched.
pub open spec fn normalized(m: PhotoMetadata) -> PhotoMetadata {
    PhotoMetadata {
        latitude: clamped_latitude(m.latitude as int) as i64,
        longitude: wrapped_longitude(m.longitude as int) as i64,
        bearing: normalized_bearing(m.bearing),
        accuracy: if m.accuracy < 0 { 0 } else { m.accuracy },
        orientation_code: Some(normalized_orientation(m.orientation_code)),
        ..m
    }
}

/// Keeps the codes 1, 3, 6 and 8; anything else, or no code, becomes 1.
pub fn validate_orientation_code(code: Option<u16>) -> (r: u16)
    ensures
        r == normalized_orientation(code),
        is_valid_orientation(r),
{
    match code {
        Some(c) => {
            if c == 1 || c == 3 || c == 6 || c == 8 {
                c
            } else {
                1
            }
        },
        None => 1,
    }
}

fn wrap_longitude(lon: i64) -> (r: i64)
    ensures
        r == wrapped_longitude(lon as int),
        -LONGITUDE_LIMIT <= r <= LONGITUDE_LIMIT,
{
    if -LONGITUDE_LIMIT <= lon && lon <= LONGITUDE_LIMIT {
        lon
    } else {
        let shifted: i128 = lon as i128 + LONGITUDE_LIMIT as i128;
        let turn: i128 = LONGITUDE_TURN as i128;
        let m: i128 = if shifted >= 0 {
            shifted % turn
        } else {
            let k: i128 = (-shifted - 1) % turn;
            proof {
                lemma_negative_mod(shifted as int, turn as int);
            }
            turn - 1 - k
        };
        (m - LONGITUDE_LIMIT as i128) as i64
    }
}

fn wrap_bearing(b: i64) -> (r: i64)
    ensures
        r == wrapped_bearing(b as int),
        0 <= r < BEARING_TURN,
{
    let turn: i128 = BEARING_TURN as i128;
    let v: i128 = b as i128;
    let m: i128 = if v >= 0 {
        v % turn
    } else {
        let k: i128 = (-v - 1) % turn;
        proof {
            lemma_negative_mod(v as int, turn as int);
        }
        turn - 1 - k
    };
    m as i64
}

/// Euclidean remainder of a negative number through the remainder of its
/// mirror image.
proof fn lemma_negative_mod(x: int, d: int)
    requires
        x < 0,
        d > 0,
    ensures
        x % d == d - 1 - ((-x - 1) % d),
{
    let y = -x - 1;
    let q = y / d;
    let r = y % d;
    vstd::arithmetic::div_mod::lemma_fundamental_div_mod(y, d);
    assert(x == (-q - 1) * d + (d - 1 - r)) by (nonlinear_arith)
        requires
            y == q * d + r,
            x == -y - 1,
    ;
    vstd::arithmetic::div_mod::lemma_fundamental_div_mod_converse(x, d, -q - 1, d - 1 - r);
}

/// Brings every field of `m` into its documented range: latitude clamped,
/// longitude and bearing wrapped by whole turns, negative accuracy raised to
/// zero, orientation normalized. Altitude and capture time are kept as they
/// are.
pub fn validate_photo_metadata(m: PhotoMetadata) -> (r: PhotoMetadata)
    ensures
        r == normalized(m),
        metadata_in_range(r),
{
    let mut m = m;
    m.orientation_code = Some(validate_orientation_code(m.orientation_code));
    if m.latitude < -LATITUDE_LIMIT {
        m.latitude = -LATITUDE_LIMIT;
    } else if m.latitude > LATITUDE_LIMIT {
        m.latitude = LATITUDE_LIMIT;
    }
    m.longitude = wrap_longitude(m.longitude);
    m.bearing = match m.bearing {
        Some(b) => Some(wrap_bearing(b)),
        None => None,
    };
    if m.accuracy < 0 {
        m.accuracy = 0;
    }
    m
}

/// Normalizing a second time changes nothing.
pub proof fn lemma_validate_idempotent(m: PhotoMetadata)
    ensures
        normalized(normalized(m)) == normalized(m),
{
    let n = normalized(m);
    if let Some(b) = m.bearing {
        vstd::arithmetic::div_mod::lemma_mod_bound(b as int, BEARING_TURN as int);
        vstd::arithmetic::div_mod::lemma_small_mod((b as int % 36000) as nat, 36000);
    }
    let lon = m.longitude as int;
    if !(-LONGITUDE_LIMIT <= lon <= LONGITUDE_LIMIT) {
        vstd::arithmetic::div_mod::lemma_mod_bound(lon + LONGITUDE_LIMIT, LONGITUDE_TURN as int);
    }
    assert(normalized(n) == n);
}

/// A normalized record lies in range, and values already in range are kept.
pub proof fn lemma_normalized_in_range(m: PhotoMetadata)
    ensures
        metadata_in_range(normalized(m)),
        metadata_in_range(m) ==> normalized(m) == m,
{
    lemma_validate_idempotent(m);
    if let Some(b) = m.bearing {
        vstd::arithmetic::div_mod::lemma_mod_bound(b as int, BEARING_TURN as int);
        if 0 <= b < BEARING_TURN {
            vstd::arithmetic::div_mod::lemma_small_mod(b as nat, 36000);
        }
    }
    let lon = m.longitude as int;
    if !(-LONGITUDE_LIMIT <= lon <= LONGITUDE_LIMIT) {
        vstd::arithmetic::div_mod::lemma_mod_bound(lon + LONGITUDE_LIMIT, LONGITUDE_TURN as int);
    }
}

} // verus!
