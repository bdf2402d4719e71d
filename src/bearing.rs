use vstd::prelude::*;
use vstd::string::StrSliceExecFns;

verus! {

/// The lower-case form of a text, by Unicode's rules as std applies them.
pub uninterp spec fn lowercase_of(s: Seq<char>) -> Seq<char>;

/// Relies on `str::to_lowercase`: the result depends on the text alone.
#[verifier::external_body]
fn lowercase(s: &str) -> (r: String)
    ensures
        r@ == lowercase_of(s@),
{
    s.to_lowercase()
}

/// `needle` occurs in `hay` as a run of consecutive characters.
pub open spec fn occurs_in(hay: Seq<char>, needle: Seq<char>) -> bool {
    exists|i: int| 0 <= i && i + needle.len() <= hay.len() && #[trigger] hay.subrange(i, i + needle.len()) == needle
}

/// A lower-case source name that mentions a sensor: a compass, gyroscope,
/// magnetometer, rotation vector, the app's own sensor bridge, or the
/// enhanced fusion mode.
pub open spec fn names_sensor(s: Seq<char>) -> bool {
    occurs_in(s, "sensor"@) || occurs_in(s, "compass"@) || occurs_in(s, "tauri"@) || occurs_in(
        s,
        "gyro"@,
    ) || occurs_in(s, "magnetometer"@) || occurs_in(s, "rotation"@) || occurs_in(s, "magnetic"@)
        || occurs_in(s, "enhanced"@)
}

fn chars_of(s: &str) -> (r: Vec<char>)
    ensures
        r@ == s@,
{
    let n = s.unicode_len();
    let mut r: Vec<char> = Vec::new();
    let mut i: usize = 0;
    while i < n
        invariant
            n == s@.len(),
            i <= n,
            r@ == s@.take(i as int),
        decreases n - i,
    {
        r.push(s.get_char(i));
        i = i + 1;
        assert(r@ =~= s@.take(i as int));
    }
    assert(r@ =~= s@);
    r
}

fn occurs_at(hay: &Vec<char>, needle: &Vec<char>, at: usize) -> (r: bool)
    requires
        at + needle.len() <= hay.len(),
    ensures
        r == (hay@.subrange(at as int, at + needle.len()) == needle@),
{
    let mut k: usize = 0;
    while k < needle.len()
        invariant
            at + needle.len() <= hay.len(),
            k <= needle.len(),
            hay@.subrange(at as int, at + k) == needle@.take(k as int),
        decreases needle.len() - k,
    {
        if hay[at + k] != needle[k] {
            assert(hay@.subrange(at as int, at + needle.len())[k as int] != needle@[k as int]);
            return false;
        }
        k = k + 1;
        assert(hay@.subrange(at as int, at + k) =~= needle@.take(k as int));
    }
    assert(needle@.take(k as int) =~= needle@);
    true
}

fn occurs(hay: &Vec<char>, needle: &str) -> (r: bool)
    ensures
        r == occurs_in(hay@, needle@),
{
    let nd = chars_of(needle);
    if nd.len() == 0 {
        assert(hay@.subrange(0int, 0int + needle@.len()) =~= needle@);
        return true;
    }
    if nd.len() > hay.len() {
        return false;
    }
    let last = hay.len() - nd.len();
    let mut i: usize = 0;
    while i <= last
        invariant
            last == hay.len() - nd.len(),
            nd.len() > 0,
            nd@ == needle@,
            i <= last + 1,
            forall|j: int| 0 <= j < i ==> #[trigger] hay@.subrange(j, j + nd.len()) != nd@,
        decreases last + 1 - i,
    {
        if occurs_at(hay, &nd, i) {
            return true;
        }
        i = i + 1;
    }
    false
}

/// Whether a lower-case source name mentions a sensor.
pub fn mentions_sensor(lower: &str) -> (r: bool)
    ensures
        r == names_sensor(lower@),
{
    let s = chars_of(lower);
    occurs(&s, "sensor") || occurs(&s, "compass") || occurs(&s, "tauri") || occurs(&s, "gyro")
        || occurs(&s, "magnetometer") || occurs(&s, "rotation") || occurs(&s, "magnetic") || occurs(
        &s,
        "enhanced",
    )
}

/// Whether a bearing source names sensor data, ignoring case.
pub fn is_sensor_bearing_source(bearing_source: &str) -> (r: bool)
    ensures
        r == names_sensor(lowercase_of(bearing_source@)),
{
    let lower = lowercase(bearing_source);
    mentions_sensor(lower.as_str())
}

/// The answer of the device's sensor log for one capture time.
pub struct BearingLookup {
    pub success: bool,
    pub found: Option<bool>,
    /// True heading in hundredths of a degree.
    pub true_heading: Option<i64>,
}

/// The time, in milliseconds, at which the sensor log is asked for a bearing;
/// `None` where the capture time in milliseconds does not fit 64 bits.
pub fn bearing_lookup_time(captured_at: i64) -> (r: Option<i64>)
    ensures
        r matches Some(ms) ==> ms == captured_at * 1000,
        r is None <==> !(i64::MIN <= captured_at * 1000 <= i64::MAX),
{
    captured_at.checked_mul(1000)
}

/// The bearing recorded with a photo: the heading logged by the sensors when
/// the log was asked (`lookup` present), answered successfully, found an
/// entry and holds a true heading; the bearing sent with the photo
/// otherwise.
pub fn determine_final_bearing(frontend: Option<i64>, lookup: &Option<BearingLookup>) -> (r: Option<
    i64,
>)
    ensures
        r == match lookup {
            Some(l) => if l.success && l.found == Some(true) && l.true_heading is Some {
                l.true_heading
            } else {
                frontend
            },
            None => frontend,
        },
{
    match lookup {
        Some(l) => {
            if l.success && l.found == Some(true) {
                match l.true_heading {
                    Some(h) => Some(h),
                    None => frontend,
                }
            } else {
                frontend
            }
        },
        None => frontend,
    }
}

} // verus!
