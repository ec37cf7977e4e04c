//! Camera frames: their codec, size and index, and the names they are
//! stored under.
use vstd::prelude::*;

use crate::text::{decimal, push_char, write_decimal};

verus! {

/// The codec a camera frame is encoded with.
#[derive(Copy, Clone, Debug, PartialEq, Eq, PartialOrd, Ord, Hash, Structural)]
pub enum ImageCodec {
    Jpeg,
}

impl ImageCodec {
    /// The codec's four-character code, as the capture device takes it.
    pub fn as_fourcc(&self) -> (r: [u8; 4])
        ensures
            r@ == seq![77u8, 74u8, 80u8, 71u8],
    {
        match self {
            ImageCodec::Jpeg => {
                let r: [u8; 4] = [77u8, 74u8, 80u8, 71u8];
                assert(r@ =~= seq![77u8, 74u8, 80u8, 71u8]);
                r
            },
        }
    }

    /// The file extension of the codec's frames.
    pub fn as_extension(&self) -> (r: &'static str)
        ensures
            r@ == ".jpeg"@,
    {
        match self {
            ImageCodec::Jpeg => ".jpeg",
        }
    }
}

impl Default for ImageCodec {
    fn default() -> (r: ImageCodec)
        ensures
            r == ImageCodec::Jpeg,
    {
        ImageCodec::Jpeg
    }
}

/// A frame's width and height in pixels.
#[derive(Copy, Clone, Debug, PartialEq, Eq, PartialOrd, Ord, Hash, Structural)]
pub struct ImageSize {
    pub width: u32,
    pub height: u32,
}

impl Default for ImageSize {
    fn default() -> (r: ImageSize)
        ensures
            r == (ImageSize { width: 0, height: 0 }),
    {
        ImageSize { width: 0, height: 0 }
    }
}

/// A captured frame: its codec, its index in the stream, and its size.
#[derive(Copy, Clone, Debug, PartialEq, Eq, PartialOrd, Ord, Hash, Structural)]
pub struct Image {
    pub codec: ImageCodec,
    pub index: usize,
    pub size: ImageSize,
}

impl Default for Image {
    fn default() -> (r: Image)
        ensures
            r == (Image { codec: ImageCodec::Jpeg, index: 0, size: ImageSize { width: 0, height: 0 } }),
    {
        Image { codec: ImageCodec::Jpeg, index: 0, size: ImageSize { width: 0, height: 0 } }
    }
}

/// Counts the frames of a stream.
#[derive(Copy, Clone, Debug)]
pub struct FrameCounter(pub usize);

impl FrameCounter {
    pub fn new() -> (r: FrameCounter)
        ensures
            r.0 == 0,
    {
        FrameCounter(0)
    }

    /// The index of the next frame; the count moves on by one.
    pub fn next(&mut self) -> (r: usize)
        requires
            old(self).0 < usize::MAX,
        ensures
            r == old(self).0,
            final(self).0 == old(self).0 + 1,
    {
        let index = self.0;
        self.0 = self.0 + 1;
        index
    }
}

/// `n` zeros.
pub open spec fn zeros(n: nat) -> Seq<char>
    decreases n,
{
    if n == 0 {
        Seq::empty()
    } else {
        zeros((n - 1) as nat).push('0')
    }
}

/// A number in decimal, padded with zeros to at least `width` digits.
pub open spec fn padded_decimal(n: nat, width: nat) -> Seq<char> {
    if decimal(n).len() < width {
        zeros((width - decimal(n).len()) as nat) + decimal(n)
    } else {
        decimal(n)
    }
}

/// The name a frame's payload is stored under: `images/`, the index padded
/// to six digits, and the codec's extension.
pub fn frame_payload_name(frame_idx: usize, codec: ImageCodec) -> (r: String)
    ensures
        r@ == "images/"@ + padded_decimal(frame_idx as nat, 6) + ".jpeg"@,
{
    let mut digits = String::new();
    write_decimal(&mut digits, frame_idx as u128);
    let len = digits.as_str().unicode_len();
    let mut name = String::from_str("images/");
    if len < 6 {
        let mut k: usize = 0;
        while k < 6 - len
            invariant
                len < 6,
                k <= 6 - len,
                name@ == "images/"@ + zeros(k as nat),
            decreases 6 - len - k,
        {
            push_char(&mut name, '0');
            k = k + 1;
        }
    }
    name.append(digits.as_str());
    name.append(codec.as_extension());
    name
}

/// Whether a nanosecond part suits a second: below one second, or below two
/// in the last second of a minute (a leap second).
pub open spec fn valid_subsec_nanos(secs: i64, nsecs: u32) -> bool {
    nsecs < 1_000_000_000 || (nsecs < 2_000_000_000 && secs % 60 == 59)
}

/// Seconds within about 250,000 years of 1970, all of which are dates.
pub open spec fn seconds_in_range(secs: i64) -> bool {
    -8_000_000_000_000 <= secs <= 8_000_000_000_000
}

/// Makes a UTC date and time from a UNIX timestamp and its nanoseconds
/// (`chrono::NaiveDateTime::from_timestamp_opt`) and reads the two back.
/// There is none where the nanoseconds do not suit the second, and there is
/// one for every second within range; where the range of dates ends beyond
/// that is left unsaid.  A date read back gives the same two numbers.
#[verifier::external_body]
#[allow(deprecated)]
fn utc_timestamp(secs: i64, nsecs: u32) -> (r: Option<(i64, u32)>)
    ensures
        r is Some ==> r == Some((secs, nsecs)) && valid_subsec_nanos(secs, nsecs),
        valid_subsec_nanos(secs, nsecs) && seconds_in_range(secs) ==> r is Some,
{
    match chrono::NaiveDateTime::from_timestamp_opt(secs, nsecs) {
        Some(t) => {
            let t = t.and_utc();
            Some((t.timestamp(), t.timestamp_subsec_nanos()))
        },
        None => None,
    }
}

/// What is known of a frame's capture time: the seconds and the
/// microseconds taken to nanoseconds (kept to 32 bits), in nanoseconds since
/// 1970, where they are a valid time; none where they are not; and a time
/// for every second within range.
pub open spec fn timestamp_of(r: Option<i128>, sec: i64, usec: i64) -> bool {
    let ns = (usec * 1000) as u32;
    &&& r is Some ==> valid_subsec_nanos(sec, ns) && r.unwrap() == sec * 1_000_000_000 + ns
    &&& !valid_subsec_nanos(sec, ns) ==> r is None
    &&& valid_subsec_nanos(sec, ns) && seconds_in_range(sec) ==> r is Some
}

/// The time a frame was captured, in nanoseconds since 1970: its seconds,
/// and its microseconds taken to nanoseconds (kept to 32 bits); none where
/// that is no valid time.
pub fn frame_timestamp(sec: i64, usec: i64) -> (r: Option<i128>)
    requires
        i64::MIN <= usec * 1000 <= i64::MAX,
    ensures
        timestamp_of(r, sec, usec),
{
    let ns = (usec * 1000) as u32;
    match utc_timestamp(sec, ns) {
        Some((s, n)) => Some(s as i128 * 1_000_000_000 + n as i128),
        None => None,
    }
}

/// A captured frame ready to be sent: its description, the name its payload
/// is stored under, the payload, and the time it was captured.
pub struct FrameMessage {
    pub value: Image,
    pub payload_name: String,
    pub payload: Vec<u8>,
    pub timestamp: Option<i128>,
}

/// Turns a received frame into its message: the frame takes the next index
/// of the stream, its payload is named after that index, and its capture
/// time is read from its seconds and microseconds.
pub fn frame_message(
    counter: &mut FrameCounter,
    codec: ImageCodec,
    size: ImageSize,
    frame: Vec<u8>,
    sec: i64,
    usec: i64,
) -> (r: FrameMessage)
    requires
        old(counter).0 < usize::MAX,
        i64::MIN <= usec * 1000 <= i64::MAX,
    ensures
        final(counter).0 == old(counter).0 + 1,
        r.value == (Image { codec, index: old(counter).0, size }),
        r.payload_name@ == "images/"@ + padded_decimal(old(counter).0 as nat, 6) + ".jpeg"@,
        r.payload@ == frame@,
        timestamp_of(r.timestamp, sec, usec),
{
    let timestamp = frame_timestamp(sec, usec);
    let index = counter.next();
    let payload_name = frame_payload_name(index, codec);
    FrameMessage { value: Image { codec, index, size }, payload_name, payload: frame, timestamp }
}

} // verus!
