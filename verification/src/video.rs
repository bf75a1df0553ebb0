//! Video stream properties as the prober reports them: size, codec and level,
//! pixel format with its chroma subsampling and bit depth, scan type and frame
//! count.

use vstd::prelude::*;

use crate::csv::same_chars;
use crate::npy::{lemma_digits_value_prefix_bound, parse_usize, parse_usize_chars};
use crate::pickle::opt_text;
use crate::text::{all_digits, chars_of, contains, decimal, digit_char, digits_value, has_infix, string_of};

verus! {

/// Chroma subsampling named by a pixel format (`yuv420p` is `4:2:0`).
pub open spec fn spec_chroma_subsampling(p: Seq<char>) -> Option<Seq<char>> {
    if has_infix(p, "420"@) {
        Some("4:2:0"@)
    } else if has_infix(p, "422"@) {
        Some("4:2:2"@)
    } else if has_infix(p, "444"@) {
        Some("4:4:4"@)
    } else if has_infix(p, "411"@) {
        Some("4:1:1"@)
    } else {
        None
    }
}

/// Scan type named by a field order.
pub open spec fn spec_scan_type(f: Seq<char>) -> Option<Seq<char>> {
    if f == "progressive"@ {
        Some("progressive"@)
    } else if f == "tt"@ || f == "tb"@ {
        Some("interlaced (top field first)"@)
    } else if f == "bb"@ || f == "bt"@ {
        Some("interlaced (bottom field first)"@)
    } else {
        None
    }
}

/// `u32::from_str`: an optional `+`, then ASCII digits whose value fits.
pub open spec fn spec_parse_u32(s: Seq<char>) -> Option<u32> {
    match parse_usize(s) {
        Some(v) => if v <= u32::MAX {
            Some(v as u32)
        } else {
            None
        },
        None => None,
    }
}

/// Bit depth named by a pixel format: the first of `10`, `12`, `14`, `16` it
/// contains, else 8 unless it contains an `8`.
pub open spec fn bit_depth_from_format(p: Seq<char>) -> Option<u32> {
    if has_infix(p, "10"@) {
        Some(10)
    } else if has_infix(p, "12"@) {
        Some(12)
    } else if has_infix(p, "14"@) {
        Some(14)
    } else if has_infix(p, "16"@) {
        Some(16)
    } else if !has_infix(p, "8"@) {
        Some(8)
    } else {
        None
    }
}

/// Bit depth: the stream's bits per raw sample where they parse, else the
/// pixel format's.
pub open spec fn spec_bit_depth(raw: Option<Seq<char>>, pixel_format: Option<Seq<char>>) -> Option<u32> {
    let parsed = match raw {
        Some(r) => spec_parse_u32(r),
        None => None,
    };
    match parsed {
        Some(b) => Some(b),
        None => match pixel_format {
            Some(p) => bit_depth_from_format(p),
            None => None,
        },
    }
}

/// Chroma subsampling from a pixel format name.
pub fn extract_chroma_subsampling(pix_fmt: &str) -> (r: Option<String>)
    ensures
        match r {
            Some(s) => spec_chroma_subsampling(pix_fmt@) == Some(s@),
            None => spec_chroma_subsampling(pix_fmt@) is None,
        },
{
    let p = chars_of(pix_fmt);
    if contains(p.as_slice(), chars_of("420").as_slice()) {
        Some("4:2:0".to_owned())
    } else if contains(p.as_slice(), chars_of("422").as_slice()) {
        Some("4:2:2".to_owned())
    } else if contains(p.as_slice(), chars_of("444").as_slice()) {
        Some("4:4:4".to_owned())
    } else if contains(p.as_slice(), chars_of("411").as_slice()) {
        Some("4:1:1".to_owned())
    } else {
        None
    }
}

/// Scan type from a field order (`progressive`, `tt`/`tb`, `bb`/`bt`).
pub fn extract_scan_type(field_order: &str) -> (r: Option<String>)
    ensures
        match r {
            Some(s) => spec_scan_type(field_order@) == Some(s@),
            None => spec_scan_type(field_order@) is None,
        },
{
    let f = chars_of(field_order);
    if same_chars(f.as_slice(), chars_of("progressive").as_slice()) {
        Some("progressive".to_owned())
    } else if same_chars(f.as_slice(), chars_of("tt").as_slice()) || same_chars(
        f.as_slice(),
        chars_of("tb").as_slice(),
    ) {
        Some("interlaced (top field first)".to_owned())
    } else if same_chars(f.as_slice(), chars_of("bb").as_slice()) || same_chars(
        f.as_slice(),
        chars_of("bt").as_slice(),
    ) {
        Some("interlaced (bottom field first)".to_owned())
    } else {
        None
    }
}

/// Parses `u32::from_str` text.
fn parse_u32_chars(s: &[char]) -> (r: Option<u32>)
    ensures
        r == spec_parse_u32(s@),
{
    match parse_usize_chars(s) {
        Some(v) => if v <= 0xffff_ffff {
            Some(v as u32)
        } else {
            None
        },
        None => None,
    }
}

/// Bit depth of a video stream from its bits per raw sample and pixel format.
pub fn extract_bit_depth(bits_per_raw_sample: Option<&str>, pixel_format: Option<&str>) -> (r: Option<u32>)
    ensures
        r == spec_bit_depth(
            match bits_per_raw_sample {
                Some(s) => Some(s@),
                None => None,
            },
            match pixel_format {
                Some(s) => Some(s@),
                None => None,
            },
        ),
{
    if let Some(raw) = bits_per_raw_sample {
        if let Some(b) = parse_u32_chars(chars_of(raw).as_slice()) {
            return Some(b);
        }
    }
    match pixel_format {
        Some(pf) => {
            let p = chars_of(pf);
            if contains(p.as_slice(), chars_of("10").as_slice()) {
                Some(10)
            } else if contains(p.as_slice(), chars_of("12").as_slice()) {
                Some(12)
            } else if contains(p.as_slice(), chars_of("14").as_slice()) {
                Some(14)
            } else if contains(p.as_slice(), chars_of("16").as_slice()) {
                Some(16)
            } else if !contains(p.as_slice(), chars_of("8").as_slice()) {
                Some(8)
            } else {
                None
            }
        },
        None => None,
    }
}

// ---------------------------------------------------------------------------
// Codec level and frame count
// ---------------------------------------------------------------------------

/// `u64::from_str`: an optional `+`, then one or more ASCII digits, within range.
pub open spec fn spec_parse_u64(s: Seq<char>) -> Option<u64> {
    let d = if s.len() > 0 && s[0] == '+' {
        s.subrange(1, s.len() as int)
    } else {
        s
    };
    if d.len() > 0 && all_digits(d) && digits_value(d) <= u64::MAX {
        Some(digits_value(d) as u64)
    } else {
        None
    }
}

/// Parses `u64::from_str` text.
fn parse_u64_chars(s: &[char]) -> (r: Option<u64>)
    ensures
        r == spec_parse_u64(s@),
{
    let start: usize = if s.len() > 0 && s[0] == '+' {
        1
    } else {
        0
    };
    let ghost d = s@.subrange(start as int, s.len() as int);
    assert(d =~= (if s@.len() > 0 && s@[0] == '+' {
        s@.subrange(1, s@.len() as int)
    } else {
        s@
    }));
    if start >= s.len() {
        return None;
    }
    let mut v: u64 = 0;
    let mut i: usize = start;
    while i < s.len()
        invariant
            start <= i <= s.len(),
            d == s@.subrange(start as int, s.len() as int),
            d.len() > 0,
            spec_parse_u64(s@) == (if all_digits(d) && digits_value(d) <= u64::MAX {
                Some(digits_value(d) as u64)
            } else {
                None
            }),
            all_digits(s@.subrange(start as int, i as int)),
            v == digits_value(s@.subrange(start as int, i as int)),
        decreases s.len() - i,
    {
        let c = s[i];
        if !(c >= '0' && c <= '9') {
            assert(!all_digits(d)) by {
                assert(d[i - start] == c);
            }
            return None;
        }
        let digit = (c as u32 - 48) as u64;
        let ghost prefix = s@.subrange(start as int, i + 1);
        assert(prefix.drop_last() =~= s@.subrange(start as int, i as int));
        assert(all_digits(prefix));
        assert(digits_value(prefix) == v * 10 + digit);
        if v > (u64::MAX - digit) / 10 {
            proof {
                assert(d.subrange(0, i + 1 - start) =~= prefix);
                lemma_digits_value_prefix_bound(d, (i + 1 - start) as int);
                assert(v * 10 + digit > u64::MAX);
            }
            return None;
        }
        v = v * 10 + digit;
        i = i + 1;
    }
    assert(s@.subrange(start as int, i as int) =~= d);
    Some(v)
}

/// Decimal digits of a `u64`.
fn decimal_u64(n: u64) -> (v: Vec<char>)
    ensures
        v@ == decimal(n as nat),
    decreases n,
{
    if n < 10 {
        let mut v: Vec<char> = Vec::new();
        v.push(((n as u8) + 48u8) as char);
        assert(v@ =~= decimal(n as nat));
        v
    } else {
        let mut v = decimal_u64(n / 10);
        v.push((((n % 10) as u8) + 48u8) as char);
        v
    }
}

/// `m` in decimal, after a minus sign where `negative` and `m` is not zero
/// (how a truncated quotient or remainder of a negative number prints).
pub open spec fn signed_decimal(negative: bool, m: nat) -> Seq<char> {
    if negative && m != 0 {
        seq!['-'] + decimal(m)
    } else {
        decimal(m)
    }
}

/// A codec level as `level / 10` and `level % 10` (truncating) joined by a dot:
/// 41 is `4.1`, 40 is `4.0`.
pub open spec fn spec_codec_level(level: int) -> Seq<char> {
    let m = if level < 0 {
        -level
    } else {
        level
    };
    signed_decimal(level < 0, (m / 10) as nat) + seq!['.'] + signed_decimal(
        level < 0,
        (m % 10) as nat,
    )
}

/// Formats a codec level (`4.1` for 41).
pub fn format_codec_level(level: i64) -> (r: String)
    ensures
        r@ == spec_codec_level(level as int),
{
    let negative = level < 0;
    let m: u64 = if negative {
        (-(level as i128)) as u64
    } else {
        level as u64
    };
    let q = m / 10;
    let rem = m % 10;
    let mut out: Vec<char> = Vec::new();
    if negative && q != 0 {
        out.push('-');
    }
    let qd = decimal_u64(q);
    let mut k: usize = 0;
    while k < qd.len()
        invariant
            k <= qd.len(),
            out@ == (if negative && q != 0 {
                seq!['-']
            } else {
                Seq::<char>::empty()
            }) + qd@.take(k as int),
        decreases qd.len() - k,
    {
        out.push(qd[k]);
        k = k + 1;
        assert(qd@.take(k as int) =~= qd@.take(k - 1).push(qd@[k - 1]));
    }
    assert(qd@.take(qd.len() as int) =~= qd@);
    out.push('.');
    if negative && rem != 0 {
        out.push('-');
    }
    out.push(((rem as u8) + 48u8) as char);
    proof {
        let mi: int = if level < 0 {
            -level
        } else {
            level as int
        };
        assert(m == mi);
        assert(decimal(rem as nat) =~= seq![digit_char(rem as nat)]);
        assert(out@ =~= spec_codec_level(level as int));
    }
    string_of(out.as_slice())
}

/// Parses a frame count (`u64::from_str`).
pub fn parse_frame_count(text: &str) -> (r: Option<u64>)
    ensures
        r == spec_parse_u64(text@),
{
    parse_u64_chars(chars_of(text).as_slice())
}

// ---------------------------------------------------------------------------
// Stream properties
// ---------------------------------------------------------------------------

/// The fields of the prober's video stream that the metadata reads.
pub struct VideoStream {
    pub width: Option<i64>,
    pub height: Option<i64>,
    pub coded_width: Option<i64>,
    pub coded_height: Option<i64>,
    /// Number of B-frames.
    pub has_b_frames: Option<u32>,
    pub codec_name: Option<String>,
    pub level: Option<i64>,
    pub pix_fmt: Option<String>,
    pub bits_per_raw_sample: Option<String>,
    pub color_space: Option<String>,
    pub display_aspect_ratio: Option<String>,
    pub sample_aspect_ratio: Option<String>,
    pub field_order: Option<String>,
    pub nb_frames: Option<String>,
}

/// The properties of a video file that its video stream gives (sizes in
/// pixels, codec, pixel format, scan and frame count) and its size in bytes.
pub struct VideoProperties {
    pub width: usize,
    pub height: usize,
    pub coded_width: Option<usize>,
    pub coded_height: Option<usize>,
    pub has_b_frames: Option<bool>,
    pub video_codec: Option<String>,
    pub video_codec_level: Option<String>,
    pub pixel_format: Option<String>,
    pub bit_depth: Option<u32>,
    pub color_space: Option<String>,
    pub chroma_subsampling: Option<String>,
    pub display_aspect_ratio: Option<String>,
    pub sample_aspect_ratio: Option<String>,
    pub scan_type: Option<String>,
    pub frame_count: Option<u64>,
    pub stream_size: Option<usize>,
}

/// `o` mapped by `f`.
pub open spec fn opt_map<A, B>(o: Option<A>, f: spec_fn(A) -> B) -> Option<B> {
    match o {
        Some(a) => Some(f(a)),
        None => None,
    }
}

/// `o` mapped by a partial `f`.
pub open spec fn opt_then<A, B>(o: Option<A>, f: spec_fn(A) -> Option<B>) -> Option<B> {
    match o {
        Some(a) => f(a),
        None => None,
    }
}

/// Width and height: both where the stream has both, else zero.
pub open spec fn spec_frame_size(s: Option<VideoStream>) -> (usize, usize) {
    match s {
        Some(v) => match (v.width, v.height) {
            (Some(w), Some(h)) => (w as usize, h as usize),
            _ => (0, 0),
        },
        None => (0, 0),
    }
}

/// The properties of a file of `byte_count` bytes whose video stream is `s`.
pub open spec fn video_properties_hold(r: VideoProperties, s: Option<VideoStream>, byte_count: usize) -> bool {
    let field = |f: spec_fn(VideoStream) -> Option<String>| match s {
        Some(v) => opt_text(f(v)),
        None => None,
    };
    let pix = field(|v: VideoStream| v.pix_fmt);
    &&& (r.width, r.height) == spec_frame_size(s)
    &&& r.coded_width == opt_then(s, |v: VideoStream| opt_map(v.coded_width, |w: i64| w as usize))
    &&& r.coded_height == opt_then(s, |v: VideoStream| opt_map(v.coded_height, |h: i64| h as usize))
    &&& r.has_b_frames == opt_then(s, |v: VideoStream| opt_map(v.has_b_frames, |n: u32| n > 0))
    &&& opt_text(r.video_codec) == field(|v: VideoStream| v.codec_name)
    &&& opt_text(r.video_codec_level) == opt_then(
        s,
        |v: VideoStream| opt_map(v.level, |l: i64| spec_codec_level(l as int)),
    )
    &&& opt_text(r.pixel_format) == pix
    &&& r.bit_depth == spec_bit_depth(field(|v: VideoStream| v.bits_per_raw_sample), pix)
    &&& opt_text(r.color_space) == field(|v: VideoStream| v.color_space)
    &&& opt_text(r.chroma_subsampling) == opt_then(pix, |p: Seq<char>| spec_chroma_subsampling(p))
    &&& opt_text(r.display_aspect_ratio) == field(|v: VideoStream| v.display_aspect_ratio)
    &&& opt_text(r.sample_aspect_ratio) == field(|v: VideoStream| v.sample_aspect_ratio)
    &&& opt_text(r.scan_type) == opt_then(
        field(|v: VideoStream| v.field_order),
        |f: Seq<char>| spec_scan_type(f),
    )
    &&& r.frame_count == opt_then(field(|v: VideoStream| v.nb_frames), |t: Seq<char>| spec_parse_u64(t))
    &&& r.stream_size == Some(byte_count)
}

fn copy_opt(o: &Option<String>) -> (r: Option<String>)
    ensures
        opt_text(r) == opt_text(*o),
{
    match o {
        Some(s) => Some(s.clone()),
        None => None,
    }
}

/// The video properties of a file of `byte_count` bytes whose video stream (if
/// any) the prober reported as `video_stream`.
pub fn extract_video_metadata(video_stream: Option<&VideoStream>, byte_count: usize) -> (r: VideoProperties)
    ensures
        video_properties_hold(r, match video_stream {
            Some(v) => Some(*v),
            None => None,
        }, byte_count),
{
    match video_stream {
        None => VideoProperties {
            width: 0,
            height: 0,
            coded_width: None,
            coded_height: None,
            has_b_frames: None,
            video_codec: None,
            video_codec_level: None,
            pixel_format: None,
            bit_depth: None,
            color_space: None,
            chroma_subsampling: None,
            display_aspect_ratio: None,
            sample_aspect_ratio: None,
            scan_type: None,
            frame_count: None,
            stream_size: Some(byte_count),
        },
        Some(v) => {
            let (width, height) = match (v.width, v.height) {
                (Some(w), Some(h)) => (w as usize, h as usize),
                _ => (0, 0),
            };
            let coded_width = match v.coded_width {
                Some(w) => Some(w as usize),
                None => None,
            };
            let coded_height = match v.coded_height {
                Some(h) => Some(h as usize),
                None => None,
            };
            let has_b_frames = match v.has_b_frames {
                Some(n) => Some(n > 0),
                None => None,
            };
            let video_codec_level = match v.level {
                Some(l) => Some(format_codec_level(l)),
                None => None,
            };
            let pixel_format = copy_opt(&v.pix_fmt);
            let bit_depth = extract_bit_depth(
                match &v.bits_per_raw_sample {
                    Some(b) => Some(b.as_str()),
                    None => None,
                },
                match &v.pix_fmt {
                    Some(p) => Some(p.as_str()),
                    None => None,
                },
            );
            let chroma_subsampling = match &v.pix_fmt {
                Some(p) => extract_chroma_subsampling(p.as_str()),
                None => None,
            };
            let scan_type = match &v.field_order {
                Some(f) => extract_scan_type(f.as_str()),
                None => None,
            };
            let frame_count = match &v.nb_frames {
                Some(t) => parse_frame_count(t.as_str()),
                None => None,
            };
            VideoProperties {
                width,
                height,
                coded_width,
                coded_height,
                has_b_frames,
                video_codec: copy_opt(&v.codec_name),
                video_codec_level,
                pixel_format,
                bit_depth,
                color_space: copy_opt(&v.color_space),
                chroma_subsampling,
                display_aspect_ratio: copy_opt(&v.display_aspect_ratio),
                sample_aspect_ratio: copy_opt(&v.sample_aspect_ratio),
                scan_type,
                frame_count,
                stream_size: Some(byte_count),
            }
        },
    }
}

} // verus!
