//! What the catalog keeps from an `ffprobe` report, the commands it runs
//! for metadata and thumbnails, and the encoding of thumbnails for display.

use vstd::prelude::*;
use base64::Engine;
use crate::text::{copy_opt, decimal, decimal_chars, digits_value, is_digit_text, law_decimal_reads_back, opt_view, owned, str_eq, string_of};

verus! {

/// The `format` section of an `ffprobe -print_format json` report.
#[derive(Debug, Clone)]
pub struct FfprobeFormat {
    pub duration: Option<String>,
}

/// One entry of the `streams` section of an `ffprobe` report.
#[derive(Debug, Clone)]
pub struct FfprobeStream {
    pub codec_type: Option<String>,
    pub codec_name: Option<String>,
    pub width: Option<u32>,
    pub height: Option<u32>,
}

/// An `ffprobe -print_format json -show_format -show_streams` report.
#[derive(Debug, Clone)]
pub struct FfprobeOutput {
    pub format: Option<FfprobeFormat>,
    pub streams: Option<Vec<FfprobeStream>>,
}

/// The catalog's summary of a report.  The duration is kept as the text
/// `ffprobe` printed; it is read as a number where the summary is stored.
#[derive(Debug, Clone)]
pub struct ProbeSummary {
    pub duration_text: Option<String>,
    pub resolution_text: Option<String>,
    pub codec_text: Option<String>,
}

pub struct StreamView {
    pub codec_type: Option<Seq<char>>,
    pub codec_name: Option<Seq<char>>,
    pub width: Option<u32>,
    pub height: Option<u32>,
}

pub open spec fn stream_view(s: FfprobeStream) -> StreamView {
    StreamView {
        codec_type: opt_view(s.codec_type),
        codec_name: opt_view(s.codec_name),
        width: s.width,
        height: s.height,
    }
}

pub open spec fn streams_view(v: Seq<FfprobeStream>) -> Seq<StreamView> {
    v.map_values(|s: FfprobeStream| stream_view(s))
}

/// The first stream whose type is `video`.
pub open spec fn first_video(streams: Seq<StreamView>) -> Option<StreamView>
    decreases streams.len(),
{
    if streams.len() == 0 {
        None
    } else if streams[0].codec_type == Some("video"@) {
        Some(streams[0])
    } else {
        first_video(streams.drop_first())
    }
}

/// `WIDTHxHEIGHT` in decimal.
pub open spec fn resolution_of(w: u32, h: u32) -> Seq<char> {
    decimal(w as nat) + seq!['x'] + decimal(h as nat)
}

pub open spec fn video_of(p: FfprobeOutput) -> Option<StreamView> {
    match p.streams {
        Some(v) => first_video(streams_view(v@)),
        None => None,
    }
}

/// The duration text of the report's format section, if any.
pub open spec fn duration_of(p: FfprobeOutput) -> Option<Seq<char>> {
    match p.format {
        Some(f) => opt_view(f.duration),
        None => None,
    }
}

/// The codec of the first video stream.
pub open spec fn codec_of(p: FfprobeOutput) -> Option<Seq<char>> {
    match video_of(p) {
        Some(v) => v.codec_name,
        None => None,
    }
}

/// The resolution of the first video stream, when it gives both sides.
pub open spec fn resolution_text_of(p: FfprobeOutput) -> Option<Seq<char>> {
    match video_of(p) {
        Some(v) => match (v.width, v.height) {
            (Some(w), Some(h)) => Some(resolution_of(w, h)),
            _ => None,
        },
        None => None,
    }
}

fn is_video(s: &FfprobeStream) -> (res: bool)
    ensures
        res == (stream_view(*s).codec_type == Some("video"@)),
{
    match &s.codec_type {
        Some(t) => str_eq(t.as_str(), "video"),
        None => false,
    }
}

/// `WIDTHxHEIGHT` in decimal.
pub fn resolution_text(w: u32, h: u32) -> (res: String)
    ensures
        res@ == resolution_of(w, h),
        res@ == decimal(w as nat) + seq!['x'] + decimal(h as nat),
{
    let mut cs = decimal_chars(w);
    cs.push('x');
    let mut hs = decimal_chars(h);
    cs.append(&mut hs);
    string_of(cs.as_slice())
}

/// The position of the first video stream.
fn find_video(streams: &Vec<FfprobeStream>) -> (res: Option<usize>)
    ensures
        match res {
            Some(i) => i < streams@.len() && first_video(streams_view(streams@)) == Some(
                stream_view(streams@[i as int]),
            ),
            None => first_video(streams_view(streams@)) is None,
        },
{
    let ghost sv = streams_view(streams@);
    let mut i: usize = 0;
    assert(sv.skip(0) =~= sv);
    while i < streams.len()
        invariant
            sv == streams_view(streams@),
            i <= streams.len(),
            first_video(sv) == first_video(sv.skip(i as int)),
        decreases streams.len() - i,
    {
        let ghost rest = sv.skip(i as int);
        assert(rest[0] == stream_view(streams@[i as int]));
        if is_video(&streams[i]) {
            return Some(i);
        }
        assert(rest.drop_first() =~= sv.skip(i + 1));
        i += 1;
    }
    None
}

/// Summarizes a report: the format's duration text, and the codec and
/// resolution of the first video stream.
pub fn summarize_probe(p: &FfprobeOutput) -> (res: ProbeSummary)
    ensures
        opt_view(res.duration_text) == duration_of(*p),
        opt_view(res.codec_text) == codec_of(*p),
        opt_view(res.resolution_text) == resolution_text_of(*p),
{
    let duration_text = match &p.format {
        Some(f) => copy_opt(&f.duration),
        None => None,
    };
    let mut codec_text: Option<String> = None;
    let mut resolution: Option<String> = None;
    match &p.streams {
        Some(streams) => {
            match find_video(streams) {
                Some(i) => {
                    codec_text = copy_opt(&streams[i].codec_name);
                    resolution = match (streams[i].width, streams[i].height) {
                        (Some(w), Some(h)) => Some(resolution_text(w, h)),
                        _ => None,
                    };
                },
                None => {},
            }
        },
        None => {},
    }
    ProbeSummary { duration_text, resolution_text: resolution, codec_text }
}

} // verus!

verus! {

/// The file name of an item's thumbnail image.
pub fn thumbnail_file_name(item_id: &str) -> (res: String)
    ensures
        res@ == item_id@ + ".jpg"@,
{
    let mut s = owned(item_id);
    s.append(".jpg");
    s
}

/// The arguments given to `ffprobe` to report on the media file at `path`.
pub fn ffprobe_args(path: &str) -> (res: Vec<String>)
    ensures
        res@.map_values(|a: String| a@) == seq![
            "-v"@,
            "quiet"@,
            "-print_format"@,
            "json"@,
            "-show_format"@,
            "-show_streams"@,
            path@,
        ],
{
    let mut v: Vec<String> = Vec::new();
    v.push(owned("-v"));
    v.push(owned("quiet"));
    v.push(owned("-print_format"));
    v.push(owned("json"));
    v.push(owned("-show_format"));
    v.push(owned("-show_streams"));
    v.push(owned(path));
    assert(v@.map_values(|a: String| a@) =~= seq![
        "-v"@,
        "quiet"@,
        "-print_format"@,
        "json"@,
        "-show_format"@,
        "-show_streams"@,
        path@,
    ]);
    v
}

/// The position from which a thumbnail frame is taken: five seconds in,
/// or the very start when the first attempt fails.
pub open spec fn seek_text(first_attempt: bool) -> Seq<char> {
    if first_attempt {
        "00:00:05"@
    } else {
        "00:00:00"@
    }
}

/// The arguments given to `ffmpeg` to write one 320x180 JPEG frame of
/// `video` to `output`.
pub fn thumbnail_args(video: &str, output: &str, first_attempt: bool) -> (res: Vec<String>)
    ensures
        res@.map_values(|a: String| a@) == seq![
            "-y"@,
            "-ss"@,
            seek_text(first_attempt),
            "-i"@,
            video@,
            "-vframes"@,
            "1"@,
            "-s"@,
            "320x180"@,
            "-f"@,
            "image2"@,
            output@,
        ],
{
    let mut v: Vec<String> = Vec::new();
    v.push(owned("-y"));
    v.push(owned("-ss"));
    if first_attempt {
        v.push(owned("00:00:05"));
    } else {
        v.push(owned("00:00:00"));
    }
    v.push(owned("-i"));
    v.push(owned(video));
    v.push(owned("-vframes"));
    v.push(owned("1"));
    v.push(owned("-s"));
    v.push(owned("320x180"));
    v.push(owned("-f"));
    v.push(owned("image2"));
    v.push(owned(output));
    assert(v@.map_values(|a: String| a@) =~= seq![
        "-y"@,
        "-ss"@,
        seek_text(first_attempt),
        "-i"@,
        video@,
        "-vframes"@,
        "1"@,
        "-s"@,
        "320x180"@,
        "-f"@,
        "image2"@,
        output@,
    ]);
    v
}

/// A resolution text has exactly one `x`; the digits before it read back as
/// the width and the digits after it as the height.
pub proof fn law_resolution_reads_back(w: u32, h: u32)
    ensures
        ({
            let t = resolution_of(w, h);
            exists|k: int|
                0 < k < t.len() - 1 && #[trigger] t[k] == 'x' && is_digit_text(t.take(k)) && is_digit_text(
                    t.skip(k + 1),
                ) && digits_value(t.take(k)) == w && digits_value(t.skip(k + 1)) == h
        }),
        forall|i: int| 0 <= i < resolution_of(w, h).len() && #[trigger] resolution_of(w, h)[i] == 'x' ==> i
            == decimal(w as nat).len(),
{
    law_decimal_reads_back(w as nat);
    law_decimal_reads_back(h as nat);
    let t = resolution_of(w, h);
    let a = decimal(w as nat);
    let b = decimal(h as nat);
    let k = a.len() as int;
    assert(t.take(k) =~= a);
    assert(t.skip(k + 1) =~= b);
    assert(t[k] == 'x');
    assert forall|i: int| 0 <= i < t.len() && #[trigger] t[i] == 'x' implies i == k by {
        if i < k {
            assert(t[i] == a[i]);
        } else if i > k {
            assert(t[i] == b[i - k - 1]);
        }
    }
}

/// The character of the standard base64 alphabet for a 6-bit value.
pub open spec fn base64_digit(v: int) -> char {
    if v < 26 {
        (65 + v) as char
    } else if v < 52 {
        (97 + (v - 26)) as char
    } else if v < 62 {
        (48 + (v - 52)) as char
    } else if v == 62 {
        '+'
    } else {
        '/'
    }
}

/// Standard base64 (RFC 4648 alphabet, `=` padding): each group of three
/// bytes becomes four characters; a final group of one or two bytes is
/// padded to four characters.
pub open spec fn base64_of(b: Seq<u8>) -> Seq<char>
    decreases b.len(),
{
    if b.len() == 0 {
        seq![]
    } else if b.len() == 1 {
        seq![base64_digit((b[0] as int) / 4), base64_digit(((b[0] as int) % 4) * 16), '=', '=']
    } else if b.len() == 2 {
        seq![
            base64_digit((b[0] as int) / 4),
            base64_digit(((b[0] as int) % 4) * 16 + (b[1] as int) / 16),
            base64_digit(((b[1] as int) % 16) * 4),
            '=',
        ]
    } else {
        seq![
            base64_digit((b[0] as int) / 4),
            base64_digit(((b[0] as int) % 4) * 16 + (b[1] as int) / 16),
            base64_digit(((b[1] as int) % 16) * 4 + (b[2] as int) / 64),
            base64_digit((b[2] as int) % 64),
        ] + base64_of(b.skip(3))
    }
}

/// `base64::engine::general_purpose::STANDARD.encode`: the standard,
/// padded base64 text of `data`.  The contract states the encoding as
/// `base64_of`; the crate panics when the encoded length overflows `usize`,
/// which `requires` rules out.
#[verifier::external_body]
fn base64_standard(data: &[u8]) -> (res: String)
    requires
        4 * ((data@.len() + 2) / 3) <= usize::MAX,
    ensures
        res@ == base64_of(data@),
{
    base64::engine::general_purpose::STANDARD.encode(data)
}

/// The text form in which a thumbnail image is handed to the interface.
pub fn encode_thumbnail(image: &[u8]) -> (res: String)
    requires
        4 * ((image@.len() + 2) / 3) <= usize::MAX,
    ensures
        res@ == base64_of(image@),
{
    base64_standard(image)
}

/// Base64 text is four characters for every started group of three bytes.
pub proof fn law_base64_length(b: Seq<u8>)
    ensures
        base64_of(b).len() == 4 * ((b.len() + 2) / 3),
    decreases b.len(),
{
    if b.len() >= 3 {
        law_base64_length(b.skip(3));
    }
}

} // verus!

verus! {

/// The code point of the base64 character for a 6-bit value.
pub open spec fn base64_code(v: int) -> int {
    if v < 26 {
        65 + v
    } else if v < 52 {
        97 + (v - 26)
    } else if v < 62 {
        48 + (v - 52)
    } else if v == 62 {
        43
    } else {
        47
    }
}

proof fn lemma_base64_digit_code(v: int)
    requires
        0 <= v < 64,
    ensures
        base64_digit(v) as int == base64_code(v),
        base64_digit(v) != '=',
{
}

/// Distinct 6-bit values have distinct base64 characters.
proof fn lemma_base64_digit_injective(u: int, v: int)
    requires
        0 <= u < 64,
        0 <= v < 64,
        base64_digit(u) == base64_digit(v),
    ensures
        u == v,
{
    lemma_base64_digit_code(u);
    lemma_base64_digit_code(v);
}

proof fn lemma_bytes_from_digits(a0: u8, a1: u8, a2: u8, b0: u8, b1: u8, b2: u8)
    ensures
        a0 / 4 == b0 / 4 && (a0 % 4) * 16 + a1 / 16 == (b0 % 4) * 16 + b1 / 16 && (a1 % 16) * 4 + a2
            / 64 == (b1 % 16) * 4 + b2 / 64 && a2 % 64 == b2 % 64 ==> a0 == b0 && a1 == b1 && a2 == b2,
        a0 / 4 == b0 / 4 && (a0 % 4) * 16 + a1 / 16 == (b0 % 4) * 16 + b1 / 16 && (a1 % 16) * 4 == (b1
            % 16) * 4 ==> a0 == b0 && a1 == b1,
        a0 / 4 == b0 / 4 && (a0 % 4) * 16 == (b0 % 4) * 16 ==> a0 == b0,
{
    assert(a0 / 4 == b0 / 4 && (a0 % 4) * 16 + a1 / 16 == (b0 % 4) * 16 + b1 / 16 && (a1 % 16) * 4
        + a2 / 64 == (b1 % 16) * 4 + b2 / 64 && a2 % 64 == b2 % 64 ==> a0 == b0 && a1 == b1 && a2
        == b2) by (bit_vector);
    assert(a0 / 4 == b0 / 4 && (a0 % 4) * 16 + a1 / 16 == (b0 % 4) * 16 + b1 / 16 && (a1 % 16) * 4
        == (b1 % 16) * 4 ==> a0 == b0 && a1 == b1) by (bit_vector);
    assert(a0 / 4 == b0 / 4 && (a0 % 4) * 16 == (b0 % 4) * 16 ==> a0 == b0) by (bit_vector);
}

/// The 6-bit value of a character of the standard base64 alphabet.
pub open spec fn base64_value(c: char) -> int {
    let n = c as int;
    if 65 <= n <= 90 {
        n - 65
    } else if 97 <= n <= 122 {
        n - 97 + 26
    } else if 48 <= n <= 57 {
        n - 48 + 52
    } else if c == '+' {
        62
    } else {
        63
    }
}

/// Standard base64 decoding of well-formed text: each group of four
/// characters gives three bytes, or fewer where it ends in `=` padding.
pub open spec fn base64_decoded(t: Seq<char>) -> Seq<u8>
    decreases t.len(),
{
    if t.len() < 4 {
        seq![]
    } else {
        let (v0, v1, v2, v3) = (base64_value(t[0]), base64_value(t[1]), base64_value(t[2]), base64_value(t[3]));
        let b0 = (v0 * 4 + v1 / 16) as u8;
        let b1 = ((v1 % 16) * 16 + v2 / 4) as u8;
        if t[2] == '=' {
            seq![b0]
        } else if t[3] == '=' {
            seq![b0, b1]
        } else {
            seq![b0, b1, ((v2 % 4) * 64 + v3) as u8] + base64_decoded(t.skip(4))
        }
    }
}

proof fn lemma_base64_value_of_digit(v: int)
    requires
        0 <= v < 64,
    ensures
        base64_value(base64_digit(v)) == v,
{
    lemma_base64_digit_code(v);
}

proof fn lemma_bytes_of_digits(a0: u8, a1: u8, a2: u8)
    ensures
        (a0 / 4) * 4 + ((a0 % 4) * 16 + a1 / 16) / 16 == a0,
        (((a0 % 4) * 16 + a1 / 16) % 16) * 16 + ((a1 % 16) * 4 + a2 / 64) / 4 == a1,
        (((a1 % 16) * 4 + a2 / 64) % 4) * 64 + a2 % 64 == a2,
{
    assert((a0 / 4) * 4 + ((a0 % 4) * 16 + a1 / 16) / 16 == a0) by (bit_vector);
    assert((((a0 % 4) * 16 + a1 / 16) % 16) * 16 + ((a1 % 16) * 4 + a2 / 64) / 4 == a1) by (bit_vector);
    assert((((a1 % 16) * 4 + a2 / 64) % 4) * 64 + a2 % 64 == a2) by (bit_vector);
}

/// Decoding the base64 text of some bytes gives back those bytes: the text
/// handed to the interface for a thumbnail decodes to the image file.
pub proof fn law_base64_round_trip(b: Seq<u8>)
    ensures
        base64_decoded(base64_of(b)) == b,
    decreases b.len(),
{
    let t = base64_of(b);
    if b.len() == 0 {
        assert(base64_decoded(t) =~= b);
        return;
    }
    let a0 = b[0];
    let a1: u8 = if b.len() >= 2 { b[1] } else { 0 };
    let a2: u8 = if b.len() >= 3 { b[2] } else { 0 };
    lemma_bytes_of_digits(a0, a1, a2);
    let v0 = (a0 as int) / 4;
    let v1 = ((a0 as int) % 4) * 16 + (a1 as int) / 16;
    let v2 = ((a1 as int) % 16) * 4 + (a2 as int) / 64;
    let v3 = (a2 as int) % 64;
    lemma_base64_value_of_digit(v0);
    lemma_base64_value_of_digit(v1);
    lemma_base64_value_of_digit(v2);
    lemma_base64_value_of_digit(v3);
    lemma_base64_digit_code(v2);
    lemma_base64_digit_code(v3);
    if b.len() == 1 {
        assert(t[1] == base64_digit(v1));
        assert(base64_decoded(t) =~= b);
    } else if b.len() == 2 {
        assert(t[1] == base64_digit(v1));
        assert(t[2] == base64_digit(v2));
        assert(base64_decoded(t) =~= b);
    } else {
        assert(t[1] == base64_digit(v1));
        assert(t[2] == base64_digit(v2));
        assert(t[3] == base64_digit(v3));
        law_base64_round_trip(b.skip(3));
        assert(t.skip(4) =~= base64_of(b.skip(3)));
        assert(b =~= seq![a0, a1, a2] + b.skip(3));
        assert(base64_decoded(t) =~= b);
    }
}

/// Different byte sequences have different base64 texts, so the text of a
/// thumbnail determines its bytes.
pub proof fn law_base64_injective(a: Seq<u8>, b: Seq<u8>)
    requires
        base64_of(a) == base64_of(b),
    ensures
        a == b,
    decreases a.len(),
{
    let ea = base64_of(a);
    law_base64_length(a);
    law_base64_length(b);
    if a.len() == 0 || b.len() == 0 {
        assert(a.len() == 0 && b.len() == 0);
        assert(a =~= b);
        return;
    }
    // The first group of four characters.
    let a0 = a[0] as int;
    let b0 = b[0] as int;
    assert(ea[0] == base64_digit(a0 / 4));
    assert(ea[0] == base64_digit(b0 / 4));
    lemma_base64_digit_injective(a0 / 4, b0 / 4);
    if a.len() >= 3 && b.len() >= 3 {
        let (a1, a2, b1, b2) = (a[1] as int, a[2] as int, b[1] as int, b[2] as int);
        assert(ea[1] == base64_digit((a0 % 4) * 16 + a1 / 16));
        assert(ea[1] == base64_digit((b0 % 4) * 16 + b1 / 16));
        assert(ea[2] == base64_digit((a1 % 16) * 4 + a2 / 64));
        assert(ea[2] == base64_digit((b1 % 16) * 4 + b2 / 64));
        assert(ea[3] == base64_digit(a2 % 64));
        assert(ea[3] == base64_digit(b2 % 64));
        lemma_base64_digit_injective((a0 % 4) * 16 + a1 / 16, (b0 % 4) * 16 + b1 / 16);
        lemma_base64_digit_injective((a1 % 16) * 4 + a2 / 64, (b1 % 16) * 4 + b2 / 64);
        lemma_base64_digit_injective(a2 % 64, b2 % 64);
        lemma_bytes_from_digits(a[0], a[1], a[2], b[0], b[1], b[2]);
        assert(base64_of(a.skip(3)) =~= ea.skip(4));
        assert(base64_of(b.skip(3)) =~= ea.skip(4));
        law_base64_injective(a.skip(3), b.skip(3));
        assert(a =~= a.take(3) + a.skip(3));
        assert(b =~= b.take(3) + b.skip(3));
        assert(a.take(3) =~= b.take(3));
    } else if a.len() >= 3 || b.len() >= 3 {
        // One text has a digit where the other has padding.
        if a.len() >= 3 {
            lemma_base64_digit_code(a[2] as int % 64);
            assert(ea[3] == base64_digit(a[2] as int % 64));
        } else {
            lemma_base64_digit_code(b[2] as int % 64);
            assert(ea[3] == base64_digit(b[2] as int % 64));
        }
        assert(false);
    } else if a.len() == 2 && b.len() == 2 {
        let (a1, b1) = (a[1] as int, b[1] as int);
        assert(ea[1] == base64_digit((a0 % 4) * 16 + a1 / 16));
        assert(ea[1] == base64_digit((b0 % 4) * 16 + b1 / 16));
        assert(ea[2] == base64_digit((a1 % 16) * 4));
        assert(ea[2] == base64_digit((b1 % 16) * 4));
        lemma_base64_digit_injective((a0 % 4) * 16 + a1 / 16, (b0 % 4) * 16 + b1 / 16);
        lemma_base64_digit_injective((a1 % 16) * 4, (b1 % 16) * 4);
        lemma_bytes_from_digits(a[0], a[1], 0, b[0], b[1], 0);
        assert(a =~= b);
    } else if a.len() == 1 && b.len() == 1 {
        assert(ea[1] == base64_digit((a0 % 4) * 16));
        assert(ea[1] == base64_digit((b0 % 4) * 16));
        lemma_base64_digit_injective((a0 % 4) * 16, (b0 % 4) * 16);
        lemma_bytes_from_digits(a[0], 0, 0, b[0], 0, 0);
        assert(a =~= b);
    } else {
        // One byte against two: the third character is padding in one only.
        if a.len() == 2 {
            lemma_base64_digit_code((a[1] as int % 16) * 4);
        } else {
            lemma_base64_digit_code((b[1] as int % 16) * 4);
        }
        assert(false);
    }
}

} // verus!
