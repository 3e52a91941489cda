//! Track model: Matroska `TrackEntry` data, per-block content decompression, and the
//! mapping from Matroska codec IDs to the MSE codec strings used with
//! `MediaSource.isTypeSupported` / `SourceBuffer`.

use vstd::prelude::*;
use miniz_oxide::inflate::DecompressError;
use crate::bytes::{be_value, extend_bytes};
use crate::ebml::{EbmlIterator, EbmlPayload, EbmlSource, Ebml, PayloadView, spec_next, next_ok};
use crate::ids::{
    ID_AUDIO, ID_BITDEPTH, ID_CHANNELS, ID_CODECDELAY, ID_CODECID, ID_CODECNAME, ID_CODECPRIVATE,
    ID_CONTENTCOMPALGO, ID_CONTENTCOMPRESSION, ID_CONTENTCOMPSETTINGS, ID_CONTENTENCODING,
    ID_CONTENTENCODINGS, ID_DEFAULTDURATION, ID_DISPLAYHEIGHT, ID_DISPLAYWIDTH, ID_FLAGDEFAULT,
    ID_FLAGFORCED, ID_LANGUAGE, ID_LANGUAGEBCP47, ID_NAME, ID_PIXELHEIGHT, ID_PIXELWIDTH,
    ID_SAMPLINGFREQUENCY, ID_SEEKPREROLL, ID_TRACKENTRY, ID_TRACKNUMBER, ID_TRACKTYPE, ID_TRACKUID,
    ID_VIDEO,
};
use crate::text::{
    dec_digits, digit_char, hex2, hex_digits, push_digits, push_hex, push_hex2, push_str, push_zero_padded,
    zero_padded,
};

verus! {

/// A track's `ContentCompression` (`\...\ContentEncodings\ContentEncoding\ContentCompression`).
/// Matroska subtitle tracks are commonly zlib-compressed per block by mkvmerge; block payloads
/// must be decompressed before use. See [`decode_block_frame`].
#[derive(Debug, Clone)]
pub struct Compression {
    /// `ContentCompAlgo`: 0 = zlib, 1 = bzlib, 2 = lzo1x, 3 = header-strip.
    pub algo: u64,
    /// `ContentCompSettings`: for header-strip (algo 3), the bytes stripped from each frame.
    pub settings: Option<Vec<u8>>,
}

#[verifier::external_type_specification]
#[verifier::external_body]
pub struct ExDecompressError(DecompressError);

/// What zlib decompression of a byte string gives: the inflated bytes, or `None` when
/// the data is not a valid zlib stream.
pub uninterp spec fn zlib_inflate(data: Seq<u8>) -> Option<Seq<u8>>;

/// `miniz_oxide::inflate::decompress_to_vec_zlib`: the zlib stream inflated, or the
/// decompressor's error; which bytes come out is named, not stated.
#[verifier::external_body]
fn decompress_zlib(data: &[u8]) -> (r: Result<Vec<u8>, DecompressError>)
    ensures
        match r {
            Ok(v) => zlib_inflate(data@) == Some(v@),
            Err(_) => zlib_inflate(data@) is None,
        },
{
    miniz_oxide::inflate::decompress_to_vec_zlib(data)
}

/// The decoded frame: unchanged without compression; inflated for zlib (0); the
/// stripped header bytes put back for header-strip (3); nothing for any other
/// algorithm or for corrupt zlib data.
pub open spec fn spec_decode_block_frame(comp: Option<Compression>, frame: Seq<u8>) -> Option<Seq<u8>> {
    match comp {
        None => Some(frame),
        Some(c) => if c.algo == 0 {
            zlib_inflate(frame)
        } else if c.algo == 3 {
            Some(
                match c.settings {
                    Some(s) => s@,
                    None => Seq::empty(),
                } + frame,
            )
        } else {
            None
        },
    }
}

/// Decompress one block frame per a track's `ContentCompression`, or return it unchanged when
/// the track isn't compressed. Returns `None` for an unsupported algorithm or corrupt data
/// (caller drops the frame). Handles the two algorithms seen in the wild for subtitles: zlib
/// (0) and header-strip (3); bzlib/lzo1x (1/2) are unsupported.
pub fn decode_block_frame(comp: Option<&Compression>, frame: &[u8]) -> (r: Option<Vec<u8>>)
    ensures
        match r {
            Some(v) => spec_decode_block_frame(
                match comp {
                    Some(c) => Some(*c),
                    None => None,
                },
                frame@,
            ) == Some(v@),
            None => spec_decode_block_frame(
                match comp {
                    Some(c) => Some(*c),
                    None => None,
                },
                frame@,
            ) is None,
        },
{
    match comp {
        None => {
            let mut v: Vec<u8> = Vec::new();
            extend_bytes(&mut v, frame);
            Some(v)
        },
        Some(c) => {
            if c.algo == 0 {
                match decompress_zlib(frame) {
                    Ok(v) => Some(v),
                    Err(_) => None,
                }
            } else if c.algo == 3 {
                let mut out: Vec<u8> = Vec::new();
                match &c.settings {
                    Some(s) => extend_bytes(&mut out, s.as_slice()),
                    None => {},
                }
                extend_bytes(&mut out, frame);
                Some(out)
            } else {
                None
            }
        },
    }
}

/// Matroska `TrackType` values (`\Segment\Tracks\TrackEntry\TrackType`).
#[derive(Debug, Clone, Copy, PartialEq, Eq, Structural)]
pub enum TrackType {
    Video,
    Audio,
    Complex,
    Logo,
    Subtitle,
    Buttons,
    Control,
    Metadata,
}

/// The track type a `TrackType` number stands for.
pub open spec fn spec_track_type(value: u64) -> Option<TrackType> {
    if value == 1 {
        Some(TrackType::Video)
    } else if value == 2 {
        Some(TrackType::Audio)
    } else if value == 3 {
        Some(TrackType::Complex)
    } else if value == 16 {
        Some(TrackType::Logo)
    } else if value == 17 {
        Some(TrackType::Subtitle)
    } else if value == 18 {
        Some(TrackType::Buttons)
    } else if value == 32 {
        Some(TrackType::Control)
    } else if value == 33 {
        Some(TrackType::Metadata)
    } else {
        None
    }
}

impl TrackType {
    pub fn from_u64(value: u64) -> (r: Option<Self>)
        ensures
            r == spec_track_type(value),
    {
        if value == 1 {
            Some(TrackType::Video)
        } else if value == 2 {
            Some(TrackType::Audio)
        } else if value == 3 {
            Some(TrackType::Complex)
        } else if value == 16 {
            Some(TrackType::Logo)
        } else if value == 17 {
            Some(TrackType::Subtitle)
        } else if value == 18 {
            Some(TrackType::Buttons)
        } else if value == 32 {
            Some(TrackType::Control)
        } else if value == 33 {
            Some(TrackType::Metadata)
        } else {
            None
        }
    }

    /// The track type of an 8-bit `TrackType` number.
    pub fn try_from(value: u8) -> (r: Result<Self, ()>)
        ensures
            match spec_track_type(value as u64) {
                Some(t) => r == Ok::<TrackType, ()>(t),
                None => r is Err,
            },
    {
        match TrackType::from_u64(value as u64) {
            Some(t) => Ok(t),
            None => Err(()),
        }
    }

    pub open spec fn spec_as_str(self) -> Seq<char> {
        match self {
            TrackType::Video => "video"@,
            TrackType::Audio => "audio"@,
            TrackType::Subtitle => "subtitle"@,
            TrackType::Complex => "complex"@,
            TrackType::Logo => "logo"@,
            TrackType::Buttons => "buttons"@,
            TrackType::Control => "control"@,
            TrackType::Metadata => "metadata"@,
        }
    }

    /// Stable lowercase tag used in the JSON handed to JS.
    pub fn as_str(&self) -> (r: &'static str)
        ensures
            r@ == self.spec_as_str(),
    {
        match self {
            TrackType::Video => "video",
            TrackType::Audio => "audio",
            TrackType::Subtitle => "subtitle",
            TrackType::Complex => "complex",
            TrackType::Logo => "logo",
            TrackType::Buttons => "buttons",
            TrackType::Control => "control",
            TrackType::Metadata => "metadata",
        }
    }
}

/// One track's `TrackEntry` fields.
#[derive(Debug, Clone)]
pub struct TrackData {
    pub track_number: Option<u64>,
    pub track_uid: Option<u64>,
    pub track_type: Option<TrackType>,
    pub codec_id: Option<String>,
    pub codec_private: Option<Vec<u8>>,
    pub codec_name: Option<String>,
    /// Human-readable track title (`Name` element), e.g. "Signs & Songs", "English (SDH)".
    pub name: Option<String>,
    /// Nanoseconds per frame (`DefaultDuration`). Needed for sample durations.
    pub default_duration: Option<u64>,
    pub language: Option<String>,
    pub language_bcp47: Option<String>,
    pub flag_default: bool,
    pub flag_forced: bool,
    // Video
    pub pixel_width: Option<u64>,
    pub pixel_height: Option<u64>,
    pub display_width: Option<u64>,
    pub display_height: Option<u64>,
    // Audio
    /// `SamplingFrequency` as stored: the big-endian IEEE-754 bytes (4 or 8, or none).
    pub sampling_frequency: Option<Vec<u8>>,
    pub channels: Option<u64>,
    pub bit_depth: Option<u64>,
    /// `CodecDelay` / `SeekPreroll` in nanoseconds (Opus).
    pub codec_delay: Option<u64>,
    pub seek_preroll: Option<u64>,
    /// Per-block content compression, if any (subtitle tracks are often zlib-compressed).
    pub compression: Option<Compression>,
}

/// A track with no fields set.
pub open spec fn empty_track() -> TrackData {
    TrackData {
        track_number: None,
        track_uid: None,
        track_type: None,
        codec_id: None,
        codec_private: None,
        codec_name: None,
        name: None,
        default_duration: None,
        language: None,
        language_bcp47: None,
        flag_default: false,
        flag_forced: false,
        pixel_width: None,
        pixel_height: None,
        display_width: None,
        display_height: None,
        sampling_frequency: None,
        channels: None,
        bit_depth: None,
        codec_delay: None,
        seek_preroll: None,
        compression: None,
    }
}

impl Default for TrackData {
    fn default() -> (r: Self)
        ensures
            r == empty_track(),
    {
        TrackData {
            track_number: None,
            track_uid: None,
            track_type: None,
            codec_id: None,
            codec_private: None,
            codec_name: None,
            name: None,
            default_duration: None,
            language: None,
            language_bcp47: None,
            flag_default: false,
            flag_forced: false,
            pixel_width: None,
            pixel_height: None,
            display_width: None,
            display_height: None,
            sampling_frequency: None,
            channels: None,
            bit_depth: None,
            codec_delay: None,
            seek_preroll: None,
            compression: None,
        }
    }
}

/// Whether an optional string is present and equal to a given text.
pub open spec fn is_text(s: Option<String>, t: Seq<char>) -> bool {
    s matches Some(v) && v@ == t
}

/// `s == lit`.
fn string_is(s: &String, lit: &str) -> (r: bool)
    ensures
        r == (s@ == lit@),
{
    let t = String::from_str(lit);
    *s == t
}

impl TrackData {
    /// BCP-47 language, preferring `LanguageBCP47`, then the legacy ISO-639
    /// `Language`, then the Matroska default `eng`.
    pub open spec fn spec_language_tag(&self) -> Seq<char> {
        match self.language_bcp47 {
            Some(s) => s@,
            None => match self.language {
                Some(s) => s@,
                None => "eng"@,
            },
        }
    }

    pub fn language_tag(&self) -> (r: &str)
        ensures
            r@ == self.spec_language_tag(),
    {
        match &self.language_bcp47 {
            Some(s) => s.as_str(),
            None => match &self.language {
                Some(s) => s.as_str(),
                None => "eng",
            },
        }
    }

    /// fMP4 sample-entry FourCC for the codec.
    pub open spec fn spec_sample_entry(&self) -> Option<Seq<char>> {
        if is_text(self.codec_id, "V_MPEG4/ISO/AVC"@) {
            Some("avc1"@)
        } else if is_text(self.codec_id, "V_MPEGH/ISO/HEVC"@) {
            Some("hvc1"@)
        } else if is_text(self.codec_id, "V_VP9"@) {
            Some("vp09"@)
        } else if is_text(self.codec_id, "V_AV1"@) {
            Some("av01"@)
        } else if is_text(self.codec_id, "A_AAC"@) {
            Some("mp4a"@)
        } else if is_text(self.codec_id, "A_OPUS"@) {
            Some("Opus"@)
        } else if is_text(self.codec_id, "A_AC3"@) {
            Some("ac-3"@)
        } else if is_text(self.codec_id, "A_EAC3"@) {
            Some("ec-3"@)
        } else if is_text(self.codec_id, "A_FLAC"@) {
            Some("fLaC"@)
        } else if is_text(self.codec_id, "A_MPEG/L3"@) {
            Some("mp4a"@)
        } else {
            None
        }
    }

    /// fMP4 sample-entry FourCC for this codec (`avc1`, `hvc1`, `mp4a`, ...).
    pub fn sample_entry(&self) -> (r: Option<&'static str>)
        ensures
            match r {
                Some(s) => self.spec_sample_entry() == Some(s@),
                None => self.spec_sample_entry() is None,
            },
    {
        let id = match &self.codec_id {
            Some(id) => id,
            None => return None,
        };
        if string_is(id, "V_MPEG4/ISO/AVC") {
            Some("avc1")
        } else if string_is(id, "V_MPEGH/ISO/HEVC") {
            Some("hvc1")
        } else if string_is(id, "V_VP9") {
            Some("vp09")
        } else if string_is(id, "V_AV1") {
            Some("av01")
        } else if string_is(id, "A_AAC") {
            Some("mp4a")
        } else if string_is(id, "A_OPUS") {
            Some("Opus")
        } else if string_is(id, "A_AC3") {
            Some("ac-3")
        } else if string_is(id, "A_EAC3") {
            Some("ec-3")
        } else if string_is(id, "A_FLAC") {
            Some("fLaC")
        } else if string_is(id, "A_MPEG/L3") {
            Some("mp4a")
        } else {
            None
        }
    }
}


// ----------------------------------------------------------------------------
// Codec strings
// ----------------------------------------------------------------------------

/// `avc1.PPCCLL` from the AVCDecoderConfigurationRecord (bytes 1..=3).
pub open spec fn spec_avc_codec_string(avcc: Seq<u8>) -> Seq<char> {
    if avcc.len() >= 4 {
        "avc1."@ + hex2(avcc[1]) + hex2(avcc[2]) + hex2(avcc[3])
    } else {
        "avc1.640028"@
    }
}

fn avc_codec_string(avcc: &[u8]) -> (r: String)
    ensures
        r@ == spec_avc_codec_string(avcc@),
{
    if avcc.len() >= 4 {
        let mut out = String::new();
        push_str(&mut out, "avc1.");
        push_hex2(&mut out, avcc[1]);
        push_hex2(&mut out, avcc[2]);
        push_hex2(&mut out, avcc[3]);
        out
    } else {
        String::from_str("avc1.640028")
    }
}

/// The AAC object type: the top five bits of the AudioSpecificConfig, LC (2) when
/// the config is missing or the field is zero.
pub open spec fn aac_object_type(asc: Option<Seq<u8>>) -> nat {
    match asc {
        Some(b) => if b.len() > 0 && b[0] / 8 != 0 {
            (b[0] / 8) as nat
        } else {
            2
        },
        None => 2,
    }
}

/// `mp4a.40.N` where N is the AAC object type.
pub open spec fn spec_aac_codec_string(asc: Option<Seq<u8>>) -> Seq<char> {
    "mp4a.40."@ + dec_digits(aac_object_type(asc))
}

fn aac_codec_string(asc: Option<&[u8]>) -> (r: String)
    ensures
        r@ == spec_aac_codec_string(
            match asc {
                Some(b) => Some(b@),
                None => None,
            },
        ),
{
    let object_type: u64 = match asc {
        Some(b) => if b.len() > 0 && b[0] / 8 != 0 {
            (b[0] / 8) as u64
        } else {
            2
        },
        None => 2,
    };
    let mut out = String::new();
    push_str(&mut out, "mp4a.40.");
    push_digits(&mut out, object_type);
    out
}

/// `av01.P.LLT.DD` from the av1C record: profile, level, tier (`M`/`H`) and bit depth;
/// a Main-profile 8-bit string when the record is missing or short.
pub open spec fn spec_av1_codec_string(av1c: Option<Seq<u8>>) -> Seq<char> {
    match av1c {
        Some(c) => if c.len() >= 3 {
            let seq_profile = (c[1] / 32) as nat;
            let seq_level = (c[1] % 32) as nat;
            let tier = if c[2] >= 128 { "H"@ } else { "M"@ };
            let twelve_bit = (c[2] / 32) % 2 == 1;
            let high_bitdepth = (c[2] / 64) % 2 == 1;
            let bit_depth: nat = if twelve_bit { 12 } else if high_bitdepth { 10 } else { 8 };
            "av01."@ + dec_digits(seq_profile) + "."@ + zero_padded(seq_level, 2) + tier + "."@
                + zero_padded(bit_depth, 2)
        } else {
            "av01.0.04M.08"@
        },
        None => "av01.0.04M.08"@,
    }
}

/// The bit depth an av1C record names closes the AV1 codec string: `12` when its
/// `twelve_bit` flag (bit 0x20 of byte 2) is set, else `10` when `high_bitdepth` (bit
/// 0x40) is, else `08`.
pub proof fn lemma_av1_bit_depth(c: Seq<u8>)
    requires
        c.len() >= 3,
    ensures
        ({
            let s = spec_av1_codec_string(Some(c));
            &&& s.len() >= 2
            &&& s.subrange(s.len() - 2, s.len() as int) == if c[2] & 0x20 != 0 {
                seq!['1', '2']
            } else if c[2] & 0x40 != 0 {
                seq!['1', '0']
            } else {
                seq!['0', '8']
            }
            &&& s.len() >= 7
            &&& s[s.len() - 3] == '.'
            &&& s[s.len() - 4] == if c[2] & 0x80 != 0 { 'H' } else { 'M' }
            &&& s[s.len() - 6] == digit_char(((c[1] & 0x1f) / 10) as nat)
            &&& s[s.len() - 5] == digit_char(((c[1] & 0x1f) % 10) as nat)
        }),
{
    let b = c[2];
    assert(((b / 32) % 2 == 1) == (b & 0x20 != 0)) by (bit_vector);
    assert(((b / 64) % 2 == 1) == (b & 0x40 != 0)) by (bit_vector);
    reveal_with_fuel(dec_digits, 2);
    assert(zero_padded(12, 2) =~= seq!['1', '2']);
    assert(zero_padded(10, 2) =~= seq!['1', '0']);
    assert(zero_padded(8, 2) =~= seq!['0', '8']);
    let s = spec_av1_codec_string(Some(c));
    let twelve_bit = (c[2] / 32) % 2 == 1;
    let high_bitdepth = (c[2] / 64) % 2 == 1;
    let bit_depth: nat = if twelve_bit { 12 } else if high_bitdepth { 10 } else { 8 };
    let tail = zero_padded(bit_depth, 2);
    assert(tail.len() == 2);
    let level = (c[1] % 32) as nat;
    let b1 = c[1];
    assert((b1 & 0x1f) == b1 % 32) by (bit_vector);
    assert((b & 0x80 != 0) == (b >= 128)) by (bit_vector);
    assert(zero_padded(level, 2) =~= seq![digit_char(level / 10), digit_char(level % 10)]);
    let tier = if c[2] >= 128 { "H"@ } else { "M"@ };
    reveal_strlit("H");
    reveal_strlit("M");
    reveal_strlit(".");
    let front = "av01."@ + dec_digits((c[1] / 32) as nat) + "."@;
    assert(s =~= front + zero_padded(level, 2) + tier + "."@ + tail);
    assert(s.subrange(s.len() - 2, s.len() as int) =~= tail);
}

fn av1_codec_string(av1c: Option<&[u8]>) -> (r: String)
    ensures
        r@ == spec_av1_codec_string(
            match av1c {
                Some(b) => Some(b@),
                None => None,
            },
        ),
{
    if let Some(c) = av1c {
        if c.len() >= 3 {
            let seq_profile = (c[1] / 32) as u64;
            let seq_level = (c[1] % 32) as u64;
            let twelve_bit = (c[2] / 32) % 2 == 1;
            let high_bitdepth = (c[2] / 64) % 2 == 1;
            let bit_depth: u64 = if twelve_bit { 12 } else if high_bitdepth { 10 } else { 8 };
            let mut out = String::new();
            push_str(&mut out, "av01.");
            push_digits(&mut out, seq_profile);
            push_str(&mut out, ".");
            push_zero_padded(&mut out, seq_level, 2);
            if c[2] >= 128 {
                push_str(&mut out, "H");
            } else {
                push_str(&mut out, "M");
            }
            push_str(&mut out, ".");
            push_zero_padded(&mut out, bit_depth, 2);
            return out;
        }
    }
    String::from_str("av01.0.04M.08")
}

/// The 32-bit value with its bit order reversed: `r` collects the bits of `y` from
/// the lowest up, `k` bits to go.
pub open spec fn reverse_bits_acc(y: nat, r: nat, k: nat) -> nat
    decreases k,
{
    if k == 0 {
        r
    } else {
        reverse_bits_acc(y / 2, r * 2 + y % 2, (k - 1) as nat)
    }
}

pub open spec fn reverse_bits32(x: u32) -> nat {
    reverse_bits_acc(x as nat, 0, 32)
}

proof fn lemma_reverse_bound(y: nat, r: nat, k: nat, i: nat)
    requires
        r < vstd::arithmetic::power2::pow2(i),
        i + k == 32,
    ensures
        reverse_bits_acc(y, r, k) < 0x1_0000_0000,
    decreases k,
{
    vstd::arithmetic::power2::lemma2_to64();
    if k > 0 {
        vstd::arithmetic::power2::lemma_pow2_unfold(i + 1);
        lemma_reverse_bound(y / 2, r * 2 + y % 2, (k - 1) as nat, i + 1);
    }
}

fn reverse_bits(x: u32) -> (r: u32)
    ensures
        r == reverse_bits32(x),
{
    let mut y: u32 = x;
    let mut r: u64 = 0;
    let mut i: u32 = 0;
    proof {
        vstd::arithmetic::power2::lemma2_to64();
    }
    while i < 32
        invariant
            i <= 32,
            r < vstd::arithmetic::power2::pow2(i as nat),
            reverse_bits_acc(y as nat, r as nat, (32 - i) as nat) == reverse_bits32(x),
        decreases 32 - i,
    {
        proof {
            vstd::arithmetic::power2::lemma_pow2_unfold((i + 1) as nat);
            vstd::arithmetic::power2::lemma2_to64();
            vstd::arithmetic::power2::lemma_pow2_strictly_increases(i as nat, 32);
        }
        r = r * 2 + (y % 2) as u64;
        y = y / 2;
        i += 1;
    }
    proof {
        vstd::arithmetic::power2::lemma2_to64();
    }
    r as u32
}

/// How many leading bytes run up to the last nonzero one.
pub open spec fn significant_len(cs: Seq<u8>) -> nat
    decreases cs.len(),
{
    if cs.len() == 0 {
        0
    } else if cs.last() != 0 {
        cs.len()
    } else {
        significant_len(cs.drop_last())
    }
}

/// `.XX` for each byte.
pub open spec fn dotted_hex(cs: Seq<u8>) -> Seq<char>
    decreases cs.len(),
{
    if cs.len() == 0 {
        Seq::empty()
    } else {
        dotted_hex(cs.drop_last()) + "."@ + hex2(cs.last())
    }
}

/// `hvc1.<space><profile>.<compat>.<tier><level><constraints>` from the
/// HEVCDecoderConfigurationRecord (ISO 14496-15): profile space as `A`/`B`/`C` (none
/// for 0), the compatibility flags bit-reversed in hexadecimal, tier `L`/`H`, and the
/// constraint bytes up to the last nonzero one, each as `.XX`.
pub open spec fn spec_hevc_codec_string(h: Seq<u8>) -> Seq<char> {
    if h.len() < 13 {
        "hvc1.1.6.L93.B0"@
    } else {
        let profile_space = h[1] / 64;
        let space_prefix = if profile_space == 0 {
            ""@
        } else if profile_space == 1 {
            "A"@
        } else if profile_space == 2 {
            "B"@
        } else {
            "C"@
        };
        let tier = if (h[1] / 32) % 2 == 1 { "H"@ } else { "L"@ };
        let compat = be_value(h.subrange(2, 6)) as u32;
        let constraints = h.subrange(6, 12);
        "hvc1."@ + space_prefix + dec_digits((h[1] % 32) as nat) + "."@ + hex_digits(
            reverse_bits32(compat),
        ) + "."@ + tier + dec_digits(h[12] as nat) + dotted_hex(
            constraints.take(significant_len(constraints) as int),
        )
    }
}

fn significant_count(cs: &[u8]) -> (n: usize)
    ensures
        n == significant_len(cs@),
        n <= cs@.len(),
{
    let mut n: usize = cs.len();
    proof {
        assert(cs@.take(cs@.len() as int) =~= cs@);
    }
    while n > 0 && cs[n - 1] == 0
        invariant
            n <= cs@.len(),
            significant_len(cs@) == significant_len(cs@.take(n as int)),
        decreases n,
    {
        proof {
            assert(cs@.take(n as int).drop_last() =~= cs@.take(n - 1));
        }
        n -= 1;
    }
    proof {
        if n > 0 {
            assert(cs@.take(n as int).last() == cs@[n - 1]);
        }
        assert(cs@.take(cs@.len() as int) =~= cs@);
    }
    n
}

fn hevc_codec_string(hvcc: &[u8]) -> (r: String)
    ensures
        r@ == spec_hevc_codec_string(hvcc@),
{
    if hvcc.len() < 13 {
        return String::from_str("hvc1.1.6.L93.B0");
    }
    let profile_space = hvcc[1] / 64;
    let tier_flag = (hvcc[1] / 32) % 2;
    let profile_idc = hvcc[1] % 32;
    let compat_bytes: [u8; 4] = [hvcc[2], hvcc[3], hvcc[4], hvcc[5]];
    proof {
        assert(compat_bytes@ =~= hvcc@.subrange(2, 6));
        crate::bytes::lemma_be_value_bound(hvcc@.subrange(2, 6));
        reveal_with_fuel(crate::bytes::pow256, 5);
    }
    let compat = crate::bytes::fold_be(&compat_bytes) as u32;
    let compat_rev = reverse_bits(compat);
    let level = hvcc[12];
    let constraints = crate::bytes::slice_to_vec(hvcc, 6, 12);
    let sig = significant_count(constraints.as_slice());

    let mut out = String::new();
    push_str(&mut out, "hvc1.");
    if profile_space == 0 {
        push_str(&mut out, "");
    } else if profile_space == 1 {
        push_str(&mut out, "A");
    } else if profile_space == 2 {
        push_str(&mut out, "B");
    } else {
        push_str(&mut out, "C");
    }
    push_digits(&mut out, profile_idc as u64);
    push_str(&mut out, ".");
    push_hex(&mut out, compat_rev as u64);
    push_str(&mut out, ".");
    if tier_flag == 1 {
        push_str(&mut out, "H");
    } else {
        push_str(&mut out, "L");
    }
    push_digits(&mut out, level as u64);
    let ghost head = out@;
    let mut i: usize = 0;
    while i < sig
        invariant
            i <= sig <= constraints@.len(),
            out@ == head + dotted_hex(constraints@.take(i as int)),
        decreases sig - i,
    {
        push_str(&mut out, ".");
        push_hex2(&mut out, constraints[i]);
        i += 1;
        proof {
            assert(constraints@.take(i as int).drop_last() =~= constraints@.take(i - 1));
        }
    }
    out
}

/// The VP9 codec feature fields in CodecPrivate (`[id][len][value...]` records: 1 =
/// profile, 2 = level, 3 = bit depth), each record's first value byte taken when the
/// whole record is present, scanning from `i` with `(profile, level, depth)` so far.
pub open spec fn vp9_scan(cp: Seq<u8>, i: nat, acc: (u8, Option<u8>, u8)) -> (u8, Option<u8>, u8)
    decreases (if i <= cp.len() {
        cp.len() - i + 1
    } else {
        0
    }),
{
    if i + 2 > cp.len() {
        acc
    } else {
        let id = cp[i as int];
        let len = cp[i + 1int] as nat;
        let acc2 = if i + 2 + len <= cp.len() && len >= 1 {
            let v = cp[i + 2int];
            if id == 1 {
                (v, acc.1, acc.2)
            } else if id == 2 {
                (acc.0, Some(v), acc.2)
            } else if id == 3 {
                (acc.0, acc.1, v)
            } else {
                acc
            }
        } else {
            acc
        };
        vp9_scan(cp, i + 2 + len, acc2)
    }
}

/// `vp09.PP.LL.DD`: profile (default 0), level (default `fallback_level`) and bit
/// depth (default 8) from CodecPrivate.
pub open spec fn spec_vp9_codec_string(cp: Option<Seq<u8>>, fallback_level: u8) -> Seq<char> {
    let f = match cp {
        Some(c) => vp9_scan(c, 0, (0, None, 8)),
        None => (0u8, None, 8u8),
    };
    let level = match f.1 {
        Some(l) => l,
        None => fallback_level,
    };
    "vp09."@ + zero_padded(f.0 as nat, 2) + "."@ + zero_padded(level as nat, 2) + "."@
        + zero_padded(f.2 as nat, 2)
}

fn vp9_fields(cp: &[u8]) -> (r: (u8, Option<u8>, u8))
    ensures
        r == vp9_scan(cp@, 0, (0, None, 8)),
{
    let mut profile: u8 = 0;
    let mut level: Option<u8> = None;
    let mut bit_depth: u8 = 8;
    let mut i: u128 = 0;
    let n = cp.len() as u128;
    while i + 2 <= n
        invariant
            n == cp@.len(),
            n <= usize::MAX,
            i <= n + 257,
            vp9_scan(cp@, i as nat, (profile, level, bit_depth)) == vp9_scan(cp@, 0, (0, None, 8)),
        decreases (if i <= n {
            n - i + 1
        } else {
            0
        }),
    {
        let id = cp[i as usize];
        let len = cp[(i + 1) as usize] as u128;
        if i + 2 + len <= n && len >= 1 {
            let v = cp[(i + 2) as usize];
            if id == 1 {
                profile = v;
            } else if id == 2 {
                level = Some(v);
            } else if id == 3 {
                bit_depth = v;
            }
        }
        i = i + 2 + len;
    }
    (profile, level, bit_depth)
}

impl TrackData {
    /// `vp09.PP.LL.DD` for VP9, from the codec feature metadata in CodecPrivate when
    /// present; the level falls back to `fallback_level` (computed by the caller from
    /// the frame size and rate).
    pub fn vp9_codec_string(&self, fallback_level: u8) -> (r: String)
        ensures
            r@ == spec_vp9_codec_string(
                match self.codec_private {
                    Some(c) => Some(c@),
                    None => None,
                },
                fallback_level,
            ),
    {
        let (profile, level, bit_depth) = match &self.codec_private {
            Some(cp) => vp9_fields(cp.as_slice()),
            None => (0u8, None, 8u8),
        };
        let level = match level {
            Some(l) => l,
            None => fallback_level,
        };
        let mut out = String::new();
        push_str(&mut out, "vp09.");
        push_zero_padded(&mut out, profile as u64, 2);
        push_str(&mut out, ".");
        push_zero_padded(&mut out, level as u64, 2);
        push_str(&mut out, ".");
        push_zero_padded(&mut out, bit_depth as u64, 2);
        out
    }

    pub open spec fn private_view(&self) -> Option<Seq<u8>> {
        match self.codec_private {
            Some(c) => Some(c@),
            None => None,
        }
    }

    /// RFC 6381 codec parameter (e.g. `avc1.640028`, `mp4a.40.2`), or `None` if the
    /// codec is not supported by the muxer (or its required CodecPrivate is missing).
    #[verifier::opaque]
    pub open spec fn spec_codec_string(&self, vp9_level: u8) -> Option<Seq<char>> {
        let cp = self.private_view();
        if is_text(self.codec_id, "V_MPEG4/ISO/AVC"@) {
            match cp {
                Some(c) => Some(spec_avc_codec_string(c)),
                None => None,
            }
        } else if is_text(self.codec_id, "V_MPEGH/ISO/HEVC"@) {
            match cp {
                Some(c) => Some(spec_hevc_codec_string(c)),
                None => None,
            }
        } else if is_text(self.codec_id, "V_VP9"@) {
            Some(spec_vp9_codec_string(cp, vp9_level))
        } else if is_text(self.codec_id, "V_AV1"@) {
            Some(spec_av1_codec_string(cp))
        } else if is_text(self.codec_id, "A_AAC"@) {
            Some(spec_aac_codec_string(cp))
        } else if is_text(self.codec_id, "A_OPUS"@) {
            Some("opus"@)
        } else if is_text(self.codec_id, "A_AC3"@) {
            Some("ac-3"@)
        } else if is_text(self.codec_id, "A_EAC3"@) {
            Some("ec-3"@)
        } else if is_text(self.codec_id, "A_FLAC"@) {
            Some("flac"@)
        } else if is_text(self.codec_id, "A_MPEG/L3"@) {
            Some("mp4a.6B"@)
        } else {
            None
        }
    }

    /// RFC 6381 codec parameter; `vp9_level` is the level a VP9 track reports when
    /// its CodecPrivate does not say.
    pub fn codec_string(&self, vp9_level: u8) -> (r: Option<String>)
        ensures
            match r {
                Some(s) => self.spec_codec_string(vp9_level) == Some(s@),
                None => self.spec_codec_string(vp9_level) is None,
            },
    {
        reveal(TrackData::spec_codec_string);
        let id = match &self.codec_id {
            Some(id) => id,
            None => return None,
        };
        if string_is(id, "V_MPEG4/ISO/AVC") {
            match &self.codec_private {
                Some(c) => Some(avc_codec_string(c.as_slice())),
                None => None,
            }
        } else if string_is(id, "V_MPEGH/ISO/HEVC") {
            match &self.codec_private {
                Some(c) => Some(hevc_codec_string(c.as_slice())),
                None => None,
            }
        } else if string_is(id, "V_VP9") {
            Some(self.vp9_codec_string(vp9_level))
        } else if string_is(id, "V_AV1") {
            Some(
                av1_codec_string(
                    match &self.codec_private {
                        Some(c) => Some(c.as_slice()),
                        None => None,
                    },
                ),
            )
        } else if string_is(id, "A_AAC") {
            Some(
                aac_codec_string(
                    match &self.codec_private {
                        Some(c) => Some(c.as_slice()),
                        None => None,
                    },
                ),
            )
        } else if string_is(id, "A_OPUS") {
            Some(String::from_str("opus"))
        } else if string_is(id, "A_AC3") {
            Some(String::from_str("ac-3"))
        } else if string_is(id, "A_EAC3") {
            Some(String::from_str("ec-3"))
        } else if string_is(id, "A_FLAC") {
            Some(String::from_str("flac"))
        } else if string_is(id, "A_MPEG/L3") {
            Some(String::from_str("mp4a.6B"))
        } else {
            None
        }
    }

    /// `video/mp4; codecs="..."` / `audio/mp4; codecs="..."` for `isTypeSupported`,
    /// or `None` for tracks that are not muxed into MP4 (subtitles, unknown codecs).
    #[verifier::opaque]
    pub open spec fn spec_mime_type(&self, vp9_level: u8) -> Option<Seq<char>> {
        match self.spec_codec_string(vp9_level) {
            None => None,
            Some(codec) => match self.track_type {
                Some(TrackType::Video) => Some("video/mp4"@ + "; codecs=\""@ + codec + "\""@),
                Some(TrackType::Audio) => Some("audio/mp4"@ + "; codecs=\""@ + codec + "\""@),
                _ => None,
            },
        }
    }

    pub fn mime_type(&self, vp9_level: u8) -> (r: Option<String>)
        ensures
            match r {
                Some(s) => self.spec_mime_type(vp9_level) == Some(s@),
                None => self.spec_mime_type(vp9_level) is None,
            },
    {
        reveal(TrackData::spec_mime_type);
        let codec = match self.codec_string(vp9_level) {
            Some(c) => c,
            None => return None,
        };
        let container: &str = match self.track_type {
            Some(TrackType::Video) => "video/mp4",
            Some(TrackType::Audio) => "audio/mp4",
            _ => return None,
        };
        let mut out = String::new();
        push_str(&mut out, container);
        push_str(&mut out, "; codecs=\"");
        push_str(&mut out, codec.as_str());
        push_str(&mut out, "\"");
        Some(out)
    }
}


// ----------------------------------------------------------------------------
// TrackEntry parsing
// ----------------------------------------------------------------------------

/// A track as a value.
pub struct TrackView {
    pub track_number: Option<u64>,
    pub track_uid: Option<u64>,
    pub track_type: Option<TrackType>,
    pub codec_id: Option<Seq<char>>,
    pub codec_private: Option<Seq<u8>>,
    pub codec_name: Option<Seq<char>>,
    pub name: Option<Seq<char>>,
    pub default_duration: Option<u64>,
    pub language: Option<Seq<char>>,
    pub language_bcp47: Option<Seq<char>>,
    pub flag_default: bool,
    pub flag_forced: bool,
    pub pixel_width: Option<u64>,
    pub pixel_height: Option<u64>,
    pub display_width: Option<u64>,
    pub display_height: Option<u64>,
    pub sampling_frequency: Option<Seq<u8>>,
    pub channels: Option<u64>,
    pub bit_depth: Option<u64>,
    pub codec_delay: Option<u64>,
    pub seek_preroll: Option<u64>,
    /// `(algo, settings)`
    pub compression: Option<(u64, Option<Seq<u8>>)>,
}

pub open spec fn opt_text(s: Option<String>) -> Option<Seq<char>> {
    match s {
        Some(t) => Some(t@),
        None => None,
    }
}

pub open spec fn opt_bytes(s: Option<Vec<u8>>) -> Option<Seq<u8>> {
    match s {
        Some(t) => Some(t@),
        None => None,
    }
}

impl Compression {
    pub open spec fn view(&self) -> (u64, Option<Seq<u8>>) {
        (self.algo, opt_bytes(self.settings))
    }
}

impl TrackData {
    pub open spec fn view(&self) -> TrackView {
        TrackView {
            track_number: self.track_number,
            track_uid: self.track_uid,
            track_type: self.track_type,
            codec_id: opt_text(self.codec_id),
            codec_private: opt_bytes(self.codec_private),
            codec_name: opt_text(self.codec_name),
            name: opt_text(self.name),
            default_duration: self.default_duration,
            language: opt_text(self.language),
            language_bcp47: opt_text(self.language_bcp47),
            flag_default: self.flag_default,
            flag_forced: self.flag_forced,
            pixel_width: self.pixel_width,
            pixel_height: self.pixel_height,
            display_width: self.display_width,
            display_height: self.display_height,
            sampling_frequency: opt_bytes(self.sampling_frequency),
            channels: self.channels,
            bit_depth: self.bit_depth,
            codec_delay: self.codec_delay,
            seek_preroll: self.seek_preroll,
            compression: match self.compression {
                Some(c) => Some(c.view()),
                None => None,
            },
        }
    }
}

/// A `Video` element's fields applied to `acc`.
pub open spec fn video_fields<S: EbmlSource>(e: &Ebml<S>, cur: u64, end: Option<u64>, acc: TrackView) -> TrackView
    decreases u64::MAX - cur,
{
    let (v, c) = spec_next(e, cur, end);
    match v {
        None => acc,
        Some(el) => if c > cur {
            let acc2 = match el.payload {
                PayloadView::UnsignedInt(x) => if el.id == ID_PIXELWIDTH {
                    TrackView { pixel_width: Some(x), ..acc }
                } else if el.id == ID_PIXELHEIGHT {
                    TrackView { pixel_height: Some(x), ..acc }
                } else if el.id == ID_DISPLAYWIDTH {
                    TrackView { display_width: Some(x), ..acc }
                } else if el.id == ID_DISPLAYHEIGHT {
                    TrackView { display_height: Some(x), ..acc }
                } else {
                    acc
                },
                _ => acc,
            };
            video_fields(e, c, end, acc2)
        } else {
            acc
        },
    }
}

/// An `Audio` element's fields applied to `acc`.
pub open spec fn audio_fields<S: EbmlSource>(e: &Ebml<S>, cur: u64, end: Option<u64>, acc: TrackView) -> TrackView
    decreases u64::MAX - cur,
{
    let (v, c) = spec_next(e, cur, end);
    match v {
        None => acc,
        Some(el) => if c > cur {
            let acc2 = match el.payload {
                PayloadView::UnsignedInt(x) => if el.id == ID_CHANNELS {
                    TrackView { channels: Some(x), ..acc }
                } else if el.id == ID_BITDEPTH {
                    TrackView { bit_depth: Some(x), ..acc }
                } else {
                    acc
                },
                PayloadView::Float(b) => if el.id == ID_SAMPLINGFREQUENCY {
                    TrackView { sampling_frequency: Some(b), ..acc }
                } else {
                    acc
                },
                _ => acc,
            };
            audio_fields(e, c, end, acc2)
        } else {
            acc
        },
    }
}

/// Walking an element's fields returns normally and makes progress.
pub open spec fn plain_fields_ok<S: EbmlSource>(e: &Ebml<S>, cur: u64, end: Option<u64>) -> bool
    decreases u64::MAX - cur,
{
    let (v, c) = spec_next(e, cur, end);
    &&& next_ok(e, cur, end)
    &&& match v {
        None => true,
        Some(el) => c > cur && plain_fields_ok(e, c, end),
    }
}

/// `(algo, settings)` of a `ContentCompression` element's fields (algo defaults to
/// zlib, 0).
pub open spec fn compression_fields<S: EbmlSource>(
    e: &Ebml<S>,
    cur: u64,
    end: Option<u64>,
    acc: (u64, Option<Seq<u8>>),
) -> (u64, Option<Seq<u8>>)
    decreases u64::MAX - cur,
{
    let (v, c) = spec_next(e, cur, end);
    match v {
        None => acc,
        Some(el) => if c > cur {
            let acc2 = match el.payload {
                PayloadView::UnsignedInt(x) => if el.id == ID_CONTENTCOMPALGO {
                    (x, acc.1)
                } else {
                    acc
                },
                PayloadView::Binary(s, t) => if el.id == ID_CONTENTCOMPSETTINGS {
                    (acc.0, Some(e.source.spec_read(s, t)))
                } else {
                    acc
                },
                _ => acc,
            };
            compression_fields(e, c, end, acc2)
        } else {
            acc
        },
    }
}

pub open spec fn compression_ok<S: EbmlSource>(e: &Ebml<S>, cur: u64, end: Option<u64>) -> bool
    decreases u64::MAX - cur,
{
    let (v, c) = spec_next(e, cur, end);
    &&& next_ok(e, cur, end)
    &&& match v {
        None => true,
        Some(el) => c > cur && compression_ok(e, c, end) && match el.payload {
            PayloadView::Binary(s, t) => el.id == ID_CONTENTCOMPSETTINGS ==> e.source.read_ok(s, t),
            _ => true,
        },
    }
}

/// The first `ContentCompression` of a `ContentEncoding`.
pub open spec fn encoding_compression<S: EbmlSource>(e: &Ebml<S>, cur: u64, end: Option<u64>) -> Option<
    (u64, Option<Seq<u8>>),
>
    decreases u64::MAX - cur,
{
    let (v, c) = spec_next(e, cur, end);
    match v {
        None => None,
        Some(el) => if c > cur {
            match el.payload {
                PayloadView::Master(s, t) => if el.id == ID_CONTENTCOMPRESSION {
                    Some(compression_fields(e, s, Some(t), (0, None)))
                } else {
                    encoding_compression(e, c, end)
                },
                _ => encoding_compression(e, c, end),
            }
        } else {
            None
        },
    }
}

pub open spec fn encoding_ok<S: EbmlSource>(e: &Ebml<S>, cur: u64, end: Option<u64>) -> bool
    decreases u64::MAX - cur,
{
    let (v, c) = spec_next(e, cur, end);
    &&& next_ok(e, cur, end)
    &&& match v {
        None => true,
        Some(el) => c > cur && match el.payload {
            PayloadView::Master(s, t) => if el.id == ID_CONTENTCOMPRESSION {
                compression_ok(e, s, Some(t))
            } else {
                encoding_ok(e, c, end)
            },
            _ => encoding_ok(e, c, end),
        },
    }
}

/// The first `ContentCompression` among the `ContentEncoding`s.
pub open spec fn encodings_compression<S: EbmlSource>(e: &Ebml<S>, cur: u64, end: Option<u64>) -> Option<
    (u64, Option<Seq<u8>>),
>
    decreases u64::MAX - cur,
{
    let (v, c) = spec_next(e, cur, end);
    match v {
        None => None,
        Some(el) => if c > cur {
            match el.payload {
                PayloadView::Master(s, t) => if el.id == ID_CONTENTENCODING {
                    match encoding_compression(e, s, Some(t)) {
                        Some(r) => Some(r),
                        None => encodings_compression(e, c, end),
                    }
                } else {
                    encodings_compression(e, c, end)
                },
                _ => encodings_compression(e, c, end),
            }
        } else {
            None
        },
    }
}

pub open spec fn encodings_ok<S: EbmlSource>(e: &Ebml<S>, cur: u64, end: Option<u64>) -> bool
    decreases u64::MAX - cur,
{
    let (v, c) = spec_next(e, cur, end);
    &&& next_ok(e, cur, end)
    &&& match v {
        None => true,
        Some(el) => c > cur && match el.payload {
            PayloadView::Master(s, t) => if el.id == ID_CONTENTENCODING {
                encoding_ok(e, s, Some(t)) && (encoding_compression(e, s, Some(t)) is None
                    ==> encodings_ok(e, c, end))
            } else {
                encodings_ok(e, c, end)
            },
            _ => encodings_ok(e, c, end),
        },
    }
}

/// One `TrackEntry` field applied to `acc`.
pub open spec fn track_field<S: EbmlSource>(e: &Ebml<S>, el: crate::ebml::ElementView, acc: TrackView) -> TrackView {
    match el.payload {
        PayloadView::UnsignedInt(x) => if el.id == ID_TRACKNUMBER {
            TrackView { track_number: Some(x), ..acc }
        } else if el.id == ID_TRACKUID {
            TrackView { track_uid: Some(x), ..acc }
        } else if el.id == ID_TRACKTYPE {
            TrackView { track_type: spec_track_type(x), ..acc }
        } else if el.id == ID_DEFAULTDURATION {
            TrackView { default_duration: Some(x), ..acc }
        } else if el.id == ID_FLAGDEFAULT {
            TrackView { flag_default: x != 0, ..acc }
        } else if el.id == ID_FLAGFORCED {
            TrackView { flag_forced: x != 0, ..acc }
        } else if el.id == ID_CODECDELAY {
            TrackView { codec_delay: Some(x), ..acc }
        } else if el.id == ID_SEEKPREROLL {
            TrackView { seek_preroll: Some(x), ..acc }
        } else {
            acc
        },
        PayloadView::Text(t) => if el.id == ID_CODECID {
            TrackView { codec_id: Some(t), ..acc }
        } else if el.id == ID_CODECNAME {
            TrackView { codec_name: Some(t), ..acc }
        } else if el.id == ID_NAME {
            TrackView { name: Some(t), ..acc }
        } else if el.id == ID_LANGUAGE {
            TrackView { language: Some(t), ..acc }
        } else if el.id == ID_LANGUAGEBCP47 {
            TrackView { language_bcp47: Some(t), ..acc }
        } else {
            acc
        },
        PayloadView::Binary(s, t) => if el.id == ID_CODECPRIVATE {
            TrackView { codec_private: Some(e.source.spec_read(s, t)), ..acc }
        } else {
            acc
        },
        PayloadView::Master(s, t) => if el.id == ID_VIDEO {
            video_fields(e, s, Some(t), acc)
        } else if el.id == ID_AUDIO {
            audio_fields(e, s, Some(t), acc)
        } else if el.id == ID_CONTENTENCODINGS {
            TrackView { compression: encodings_compression(e, s, Some(t)), ..acc }
        } else {
            acc
        },
        _ => acc,
    }
}

/// A `TrackEntry` element's fields from `cur` on applied to `acc`.
pub open spec fn track_fields<S: EbmlSource>(e: &Ebml<S>, cur: u64, end: Option<u64>, acc: TrackView) -> TrackView
    decreases u64::MAX - cur,
{
    let (v, c) = spec_next(e, cur, end);
    match v {
        None => acc,
        Some(el) => if c > cur {
            track_fields(e, c, end, track_field(e, el, acc))
        } else {
            acc
        },
    }
}

/// The value of the last unsigned-integer element `id` among the elements read from
/// `cur` on (bounded by `end`); `None` when there is none.
pub open spec fn last_uint<S: EbmlSource>(e: &Ebml<S>, cur: u64, end: Option<u64>, id: u64) -> Option<u64>
    decreases u64::MAX - cur,
{
    let (v, c) = spec_next(e, cur, end);
    match v {
        None => None,
        Some(el) => if c > cur {
            match last_uint(e, c, end, id) {
                Some(x) => Some(x),
                None => match el.payload {
                    PayloadView::UnsignedInt(x) => if el.id == id {
                        Some(x)
                    } else {
                        None
                    },
                    _ => None,
                },
            }
        } else {
            None
        },
    }
}

proof fn lemma_video_keeps_flags<S: EbmlSource>(e: &Ebml<S>, cur: u64, end: Option<u64>)
    ensures
        forall|a: TrackView| #![trigger video_fields(e, cur, end, a)] video_fields(e, cur, end, a).flag_forced == a.flag_forced
            && video_fields(e, cur, end, a).flag_default == a.flag_default,
    decreases u64::MAX - cur,
{
    let (v, c) = spec_next(e, cur, end);
    if v is Some && c > cur {
        lemma_video_keeps_flags(e, c, end);
    }
    assert forall|a: TrackView| #![trigger video_fields(e, cur, end, a)] video_fields(e, cur, end, a).flag_forced == a.flag_forced
        && video_fields(e, cur, end, a).flag_default == a.flag_default by {
        if v is Some && c > cur {
            let el = v->0;
            let a2 = match el.payload {
                PayloadView::UnsignedInt(x) => if el.id == ID_PIXELWIDTH {
                    TrackView { pixel_width: Some(x), ..a }
                } else if el.id == ID_PIXELHEIGHT {
                    TrackView { pixel_height: Some(x), ..a }
                } else if el.id == ID_DISPLAYWIDTH {
                    TrackView { display_width: Some(x), ..a }
                } else if el.id == ID_DISPLAYHEIGHT {
                    TrackView { display_height: Some(x), ..a }
                } else {
                    a
                },
                _ => a,
            };
            assert(video_fields(e, cur, end, a) == video_fields(e, c, end, a2));
        }
    }
}

proof fn lemma_audio_keeps_flags<S: EbmlSource>(e: &Ebml<S>, cur: u64, end: Option<u64>)
    ensures
        forall|a: TrackView| #![trigger audio_fields(e, cur, end, a)] audio_fields(e, cur, end, a).flag_forced == a.flag_forced
            && audio_fields(e, cur, end, a).flag_default == a.flag_default,
    decreases u64::MAX - cur,
{
    let (v, c) = spec_next(e, cur, end);
    if v is Some && c > cur {
        lemma_audio_keeps_flags(e, c, end);
    }
    assert forall|a: TrackView| #![trigger audio_fields(e, cur, end, a)] audio_fields(e, cur, end, a).flag_forced == a.flag_forced
        && audio_fields(e, cur, end, a).flag_default == a.flag_default by {
        if v is Some && c > cur {
            let el = v->0;
            let a2 = match el.payload {
                PayloadView::UnsignedInt(x) => if el.id == ID_CHANNELS {
                    TrackView { channels: Some(x), ..a }
                } else if el.id == ID_BITDEPTH {
                    TrackView { bit_depth: Some(x), ..a }
                } else {
                    a
                },
                PayloadView::Float(b) => if el.id == ID_SAMPLINGFREQUENCY {
                    TrackView { sampling_frequency: Some(b), ..a }
                } else {
                    a
                },
                _ => a,
            };
            assert(audio_fields(e, cur, end, a) == audio_fields(e, c, end, a2));
        }
    }
}

/// A track is forced exactly as its entry's last `FlagForced` says: set when that
/// element's value is not zero, clear when it is zero, and as it was (clear, for a
/// new track) when the entry has no `FlagForced`; likewise its default flag and the
/// last `FlagDefault`.
pub proof fn lemma_track_forced<S: EbmlSource>(e: &Ebml<S>, cur: u64, end: Option<u64>, acc: TrackView)
    ensures
        track_fields(e, cur, end, acc).flag_forced == match last_uint(e, cur, end, ID_FLAGFORCED) {
            Some(x) => x != 0,
            None => acc.flag_forced,
        },
        last_uint(e, cur, end, ID_FLAGFORCED) is None ==> !track_fields(
            e,
            cur,
            end,
            empty_track().view(),
        ).flag_forced,
        track_fields(e, cur, end, acc).flag_default == match last_uint(e, cur, end, ID_FLAGDEFAULT) {
            Some(x) => x != 0,
            None => acc.flag_default,
        },
    decreases u64::MAX - cur,
{
    let (v, c) = spec_next(e, cur, end);
    if v is Some && c > cur {
        let el = v->0;
        let a2 = track_field(e, el, acc);
        lemma_track_forced(e, c, end, a2);
        lemma_track_forced(e, c, end, track_field(e, el, empty_track().view()));
        if let PayloadView::Master(s, t) = el.payload {
            lemma_video_keeps_flags(e, s, Some(t));
            lemma_audio_keeps_flags(e, s, Some(t));
        }
    }
}

pub open spec fn track_field_ok<S: EbmlSource>(e: &Ebml<S>, el: crate::ebml::ElementView) -> bool {
    match el.payload {
        PayloadView::Binary(s, t) => el.id == ID_CODECPRIVATE ==> e.source.read_ok(s, t),
        PayloadView::Master(s, t) => if el.id == ID_VIDEO || el.id == ID_AUDIO {
            plain_fields_ok(e, s, Some(t))
        } else if el.id == ID_CONTENTENCODINGS {
            encodings_ok(e, s, Some(t))
        } else {
            true
        },
        _ => true,
    }
}

pub open spec fn track_fields_ok<S: EbmlSource>(e: &Ebml<S>, cur: u64, end: Option<u64>) -> bool
    decreases u64::MAX - cur,
{
    let (v, c) = spec_next(e, cur, end);
    &&& next_ok(e, cur, end)
    &&& match v {
        None => true,
        Some(el) => c > cur && track_fields_ok(e, c, end) && track_field_ok(e, el),
    }
}

/// The tracks of a `Tracks` element: one per `TrackEntry` master, from its fields.
pub open spec fn spec_tracks<S: EbmlSource>(e: &Ebml<S>, cur: u64, end: Option<u64>) -> Seq<TrackView>
    decreases u64::MAX - cur,
{
    let (v, c) = spec_next(e, cur, end);
    match v {
        None => Seq::empty(),
        Some(el) => if c > cur {
            match el.payload {
                PayloadView::Master(s, t) => if el.id == ID_TRACKENTRY {
                    seq![track_fields(e, s, Some(t), empty_track().view())] + spec_tracks(e, c, end)
                } else {
                    spec_tracks(e, c, end)
                },
                _ => spec_tracks(e, c, end),
            }
        } else {
            Seq::empty()
        },
    }
}

pub open spec fn tracks_ok<S: EbmlSource>(e: &Ebml<S>, cur: u64, end: Option<u64>) -> bool
    decreases u64::MAX - cur,
{
    let (v, c) = spec_next(e, cur, end);
    &&& next_ok(e, cur, end)
    &&& match v {
        None => true,
        Some(el) => c > cur && tracks_ok(e, c, end) && match el.payload {
            PayloadView::Master(s, t) => el.id == ID_TRACKENTRY ==> track_fields_ok(e, s, Some(t)),
            _ => true,
        },
    }
}

pub open spec fn track_views(ts: Seq<TrackData>) -> Seq<TrackView> {
    ts.map_values(|t: TrackData| t.view())
}

/// Parse all `TrackEntry` elements from a `Tracks` master iterator.
pub fn parse_tracks<S: EbmlSource>(tracks: EbmlIterator<'_, S>) -> (r: Vec<TrackData>)
    requires
        tracks_ok(tracks.ebml, tracks.current, tracks.end),
    ensures
        track_views(r@) == spec_tracks(tracks.ebml, tracks.current, tracks.end),
{
    let mut tracks = tracks;
    let ghost e = tracks.ebml;
    let ghost end = tracks.end;
    let ghost start = tracks.current;
    let mut result: Vec<TrackData> = Vec::new();
    loop
        invariant_except_break
            tracks_ok(e, tracks.current, end),
            track_views(result@) + spec_tracks(e, tracks.current, end) == spec_tracks(e, start, end),
        invariant
            tracks.ebml == e,
            tracks.end == end,
        ensures
            track_views(result@) == spec_tracks(e, start, end),
        decreases u64::MAX - tracks.current,
    {
        let entry = match tracks.next() {
            Some(el) => el,
            None => {
                proof {
                    assert(track_views(result@) =~= track_views(result@) + Seq::<TrackView>::empty());
                }
                break;
            },
        };
        let ghost rest = spec_tracks(e, tracks.current, end);
        if entry.id == ID_TRACKENTRY {
            if let EbmlPayload::Master(payload) = entry.payload {
                let t = parse_track_entry(payload);
                proof {
                    assert(track_views(result@.push(t)) =~= track_views(result@).push(t.view()));
                    assert(track_views(result@).push(t.view()) + rest =~= track_views(result@) + (
                    seq![t.view()] + rest));
                }
                result.push(t);
            }
        }
    }
    result
}

fn parse_track_entry<S: EbmlSource>(payload: EbmlIterator<'_, S>) -> (r: TrackData)
    requires
        track_fields_ok(payload.ebml, payload.current, payload.end),
    ensures
        r.view() == track_fields(payload.ebml, payload.current, payload.end, empty_track().view()),
{
    let mut payload = payload;
    let ghost e = payload.ebml;
    let ghost end = payload.end;
    let ghost start = payload.current;
    let mut track = TrackData::default();
    loop
        invariant_except_break
            track_fields_ok(e, payload.current, end),
            track_fields(e, payload.current, end, track.view()) == track_fields(
                e,
                start,
                end,
                empty_track().view(),
            ),
        invariant
            payload.ebml == e,
            payload.end == end,
        ensures
            track.view() == track_fields(e, start, end, empty_track().view()),
        decreases u64::MAX - payload.current,
    {
        let field = match payload.next() {
            Some(f) => f,
            None => break,
        };
        let ghost fv = field.view();
        let ghost before = track.view();
        let id = field.id;
        match field.payload {
            EbmlPayload::UnsignedInt(v) => {
                if id == ID_TRACKNUMBER {
                    track.track_number = Some(v);
                } else if id == ID_TRACKUID {
                    track.track_uid = Some(v);
                } else if id == ID_TRACKTYPE {
                    track.track_type = TrackType::from_u64(v);
                } else if id == ID_DEFAULTDURATION {
                    track.default_duration = Some(v);
                } else if id == ID_FLAGDEFAULT {
                    track.flag_default = v != 0;
                } else if id == ID_FLAGFORCED {
                    track.flag_forced = v != 0;
                } else if id == ID_CODECDELAY {
                    track.codec_delay = Some(v);
                } else if id == ID_SEEKPREROLL {
                    track.seek_preroll = Some(v);
                }
            },
            EbmlPayload::String(s) => {
                if id == ID_CODECID {
                    track.codec_id = Some(s);
                } else if id == ID_CODECNAME {
                    track.codec_name = Some(s);
                } else if id == ID_NAME {
                    track.name = Some(s);
                } else if id == ID_LANGUAGE {
                    track.language = Some(s);
                } else if id == ID_LANGUAGEBCP47 {
                    track.language_bcp47 = Some(s);
                }
            },
            EbmlPayload::Binary((start, end)) => {
                if id == ID_CODECPRIVATE {
                    track.codec_private = Some(payload.read_range(start, end));
                }
            },
            EbmlPayload::Master(sub) => {
                if id == ID_VIDEO {
                    parse_video(sub, &mut track);
                } else if id == ID_AUDIO {
                    parse_audio(sub, &mut track);
                } else if id == ID_CONTENTENCODINGS {
                    track.compression = parse_content_encodings(sub);
                }
            },
            _ => {},
        }
        proof {
            assert(track.view() == track_field(e, fv, before));
        }
    }
    track
}

fn parse_video<S: EbmlSource>(video: EbmlIterator<'_, S>, track: &mut TrackData)
    requires
        plain_fields_ok(video.ebml, video.current, video.end),
    ensures
        final(track).view() == video_fields(video.ebml, video.current, video.end, old(track).view()),
{
    let mut video = video;
    let ghost e = video.ebml;
    let ghost end = video.end;
    let ghost start = video.current;
    let ghost init = track.view();
    loop
        invariant_except_break
            plain_fields_ok(e, video.current, end),
            video_fields(e, video.current, end, track.view()) == video_fields(e, start, end, init),
        invariant
            video.ebml == e,
            video.end == end,
        ensures
            track.view() == video_fields(e, start, end, init),
        decreases u64::MAX - video.current,
    {
        let field = match video.next() {
            Some(f) => f,
            None => break,
        };
        if let EbmlPayload::UnsignedInt(v) = field.payload {
            if field.id == ID_PIXELWIDTH {
                track.pixel_width = Some(v);
            } else if field.id == ID_PIXELHEIGHT {
                track.pixel_height = Some(v);
            } else if field.id == ID_DISPLAYWIDTH {
                track.display_width = Some(v);
            } else if field.id == ID_DISPLAYHEIGHT {
                track.display_height = Some(v);
            }
        }
    }
}

fn parse_audio<S: EbmlSource>(audio: EbmlIterator<'_, S>, track: &mut TrackData)
    requires
        plain_fields_ok(audio.ebml, audio.current, audio.end),
    ensures
        final(track).view() == audio_fields(audio.ebml, audio.current, audio.end, old(track).view()),
{
    let mut audio = audio;
    let ghost e = audio.ebml;
    let ghost end = audio.end;
    let ghost start = audio.current;
    let ghost init = track.view();
    loop
        invariant_except_break
            plain_fields_ok(e, audio.current, end),
            audio_fields(e, audio.current, end, track.view()) == audio_fields(e, start, end, init),
        invariant
            audio.ebml == e,
            audio.end == end,
        ensures
            track.view() == audio_fields(e, start, end, init),
        decreases u64::MAX - audio.current,
    {
        let field = match audio.next() {
            Some(f) => f,
            None => break,
        };
        let id = field.id;
        match field.payload {
            EbmlPayload::UnsignedInt(v) => {
                if id == ID_CHANNELS {
                    track.channels = Some(v);
                } else if id == ID_BITDEPTH {
                    track.bit_depth = Some(v);
                }
            },
            EbmlPayload::Float(b) => {
                if id == ID_SAMPLINGFREQUENCY {
                    track.sampling_frequency = Some(b);
                }
            },
            _ => {},
        }
    }
}

/// Parse `ContentEncodings` for the first `ContentCompression` (block-scope
/// compression). Encryption and multi-encoding stacks are not supported.
fn parse_content_encodings<S: EbmlSource>(encodings: EbmlIterator<'_, S>) -> (r: Option<Compression>)
    requires
        encodings_ok(encodings.ebml, encodings.current, encodings.end),
    ensures
        match r {
            Some(c) => encodings_compression(encodings.ebml, encodings.current, encodings.end)
                == Some(c.view()),
            None => encodings_compression(encodings.ebml, encodings.current, encodings.end) is None,
        },
{
    let mut it = encodings;
    let ghost e = it.ebml;
    let ghost end = it.end;
    let ghost start = it.current;
    let mut found: Option<Compression> = None;
    loop
        invariant_except_break
            encodings_ok(e, it.current, end),
            encodings_compression(e, it.current, end) == encodings_compression(e, start, end),
            found is None,
        invariant
            it.ebml == e,
            it.end == end,
        ensures
            match found {
                Some(c) => encodings_compression(e, start, end) == Some(c.view()),
                None => encodings_compression(e, start, end) is None,
            },
        decreases u64::MAX - it.current,
    {
        let enc = match it.next() {
            Some(x) => x,
            None => break,
        };
        let encoding = match enc.payload {
            EbmlPayload::Master(m) => m,
            _ => continue,
        };
        if enc.id != ID_CONTENTENCODING {
            continue;
        }
        if let Some(c) = encoding_compression_of(encoding) {
            found = Some(c);
            break;
        }
    }
    found
}

/// The first `ContentCompression` of one `ContentEncoding`.
fn encoding_compression_of<S: EbmlSource>(encoding: EbmlIterator<'_, S>) -> (r: Option<Compression>)
    requires
        encoding_ok(encoding.ebml, encoding.current, encoding.end),
    ensures
        match r {
            Some(c) => encoding_compression(encoding.ebml, encoding.current, encoding.end) == Some(
                c.view(),
            ),
            None => encoding_compression(encoding.ebml, encoding.current, encoding.end) is None,
        },
{
    let mut it = encoding;
    let ghost e = it.ebml;
    let ghost end = it.end;
    let ghost start = it.current;
    let mut found: Option<Compression> = None;
    loop
        invariant_except_break
            encoding_ok(e, it.current, end),
            encoding_compression(e, it.current, end) == encoding_compression(e, start, end),
            found is None,
        invariant
            it.ebml == e,
            it.end == end,
        ensures
            match found {
                Some(c) => encoding_compression(e, start, end) == Some(c.view()),
                None => encoding_compression(e, start, end) is None,
            },
        decreases u64::MAX - it.current,
    {
        let field = match it.next() {
            Some(x) => x,
            None => break,
        };
        let comp = match field.payload {
            EbmlPayload::Master(m) => m,
            _ => continue,
        };
        if field.id != ID_CONTENTCOMPRESSION {
            continue;
        }
        found = Some(read_compression(comp));
        break;
    }
    found
}

/// The `(algo, settings)` of one `ContentCompression` (algo defaults to zlib, 0).
fn read_compression<S: EbmlSource>(comp: EbmlIterator<'_, S>) -> (r: Compression)
    requires
        compression_ok(comp.ebml, comp.current, comp.end),
    ensures
        r.view() == compression_fields(comp.ebml, comp.current, comp.end, (0, None)),
{
    let mut comp = comp;
    let ghost e = comp.ebml;
    let ghost end = comp.end;
    let ghost start = comp.current;
    let mut algo: u64 = 0;  // Matroska default ContentCompAlgo is 0 (zlib)
    let mut settings: Option<Vec<u8>> = None;
    loop
        invariant_except_break
            compression_ok(e, comp.current, end),
            compression_fields(e, comp.current, end, (algo, opt_bytes(settings)))
                == compression_fields(e, start, end, (0, None)),
        invariant
            comp.ebml == e,
            comp.end == end,
        ensures
            (algo, opt_bytes(settings)) == compression_fields(e, start, end, (0, None)),
        decreases u64::MAX - comp.current,
    {
        let cf = match comp.next() {
            Some(x) => x,
            None => break,
        };
        match cf.payload {
            EbmlPayload::UnsignedInt(v) => {
                if cf.id == ID_CONTENTCOMPALGO {
                    algo = v;
                }
            },
            EbmlPayload::Binary((s, t)) => {
                if cf.id == ID_CONTENTCOMPSETTINGS {
                    settings = Some(comp.read_range(s, t));
                }
            },
            _ => {},
        }
    }
    Compression { algo, settings }
}

} // verus!
