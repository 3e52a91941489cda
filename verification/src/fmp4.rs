//! Minimal fragmented-MP4 (fMP4) writer for Media Source Extensions.
//!
//! Pure ISO-BMFF box serialization. One [`TrackConfig`] drives a single track's init
//! segment (`ftyp`+`moov`) and any number of media segments (`moof`+`mdat`). The
//! caller supplies an explicit absolute `base_media_decode_time` per media segment so
//! segments are position-independent and seeking is just "emit the right segment".

use vstd::prelude::*;
use vstd::string::StringSliceAdditionalSpecFns;
use crate::bytes::{be_bytes, push_be, extend_bytes, lemma_in_left, lemma_in_right};

verus! {

// ----------------------------------------------------------------------------
// Box type codes
// ----------------------------------------------------------------------------

pub const FTYP: [u8; 4] = [0x66, 0x74, 0x79, 0x70];
pub const MOOV: [u8; 4] = [0x6D, 0x6F, 0x6F, 0x76];
pub const MVHD: [u8; 4] = [0x6D, 0x76, 0x68, 0x64];
pub const MVEX: [u8; 4] = [0x6D, 0x76, 0x65, 0x78];
pub const TREX: [u8; 4] = [0x74, 0x72, 0x65, 0x78];
pub const TRAK: [u8; 4] = [0x74, 0x72, 0x61, 0x6B];
pub const TKHD: [u8; 4] = [0x74, 0x6B, 0x68, 0x64];
pub const MDIA: [u8; 4] = [0x6D, 0x64, 0x69, 0x61];
pub const MDHD: [u8; 4] = [0x6D, 0x64, 0x68, 0x64];
pub const HDLR: [u8; 4] = [0x68, 0x64, 0x6C, 0x72];
pub const MINF: [u8; 4] = [0x6D, 0x69, 0x6E, 0x66];
pub const VMHD: [u8; 4] = [0x76, 0x6D, 0x68, 0x64];
pub const SMHD: [u8; 4] = [0x73, 0x6D, 0x68, 0x64];
pub const DINF: [u8; 4] = [0x64, 0x69, 0x6E, 0x66];
pub const DREF: [u8; 4] = [0x64, 0x72, 0x65, 0x66];
pub const URL_: [u8; 4] = [0x75, 0x72, 0x6C, 0x20];
pub const STBL: [u8; 4] = [0x73, 0x74, 0x62, 0x6C];
pub const STSD: [u8; 4] = [0x73, 0x74, 0x73, 0x64];
pub const STTS: [u8; 4] = [0x73, 0x74, 0x74, 0x73];
pub const STSC: [u8; 4] = [0x73, 0x74, 0x73, 0x63];
pub const STSZ: [u8; 4] = [0x73, 0x74, 0x73, 0x7A];
pub const STCO: [u8; 4] = [0x73, 0x74, 0x63, 0x6F];
pub const AVCC: [u8; 4] = [0x61, 0x76, 0x63, 0x43];
pub const HVCC: [u8; 4] = [0x68, 0x76, 0x63, 0x43];
pub const AV1C: [u8; 4] = [0x61, 0x76, 0x31, 0x43];
pub const VPCC: [u8; 4] = [0x76, 0x70, 0x63, 0x43];
pub const ESDS: [u8; 4] = [0x65, 0x73, 0x64, 0x73];
pub const DOPS: [u8; 4] = [0x64, 0x4F, 0x70, 0x73];
pub const DAC3: [u8; 4] = [0x64, 0x61, 0x63, 0x33];
pub const AVC1: [u8; 4] = [0x61, 0x76, 0x63, 0x31];
pub const HVC1: [u8; 4] = [0x68, 0x76, 0x63, 0x31];
pub const AV01: [u8; 4] = [0x61, 0x76, 0x30, 0x31];
pub const VP09: [u8; 4] = [0x76, 0x70, 0x30, 0x39];
pub const MP4A: [u8; 4] = [0x6D, 0x70, 0x34, 0x61];
pub const OPUS: [u8; 4] = [0x4F, 0x70, 0x75, 0x73];
pub const AC_3: [u8; 4] = [0x61, 0x63, 0x2D, 0x33];
pub const VIDE: [u8; 4] = [0x76, 0x69, 0x64, 0x65];
pub const SOUN: [u8; 4] = [0x73, 0x6F, 0x75, 0x6E];
pub const ISO5: [u8; 4] = [0x69, 0x73, 0x6F, 0x35];
pub const ISO6: [u8; 4] = [0x69, 0x73, 0x6F, 0x36];
pub const MP41: [u8; 4] = [0x6D, 0x70, 0x34, 0x31];
pub const MOOF: [u8; 4] = [0x6D, 0x6F, 0x6F, 0x66];
pub const MFHD: [u8; 4] = [0x6D, 0x66, 0x68, 0x64];
pub const TRAF: [u8; 4] = [0x74, 0x72, 0x61, 0x66];
pub const TFHD: [u8; 4] = [0x74, 0x66, 0x68, 0x64];
pub const TFDT: [u8; 4] = [0x74, 0x66, 0x64, 0x74];
pub const TRUN: [u8; 4] = [0x74, 0x72, 0x75, 0x6E];
pub const MDAT: [u8; 4] = [0x6D, 0x64, 0x61, 0x74];

// ----------------------------------------------------------------------------
// Byte-level model
// ----------------------------------------------------------------------------

/// A 32-bit big-endian field holding `x` reduced modulo 2^32 (two's complement for
/// negative values).
pub open spec fn be32(x: int) -> Seq<u8> {
    be_bytes((x % 0x1_0000_0000) as nat, 4)
}

/// A 16-bit big-endian field holding `x` reduced modulo 2^16.
pub open spec fn be16(x: int) -> Seq<u8> {
    be_bytes((x % 0x10000) as nat, 2)
}

/// `n` zero bytes.
pub open spec fn zeros(n: nat) -> Seq<u8> {
    Seq::new(n, |i: int| 0u8)
}

/// An ISO-BMFF box: 32-bit size (header included), four-character type, payload.
pub open spec fn mp4_box(typ: Seq<u8>, payload: Seq<u8>) -> Seq<u8> {
    be32(8 + payload.len() as int) + typ + payload
}

/// Concatenation of a list of byte strings.
pub open spec fn concat_all(parts: Seq<Seq<u8>>) -> Seq<u8>
    decreases parts.len(),
{
    if parts.len() == 0 {
        Seq::empty()
    } else {
        concat_all(parts.drop_last()) + parts.last()
    }
}

/// What kind of track this is, with the dimensions needed for its sample entry.
#[derive(Debug, Clone, Copy, PartialEq, Eq, Structural)]
pub enum MediaKind {
    Video { width: u16, height: u16 },
    Audio { sample_rate: u32, channels: u16 },
}

/// Codec configuration, carrying the raw MKV `CodecPrivate` where the box payload
/// is identical to it (avcC/hvcC/av1C) or the bytes needed to build the box.
#[derive(Debug, Clone)]
pub enum CodecConfig {
    /// `CodecPrivate` is the AVCDecoderConfigurationRecord verbatim.
    Avc(Vec<u8>),
    /// `CodecPrivate` is the HEVCDecoderConfigurationRecord verbatim.
    Hevc(Vec<u8>),
    /// `CodecPrivate` is the AV1CodecConfigurationRecord verbatim.
    Av1(Vec<u8>),
    /// VP9: optional vpcC payload (often absent in MKV).
    Vp9(Option<Vec<u8>>),
    /// AAC: `CodecPrivate` is the AudioSpecificConfig.
    Aac(Vec<u8>),
    /// Opus: `CodecPrivate` is the OpusHead.
    Opus(Vec<u8>),
    /// AC-3: `CodecPrivate` (may be empty; dac3 then defaulted).
    Ac3(Vec<u8>),
}

/// Everything needed to mux one track.
#[derive(Debug, Clone)]
pub struct TrackConfig {
    pub track_id: u32,
    pub timescale: u32,
    /// Total duration in `timescale` units (0 if unknown).
    pub duration: u64,
    pub language: String,
    pub kind: MediaKind,
    pub codec: CodecConfig,
}

/// Codec configuration as a value.
pub enum CodecView {
    Avc(Seq<u8>),
    Hevc(Seq<u8>),
    Av1(Seq<u8>),
    Vp9(Option<Seq<u8>>),
    Aac(Seq<u8>),
    Opus(Seq<u8>),
    Ac3(Seq<u8>),
}

/// A track configuration as a value.
pub struct TrackConfigView {
    pub track_id: u32,
    pub timescale: u32,
    pub duration: u64,
    pub language: Seq<char>,
    pub kind: MediaKind,
    pub codec: CodecView,
}

impl CodecConfig {
    pub open spec fn view(&self) -> CodecView {
        match self {
            CodecConfig::Avc(v) => CodecView::Avc(v@),
            CodecConfig::Hevc(v) => CodecView::Hevc(v@),
            CodecConfig::Av1(v) => CodecView::Av1(v@),
            CodecConfig::Vp9(v) => CodecView::Vp9(
                match v {
                    Some(b) => Some(b@),
                    None => None,
                },
            ),
            CodecConfig::Aac(v) => CodecView::Aac(v@),
            CodecConfig::Opus(v) => CodecView::Opus(v@),
            CodecConfig::Ac3(v) => CodecView::Ac3(v@),
        }
    }
}

impl TrackConfig {
    pub open spec fn view(&self) -> TrackConfigView {
        TrackConfigView {
            track_id: self.track_id,
            timescale: self.timescale,
            duration: self.duration,
            language: self.language@,
            kind: self.kind,
            codec: self.codec.view(),
        }
    }
}

/// A single decoded-order sample to place in a media segment.
#[derive(Debug, Clone)]
pub struct Sample {
    pub data: Vec<u8>,
    /// Duration in `timescale` units.
    pub duration: u32,
    /// Composition offset `PTS - DTS` in `timescale` units (0 for audio).
    pub cts_offset: i32,
    pub is_sync: bool,
}


// ----------------------------------------------------------------------------
// Box primitives
// ----------------------------------------------------------------------------

/// Append a 32-bit big-endian field holding `x mod 2^32`.
fn push_be32(out: &mut Vec<u8>, x: u64)
    ensures
        final(out)@ == old(out)@ + be32(x as int),
{
    push_be(out, x % 0x1_0000_0000, 4);
}

/// Append a 16-bit big-endian field holding `x mod 2^16`.
fn push_be16(out: &mut Vec<u8>, x: u64)
    ensures
        final(out)@ == old(out)@ + be16(x as int),
{
    push_be(out, x % 0x10000, 2);
}

/// Append `n` zero bytes.
fn push_zeros(out: &mut Vec<u8>, n: usize)
    ensures
        final(out)@ == old(out)@ + zeros(n as nat),
{
    let ghost start = out@;
    let mut i: usize = 0;
    while i < n
        invariant
            i <= n,
            out@ == start + zeros(i as nat),
        decreases n - i,
    {
        out.push(0u8);
        i += 1;
        proof {
            assert(zeros(i as nat) =~= zeros((i - 1) as nat).push(0u8));
        }
    }
}

/// A box of type `typ` around `payload`.
fn boxed(typ: &[u8; 4], payload: &[u8]) -> (res: Vec<u8>)
    ensures
        res@ == mp4_box(typ@, payload@),
{
    let size: u64 = ((payload.len() as u64) % 0x1_0000_0000 + 8) % 0x1_0000_0000;
    proof {
        let n = payload@.len() as int;
        vstd::arithmetic::div_mod::lemma_add_mod_noop(n, 8, 0x1_0000_0000);
        vstd::arithmetic::div_mod::lemma_small_mod(8, 0x1_0000_0000);
        vstd::arithmetic::div_mod::lemma_mod_twice(n + 8, 0x1_0000_0000);
        assert(size as int == (8 + n) % 0x1_0000_0000);
    }
    let mut buf: Vec<u8> = Vec::new();
    push_be32(&mut buf, size);
    extend_bytes(&mut buf, typ);
    extend_bytes(&mut buf, payload);
    proof {
        vstd::arithmetic::div_mod::lemma_mod_twice(8 + payload@.len() as int, 0x1_0000_0000);
    }
    buf
}

/// A box of type `typ` whose payload is the concatenation of `parts`.
fn boxed_concat(typ: &[u8; 4], parts: &[&[u8]]) -> (res: Vec<u8>)
    ensures
        res@ == mp4_box(typ@, concat_all(parts@.map_values(|p: &[u8]| p@))),
{
    let mut payload: Vec<u8> = Vec::new();
    let mut i: usize = 0;
    while i < parts.len()
        invariant
            i <= parts@.len(),
            payload@ == concat_all(parts@.take(i as int).map_values(|p: &[u8]| p@)),
        decreases parts@.len() - i,
    {
        extend_bytes(&mut payload, parts[i]);
        i += 1;
        proof {
            let prev = parts@.take((i - 1) as int).map_values(|p: &[u8]| p@);
            let cur = parts@.take(i as int).map_values(|p: &[u8]| p@);
            assert(cur.drop_last() =~= prev);
        }
    }
    proof {
        assert(parts@.take(parts@.len() as int) =~= parts@);
    }
    boxed(typ, payload.as_slice())
}


proof fn lemma_concat_push(ps: Seq<Seq<u8>>, x: Seq<u8>)
    ensures
        concat_all(ps.push(x)) == concat_all(ps) + x,
{
    assert(ps.push(x).drop_last() =~= ps);
}

proof fn lemma_concat2(ps: Seq<Seq<u8>>)
    requires
        ps.len() == 2,
    ensures
        concat_all(ps) == ps[0] + ps[1],
{
    assert(ps =~= seq![ps[0]].push(ps[1]));
    assert(seq![ps[0]] =~= Seq::<Seq<u8>>::empty().push(ps[0]));
    lemma_concat_push(Seq::empty(), ps[0]);
    lemma_concat_push(seq![ps[0]], ps[1]);
    assert(Seq::<u8>::empty() + ps[0] =~= ps[0]);
}

proof fn lemma_concat3(ps: Seq<Seq<u8>>)
    requires
        ps.len() == 3,
    ensures
        concat_all(ps) == ps[0] + ps[1] + ps[2],
{
    let front = ps.drop_last();
    lemma_concat2(front);
    lemma_concat_push(front, ps[2]);
    assert(front.push(ps[2]) =~= ps);
}

proof fn lemma_concat5(ps: Seq<Seq<u8>>)
    requires
        ps.len() == 5,
    ensures
        concat_all(ps) == ps[0] + ps[1] + ps[2] + ps[3] + ps[4],
{
    let f4 = ps.drop_last();
    let f3 = f4.drop_last();
    lemma_concat3(f3);
    lemma_concat_push(f3, ps[3]);
    assert(f3.push(ps[3]) =~= f4);
    lemma_concat_push(f4, ps[4]);
    assert(f4.push(ps[4]) =~= ps);
}

// ----------------------------------------------------------------------------
// Init segment model
// ----------------------------------------------------------------------------

/// The 5-bit code of one language letter: `(c - 0x60) & 0x1f`, which is `c mod 32`.
pub open spec fn lang_letter(bytes: Seq<u8>, i: int) -> nat {
    if i < bytes.len() {
        (bytes[i] % 32) as nat
    } else {
        (0x75u8 % 32) as nat
    }
}

/// ISO 639-2/T language packed into 15 bits (three letters, 5 bits each; missing
/// letters read as `u`).
pub open spec fn packed_language(bytes: Seq<u8>) -> nat {
    lang_letter(bytes, 0) * 1024 + lang_letter(bytes, 1) * 32 + lang_letter(bytes, 2)
}

/// The identity transformation matrix of `mvhd`/`tkhd`.
pub open spec fn spec_unity_matrix() -> Seq<u8> {
    be32(0x0001_0000) + zeros(12) + be32(0x0001_0000) + zeros(12) + be32(0x4000_0000)
}

pub open spec fn spec_ftyp() -> Seq<u8> {
    mp4_box(FTYP@, ISO5@ + be32(0) + ISO5@ + ISO6@ + MP41@)
}

pub open spec fn spec_mvhd(cfg: TrackConfigView) -> Seq<u8> {
    mp4_box(
        MVHD@,
        be32(0) + be32(0) + be32(0) + be32(cfg.timescale as int) + be32(cfg.duration as int)
            + be32(0x0001_0000) + be16(0x0100) + zeros(10) + spec_unity_matrix() + zeros(24)
            + be32(cfg.track_id + 1),
    )
}

pub open spec fn spec_mvex(track_id: u32) -> Seq<u8> {
    mp4_box(
        MVEX@,
        mp4_box(TREX@, be32(0) + be32(track_id as int) + be32(1) + be32(0) + be32(0) + be32(0)),
    )
}

/// Video dimensions in pixels, `(0, 0)` for audio.
pub open spec fn dims(kind: MediaKind) -> (int, int) {
    match kind {
        MediaKind::Video { width, height } => (width as int, height as int),
        MediaKind::Audio { .. } => (0, 0),
    }
}

pub open spec fn spec_is_video(codec: CodecView) -> bool {
    match codec {
        CodecView::Avc(_) | CodecView::Hevc(_) | CodecView::Av1(_) | CodecView::Vp9(_) => true,
        _ => false,
    }
}

pub open spec fn spec_tkhd(cfg: TrackConfigView) -> Seq<u8> {
    let volume: int = if spec_is_video(cfg.codec) { 0 } else { 0x0100 };
    mp4_box(
        TKHD@,
        be32(3) + be32(0) + be32(0) + be32(cfg.track_id as int) + be32(0) + be32(
            cfg.duration as int,
        ) + zeros(8) + be16(0) + be16(0) + be16(volume) + be16(0) + spec_unity_matrix() + be32(
            dims(cfg.kind).0 * 0x10000,
        ) + be32(dims(cfg.kind).1 * 0x10000),
    )
}

pub open spec fn spec_mdhd(cfg: TrackConfigView) -> Seq<u8> {
    mp4_box(
        MDHD@,
        be32(0) + be32(0) + be32(0) + be32(cfg.timescale as int) + be32(cfg.duration as int)
            + be16(packed_language(vstd::utf8::encode_utf8(cfg.language)) as int) + be16(0),
    )
}

pub const VIDEO_HANDLER_NAME: [u8; 13] = [
    0x56, 0x69, 0x64, 0x65, 0x6F, 0x48, 0x61, 0x6E, 0x64, 0x6C, 0x65, 0x72, 0x00,
];

pub const SOUND_HANDLER_NAME: [u8; 13] = [
    0x53, 0x6F, 0x75, 0x6E, 0x64, 0x48, 0x61, 0x6E, 0x64, 0x6C, 0x65, 0x72, 0x00,
];

pub open spec fn spec_hdlr(kind: MediaKind) -> Seq<u8> {
    let (handler, name) = match kind {
        MediaKind::Video { .. } => (VIDE@, VIDEO_HANDLER_NAME@),
        MediaKind::Audio { .. } => (SOUN@, SOUND_HANDLER_NAME@),
    };
    mp4_box(HDLR@, be32(0) + be32(0) + handler + zeros(12) + name)
}

pub open spec fn spec_vmhd() -> Seq<u8> {
    mp4_box(VMHD@, be32(1) + zeros(8))
}

pub open spec fn spec_smhd() -> Seq<u8> {
    mp4_box(SMHD@, be32(0) + be16(0) + be16(0))
}

pub open spec fn spec_dinf() -> Seq<u8> {
    mp4_box(DINF@, mp4_box(DREF@, be32(0) + be32(1) + mp4_box(URL_@, be32(1))))
}

// ----------------------------------------------------------------------------
// Init segment builders
// ----------------------------------------------------------------------------

/// ISO 639-2/T language packed into 15 bits (3 chars, each `c - 0x60`).
fn pack_language(language: &str) -> (res: [u8; 2])
    ensures
        res@ == be16(packed_language(language.spec_bytes()) as int),
{
    let bytes = language.as_bytes();
    let c0: u16 = if 0 < bytes.len() { (bytes[0] % 32) as u16 } else { 0x75u16 % 32 };
    let c1: u16 = if 1 < bytes.len() { (bytes[1] % 32) as u16 } else { 0x75u16 % 32 };
    let c2: u16 = if 2 < bytes.len() { (bytes[2] % 32) as u16 } else { 0x75u16 % 32 };
    let packed: u16 = c0 * 1024 + c1 * 32 + c2;
    let res: [u8; 2] = [(packed / 256) as u8, (packed % 256) as u8];
    proof {
        let b = language.spec_bytes();
        assert(packed as nat == packed_language(b));
        vstd::arithmetic::div_mod::lemma_small_mod(packed as nat, 0x10000);
        reveal_with_fuel(be_bytes, 3);
        assert((packed / 256) / 256 == 0);
        assert(res@ =~= be_bytes(packed as nat, 2));
    }
    res
}

fn unity_matrix() -> (res: Vec<u8>)
    ensures
        res@ == spec_unity_matrix(),
{
    let mut m: Vec<u8> = Vec::new();
    push_be32(&mut m, 0x0001_0000);
    push_zeros(&mut m, 12);
    push_be32(&mut m, 0x0001_0000);
    push_zeros(&mut m, 12);
    push_be32(&mut m, 0x4000_0000);
    m
}

fn build_ftyp() -> (res: Vec<u8>)
    ensures
        res@ == spec_ftyp(),
{
    let mut zero: Vec<u8> = Vec::new();
    push_be32(&mut zero, 0);
    let parts: [&[u8]; 5] = [&ISO5, zero.as_slice(), &ISO5, &ISO6, &MP41];
    let res = boxed_concat(&FTYP, &parts);
    proof {
        lemma_concat5(parts@.map_values(|p: &[u8]| p@));
    }
    res
}

fn build_mvhd(cfg: &TrackConfig) -> (res: Vec<u8>)
    requires
        cfg.track_id < u32::MAX,
    ensures
        res@ == spec_mvhd(cfg.view()),
{
    let mut p: Vec<u8> = Vec::new();
    push_be32(&mut p, 0);  // version + flags
    push_be32(&mut p, 0);  // creation time
    push_be32(&mut p, 0);  // modification time
    push_be32(&mut p, cfg.timescale as u64);
    push_be32(&mut p, cfg.duration);
    push_be32(&mut p, 0x0001_0000);  // rate 1.0
    push_be16(&mut p, 0x0100);  // volume 1.0
    push_zeros(&mut p, 10);  // reserved
    let m = unity_matrix();
    extend_bytes(&mut p, m.as_slice());
    push_zeros(&mut p, 24);  // pre-defined
    push_be32(&mut p, (cfg.track_id + 1) as u64);  // next track id
    boxed(&MVHD, p.as_slice())
}

fn build_mvex(track_id: u32) -> (res: Vec<u8>)
    ensures
        res@ == spec_mvex(track_id),
{
    let mut trex: Vec<u8> = Vec::new();
    push_be32(&mut trex, 0);  // version + flags
    push_be32(&mut trex, track_id as u64);
    push_be32(&mut trex, 1);  // default sample description index
    push_be32(&mut trex, 0);  // default sample duration
    push_be32(&mut trex, 0);  // default sample size
    push_be32(&mut trex, 0);  // default sample flags
    let trex = boxed(&TREX, trex.as_slice());
    boxed(&MVEX, trex.as_slice())
}

fn build_tkhd(cfg: &TrackConfig) -> (res: Vec<u8>)
    ensures
        res@ == spec_tkhd(cfg.view()),
{
    let mut p: Vec<u8> = Vec::new();
    push_be32(&mut p, 3);  // version 0, flags: enabled + in movie
    push_be32(&mut p, 0);  // creation time
    push_be32(&mut p, 0);  // modification time
    push_be32(&mut p, cfg.track_id as u64);
    push_be32(&mut p, 0);  // reserved
    push_be32(&mut p, cfg.duration);
    push_zeros(&mut p, 8);  // reserved
    push_be16(&mut p, 0);  // layer
    push_be16(&mut p, 0);  // alternate group
    let volume: u64 = if cfg.codec.is_video() { 0 } else { 0x0100 };
    push_be16(&mut p, volume);
    push_be16(&mut p, 0);  // reserved
    let m = unity_matrix();
    extend_bytes(&mut p, m.as_slice());
    let (w, h): (u64, u64) = match cfg.kind {
        MediaKind::Video { width, height } => (width as u64, height as u64),
        MediaKind::Audio { .. } => (0, 0),
    };
    push_be32(&mut p, w * 0x10000);
    push_be32(&mut p, h * 0x10000);
    boxed(&TKHD, p.as_slice())
}

fn build_mdhd(cfg: &TrackConfig) -> (res: Vec<u8>)
    ensures
        res@ == spec_mdhd(cfg.view()),
{
    let mut p: Vec<u8> = Vec::new();
    push_be32(&mut p, 0);  // version + flags
    push_be32(&mut p, 0);  // creation time
    push_be32(&mut p, 0);  // modification time
    push_be32(&mut p, cfg.timescale as u64);
    push_be32(&mut p, cfg.duration);
    let lang = pack_language(cfg.language.as_str());
    extend_bytes(&mut p, &lang);
    push_be16(&mut p, 0);  // pre-defined
    boxed(&MDHD, p.as_slice())
}

fn build_hdlr(kind: &MediaKind) -> (res: Vec<u8>)
    ensures
        res@ == spec_hdlr(*kind),
{
    let mut p: Vec<u8> = Vec::new();
    push_be32(&mut p, 0);  // version + flags
    push_be32(&mut p, 0);  // pre-defined
    match kind {
        MediaKind::Video { .. } => {
            extend_bytes(&mut p, &VIDE);
            push_zeros(&mut p, 12);  // reserved
            extend_bytes(&mut p, &VIDEO_HANDLER_NAME);
        },
        MediaKind::Audio { .. } => {
            extend_bytes(&mut p, &SOUN);
            push_zeros(&mut p, 12);  // reserved
            extend_bytes(&mut p, &SOUND_HANDLER_NAME);
        },
    }
    boxed(&HDLR, p.as_slice())
}

fn build_vmhd() -> (res: Vec<u8>)
    ensures
        res@ == spec_vmhd(),
{
    let mut p: Vec<u8> = Vec::new();
    push_be32(&mut p, 1);  // version 0, flags 1
    push_zeros(&mut p, 8);  // graphics mode + opcolor
    boxed(&VMHD, p.as_slice())
}

fn build_smhd() -> (res: Vec<u8>)
    ensures
        res@ == spec_smhd(),
{
    let mut p: Vec<u8> = Vec::new();
    push_be32(&mut p, 0);  // version + flags
    push_be16(&mut p, 0);  // balance
    push_be16(&mut p, 0);  // reserved
    boxed(&SMHD, p.as_slice())
}

fn build_dinf() -> (res: Vec<u8>)
    ensures
        res@ == spec_dinf(),
{
    let mut flag: Vec<u8> = Vec::new();
    push_be32(&mut flag, 1);  // self-contained
    let url = boxed(&URL_, flag.as_slice());
    let mut dref: Vec<u8> = Vec::new();
    push_be32(&mut dref, 0);  // version + flags
    push_be32(&mut dref, 1);  // entry count
    extend_bytes(&mut dref, url.as_slice());
    let dref = boxed(&DREF, dref.as_slice());
    boxed(&DINF, dref.as_slice())
}

impl CodecConfig {
    fn is_video(&self) -> (res: bool)
        ensures
            res == spec_is_video(self.view()),
    {
        match self {
            CodecConfig::Avc(_) | CodecConfig::Hevc(_) | CodecConfig::Av1(_) | CodecConfig::Vp9(
                _,
            ) => true,
            _ => false,
        }
    }
}


// ----------------------------------------------------------------------------
// Codec configuration model
// ----------------------------------------------------------------------------

/// Length bytes of an MPEG-4 expandable descriptor: 7 bits per byte, most
/// significant group first, the continuation bit set on every byte but the last.
pub open spec fn len7(n: nat, cont: bool) -> Seq<u8>
    decreases n,
{
    let b = ((n % 128) + if cont { 128nat } else { 0nat }) as u8;
    if n < 128 {
        seq![b]
    } else {
        len7(n / 128, true).push(b)
    }
}

pub open spec fn spec_descriptor(tag: u8, payload: Seq<u8>) -> Seq<u8> {
    seq![tag] + len7(payload.len(), false) + payload
}

pub open spec fn spec_esds(asc: Seq<u8>) -> Seq<u8> {
    let dec_specific = spec_descriptor(0x05, asc);
    let dcd = seq![0x40u8, 0x15u8] + zeros(3) + be32(0) + be32(0) + dec_specific;
    let dec_config = spec_descriptor(0x04, dcd);
    let sl = spec_descriptor(0x06, seq![0x02u8]);
    let es = be16(0) + seq![0x00u8] + dec_config + sl;
    mp4_box(ESDS@, be32(0) + spec_descriptor(0x03, es))
}

pub const OPUS_HEAD: [u8; 8] = [0x4F, 0x70, 0x75, 0x73, 0x48, 0x65, 0x61, 0x64];

/// The OpusHead fields after the 8-byte magic (which is stripped when present).
pub open spec fn opus_body(head: Seq<u8>) -> Seq<u8> {
    if head.len() >= 8 && head.subrange(0, 8) == OPUS_HEAD@ {
        head.subrange(8, head.len() as int)
    } else {
        head
    }
}

/// The dOps payload: the OpusHead fields with the little-endian multi-byte fields
/// rewritten big-endian, each field defaulted when the header is too short.
pub open spec fn spec_dops(head: Seq<u8>, kind: MediaKind) -> Seq<u8> {
    let body = opus_body(head);
    let channels_fallback: u8 = match kind {
        MediaKind::Audio { channels, .. } => (channels % 256) as u8,
        _ => 2,
    };
    let channels: u8 = if body.len() > 1 { body[1] } else { channels_fallback };
    let preskip = if body.len() >= 4 { seq![body[3], body[2]] } else { be16(3840) };
    let rate = if body.len() >= 8 { seq![body[7], body[6], body[5], body[4]] } else { be32(48000) };
    let gain = if body.len() >= 10 { seq![body[9], body[8]] } else { be16(0) };
    let mapping_family: u8 = if body.len() > 10 { body[10] } else { 0 };
    let rest = if mapping_family != 0 && body.len() >= 11 {
        body.subrange(11, body.len() as int)
    } else {
        Seq::empty()
    };
    mp4_box(
        DOPS@,
        seq![0u8, channels] + preskip + rate + gain + seq![mapping_family] + rest,
    )
}

pub open spec fn vp9_payload(cp: Option<Seq<u8>>) -> Seq<u8> {
    match cp {
        Some(v) => v,
        None => Seq::empty(),
    }
}

/// The codec configuration box (avcC/hvcC/av1C/vpcC/esds/dOps/dac3).
pub open spec fn spec_config_box(codec: CodecView, kind: MediaKind) -> Seq<u8> {
    match codec {
        CodecView::Avc(cp) => mp4_box(AVCC@, cp),
        CodecView::Hevc(cp) => mp4_box(HVCC@, cp),
        CodecView::Av1(cp) => mp4_box(AV1C@, cp),
        CodecView::Vp9(cp) => mp4_box(VPCC@, vp9_payload(cp)),
        CodecView::Aac(asc) => spec_esds(asc),
        CodecView::Opus(head) => spec_dops(head, kind),
        CodecView::Ac3(cp) => mp4_box(DAC3@, cp),
    }
}

/// FourCC of the sample entry box.
pub open spec fn spec_fourcc(codec: CodecView) -> Seq<u8> {
    match codec {
        CodecView::Avc(_) => AVC1@,
        CodecView::Hevc(_) => HVC1@,
        CodecView::Av1(_) => AV01@,
        CodecView::Vp9(_) => VP09@,
        CodecView::Aac(_) => MP4A@,
        CodecView::Opus(_) => OPUS@,
        CodecView::Ac3(_) => AC_3@,
    }
}

pub open spec fn spec_sample_entry(cfg: TrackConfigView) -> Seq<u8> {
    let config_box = spec_config_box(cfg.codec, cfg.kind);
    match cfg.kind {
        MediaKind::Video { width, height } => mp4_box(
            spec_fourcc(cfg.codec),
            zeros(6) + be16(1) + zeros(16) + be16(width as int) + be16(height as int) + be32(
                0x0048_0000,
            ) + be32(0x0048_0000) + be32(0) + be16(1) + zeros(32) + be16(0x0018) + be16(0xffff)
                + config_box,
        ),
        MediaKind::Audio { sample_rate, channels } => mp4_box(
            spec_fourcc(cfg.codec),
            zeros(6) + be16(1) + zeros(8) + be16(channels as int) + be16(16) + be16(0) + be16(0)
                + be32(sample_rate * 0x10000) + config_box,
        ),
    }
}

pub open spec fn spec_stsd(cfg: TrackConfigView) -> Seq<u8> {
    mp4_box(STSD@, be32(0) + be32(1) + spec_sample_entry(cfg))
}

pub open spec fn spec_stbl(cfg: TrackConfigView) -> Seq<u8> {
    mp4_box(
        STBL@,
        spec_stsd(cfg) + mp4_box(STTS@, zeros(8)) + mp4_box(STSC@, zeros(8)) + mp4_box(
            STSZ@,
            zeros(12),
        ) + mp4_box(STCO@, zeros(8)),
    )
}

pub open spec fn spec_minf(cfg: TrackConfigView) -> Seq<u8> {
    let media_header = match cfg.kind {
        MediaKind::Video { .. } => spec_vmhd(),
        MediaKind::Audio { .. } => spec_smhd(),
    };
    mp4_box(MINF@, media_header + spec_dinf() + spec_stbl(cfg))
}

pub open spec fn spec_mdia(cfg: TrackConfigView) -> Seq<u8> {
    mp4_box(MDIA@, spec_mdhd(cfg) + spec_hdlr(cfg.kind) + spec_minf(cfg))
}

pub open spec fn spec_trak(cfg: TrackConfigView) -> Seq<u8> {
    mp4_box(TRAK@, spec_tkhd(cfg) + spec_mdia(cfg))
}

pub open spec fn spec_moov(cfg: TrackConfigView) -> Seq<u8> {
    mp4_box(MOOV@, spec_mvhd(cfg) + spec_trak(cfg) + spec_mvex(cfg.track_id))
}

/// The init segment: `ftyp` followed by `moov`.
pub open spec fn spec_init_segment(cfg: TrackConfigView) -> Seq<u8> {
    spec_ftyp() + spec_moov(cfg)
}

// ----------------------------------------------------------------------------
// Codec configuration builders
// ----------------------------------------------------------------------------

fn push_len7(out: &mut Vec<u8>, n: usize, cont: bool)
    ensures
        final(out)@ == old(out)@ + len7(n as nat, cont),
    decreases n,
{
    let b: u8 = ((n % 128) as u8) + if cont { 128u8 } else { 0u8 };
    if n < 128 {
        out.push(b);
        proof {
            assert(len7(n as nat, cont) =~= seq![b]);
        }
    } else {
        push_len7(out, n / 128, true);
        out.push(b);
    }
}

/// MPEG-4 expandable descriptor length (7 bits/byte, high bit = continuation).
fn descriptor(tag: u8, payload: &[u8]) -> (res: Vec<u8>)
    ensures
        res@ == spec_descriptor(tag, payload@),
{
    let mut out: Vec<u8> = Vec::new();
    out.push(tag);
    push_len7(&mut out, payload.len(), false);
    extend_bytes(&mut out, payload);
    proof {
        assert(out@ =~= spec_descriptor(tag, payload@));
    }
    out
}

/// Build an `esds` box wrapping the AAC AudioSpecificConfig.
fn build_esds(asc: &[u8]) -> (res: Vec<u8>)
    ensures
        res@ == spec_esds(asc@),
{
    let dec_specific = descriptor(0x05, asc);  // DecoderSpecificInfo

    let mut dcd: Vec<u8> = Vec::new();
    dcd.push(0x40);  // objectTypeIndication: Audio ISO/IEC 14496-3
    dcd.push(0x15);  // streamType=5 (audio) << 2 | upstream=0 | reserved=1
    push_zeros(&mut dcd, 3);  // bufferSizeDB
    push_be32(&mut dcd, 0);  // maxBitrate
    push_be32(&mut dcd, 0);  // avgBitrate
    extend_bytes(&mut dcd, dec_specific.as_slice());
    proof {
        assert(dcd@ =~= seq![0x40u8, 0x15u8] + zeros(3) + be32(0) + be32(0) + dec_specific@);
    }
    let dec_config = descriptor(0x04, dcd.as_slice());  // DecoderConfigDescriptor

    let sl_payload: [u8; 1] = [0x02];
    let sl = descriptor(0x06, &sl_payload);  // SLConfigDescriptor: predefined
    proof {
        assert(sl_payload@ =~= seq![0x02u8]);
    }

    let mut es: Vec<u8> = Vec::new();
    push_be16(&mut es, 0);  // ES_ID
    es.push(0x00);  // flags
    extend_bytes(&mut es, dec_config.as_slice());
    extend_bytes(&mut es, sl.as_slice());
    proof {
        assert(es@ =~= be16(0) + seq![0x00u8] + dec_config@ + sl@);
    }
    let es_descriptor = descriptor(0x03, es.as_slice());  // ES_Descriptor

    let mut payload: Vec<u8> = Vec::new();
    push_be32(&mut payload, 0);  // FullBox version + flags
    extend_bytes(&mut payload, es_descriptor.as_slice());
    boxed(&ESDS, payload.as_slice())
}

/// Build a `dOps` box from the MKV OpusHead `CodecPrivate`.
///
/// OpusHead layout: "OpusHead"(8) | version(1) | channels(1) | preskip(2 LE) |
/// rate(4 LE) | gain(2 LE) | mapping_family(1) | [channel mapping...]. The dOps
/// payload mirrors this without the magic and with the multi-byte fields big-endian.
fn build_dops(head: &[u8], kind: &MediaKind) -> (res: Vec<u8>)
    ensures
        res@ == spec_dops(head@, *kind),
{
    let channels_fallback: u8 = match kind {
        MediaKind::Audio { channels, .. } => (*channels % 256) as u8,
        _ => 2,
    };
    // Strip the 8-byte "OpusHead" magic if present.
    let mut magic = head.len() >= 8;
    let mut k: usize = 0;
    while magic && k < 8
        invariant
            k <= 8,
            magic ==> head@.len() >= 8,
            magic ==> forall|j: int| 0 <= j < k ==> head@[j] == OPUS_HEAD@[j],
            !magic ==> !(head@.len() >= 8 && head@.subrange(0, 8) == OPUS_HEAD@),
        decreases (if magic { 9 - k } else { 0 }),
    {
        if head[k] != OPUS_HEAD[k] {
            magic = false;
            proof {
                if head@.len() >= 8 && head@.subrange(0, 8) == OPUS_HEAD@ {
                    assert(head@.subrange(0, 8)[k as int] == head@[k as int]);
                }
            }
        } else {
            k += 1;
        }
    }
    proof {
        if magic {
            assert(head@.subrange(0, 8) =~= OPUS_HEAD@);
        }
    }
    let start: usize = if magic { 8 } else { 0 };
    let body = slice_from(head, start);
    proof {
        if !magic {
            assert(body@ =~= head@);
        }
        assert(body@ == opus_body(head@));
    }

    let channels: u8 = if body.len() > 1 { body[1] } else { channels_fallback };
    let mut p: Vec<u8> = Vec::new();
    p.push(0);  // version
    p.push(channels);
    if body.len() >= 4 {
        p.push(body[3]);
        p.push(body[2]);
    } else {
        push_be16(&mut p, 3840);
    }
    if body.len() >= 8 {
        p.push(body[7]);
        p.push(body[6]);
        p.push(body[5]);
        p.push(body[4]);
    } else {
        push_be32(&mut p, 48000);
    }
    if body.len() >= 10 {
        p.push(body[9]);
        p.push(body[8]);
    } else {
        push_be16(&mut p, 0);
    }
    let mapping_family: u8 = if body.len() > 10 { body[10] } else { 0 };
    p.push(mapping_family);
    let ghost fixed = p@;
    if mapping_family != 0 {
        // StreamCount, CoupledCount, ChannelMapping[channels] follow in OpusHead.
        if body.len() >= 11 {
            let rest = slice_from(body.as_slice(), 11);
            extend_bytes(&mut p, rest.as_slice());
        }
    }
    proof {
        let b = body@;
        let preskip = if b.len() >= 4 { seq![b[3], b[2]] } else { be16(3840) };
        let rate = if b.len() >= 8 { seq![b[7], b[6], b[5], b[4]] } else { be32(48000) };
        let gain = if b.len() >= 10 { seq![b[9], b[8]] } else { be16(0) };
        assert(fixed =~= seq![0u8, channels] + preskip + rate + gain + seq![mapping_family]);
        if !(mapping_family != 0 && b.len() >= 11) {
            assert(p@ =~= fixed + Seq::<u8>::empty());
        }
    }
    boxed(&DOPS, p.as_slice())
}

/// Copy of `src[start..]`.
fn slice_from(src: &[u8], start: usize) -> (res: Vec<u8>)
    requires
        start <= src@.len(),
    ensures
        res@ == src@.subrange(start as int, src@.len() as int),
{
    crate::bytes::slice_to_vec(src, start, src.len())
}

impl CodecConfig {
    /// FourCC for the sample entry box.
    fn fourcc(&self) -> (res: [u8; 4])
        ensures
            res@ == spec_fourcc(self.view()),
    {
        match self {
            CodecConfig::Avc(_) => AVC1,
            CodecConfig::Hevc(_) => HVC1,
            CodecConfig::Av1(_) => AV01,
            CodecConfig::Vp9(_) => VP09,
            CodecConfig::Aac(_) => MP4A,
            CodecConfig::Opus(_) => OPUS,
            CodecConfig::Ac3(_) => AC_3,
        }
    }

    /// The codec configuration box (avcC/hvcC/av1C/vpcC/esds/dOps/dac3).
    fn config_box(&self, kind: &MediaKind) -> (res: Vec<u8>)
        ensures
            res@ == spec_config_box(self.view(), *kind),
    {
        match self {
            CodecConfig::Avc(cp) => boxed(&AVCC, cp.as_slice()),
            CodecConfig::Hevc(cp) => boxed(&HVCC, cp.as_slice()),
            CodecConfig::Av1(cp) => boxed(&AV1C, cp.as_slice()),
            CodecConfig::Vp9(cp) => match cp {
                Some(v) => boxed(&VPCC, v.as_slice()),
                None => {
                    let empty: Vec<u8> = Vec::new();
                    boxed(&VPCC, empty.as_slice())
                },
            },
            CodecConfig::Aac(asc) => build_esds(asc.as_slice()),
            CodecConfig::Opus(head) => build_dops(head.as_slice(), kind),
            CodecConfig::Ac3(cp) => boxed(&DAC3, cp.as_slice()),
        }
    }
}


fn build_sample_entry(cfg: &TrackConfig) -> (res: Vec<u8>)
    ensures
        res@ == spec_sample_entry(cfg.view()),
{
    let fourcc = cfg.codec.fourcc();
    let config_box = cfg.codec.config_box(&cfg.kind);
    match cfg.kind {
        MediaKind::Video { width, height } => {
            let mut p: Vec<u8> = Vec::new();
            push_zeros(&mut p, 6);  // reserved
            push_be16(&mut p, 1);  // data reference index
            push_zeros(&mut p, 16);  // pre-defined + reserved + pre-defined[3]
            push_be16(&mut p, width as u64);
            push_be16(&mut p, height as u64);
            push_be32(&mut p, 0x0048_0000);  // horiz resolution 72dpi
            push_be32(&mut p, 0x0048_0000);  // vert resolution 72dpi
            push_be32(&mut p, 0);  // reserved
            push_be16(&mut p, 1);  // frame count
            push_zeros(&mut p, 32);  // compressor name
            push_be16(&mut p, 0x0018);  // depth 24-bit
            push_be16(&mut p, 0xffff);  // pre-defined (-1)
            extend_bytes(&mut p, config_box.as_slice());
            boxed(&fourcc, p.as_slice())
        },
        MediaKind::Audio { sample_rate, channels } => {
            let mut p: Vec<u8> = Vec::new();
            push_zeros(&mut p, 6);  // reserved
            push_be16(&mut p, 1);  // data reference index
            push_zeros(&mut p, 8);  // version/revision/vendor
            push_be16(&mut p, channels as u64);
            push_be16(&mut p, 16);  // sample size
            push_be16(&mut p, 0);  // pre-defined
            push_be16(&mut p, 0);  // reserved
            push_be32(&mut p, (sample_rate as u64) * 0x10000);  // 16.16 fixed
            extend_bytes(&mut p, config_box.as_slice());
            boxed(&fourcc, p.as_slice())
        },
    }
}

fn build_stsd(cfg: &TrackConfig) -> (res: Vec<u8>)
    ensures
        res@ == spec_stsd(cfg.view()),
{
    let entry = build_sample_entry(cfg);
    let mut p: Vec<u8> = Vec::new();
    push_be32(&mut p, 0);  // version + flags
    push_be32(&mut p, 1);  // entry count
    extend_bytes(&mut p, entry.as_slice());
    boxed(&STSD, p.as_slice())
}

fn build_stbl(cfg: &TrackConfig) -> (res: Vec<u8>)
    ensures
        res@ == spec_stbl(cfg.view()),
{
    let stsd = build_stsd(cfg);
    // Empty sample tables: the real per-sample data lives in each moof's trun.
    let z8: [u8; 8] = [0u8; 8];
    let z12: [u8; 12] = [0u8; 12];
    proof {
        assert(z8@ =~= zeros(8));
        assert(z12@ =~= zeros(12));
    }
    let stts = boxed(&STTS, &z8);  // version+flags + entry_count
    let stsc = boxed(&STSC, &z8);  // version+flags + entry_count
    let stsz = boxed(&STSZ, &z12);  // version+flags + sample_size + sample_count
    let stco = boxed(&STCO, &z8);  // version+flags + entry_count
    let parts: [&[u8]; 5] = [
        stsd.as_slice(),
        stts.as_slice(),
        stsc.as_slice(),
        stsz.as_slice(),
        stco.as_slice(),
    ];
    let res = boxed_concat(&STBL, &parts);
    proof {
        lemma_concat5(parts@.map_values(|p: &[u8]| p@));
    }
    res
}

fn build_minf(cfg: &TrackConfig) -> (res: Vec<u8>)
    ensures
        res@ == spec_minf(cfg.view()),
{
    let media_header = match cfg.kind {
        MediaKind::Video { .. } => build_vmhd(),
        MediaKind::Audio { .. } => build_smhd(),
    };
    let dinf = build_dinf();
    let stbl = build_stbl(cfg);
    let parts: [&[u8]; 3] = [media_header.as_slice(), dinf.as_slice(), stbl.as_slice()];
    let res = boxed_concat(&MINF, &parts);
    proof {
        lemma_concat3(parts@.map_values(|p: &[u8]| p@));
    }
    res
}

fn build_mdia(cfg: &TrackConfig) -> (res: Vec<u8>)
    ensures
        res@ == spec_mdia(cfg.view()),
{
    let mdhd = build_mdhd(cfg);
    let hdlr = build_hdlr(&cfg.kind);
    let minf = build_minf(cfg);
    let parts: [&[u8]; 3] = [mdhd.as_slice(), hdlr.as_slice(), minf.as_slice()];
    let res = boxed_concat(&MDIA, &parts);
    proof {
        lemma_concat3(parts@.map_values(|p: &[u8]| p@));
    }
    res
}

fn build_trak(cfg: &TrackConfig) -> (res: Vec<u8>)
    ensures
        res@ == spec_trak(cfg.view()),
{
    let tkhd = build_tkhd(cfg);
    let mdia = build_mdia(cfg);
    let parts: [&[u8]; 2] = [tkhd.as_slice(), mdia.as_slice()];
    let res = boxed_concat(&TRAK, &parts);
    proof {
        lemma_concat2(parts@.map_values(|p: &[u8]| p@));
    }
    res
}

fn build_moov(cfg: &TrackConfig) -> (res: Vec<u8>)
    requires
        cfg.track_id < u32::MAX,
    ensures
        res@ == spec_moov(cfg.view()),
{
    let mvhd = build_mvhd(cfg);
    let trak = build_trak(cfg);
    let mvex = build_mvex(cfg.track_id);
    let parts: [&[u8]; 3] = [mvhd.as_slice(), trak.as_slice(), mvex.as_slice()];
    let res = boxed_concat(&MOOV, &parts);
    proof {
        lemma_concat3(parts@.map_values(|p: &[u8]| p@));
    }
    res
}

/// The init segment (`ftyp` + `moov`) for one track.
pub fn build_init_segment(cfg: &TrackConfig) -> (res: Vec<u8>)
    requires
        cfg.track_id < u32::MAX,
    ensures
        res@ == spec_init_segment(cfg.view()),
{
    let mut out = build_ftyp();
    let moov = build_moov(cfg);
    extend_bytes(&mut out, moov.as_slice());
    out
}


// ----------------------------------------------------------------------------
// Media segment model
// ----------------------------------------------------------------------------

/// `trun` flags: data-offset, sample-duration, sample-size, sample-flags, sample-cts;
/// version 1 (signed composition offsets).
pub const TRUN_VERSION_FLAGS: u64 = 0x0100_0F01;

pub open spec fn sample_flags(s: Sample) -> int {
    if s.is_sync {
        0x0200_0000
    } else {
        0x0101_0000
    }
}

/// One `trun` entry: duration, size, flags, composition offset.
pub open spec fn trun_entry(s: Sample) -> Seq<u8> {
    be32(s.duration as int) + be32(s.data@.len() as int) + be32(sample_flags(s)) + be32(
        s.cts_offset as int,
    )
}

pub open spec fn trun_entries(samples: Seq<Sample>) -> Seq<u8>
    decreases samples.len(),
{
    if samples.len() == 0 {
        Seq::empty()
    } else {
        trun_entries(samples.drop_last()) + trun_entry(samples.last())
    }
}

/// The sample bytes, in order, as they are laid out in `mdat`.
pub open spec fn sample_data(samples: Seq<Sample>) -> Seq<u8>
    decreases samples.len(),
{
    if samples.len() == 0 {
        Seq::empty()
    } else {
        sample_data(samples.drop_last()) + samples.last().data@
    }
}

pub open spec fn spec_trun(samples: Seq<Sample>, data_offset: u32) -> Seq<u8> {
    mp4_box(
        TRUN@,
        be32(TRUN_VERSION_FLAGS as int) + be32(samples.len() as int) + be32(data_offset as int)
            + trun_entries(samples),
    )
}

pub open spec fn spec_traf(
    track_id: u32,
    base_media_decode_time: u64,
    samples: Seq<Sample>,
    data_offset: u32,
) -> Seq<u8> {
    // tfhd: default-base-is-moof; tfdt: version 1, 64-bit absolute decode time
    mp4_box(
        TRAF@,
        mp4_box(TFHD@, be32(0x0002_0000) + be32(track_id as int)) + mp4_box(
            TFDT@,
            be32(0x0100_0000) + be_bytes(base_media_decode_time as nat, 8),
        ) + spec_trun(samples, data_offset),
    )
}

pub open spec fn spec_moof(
    track_id: u32,
    sequence_number: u32,
    base_media_decode_time: u64,
    samples: Seq<Sample>,
    data_offset: u32,
) -> Seq<u8> {
    mp4_box(
        MOOF@,
        mp4_box(MFHD@, be32(0) + be32(sequence_number as int)) + spec_traf(
            track_id,
            base_media_decode_time,
            samples,
            data_offset,
        ),
    )
}

/// Size of the `moof` of a segment with `n` samples.
pub open spec fn moof_len(n: nat) -> nat {
    88 + 16 * n
}

/// The media segment: `moof` whose `trun` data offset points at the first byte of the
/// `mdat` payload, then `mdat` holding the samples back to back.
pub open spec fn spec_media_segment(
    track_id: u32,
    sequence_number: u32,
    base_media_decode_time: u64,
    samples: Seq<Sample>,
) -> Seq<u8> {
    let data = sample_data(samples);
    spec_moof(
        track_id,
        sequence_number,
        base_media_decode_time,
        samples,
        (moof_len(samples.len()) + 8) as u32,
    ) + be32(8 + data.len() as int) + MDAT@ + data
}

/// Whether a segment of `n` samples keeps its `moof` within a 32-bit box size.
pub open spec fn moof_fits(n: nat) -> bool {
    moof_len(n) + 8 <= u32::MAX
}

proof fn lemma_be_bytes_len(x: nat, n: nat)
    ensures
        be_bytes(x, n).len() == n,
{
    crate::bytes::lemma_be_bytes_len(x, n);
}

proof fn lemma_trun_entries_len(samples: Seq<Sample>)
    ensures
        trun_entries(samples).len() == 16 * samples.len(),
    decreases samples.len(),
{
    if samples.len() > 0 {
        lemma_trun_entries_len(samples.drop_last());
        let s = samples.last();
        lemma_be_bytes_len((s.duration as int % 0x1_0000_0000) as nat, 4);
        lemma_be_bytes_len((s.data@.len() as int % 0x1_0000_0000) as nat, 4);
        lemma_be_bytes_len((sample_flags(s) % 0x1_0000_0000) as nat, 4);
        lemma_be_bytes_len((s.cts_offset as int % 0x1_0000_0000) as nat, 4);
    }
}

/// Every `moof` of `n` samples is `moof_len(n)` bytes, whatever the data offset.
pub proof fn lemma_moof_len(
    track_id: u32,
    sequence_number: u32,
    base_media_decode_time: u64,
    samples: Seq<Sample>,
    data_offset: u32,
)
    ensures
        spec_moof(track_id, sequence_number, base_media_decode_time, samples, data_offset).len()
            == moof_len(samples.len()),
{
    lemma_trun_entries_len(samples);
    assert forall|x: int| #[trigger] be32(x).len() == 4 by {
        lemma_be_bytes_len((x % 0x1_0000_0000) as nat, 4);
    }
    lemma_be_bytes_len(base_media_decode_time as nat, 8);
}

// ----------------------------------------------------------------------------
// Media segment builders
// ----------------------------------------------------------------------------

fn build_trun(samples: &[Sample], data_offset: u32) -> (res: Vec<u8>)
    ensures
        res@ == spec_trun(samples@, data_offset),
{
    let mut p: Vec<u8> = Vec::new();
    push_be32(&mut p, TRUN_VERSION_FLAGS);
    push_be32(&mut p, samples.len() as u64);
    push_be32(&mut p, data_offset as u64);
    let ghost header = p@;
    let mut i: usize = 0;
    while i < samples.len()
        invariant
            i <= samples@.len(),
            p@ == header + trun_entries(samples@.take(i as int)),
        decreases samples@.len() - i,
    {
        let s = &samples[i];
        push_be32(&mut p, s.duration as u64);
        push_be32(&mut p, s.data.len() as u64);
        let flags: u64 = if s.is_sync { 0x0200_0000 } else { 0x0101_0000 };
        push_be32(&mut p, flags);
        // two's complement of the signed offset
        let cts: u64 = if s.cts_offset >= 0 {
            s.cts_offset as u64
        } else {
            (0x1_0000_0000i64 + s.cts_offset as i64) as u64
        };
        proof {
            if s.cts_offset < 0 {
                vstd::arithmetic::div_mod::lemma_fundamental_div_mod_converse(
                    s.cts_offset as int,
                    0x1_0000_0000,
                    -1,
                    cts as int,
                );
            }
            assert(cts as int % 0x1_0000_0000 == s.cts_offset as int % 0x1_0000_0000);
        }
        push_be32(&mut p, cts);
        i += 1;
        proof {
            let t = samples@.take(i as int);
            assert(t.drop_last() =~= samples@.take((i - 1) as int));
            assert(t.last() == samples@[i - 1]);
        }
    }
    proof {
        assert(samples@.take(samples@.len() as int) =~= samples@);
    }
    boxed(&TRUN, p.as_slice())
}

fn build_traf(
    track_id: u32,
    base_media_decode_time: u64,
    samples: &[Sample],
    data_offset: u32,
) -> (res: Vec<u8>)
    ensures
        res@ == spec_traf(track_id, base_media_decode_time, samples@, data_offset),
{
    // tfhd: default-base-is-moof (0x020000)
    let mut tfhd: Vec<u8> = Vec::new();
    push_be32(&mut tfhd, 0x0002_0000);
    push_be32(&mut tfhd, track_id as u64);
    let tfhd = boxed(&TFHD, tfhd.as_slice());

    // tfdt: version 1, 64-bit absolute base media decode time
    let mut tfdt: Vec<u8> = Vec::new();
    push_be32(&mut tfdt, 0x0100_0000);
    push_be(&mut tfdt, base_media_decode_time, 8);
    let tfdt = boxed(&TFDT, tfdt.as_slice());

    let trun = build_trun(samples, data_offset);
    let parts: [&[u8]; 3] = [tfhd.as_slice(), tfdt.as_slice(), trun.as_slice()];
    let res = boxed_concat(&TRAF, &parts);
    proof {
        lemma_concat3(parts@.map_values(|p: &[u8]| p@));
    }
    res
}

fn build_moof(
    track_id: u32,
    sequence_number: u32,
    base_media_decode_time: u64,
    samples: &[Sample],
    data_offset: u32,
) -> (res: Vec<u8>)
    ensures
        res@ == spec_moof(track_id, sequence_number, base_media_decode_time, samples@, data_offset),
{
    let mut mfhd: Vec<u8> = Vec::new();
    push_be32(&mut mfhd, 0);  // version + flags
    push_be32(&mut mfhd, sequence_number as u64);
    let mfhd = boxed(&MFHD, mfhd.as_slice());

    let traf = build_traf(track_id, base_media_decode_time, samples, data_offset);
    let parts: [&[u8]; 2] = [mfhd.as_slice(), traf.as_slice()];
    let res = boxed_concat(&MOOF, &parts);
    proof {
        lemma_concat2(parts@.map_values(|p: &[u8]| p@));
    }
    res
}

/// Size field of the `mdat` box (header included), modulo 2^32 as the field holds it.
fn mdat_box_size(samples: &[Sample]) -> (res: u64)
    ensures
        res as int == (8 + sample_data(samples@).len()) % 0x1_0000_0000,
{
    let mut mdat_size: u64 = 8;
    let mut i: usize = 0;
    while i < samples.len()
        invariant
            i <= samples@.len(),
            mdat_size < 0x1_0000_0000,
            mdat_size as int == (8 + sample_data(samples@.take(i as int)).len()) % 0x1_0000_0000,
        decreases samples@.len() - i,
    {
        let ghost before: int = sample_data(samples@.take(i as int)).len() as int;
        mdat_size = (mdat_size + (samples[i].data.len() as u64) % 0x1_0000_0000) % 0x1_0000_0000;
        i += 1;
        proof {
            let t = samples@.take(i as int);
            assert(t.drop_last() =~= samples@.take((i - 1) as int));
            let n = samples@[i - 1].data@.len() as int;
            vstd::arithmetic::div_mod::lemma_add_mod_noop(8 + before, n, 0x1_0000_0000);
            vstd::arithmetic::div_mod::lemma_mod_twice(n, 0x1_0000_0000);
            vstd::arithmetic::div_mod::lemma_add_mod_noop(
                (8 + before) % 0x1_0000_0000,
                n % 0x1_0000_0000,
                0x1_0000_0000,
            );
            vstd::arithmetic::div_mod::lemma_mod_twice(8 + before, 0x1_0000_0000);
        }
    }
    proof {
        assert(samples@.take(samples@.len() as int) =~= samples@);
    }
    mdat_size
}

/// Append every sample's bytes, in order.
fn append_sample_data(out: &mut Vec<u8>, samples: &[Sample])
    ensures
        final(out)@ == old(out)@ + sample_data(samples@),
{
    let ghost header = out@;
    let mut j: usize = 0;
    while j < samples.len()
        invariant
            j <= samples@.len(),
            out@ == header + sample_data(samples@.take(j as int)),
        decreases samples@.len() - j,
    {
        extend_bytes(out, samples[j].data.as_slice());
        j += 1;
        proof {
            let t = samples@.take(j as int);
            assert(t.drop_last() =~= samples@.take((j - 1) as int));
        }
    }
    proof {
        assert(samples@.take(samples@.len() as int) =~= samples@);
    }
}

/// A media segment (`moof` + `mdat`) carrying `samples` in decode order, anchored at
/// the absolute `base_media_decode_time`.
pub fn build_media_segment(
    track_id: u32,
    sequence_number: u32,
    base_media_decode_time: u64,
    samples: &[Sample],
) -> (res: Vec<u8>)
    requires
        moof_fits(samples@.len()),
    ensures
        res@ == spec_media_segment(track_id, sequence_number, base_media_decode_time, samples@),
{
    // Build once to size the moof, then rebuild with the correct mdat data offset.
    let moof_probe = build_moof(track_id, sequence_number, base_media_decode_time, samples, 0);
    proof {
        lemma_moof_len(track_id, sequence_number, base_media_decode_time, samples@, 0);
    }
    let data_offset: u32 = moof_probe.len() as u32 + 8;  // + mdat header
    let moof = build_moof(
        track_id,
        sequence_number,
        base_media_decode_time,
        samples,
        data_offset,
    );

    let mdat_size = mdat_box_size(samples);
    let mut out: Vec<u8> = Vec::new();
    extend_bytes(&mut out, moof.as_slice());
    push_be32(&mut out, mdat_size);
    extend_bytes(&mut out, &MDAT);
    append_sample_data(&mut out, samples);
    proof {
        vstd::arithmetic::div_mod::lemma_mod_twice(
            8 + sample_data(samples@).len() as int,
            0x1_0000_0000,
        );
    }
    out
}


proof fn lemma_sub_concat(a: Seq<u8>, b: Seq<u8>, i: int, j: int)
    ensures
        0 <= i <= j <= a.len() ==> (a + b).subrange(i, j) == a.subrange(i, j),
        a.len() <= i <= j <= a.len() + b.len() ==> (a + b).subrange(i, j) == b.subrange(
            i - a.len(),
            j - a.len(),
        ),
{
    if 0 <= i <= j <= a.len() {
        assert((a + b).subrange(i, j) =~= a.subrange(i, j));
    }
    if a.len() <= i <= j <= a.len() + b.len() {
        assert((a + b).subrange(i, j) =~= b.subrange(i - a.len(), j - a.len()));
    }
}

proof fn lemma_sub_whole(a: Seq<u8>)
    ensures
        a.subrange(0, a.len() as int) == a,
{
    assert(a.subrange(0, a.len() as int) =~= a);
}

proof fn lemma_be32_len()
    ensures
        forall|x: int| #[trigger] be32(x).len() == 4,
{
    assert forall|x: int| #[trigger] be32(x).len() == 4 by {
        lemma_be_bytes_len((x % 0x1_0000_0000) as nat, 4);
    }
}

/// Where the fields of interest sit inside a `moof`.
proof fn lemma_moof_fields(
    track_id: u32,
    sequence_number: u32,
    base_media_decode_time: u64,
    samples: Seq<Sample>,
    off: u32,
)
    ensures
        ({
            let moof = spec_moof(track_id, sequence_number, base_media_decode_time, samples, off);
            &&& moof.subrange(0, 4) == be32(moof.len() as int)
            &&& moof.subrange(4, 8) == MOOF@
            &&& moof.subrange(52, 56) == TFDT@
            &&& moof.subrange(60, 68) == be_bytes(base_media_decode_time as nat, 8)
            &&& moof.subrange(72, 76) == TRUN@
            &&& moof.subrange(84, 88) == be32(off as int)
        }),
{
    lemma_be32_len();
    lemma_be_bytes_len(base_media_decode_time as nat, 8);
    lemma_trun_entries_len(samples);
    let moof = spec_moof(track_id, sequence_number, base_media_decode_time, samples, off);
    let mfhd = mp4_box(MFHD@, be32(0) + be32(sequence_number as int));
    let tfhd = mp4_box(TFHD@, be32(0x0002_0000) + be32(track_id as int));
    let tfdt_payload = be32(0x0100_0000) + be_bytes(base_media_decode_time as nat, 8);
    let tfdt = mp4_box(TFDT@, tfdt_payload);
    let trun_head = be32(TRUN_VERSION_FLAGS as int) + be32(samples.len() as int);
    let trun_payload = trun_head + be32(off as int) + trun_entries(samples);
    let trun = spec_trun(samples, off);
    let traf_payload = tfhd + tfdt + trun;
    let traf = spec_traf(track_id, base_media_decode_time, samples, off);
    let p = mfhd + traf;
    let h = be32(8 + p.len() as int) + MOOF@;
    assert(moof == h + p);
    assert(traf == be32(8 + traf_payload.len() as int) + TRAF@ + traf_payload);
    assert(mfhd.len() == 16);
    assert(tfhd.len() == 16);
    assert(tfdt.len() == 20);
    // header
    lemma_sub_concat(h, p, 0, 4);
    lemma_sub_concat(be32(8 + p.len() as int), MOOF@, 0, 4);
    lemma_sub_whole(be32(8 + p.len() as int));
    lemma_sub_concat(h, p, 4, 8);
    lemma_sub_concat(be32(8 + p.len() as int), MOOF@, 4, 8);
    lemma_sub_whole(MOOF@);
    // tfdt type: moof 52..56 -> p 44..48 -> traf 28..32 -> traf_payload 20..24 -> tfdt 4..8
    let t8 = be32(8 + traf_payload.len() as int) + TRAF@;
    let tfdt_h = be32(8 + tfdt_payload.len() as int) + TFDT@;
    lemma_sub_concat(h, p, 52, 56);
    lemma_sub_concat(mfhd, traf, 44, 48);
    lemma_sub_concat(t8, traf_payload, 28, 32);
    lemma_sub_concat(tfhd + tfdt, trun, 20, 24);
    lemma_sub_concat(tfhd, tfdt, 20, 24);
    lemma_sub_concat(tfdt_h, tfdt_payload, 4, 8);
    lemma_sub_concat(be32(8 + tfdt_payload.len() as int), TFDT@, 4, 8);
    lemma_sub_whole(TFDT@);
    // base decode time: moof 60..68 -> ... -> tfdt 12..20 -> tfdt_payload 4..12
    lemma_sub_concat(h, p, 60, 68);
    lemma_sub_concat(mfhd, traf, 52, 60);
    lemma_sub_concat(t8, traf_payload, 36, 44);
    lemma_sub_concat(tfhd + tfdt, trun, 28, 36);
    lemma_sub_concat(tfhd, tfdt, 28, 36);
    lemma_sub_concat(tfdt_h, tfdt_payload, 12, 20);
    lemma_sub_concat(be32(0x0100_0000), be_bytes(base_media_decode_time as nat, 8), 4, 12);
    lemma_sub_whole(be_bytes(base_media_decode_time as nat, 8));
    // trun type: moof 72..76 -> p 64..68 -> traf 48..52 -> traf_payload 40..44 -> trun 4..8
    let trun_h = be32(8 + trun_payload.len() as int) + TRUN@;
    assert(trun == trun_h + trun_payload);
    lemma_sub_concat(h, p, 72, 76);
    lemma_sub_concat(mfhd, traf, 64, 68);
    lemma_sub_concat(t8, traf_payload, 48, 52);
    lemma_sub_concat(tfhd + tfdt, trun, 40, 44);
    lemma_sub_concat(trun_h, trun_payload, 4, 8);
    lemma_sub_concat(be32(8 + trun_payload.len() as int), TRUN@, 4, 8);
    lemma_sub_whole(TRUN@);
    // data offset: moof 84..88 -> ... -> trun 16..20 -> trun_payload 8..12
    lemma_sub_concat(h, p, 84, 88);
    lemma_sub_concat(mfhd, traf, 76, 80);
    lemma_sub_concat(t8, traf_payload, 60, 64);
    lemma_sub_concat(tfhd + tfdt, trun, 52, 56);
    lemma_sub_concat(trun_h, trun_payload, 16, 20);
    lemma_sub_concat(trun_head + be32(off as int), trun_entries(samples), 8, 12);
    lemma_sub_concat(trun_head, be32(off as int), 8, 12);
    lemma_sub_whole(be32(off as int));
}

/// Layout of a media segment: the `moof` box comes first and is `moof_len(n)` bytes;
/// its `tfdt` carries the absolute base decode time; its `trun` data offset is the
/// `moof` size plus the 8-byte `mdat` header, i.e. the position of the first sample
/// byte; the `mdat` box follows the `moof` and holds exactly the samples' bytes.
pub proof fn lemma_media_segment_layout(
    track_id: u32,
    sequence_number: u32,
    base_media_decode_time: u64,
    samples: Seq<Sample>,
)
    requires
        moof_fits(samples.len()),
    ensures
        ({
            let seg = spec_media_segment(
                track_id,
                sequence_number,
                base_media_decode_time,
                samples,
            );
            let m = moof_len(samples.len()) as int;
            let data = sample_data(samples);
            &&& seg.len() == m + 8 + data.len()
            &&& seg.subrange(0, 4) == be32(m)
            &&& seg.subrange(4, 8) == MOOF@
            &&& seg.subrange(52, 56) == TFDT@
            &&& seg.subrange(60, 68) == be_bytes(base_media_decode_time as nat, 8)
            &&& seg.subrange(72, 76) == TRUN@
            &&& seg.subrange(84, 88) == be32(m + 8)
            &&& seg.subrange(m, m + 4) == be32(8 + data.len() as int)
            &&& seg.subrange(m + 4, m + 8) == MDAT@
            &&& seg.subrange(m + 8, seg.len() as int) == data
        }),
{
    let m = moof_len(samples.len()) as int;
    let off = (m + 8) as u32;
    let data = sample_data(samples);
    lemma_be32_len();
    lemma_moof_len(track_id, sequence_number, base_media_decode_time, samples, off);
    lemma_moof_fields(track_id, sequence_number, base_media_decode_time, samples, off);
    let moof = spec_moof(track_id, sequence_number, base_media_decode_time, samples, off);
    let mh = be32(8 + data.len() as int) + MDAT@;
    let tail = mh + data;
    let seg = moof + tail;
    assert(seg == spec_media_segment(track_id, sequence_number, base_media_decode_time, samples));
    assert(seg.len() == m + 8 + data.len());
    lemma_sub_concat(moof, tail, 0, 4);
    lemma_sub_concat(moof, tail, 4, 8);
    lemma_sub_concat(moof, tail, 52, 56);
    lemma_sub_concat(moof, tail, 60, 68);
    lemma_sub_concat(moof, tail, 72, 76);
    lemma_sub_concat(moof, tail, 84, 88);
    lemma_sub_concat(moof, tail, m, m + 4);
    lemma_sub_concat(mh, data, 0, 4);
    lemma_sub_concat(be32(8 + data.len() as int), MDAT@, 0, 4);
    lemma_sub_whole(be32(8 + data.len() as int));
    lemma_sub_concat(moof, tail, m + 4, m + 8);
    lemma_sub_concat(mh, data, 4, 8);
    lemma_sub_concat(be32(8 + data.len() as int), MDAT@, 4, 8);
    lemma_sub_whole(MDAT@);
    lemma_sub_concat(moof, tail, m + 8, seg.len() as int);
    lemma_sub_concat(mh, data, 8, tail.len() as int);
    lemma_sub_whole(data);
}


/// A video sample entry describes the picture as the track's width by its height:
/// after the box header, the 16-bit width field (payload bytes 24..26) holds the
/// width and the next one (26..28) the height, each big-endian.
pub proof fn lemma_video_sample_entry_size(cfg: TrackConfigView)
    requires
        cfg.kind is Video,
    ensures
        ({
            let e = spec_sample_entry(cfg);
            let w = cfg.kind->width;
            let h = cfg.kind->height;
            &&& e.len() >= 36
            &&& e[32] == (w / 256) as u8 && e[33] == (w % 256) as u8
            &&& e[34] == (h / 256) as u8 && e[35] == (h % 256) as u8
        }),
{
    let w = cfg.kind->width;
    let h = cfg.kind->height;
    lemma_be16_bytes(w);
    lemma_be16_bytes(h);
    lemma_be16_bytes(1);
    lemma_be32_len();
    let fourcc = spec_fourcc(cfg.codec);
    assert(fourcc.len() == 4);
    let bw = be16(w as int);
    let bh = be16(h as int);
    let head = zeros(6) + be16(1) + zeros(16);
    assert(head.len() == 24);
    let tail = be32(0x0048_0000) + be32(0x0048_0000) + be32(0) + be16(1) + zeros(32) + be16(0x0018)
        + be16(0xffff) + spec_config_box(cfg.codec, cfg.kind);
    let payload = head + bw + bh + tail;
    let e = spec_sample_entry(cfg);
    assert(e =~= be32(8 + payload.len() as int) + fourcc + payload);
    let pre = be32(8 + payload.len() as int) + fourcc + head;
    assert(pre.len() == 32);
    assert(e =~= pre + bw + bh + tail);
    assert(e[32] == bw[0] && e[33] == bw[1] && e[34] == bh[0] && e[35] == bh[1]);
}

/// `m` stands in `s` at offset `k`.
pub open spec fn holds_at(s: Seq<u8>, k: int, m: Seq<u8>) -> bool {
    0 <= k && k + m.len() <= s.len() && s.subrange(k, k + m.len()) == m
}

proof fn lemma_holds_left(x: Seq<u8>, t: Seq<u8>, k: int, m: Seq<u8>)
    requires
        holds_at(t, k, m),
    ensures
        holds_at(x + t, x.len() + k, m),
{
    lemma_in_left(x, t, k, m.len() as int);
}

proof fn lemma_holds_right(t: Seq<u8>, y: Seq<u8>, k: int, m: Seq<u8>)
    requires
        holds_at(t, k, m),
    ensures
        holds_at(t + y, k, m),
{
    lemma_in_right(t, y, k, m.len() as int);
}

proof fn lemma_stsd_holds(cfg: TrackConfigView) -> (k: int)
    ensures
        holds_at(spec_stsd(cfg), k, spec_sample_entry(cfg)),
{
    lemma_be32_len();
    let e = spec_sample_entry(cfg);
    assert(e.subrange(0, e.len() as int) =~= e);
    let pre = be32(0) + be32(1);
    let pay = pre + e;
    let head = be32(8 + pay.len() as int) + STSD@;
    lemma_holds_left(pre, e, 0, e);
    lemma_holds_left(head, pay, pre.len() as int, e);
    (head.len() + pre.len()) as int
}

proof fn lemma_stbl_holds(cfg: TrackConfigView, k: int, m: Seq<u8>) -> (k2: int)
    requires
        holds_at(spec_stsd(cfg), k, m),
    ensures
        holds_at(spec_stbl(cfg), k2, m),
{
    let a = spec_stsd(cfg) + mp4_box(STTS@, zeros(8));
    let b = a + mp4_box(STSC@, zeros(8));
    let c = b + mp4_box(STSZ@, zeros(12));
    let pay = c + mp4_box(STCO@, zeros(8));
    lemma_holds_right(spec_stsd(cfg), mp4_box(STTS@, zeros(8)), k, m);
    lemma_holds_right(a, mp4_box(STSC@, zeros(8)), k, m);
    lemma_holds_right(b, mp4_box(STSZ@, zeros(12)), k, m);
    lemma_holds_right(c, mp4_box(STCO@, zeros(8)), k, m);
    let head = be32(8 + pay.len() as int) + STBL@;
    lemma_holds_left(head, pay, k, m);
    head.len() + k
}

proof fn lemma_minf_holds(cfg: TrackConfigView, k: int, m: Seq<u8>) -> (k2: int)
    requires
        holds_at(spec_stbl(cfg), k, m),
    ensures
        holds_at(spec_minf(cfg), k2, m),
{
    let media_header = match cfg.kind {
        MediaKind::Video { .. } => spec_vmhd(),
        MediaKind::Audio { .. } => spec_smhd(),
    };
    let pre = media_header + spec_dinf();
    let pay = pre + spec_stbl(cfg);
    let head = be32(8 + pay.len() as int) + MINF@;
    lemma_holds_left(pre, spec_stbl(cfg), k, m);
    lemma_holds_left(head, pay, pre.len() + k, m);
    head.len() + pre.len() + k
}

proof fn lemma_mdia_holds(cfg: TrackConfigView, k: int, m: Seq<u8>) -> (k2: int)
    requires
        holds_at(spec_minf(cfg), k, m),
    ensures
        holds_at(spec_mdia(cfg), k2, m),
{
    let pre = spec_mdhd(cfg) + spec_hdlr(cfg.kind);
    let pay = pre + spec_minf(cfg);
    let head = be32(8 + pay.len() as int) + MDIA@;
    lemma_holds_left(pre, spec_minf(cfg), k, m);
    lemma_holds_left(head, pay, pre.len() + k, m);
    head.len() + pre.len() + k
}

proof fn lemma_trak_holds(cfg: TrackConfigView, k: int, m: Seq<u8>) -> (k2: int)
    requires
        holds_at(spec_mdia(cfg), k, m),
    ensures
        holds_at(spec_trak(cfg), k2, m),
{
    let pay = spec_tkhd(cfg) + spec_mdia(cfg);
    let head = be32(8 + pay.len() as int) + TRAK@;
    lemma_holds_left(spec_tkhd(cfg), spec_mdia(cfg), k, m);
    lemma_holds_left(head, pay, spec_tkhd(cfg).len() + k, m);
    head.len() + spec_tkhd(cfg).len() + k
}

proof fn lemma_init_holds(cfg: TrackConfigView, k: int, m: Seq<u8>) -> (k2: int)
    requires
        holds_at(spec_trak(cfg), k, m),
    ensures
        holds_at(spec_init_segment(cfg), k2, m),
{
    let pre = spec_mvhd(cfg) + spec_trak(cfg);
    let pay = pre + spec_mvex(cfg.track_id);
    let head = be32(8 + pay.len() as int) + MOOV@;
    lemma_holds_left(spec_mvhd(cfg), spec_trak(cfg), k, m);
    lemma_holds_right(pre, spec_mvex(cfg.track_id), spec_mvhd(cfg).len() + k, m);
    lemma_holds_left(head, pay, spec_mvhd(cfg).len() + k, m);
    let k1 = head.len() + spec_mvhd(cfg).len() + k;
    lemma_holds_left(spec_ftyp(), spec_moov(cfg), k1, m);
    spec_ftyp().len() + k1
}

/// The init segment of a track holds its sample entry (inside `moov`, `trak`,
/// `mdia`, `minf`, `stbl` and `stsd`), at the offset returned; for a video track the
/// entry's width field there holds the track's width and the next field its height.
pub proof fn lemma_init_sample_entry(cfg: TrackConfigView) -> (at: int)
    ensures
        ({
            let init = spec_init_segment(cfg);
            let e = spec_sample_entry(cfg);
            &&& 0 <= at && at + e.len() <= init.len()
            &&& init.subrange(at, at + e.len()) == e
            &&& cfg.kind is Video ==> {
                let w = cfg.kind->width;
                let h = cfg.kind->height;
                &&& init[at + 32] == (w / 256) as u8 && init[at + 33] == (w % 256) as u8
                &&& init[at + 34] == (h / 256) as u8 && init[at + 35] == (h % 256) as u8
            }
        }),
{
    let e = spec_sample_entry(cfg);
    let k = lemma_stsd_holds(cfg);
    let k = lemma_stbl_holds(cfg, k, e);
    let k = lemma_minf_holds(cfg, k, e);
    let k = lemma_mdia_holds(cfg, k, e);
    let k = lemma_trak_holds(cfg, k, e);
    let at = lemma_init_holds(cfg, k, e);
    let init = spec_init_segment(cfg);
    if cfg.kind is Video {
        lemma_video_sample_entry_size(cfg);
        let sub = init.subrange(at, at + e.len());
        assert(sub[32] == init[at + 32]);
        assert(sub[33] == init[at + 33]);
        assert(sub[34] == init[at + 34]);
        assert(sub[35] == init[at + 35]);
    }
    at
}

/// The 16-bit big-endian field of a 16-bit value: its high byte, then its low byte.
proof fn lemma_be16_bytes(x: u16)
    ensures
        be16(x as int) == seq![(x / 256) as u8, (x % 256) as u8],
{
    reveal_with_fuel(be_bytes, 3);
    assert(be16(x as int) =~= seq![(x / 256) as u8, (x % 256) as u8]);
}

/// Layout of an init segment: a 28-byte `ftyp` box, then the `moov` box.
pub proof fn lemma_init_segment_layout(cfg: TrackConfigView)
    ensures
        ({
            let init = spec_init_segment(cfg);
            &&& init.subrange(0, 4) == be32(28)
            &&& init.subrange(4, 8) == FTYP@
            &&& init.subrange(32, 36) == MOOV@
        }),
{
    lemma_be32_len();
    let brands = ISO5@ + be32(0) + ISO5@ + ISO6@ + MP41@;
    let fh = be32(8 + brands.len() as int) + FTYP@;
    let ftyp = spec_ftyp();
    assert(ftyp == fh + brands);
    assert(ftyp.len() == 28);
    let moov_payload = spec_mvhd(cfg) + spec_trak(cfg) + spec_mvex(cfg.track_id);
    let mh = be32(8 + moov_payload.len() as int) + MOOV@;
    let moov = spec_moov(cfg);
    assert(moov == mh + moov_payload);
    lemma_sub_concat(ftyp, moov, 0, 4);
    lemma_sub_concat(fh, brands, 0, 4);
    lemma_sub_concat(be32(28), FTYP@, 0, 4);
    lemma_sub_whole(be32(28));
    lemma_sub_concat(ftyp, moov, 4, 8);
    lemma_sub_concat(fh, brands, 4, 8);
    lemma_sub_concat(be32(28), FTYP@, 4, 8);
    lemma_sub_whole(FTYP@);
    lemma_sub_concat(ftyp, moov, 32, 36);
    lemma_sub_concat(mh, moov_payload, 4, 8);
    lemma_sub_concat(be32(8 + moov_payload.len() as int), MOOV@, 4, 8);
    lemma_sub_whole(MOOV@);
}

} // verus!
